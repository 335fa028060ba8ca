//! A symmetric XOR stream cipher over bytes, keyed by a repeating byte key.
use vstd::prelude::*;
use vstd::utf8::decode_utf8;
use vstd::utf8::encode_utf8;
use vstd::utf8::valid_utf8;

use crate::text::string_from_utf8;

verus! {

/// Errors from decoding a transformed byte sequence back to text.
#[derive(Debug, Clone, Copy, PartialEq, Eq, Structural)]
pub enum CipherError {
    /// The transformed bytes are not valid UTF-8 text.
    InvalidUtf8,
}

/// `data` XORed byte by byte with `key` repeated cyclically.
pub open spec fn xor_bytes(data: Seq<u8>, key: Seq<u8>) -> Seq<u8>
    recommends
        key.len() > 0,
{
    Seq::new(data.len(), |i: int| data[i] ^ key[i % (key.len() as int)])
}

/// A non-empty character sequence encodes to a non-empty byte sequence.
proof fn lemma_encode_nonempty(chars: Seq<char>)
    requires
        chars.len() > 0,
    ensures
        encode_utf8(chars).len() > 0,
{
    let s = chars[0] as u32;
    // encode_scalar yields between one and four bytes in every branch
    assert(vstd::utf8::encode_scalar(s).len() >= 1);
}

/// Encodes a message by XORing it with the key's bytes, repeated cyclically.
/// The key must not be empty.
pub fn xor_encode(data: &[u8], key: &str) -> (r: Vec<u8>)
    requires
        key@.len() > 0,
    ensures
        r@ == xor_bytes(data@, encode_utf8(key@)),
{
    proof {
        lemma_encode_nonempty(key@);
    }
    let key_bytes = key.as_bytes();
    let n = data.len();
    let mut out: Vec<u8> = Vec::new();
    let mut i: usize = 0;
    while i < n
        invariant
            i <= n,
            n == data@.len(),
            key_bytes@ == encode_utf8(key@),
            key_bytes@.len() > 0,
            out@.len() == i,
            forall|j: int|
                0 <= j < i ==> out@[j] == #[trigger] data@[j] ^ key_bytes@[j % (
                key_bytes@.len() as int)],
        decreases n - i,
    {
        out.push(data[i] ^ key_bytes[i % key_bytes.len()]);
        i += 1;
    }
    proof {
        assert(out@ =~= xor_bytes(data@, encode_utf8(key@)));
    }
    out
}

/// Applies the same XOR transform (it is its own inverse) and decodes the
/// result as UTF-8 text; fails when the transformed bytes are not valid
/// UTF-8. The key must not be empty.
pub fn xor_decode(data: &[u8], key: &str) -> (r: Result<String, CipherError>)
    requires
        key@.len() > 0,
    ensures
        match r {
            Ok(s) => valid_utf8(xor_bytes(data@, encode_utf8(key@))) && s@ == decode_utf8(
                xor_bytes(data@, encode_utf8(key@)),
            ),
            Err(e) => e == CipherError::InvalidUtf8 && !valid_utf8(
                xor_bytes(data@, encode_utf8(key@)),
            ),
        },
{
    let transformed = xor_encode(data, key);
    match string_from_utf8(transformed) {
        Some(s) => Ok(s),
        None => Err(CipherError::InvalidUtf8),
    }
}

/// Law: the XOR transform is its own inverse — applying it twice with the
/// same non-empty key restores the original bytes.
pub proof fn lemma_xor_self_inverse(data: Seq<u8>, key: Seq<u8>)
    requires
        key.len() > 0,
    ensures
        xor_bytes(xor_bytes(data, key), key) == data,
{
    let twice = xor_bytes(xor_bytes(data, key), key);
    assert forall|i: int| 0 <= i < data.len() implies twice[i] == data[i] by {
        let k = key[i % (key.len() as int)];
        let d = data[i];
        assert((d ^ k) ^ k == d) by (bit_vector);
    }
    assert(twice =~= data);
}

/// Law: a byte sequence holding valid UTF-8 text, XOR-encoded and then
/// XOR-decoded with the same non-empty key, yields the original text.
pub proof fn lemma_cipher_round_trip(data: Seq<u8>, key: Seq<u8>)
    requires
        key.len() > 0,
        valid_utf8(data),
    ensures
        valid_utf8(xor_bytes(xor_bytes(data, key), key)),
        decode_utf8(xor_bytes(xor_bytes(data, key), key)) == decode_utf8(data),
{
    lemma_xor_self_inverse(data, key);
}

} // verus!
