//! The 4-byte PNG chunk type tag and its property bits.
use vstd::prelude::*;
use vstd::utf8::encode_utf8;

use crate::text::lemma_ascii_bytes_decode;
use crate::text::string_from_utf8;

verus! {

/// True when `byte` is an ASCII letter (`A`-`Z` or `a`-`z`).
pub open spec fn is_letter(byte: u8) -> bool {
    (0x61 <= byte && byte <= 0x7a) || (0x41 <= byte && byte <= 0x5a)
}

/// True when all four bytes of a chunk type tag are ASCII letters.
pub open spec fn all_letters(bytes: Seq<u8>) -> bool {
    forall|i: int| 0 <= i < bytes.len() ==> is_letter(#[trigger] bytes[i])
}

/// Errors from constructing a [`ChunkType`].
#[derive(Debug, Clone, Copy, PartialEq, Eq, Structural)]
pub enum ChunkTypeError {
    /// The input string does not hold exactly 4 bytes; carries the actual length.
    ByteLengthError(usize),
    /// A byte of the input is not an ASCII letter.
    InvalidCharacter,
}

/// A validated PNG chunk type: exactly four bytes, each an ASCII letter.
/// The case (bit 5) of each byte carries one property bit per the PNG spec.
#[derive(Debug, Clone, Copy)]
pub struct ChunkType {
    identifier: [u8; 4],
}

impl View for ChunkType {
    type V = Seq<u8>;

    closed spec fn view(&self) -> Seq<u8> {
        self.identifier@
    }
}

impl PartialEq for ChunkType {
    /// Equality is byte-exact.
    fn eq(&self, other: &Self) -> (r: bool) {
        let r = self.identifier[0] == other.identifier[0] && self.identifier[1]
            == other.identifier[1] && self.identifier[2] == other.identifier[2]
            && self.identifier[3] == other.identifier[3];
        proof {
            if r {
                assert(self@ =~= other@);
            }
        }
        r
    }
}

impl Eq for ChunkType {

}

impl vstd::std_specs::cmp::PartialEqSpecImpl for ChunkType {
    open spec fn obeys_eq_spec() -> bool {
        true
    }

    open spec fn eq_spec(&self, other: &Self) -> bool {
        self@ == other@
    }
}

impl ChunkType {
    /// Every chunk type that can be constructed holds four ASCII letters.
    #[verifier::type_invariant]
    pub open spec fn wf(self) -> bool {
        self@.len() == 4 && all_letters(self@)
    }

    /// The raw bytes of the chunk type.
    pub fn bytes(&self) -> (r: [u8; 4])
        ensures
            r@ == self@,
    {
        self.identifier
    }

    /// Builds a chunk type from four raw bytes; succeeds iff every byte is an
    /// ASCII letter.
    pub fn try_from(bytes: [u8; 4]) -> (r: Result<ChunkType, ChunkTypeError>)
        ensures
            all_letters(bytes@) ==> (r matches Ok(ct) && ct@ == bytes@),
            !all_letters(bytes@) ==> r == Err::<ChunkType, ChunkTypeError>(
                ChunkTypeError::InvalidCharacter,
            ),
    {
        if Self::is_valid_byte(bytes[0]) && Self::is_valid_byte(bytes[1]) && Self::is_valid_byte(
            bytes[2],
        ) && Self::is_valid_byte(bytes[3]) {
            proof {
                assert forall|i: int| 0 <= i < 4 implies is_letter(#[trigger] bytes@[i]) by {
                    assert(bytes@[0] == bytes[0] && bytes@[1] == bytes[1] && bytes@[2] == bytes[2]
                        && bytes@[3] == bytes[3]);
                }
            }
            Ok(ChunkType { identifier: bytes })
        } else {
            Err(ChunkTypeError::InvalidCharacter)
        }
    }

    /// Builds a chunk type from a string; fails when the string is not exactly
    /// 4 bytes long, or when a byte is not an ASCII letter.
    pub fn from_str(s: &str) -> (r: Result<ChunkType, ChunkTypeError>)
        ensures
            encode_utf8(s@).len() != 4 ==> r == Err::<ChunkType, ChunkTypeError>(
                ChunkTypeError::ByteLengthError(encode_utf8(s@).len() as usize),
            ),
            encode_utf8(s@).len() == 4 && all_letters(encode_utf8(s@)) ==> (r matches Ok(ct) && ct@
                == encode_utf8(s@)),
            encode_utf8(s@).len() == 4 && !all_letters(encode_utf8(s@)) ==> r == Err::<
                ChunkType,
                ChunkTypeError,
            >(ChunkTypeError::InvalidCharacter),
    {
        let bytes = s.as_bytes();
        if bytes.len() != 4 {
            Err(ChunkTypeError::ByteLengthError(bytes.len()))
        } else {
            let arr = [bytes[0], bytes[1], bytes[2], bytes[3]];
            proof {
                assert(arr@ =~= encode_utf8(s@));
            }
            Self::try_from(arr)
        }
    }

    /// True when bit 5 of the first byte is clear (uppercase): the chunk is
    /// critical; lowercase means ancillary.
    pub fn is_critical(&self) -> (r: bool)
        ensures
            r == (self@[0] & 0x20 == 0),
    {
        self.identifier[0] & 0x20 == 0
    }

    /// True when bit 5 of the second byte is clear (uppercase): the chunk is
    /// public; lowercase means private.
    pub fn is_public(&self) -> (r: bool)
        ensures
            r == (self@[1] & 0x20 == 0),
    {
        self.identifier[1] & 0x20 == 0
    }

    /// True when bit 5 of the third byte is clear (uppercase), as required of
    /// files conforming to this version of the PNG spec.
    pub fn is_reserved_bit_valid(&self) -> (r: bool)
        ensures
            r == (self@[2] & 0x20 == 0),
    {
        self.identifier[2] & 0x20 == 0
    }

    /// True when bit 5 of the fourth byte is set (lowercase): the chunk is
    /// safe to copy; uppercase means unsafe to copy.
    pub fn is_safe_to_copy(&self) -> (r: bool)
        ensures
            r == (self@[3] & 0x20 != 0),
    {
        self.identifier[3] & 0x20 != 0
    }

    /// True when all four bytes are ASCII letters and the reserved bit check
    /// passes.
    pub fn is_valid(&self) -> (r: bool)
        ensures
            r == (all_letters(self@) && self@[2] & 0x20 == 0),
    {
        proof {
            use_type_invariant(self);
        }
        let valid_bytes = Self::is_valid_byte(self.identifier[0]) && Self::is_valid_byte(
            self.identifier[1],
        ) && Self::is_valid_byte(self.identifier[2]) && Self::is_valid_byte(self.identifier[3]);
        valid_bytes && self.is_reserved_bit_valid()
    }

    /// True when `byte` is an ASCII letter (`A`-`Z` or `a`-`z`).
    pub fn is_valid_byte(byte: u8) -> (r: bool)
        ensures
            r == is_letter(byte),
    {
        (byte >= 0x61 && byte <= 0x7a) || (byte >= 0x41 && byte <= 0x5a)
    }

    /// True when the chunk type's bytes are exactly `other`.
    pub fn matches_bytes(&self, other: &[u8]) -> (r: bool)
        ensures
            r == (self@ == other@),
    {
        proof {
            use_type_invariant(self);
        }
        if other.len() != 4 {
            return false;
        }
        let r = self.identifier[0] == other[0] && self.identifier[1] == other[1]
            && self.identifier[2] == other[2] && self.identifier[3] == other[3];
        proof {
            if r {
                assert(self@ =~= other@);
            }
        }
        r
    }

    /// The chunk type rendered as a four-character string.
    pub fn to_string(&self) -> (r: String)
        ensures
            r@.len() == 4,
            forall|i: int| 0 <= i < 4 ==> r@[i] == #[trigger] self@[i] as char,
    {
        proof {
            use_type_invariant(self);
        }
        let v: Vec<u8> = vec![
            self.identifier[0],
            self.identifier[1],
            self.identifier[2],
            self.identifier[3],
        ];
        proof {
            assert(v@ =~= self@);
            assert forall|i: int| 0 <= i < v@.len() implies #[trigger] v@[i] < 0x80 by {
                assert(is_letter(self@[i]));
            }
            lemma_ascii_bytes_decode(v@);
        }
        match string_from_utf8(v) {
            Some(s) => s,
            None => vstd::pervasive::unreached(),
        }
    }
}

} // verus!
