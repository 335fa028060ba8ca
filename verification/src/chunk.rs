//! One PNG chunk: a type tag, an owned payload, and the checksummed wire
//! encoding `[length:4][type:4][data:length][crc:4]`.
use vstd::prelude::*;
use vstd::slice::slice_to_vec;
use vstd::utf8::decode_utf8;
use vstd::utf8::valid_utf8;

use crate::chunk_type::all_letters;
use crate::chunk_type::ChunkType;
use crate::chunk_type::ChunkTypeError;
use crate::text::string_from_utf8;
use crate::wire::be32_bytes;
use crate::wire::be32_value;
use crate::wire::push_be32;
use crate::wire::read_be32;

verus! {

/// The checksum that the CRC-32/ISO-HDLC algorithm yields over `bytes`.
pub uninterp spec fn crc32_of(bytes: Seq<u8>) -> u32;

/// Relies on `crc::Crc::<u32>::checksum` with `CRC_32_ISO_HDLC` (the CRC-32
/// that the PNG format mandates): the checksum is computed by a fixed table
/// algorithm and depends on the input bytes alone.
#[verifier::external_body]
fn crc32_checksum(bytes: &[u8]) -> (r: u32)
    ensures
        r == crc32_of(bytes@),
{
    crc::Crc::<u32>::new(&crc::CRC_32_ISO_HDLC).checksum(bytes)
}

/// Errors from decoding a [`Chunk`] or reading its payload as text.
#[derive(Debug, Clone, Copy, PartialEq, Eq, Structural)]
pub enum ChunkError {
    /// The input holds fewer bytes than the chunk layout needs; carries the
    /// input's length.
    InvalidInput(usize),
    /// The CRC recomputed over type and data differs from the declared one;
    /// carries the computed and the declared value.
    InvalidCrc(u32, u32),
    /// The type bytes do not form a valid chunk type.
    InvalidChunkType(ChunkTypeError),
    /// The payload is not valid UTF-8 text.
    InvalidUtf8,
}

/// The mathematical content of a chunk: its type bytes and its payload.
pub ghost struct ChunkView {
    pub chunk_type: Seq<u8>,
    pub data: Seq<u8>,
}

impl ChunkView {
    /// A well-formed chunk: a four-letter type and a payload whose length
    /// fits the 32-bit length field.
    pub open spec fn wf(self) -> bool {
        self.chunk_type.len() == 4 && all_letters(self.chunk_type) && self.data.len() <= u32::MAX
    }

    /// The chunk's checksum: CRC-32 over the type bytes followed by the data.
    pub open spec fn crc(self) -> u32 {
        crc32_of(self.chunk_type + self.data)
    }

    /// The wire encoding: big-endian length, type, data, big-endian CRC.
    pub open spec fn wire_bytes(self) -> Seq<u8> {
        be32_bytes(self.data.len() as u32) + self.chunk_type + self.data + be32_bytes(self.crc())
    }
}

/// One PNG chunk, owning its type and payload. The CRC is never stored: it is
/// recomputed from type and data on demand, so it can never go stale.
#[derive(Debug)]
pub struct Chunk {
    chunk_type: ChunkType,
    data: Vec<u8>,
}

impl View for Chunk {
    type V = ChunkView;

    closed spec fn view(&self) -> ChunkView {
        ChunkView { chunk_type: self.chunk_type@, data: self.data@ }
    }
}

/// The declared data length of an encoded chunk: its first four bytes,
/// big-endian.
pub open spec fn spec_declared_len(bytes: Seq<u8>) -> int
    recommends
        bytes.len() >= 12,
{
    be32_value(bytes.subrange(0, 4)) as int
}

/// True when `bytes` is long enough for the layout its length field declares.
pub open spec fn spec_frame_ok(bytes: Seq<u8>) -> bool {
    bytes.len() >= 12 && 12 + spec_declared_len(bytes) <= bytes.len()
}

/// The type bytes of an encoded chunk.
pub open spec fn spec_type_bytes(bytes: Seq<u8>) -> Seq<u8>
    recommends
        bytes.len() >= 12,
{
    bytes.subrange(4, 8)
}

/// The data bytes of an encoded chunk.
pub open spec fn spec_data_bytes(bytes: Seq<u8>) -> Seq<u8>
    recommends
        spec_frame_ok(bytes),
{
    bytes.subrange(8, 8 + spec_declared_len(bytes))
}

/// The CRC that an encoded chunk declares, after its data bytes.
pub open spec fn spec_declared_crc(bytes: Seq<u8>) -> u32
    recommends
        spec_frame_ok(bytes),
{
    be32_value(bytes.subrange(8 + spec_declared_len(bytes), 12 + spec_declared_len(bytes)))
}

/// Decodes the chunk at the start of `bytes`, when the layout, the type and
/// the checksum are all in order; trailing bytes are ignored.
pub open spec fn spec_parse_chunk(bytes: Seq<u8>) -> Option<ChunkView> {
    if spec_frame_ok(bytes) && all_letters(spec_type_bytes(bytes)) && spec_declared_crc(bytes)
        == crc32_of(spec_type_bytes(bytes) + spec_data_bytes(bytes)) {
        Some(ChunkView { chunk_type: spec_type_bytes(bytes), data: spec_data_bytes(bytes) })
    } else {
        None
    }
}

/// The error that decoding the chunk at the start of `bytes` reports.
pub open spec fn spec_parse_chunk_error(bytes: Seq<u8>) -> ChunkError
    recommends
        spec_parse_chunk(bytes) is None,
{
    if !spec_frame_ok(bytes) {
        ChunkError::InvalidInput(bytes.len() as usize)
    } else if !all_letters(spec_type_bytes(bytes)) {
        ChunkError::InvalidChunkType(ChunkTypeError::InvalidCharacter)
    } else {
        ChunkError::InvalidCrc(
            crc32_of(spec_type_bytes(bytes) + spec_data_bytes(bytes)),
            spec_declared_crc(bytes),
        )
    }
}

/// Law: an input shorter than the 12 bytes of the fixed fields always fails
/// chunk decoding, and the reported error is `InvalidInput` with the input's
/// length.
pub proof fn lemma_short_input_rejected(bytes: Seq<u8>)
    requires
        bytes.len() < 12,
    ensures
        spec_parse_chunk(bytes) is None,
        spec_parse_chunk_error(bytes) == ChunkError::InvalidInput(bytes.len() as usize),
{
}

/// Law: whenever the CRC that an encoded chunk declares differs from the one
/// computed over its type and data bytes, decoding fails with `InvalidCrc`
/// carrying the computed and the declared value.
pub proof fn lemma_crc_mismatch_rejected(bytes: Seq<u8>)
    requires
        spec_frame_ok(bytes),
        all_letters(spec_type_bytes(bytes)),
        spec_declared_crc(bytes) != crc32_of(spec_type_bytes(bytes) + spec_data_bytes(bytes)),
    ensures
        spec_parse_chunk(bytes) is None,
        spec_parse_chunk_error(bytes) == ChunkError::InvalidCrc(
            crc32_of(spec_type_bytes(bytes) + spec_data_bytes(bytes)),
            spec_declared_crc(bytes),
        ),
{
}

impl Chunk {
    /// Every constructed chunk is well-formed.
    #[verifier::type_invariant]
    pub open spec fn wf(self) -> bool {
        self@.wf()
    }

    /// Builds a chunk from a type and a payload.
    pub fn new(chunk_type: ChunkType, data: Vec<u8>) -> (r: Chunk)
        requires
            data@.len() <= u32::MAX,
        ensures
            r@ == (ChunkView { chunk_type: chunk_type@, data: data@ }),
    {
        proof {
            use_type_invariant(&chunk_type);
        }
        Chunk { chunk_type, data }
    }

    /// The length of the chunk's payload.
    pub fn length(&self) -> (r: u32)
        ensures
            r == self@.data.len(),
    {
        proof {
            use_type_invariant(self);
        }
        self.data.len() as u32
    }

    /// The chunk's type.
    pub fn chunk_type(&self) -> (r: &ChunkType)
        ensures
            r@ == self@.chunk_type,
    {
        &self.chunk_type
    }

    /// The chunk's payload bytes.
    pub fn data(&self) -> (r: &[u8])
        ensures
            r@ == self@.data,
    {
        self.data.as_slice()
    }

    /// The CRC-32 of the chunk, computed over the type bytes followed by the
    /// payload.
    pub fn crc(&self) -> (r: u32)
        ensures
            r == self@.crc(),
    {
        let t = self.chunk_type.bytes();
        let mut bytes: Vec<u8> = Vec::new();
        bytes.push(t[0]);
        bytes.push(t[1]);
        bytes.push(t[2]);
        bytes.push(t[3]);
        proof {
            assert(bytes@ =~= self@.chunk_type);
        }
        let mut i: usize = 0;
        while i < self.data.len()
            invariant
                i <= self.data.len(),
                bytes@ == self@.chunk_type + self@.data.subrange(0, i as int),
            decreases self.data.len() - i,
        {
            bytes.push(self.data[i]);
            proof {
                assert(bytes@ =~= self@.chunk_type + self@.data.subrange(0, i + 1 as int));
            }
            i += 1;
        }
        proof {
            assert(bytes@ =~= self@.chunk_type + self@.data);
        }
        crc32_checksum(bytes.as_slice())
    }

    /// True when the chunk's type bytes are exactly `t`.
    pub fn has_type(&self, t: &[u8]) -> (r: bool)
        ensures
            r == (self@.chunk_type == t@),
    {
        self.chunk_type.matches_bytes(t)
    }

    /// The payload decoded as UTF-8 text; fails when the payload is not valid
    /// UTF-8.
    pub fn data_as_string(&self) -> (r: Result<String, ChunkError>)
        ensures
            match r {
                Ok(s) => valid_utf8(self@.data) && s@ == decode_utf8(self@.data),
                Err(e) => e == ChunkError::InvalidUtf8 && !valid_utf8(self@.data),
            },
    {
        let copy = slice_to_vec(self.data.as_slice());
        match string_from_utf8(copy) {
            Some(s) => Ok(s),
            None => Err(ChunkError::InvalidUtf8),
        }
    }

    /// The chunk in wire form: 4-byte big-endian length, 4 type bytes, the
    /// payload, then the 4-byte big-endian CRC.
    pub fn as_bytes(&self) -> (r: Vec<u8>)
        ensures
            r@ == self@.wire_bytes(),
    {
        proof {
            use_type_invariant(self);
        }
        let mut out: Vec<u8> = Vec::new();
        push_be32(&mut out, self.data.len() as u32);
        let t = self.chunk_type.bytes();
        out.push(t[0]);
        out.push(t[1]);
        out.push(t[2]);
        out.push(t[3]);
        proof {
            assert(out@ =~= be32_bytes(self@.data.len() as u32) + self@.chunk_type);
        }
        let mut i: usize = 0;
        while i < self.data.len()
            invariant
                i <= self.data.len(),
                out@ == be32_bytes(self@.data.len() as u32) + self@.chunk_type
                    + self@.data.subrange(0, i as int),
            decreases self.data.len() - i,
        {
            out.push(self.data[i]);
            proof {
                assert(out@ =~= be32_bytes(self@.data.len() as u32) + self@.chunk_type
                    + self@.data.subrange(0, i + 1 as int));
            }
            i += 1;
        }
        let crc = self.crc();
        push_be32(&mut out, crc);
        proof {
            assert(self@.data.subrange(0, self@.data.len() as int) =~= self@.data);
            assert(out@ =~= self@.wire_bytes());
        }
        out
    }

    /// Decodes a chunk from the start of `bytes` (at least 12 bytes: length,
    /// type and CRC fields). Fails when the buffer is shorter than the layout
    /// its length field declares, when the type bytes are not letters, or
    /// when the declared CRC differs from the one recomputed over type and
    /// data.
    pub fn try_from(bytes: &[u8]) -> (r: Result<Chunk, ChunkError>)
        ensures
            match r {
                Ok(c) => spec_parse_chunk(bytes@) == Some(c@),
                Err(e) => spec_parse_chunk(bytes@) is None && e == spec_parse_chunk_error(bytes@),
            },
    {
        if bytes.len() < 12 {
            return Err(ChunkError::InvalidInput(bytes.len()));
        }
        let n = read_be32(bytes[0], bytes[1], bytes[2], bytes[3]);
        proof {
            assert(bytes@.subrange(0, 4) =~= seq![bytes@[0], bytes@[1], bytes@[2], bytes@[3]]);
        }
        let data_len = n as usize;
        if bytes.len() - 12 < data_len {
            return Err(ChunkError::InvalidInput(bytes.len()));
        }
        let t = [bytes[4], bytes[5], bytes[6], bytes[7]];
        proof {
            assert(t@ =~= spec_type_bytes(bytes@));
        }
        let ct = match ChunkType::try_from(t) {
            Ok(ct) => ct,
            Err(_) => {
                return Err(ChunkError::InvalidChunkType(ChunkTypeError::InvalidCharacter));
            },
        };
        let mut data: Vec<u8> = Vec::new();
        let mut i: usize = 0;
        while i < data_len
            invariant
                i <= data_len,
                data_len == spec_declared_len(bytes@),
                12 + data_len <= bytes@.len(),
                bytes@.len() <= usize::MAX,
                data@ == bytes@.subrange(8, 8 + i as int),
            decreases data_len - i,
        {
            data.push(bytes[8 + i]);
            proof {
                assert(data@ =~= bytes@.subrange(8, 8 + (i + 1) as int));
            }
            i += 1;
        }
        proof {
            assert(data@ =~= spec_data_bytes(bytes@));
        }
        let declared = read_be32(
            bytes[8 + data_len],
            bytes[9 + data_len],
            bytes[10 + data_len],
            bytes[11 + data_len],
        );
        proof {
            assert(bytes@.subrange(8 + data_len as int, 12 + data_len as int) =~= seq![
                bytes@[8 + data_len],
                bytes@[9 + data_len],
                bytes@[10 + data_len],
                bytes@[11 + data_len],
            ]);
        }
        let chunk = Chunk::new(ct, data);
        let computed = chunk.crc();
        if computed != declared {
            return Err(ChunkError::InvalidCrc(computed, declared));
        }
        Ok(chunk)
    }
}

} // verus!
