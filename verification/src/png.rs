//! The PNG container: the fixed signature followed by an ordered sequence of
//! chunks, with parsing, serialization, and chunk lookup and editing.
use vstd::prelude::*;
use vstd::seq_lib::*;
use vstd::slice::slice_subrange;
use vstd::utf8::encode_utf8;

use crate::chunk::spec_declared_len;
use crate::chunk::spec_frame_ok;
use crate::chunk::spec_parse_chunk;
use crate::chunk::spec_parse_chunk_error;
use crate::chunk::Chunk;
use crate::chunk::ChunkError;
use crate::chunk::ChunkView;
use crate::chunk_type::ChunkType;

verus! {

/// Errors from parsing or editing a PNG container.
#[derive(Debug, Clone, Copy, PartialEq, Eq, Structural)]
pub enum PngError {
    /// The input does not begin with the 8-byte PNG signature.
    InvalidSignature,
    /// No chunk with the requested type is present.
    ChunkNotFound,
    /// A chunk failed to decode; carries that chunk's own error.
    Chunk(ChunkError),
}

/// The fixed 8-byte signature that opens every PNG byte stream.
pub open spec fn png_signature() -> Seq<u8> {
    seq![137u8, 80, 78, 71, 13, 10, 26, 10]
}

/// The views of a sequence of chunks.
pub open spec fn chunk_views(chunks: Seq<Chunk>) -> Seq<ChunkView> {
    Seq::new(chunks.len(), |i: int| chunks[i]@)
}

/// The wire encodings of `chunks`, concatenated in order.
pub open spec fn spec_serialize_chunks(chunks: Seq<ChunkView>) -> Seq<u8>
    decreases chunks.len(),
{
    if chunks.len() == 0 {
        Seq::<u8>::empty()
    } else {
        chunks[0].wire_bytes() + spec_serialize_chunks(chunks.drop_first())
    }
}

/// A whole PNG byte stream: the signature, then every chunk in order.
pub open spec fn spec_serialize(chunks: Seq<ChunkView>) -> Seq<u8> {
    png_signature() + spec_serialize_chunks(chunks)
}

/// Decodes a byte stream as consecutive chunks until it is exhausted; any
/// chunk-level failure fails the whole stream.
pub open spec fn spec_parse_chunks(bytes: Seq<u8>) -> Option<Seq<ChunkView>>
    decreases bytes.len(),
{
    if bytes.len() == 0 {
        Some(Seq::<ChunkView>::empty())
    } else {
        match spec_parse_chunk(bytes) {
            Some(c) => match spec_parse_chunks(bytes.skip(12 + spec_declared_len(bytes))) {
                Some(rest) => Some(seq![c] + rest),
                None => None,
            },
            None => None,
        }
    }
}

/// The chunk-level error on which decoding a stream of chunks fails.
pub open spec fn spec_chunks_error(bytes: Seq<u8>) -> ChunkError
    recommends
        spec_parse_chunks(bytes) is None,
    decreases bytes.len(),
{
    if bytes.len() == 0 {
        ChunkError::InvalidInput(0)
    } else if spec_parse_chunk(bytes) is None {
        spec_parse_chunk_error(bytes)
    } else {
        spec_chunks_error(bytes.skip(12 + spec_declared_len(bytes)))
    }
}

/// Decodes a whole PNG byte stream: the 8-byte signature, then consecutive
/// chunks until the buffer is exhausted.
pub open spec fn spec_parse_png(bytes: Seq<u8>) -> Option<Seq<ChunkView>> {
    if bytes.len() >= 8 && bytes.subrange(0, 8) == png_signature() {
        spec_parse_chunks(bytes.skip(8))
    } else {
        None
    }
}

/// The error that decoding a PNG byte stream reports.
pub open spec fn spec_parse_png_error(bytes: Seq<u8>) -> PngError
    recommends
        spec_parse_png(bytes) is None,
{
    if bytes.len() >= 8 && bytes.subrange(0, 8) == png_signature() {
        PngError::Chunk(spec_chunks_error(bytes.skip(8)))
    } else {
        PngError::InvalidSignature
    }
}

/// Joins an already-decoded prefix with the outcome of decoding the rest.
pub open spec fn spec_compose(
    prefix: Seq<ChunkView>,
    rest: Option<Seq<ChunkView>>,
) -> Option<Seq<ChunkView>> {
    match rest {
        Some(r) => Some(prefix + r),
        None => None,
    }
}

/// True when the chunk at `i` is the first one in `chunks` whose type bytes
/// are `t`.
pub open spec fn is_first_match(chunks: Seq<ChunkView>, t: Seq<u8>, i: int) -> bool {
    0 <= i < chunks.len() && chunks[i].chunk_type == t && (forall|j: int|
        0 <= j < i ==> (#[trigger] chunks[j]).chunk_type != t)
}

/// True when the four type bytes `t` are exactly `b0 b1 b2 b3`.
pub open spec fn type_bytes_are(t: Seq<u8>, b0: u8, b1: u8, b2: u8, b3: u8) -> bool {
    t.len() == 4 && t[0] == b0 && t[1] == b1 && t[2] == b2 && t[3] == b3
}

/// True when `t` is one of the chunk types registered by the PNG spec
/// (the critical chunks and the standard ancillary chunks).
pub open spec fn is_registered_type(t: Seq<u8>) -> bool {
    ||| type_bytes_are(t, 73, 72, 68, 82)  // IHDR
    ||| type_bytes_are(t, 80, 76, 84, 69)  // PLTE
    ||| type_bytes_are(t, 73, 68, 65, 84)  // IDAT
    ||| type_bytes_are(t, 73, 69, 78, 68)  // IEND
    ||| type_bytes_are(t, 99, 72, 82, 77)  // cHRM
    ||| type_bytes_are(t, 103, 65, 77, 65)  // gAMA
    ||| type_bytes_are(t, 105, 67, 67, 80)  // iCCP
    ||| type_bytes_are(t, 115, 66, 73, 84)  // sBIT
    ||| type_bytes_are(t, 115, 82, 71, 66)  // sRGB
    ||| type_bytes_are(t, 98, 75, 71, 68)  // bKGD
    ||| type_bytes_are(t, 104, 73, 83, 84)  // hIST
    ||| type_bytes_are(t, 116, 82, 78, 83)  // tRNS
    ||| type_bytes_are(t, 112, 72, 89, 115)  // pHYs
    ||| type_bytes_are(t, 115, 80, 76, 84)  // sPLT
    ||| type_bytes_are(t, 116, 73, 77, 69)  // tIME
    ||| type_bytes_are(t, 105, 84, 88, 116)  // iTXt
    ||| type_bytes_are(t, 116, 69, 88, 116)  // tEXt
    ||| type_bytes_are(t, 122, 84, 88, 116)  // zTXt
}

/// Heuristic for a chunk that may carry an inserted message: its type is not
/// one of the registered PNG chunk types. A heuristic, not a guarantee about
/// the chunk's content.
pub open spec fn is_possible_message(c: ChunkView) -> bool {
    !is_registered_type(c.chunk_type)
}

/// True when `ct`'s bytes form one of the registered PNG chunk types.
fn type_is_registered(ct: &ChunkType) -> (r: bool)
    ensures
        r == is_registered_type(ct@),
{
    proof {
        use_type_invariant(ct);
    }
    let b = ct.bytes();
    (b[0] == 73 && b[1] == 72 && b[2] == 68 && b[3] == 82) || (b[0] == 80 && b[1] == 76 && b[2]
        == 84 && b[3] == 69) || (b[0] == 73 && b[1] == 68 && b[2] == 65 && b[3] == 84) || (b[0]
        == 73 && b[1] == 69 && b[2] == 78 && b[3] == 68) || (b[0] == 99 && b[1] == 72 && b[2] == 82
        && b[3] == 77) || (b[0] == 103 && b[1] == 65 && b[2] == 77 && b[3] == 65) || (b[0] == 105
        && b[1] == 67 && b[2] == 67 && b[3] == 80) || (b[0] == 115 && b[1] == 66 && b[2] == 73
        && b[3] == 84) || (b[0] == 115 && b[1] == 82 && b[2] == 71 && b[3] == 66) || (b[0] == 98
        && b[1] == 75 && b[2] == 71 && b[3] == 68) || (b[0] == 104 && b[1] == 73 && b[2] == 83
        && b[3] == 84) || (b[0] == 116 && b[1] == 82 && b[2] == 78 && b[3] == 83) || (b[0] == 112
        && b[1] == 72 && b[2] == 89 && b[3] == 115) || (b[0] == 115 && b[1] == 80 && b[2] == 76
        && b[3] == 84) || (b[0] == 116 && b[1] == 73 && b[2] == 77 && b[3] == 69) || (b[0] == 105
        && b[1] == 84 && b[2] == 88 && b[3] == 116) || (b[0] == 116 && b[1] == 69 && b[2] == 88
        && b[3] == 116) || (b[0] == 122 && b[1] == 84 && b[2] == 88 && b[3] == 116)
}

/// A PNG container: an ordered sequence of chunks behind the fixed
/// signature. The order is the on-disk order.
#[derive(Debug)]
pub struct Png {
    chunks: Vec<Chunk>,
}

impl View for Png {
    type V = Seq<ChunkView>;

    closed spec fn view(&self) -> Seq<ChunkView> {
        chunk_views(self.chunks@)
    }
}

impl Png {
    /// Every chunk the container holds is well-formed. Parsing establishes
    /// this, and every mutation preserves it.
    pub open spec fn wf(self) -> bool {
        forall|i: int| 0 <= i < self@.len() ==> (#[trigger] self@[i]).wf()
    }

    /// Decodes a container from a whole PNG byte stream: the 8-byte
    /// signature, then consecutive chunks until the buffer is exhausted.
    /// Fails on a wrong signature and on any chunk-level failure; no partial
    /// container is ever produced.
    pub fn try_from(bytes: &[u8]) -> (r: Result<Png, PngError>)
        ensures
            match r {
                Ok(p) => spec_parse_png(bytes@) == Some(p@) && p.wf(),
                Err(e) => spec_parse_png(bytes@) is None && e == spec_parse_png_error(bytes@),
            },
    {
        let n = bytes.len();
        if n < 8 {
            return Err(PngError::InvalidSignature);
        }
        if !(bytes[0] == 137 && bytes[1] == 80 && bytes[2] == 78 && bytes[3] == 71 && bytes[4]
            == 13 && bytes[5] == 10 && bytes[6] == 26 && bytes[7] == 10) {
            proof {
                if bytes@.subrange(0, 8) == png_signature() {
                    assert(bytes@[0] == png_signature()[0]);
                    assert(bytes@[1] == png_signature()[1]);
                    assert(bytes@[2] == png_signature()[2]);
                    assert(bytes@[3] == png_signature()[3]);
                    assert(bytes@[4] == png_signature()[4]);
                    assert(bytes@[5] == png_signature()[5]);
                    assert(bytes@[6] == png_signature()[6]);
                    assert(bytes@[7] == png_signature()[7]);
                }
            }
            return Err(PngError::InvalidSignature);
        }
        proof {
            assert(bytes@.subrange(0, 8) =~= png_signature());
        }
        let mut chunks: Vec<Chunk> = Vec::new();
        let mut cursor: usize = 8;
        while cursor < n
            invariant
                8 <= cursor <= n,
                n == bytes@.len(),
                bytes@.subrange(0, 8) == png_signature(),
                spec_parse_chunks(bytes@.skip(8)) == spec_compose(
                    chunk_views(chunks@),
                    spec_parse_chunks(bytes@.skip(cursor as int)),
                ),
                spec_parse_chunks(bytes@.skip(cursor as int)) is None ==> spec_chunks_error(
                    bytes@.skip(8),
                ) == spec_chunks_error(bytes@.skip(cursor as int)),
                forall|k: int| 0 <= k < chunks@.len() ==> (#[trigger] chunks@[k]@).wf(),
            decreases n - cursor,
        {
            let rest = slice_subrange(bytes, cursor, n);
            let c = match Chunk::try_from(rest) {
                Ok(c) => c,
                Err(e) => {
                    return Err(PngError::Chunk(e));
                },
            };
            proof {
                use_type_invariant(&c);
                assert(spec_frame_ok(rest@));
            }
            let len32 = c.length();
            let consumed = 12 + len32 as usize;
            proof {
                assert(cursor + consumed <= n);
                assert(rest@.skip(consumed as int) =~= bytes@.skip(cursor + consumed));
                assert(chunk_views(chunks@.push(c)) =~= chunk_views(chunks@).push(c@));
                let inner = spec_parse_chunks(bytes@.skip(cursor + consumed));
                if inner is Some {
                    let r0 = inner->Some_0;
                    assert(chunk_views(chunks@) + (seq![c@] + r0) =~= chunk_views(chunks@).push(c@)
                        + r0);
                }
            }
            chunks.push(c);
            cursor = cursor + consumed;
        }
        proof {
            assert(bytes@.skip(cursor as int) =~= Seq::<u8>::empty());
            assert(chunk_views(chunks@) + Seq::<ChunkView>::empty() =~= chunk_views(chunks@));
        }
        Ok(Png { chunks })
    }

    /// The container in wire form: the signature, then every chunk's wire
    /// encoding in container order.
    pub fn as_bytes(&self) -> (r: Vec<u8>)
        ensures
            r@ == spec_serialize(self@),
    {
        let mut out: Vec<u8> = Vec::new();
        out.push(137);
        out.push(80);
        out.push(78);
        out.push(71);
        out.push(13);
        out.push(10);
        out.push(26);
        out.push(10);
        proof {
            assert(out@ =~= png_signature());
            assert(self@.take(0) =~= Seq::<ChunkView>::empty());
        }
        let n = self.chunks.len();
        let mut i: usize = 0;
        while i < n
            invariant
                i <= n,
                n == self.chunks@.len(),
                self@ == chunk_views(self.chunks@),
                out@ == png_signature() + spec_serialize_chunks(self@.take(i as int)),
            decreases n - i,
        {
            let mut cb = self.chunks[i].as_bytes();
            out.append(&mut cb);
            proof {
                lemma_serialize_push(self@.take(i as int), self@[i as int]);
                assert(self@.take(i as int).push(self@[i as int]) =~= self@.take(i + 1));
                assert((png_signature() + spec_serialize_chunks(self@.take(i as int)))
                    + self@[i as int].wire_bytes() =~= png_signature() + (spec_serialize_chunks(
                    self@.take(i as int),
                ) + self@[i as int].wire_bytes()));
            }
            i += 1;
        }
        proof {
            assert(self@.take(n as int) =~= self@);
        }
        out
    }

    /// The chunks of the container, in order.
    pub fn chunks(&self) -> (r: &[Chunk])
        ensures
            chunk_views(r@) == self@,
    {
        self.chunks.as_slice()
    }

    /// Appends `chunk` at the end of the container.
    pub fn append_chunk(&mut self, chunk: Chunk)
        ensures
            final(self)@ == old(self)@.push(chunk@),
            old(self).wf() ==> final(self).wf(),
    {
        proof {
            use_type_invariant(&chunk);
        }
        self.chunks.push(chunk);
        proof {
            assert(chunk_views(self.chunks@) =~= chunk_views(old(self).chunks@).push(chunk@));
        }
    }

    /// The first chunk (in container order) whose type renders as
    /// `chunk_type`; absence is a normal outcome, not an error.
    pub fn chunk_by_type(&self, chunk_type: &str) -> (r: Option<&Chunk>)
        ensures
            match r {
                Some(c) => exists|i: int|
                    is_first_match(self@, encode_utf8(chunk_type@), i) && c@ == self@[i],
                None => forall|i: int|
                    0 <= i < self@.len() ==> (#[trigger] self@[i]).chunk_type != encode_utf8(
                        chunk_type@,
                    ),
            },
    {
        let target = chunk_type.as_bytes();
        let n = self.chunks.len();
        let mut i: usize = 0;
        while i < n
            invariant
                i <= n,
                n == self.chunks@.len(),
                self@ == chunk_views(self.chunks@),
                target@ == encode_utf8(chunk_type@),
                forall|j: int|
                    0 <= j < i ==> (#[trigger] self@[j]).chunk_type != encode_utf8(chunk_type@),
            decreases n - i,
        {
            if self.chunks[i].has_type(target) {
                proof {
                    assert(self@[i as int] == self.chunks@[i as int]@);
                    assert(is_first_match(self@, encode_utf8(chunk_type@), i as int));
                }
                return Some(&self.chunks[i]);
            }
            i += 1;
        }
        None
    }

    /// Removes the first chunk whose type renders as `chunk_type` and
    /// returns it; fails, leaving the container unchanged, when no chunk has
    /// that type.
    pub fn remove_chunk(&mut self, chunk_type: &str) -> (r: Result<Chunk, PngError>)
        ensures
            match r {
                Ok(c) => (exists|i: int|
                    is_first_match(old(self)@, encode_utf8(chunk_type@), i) && c@ == old(self)@[i]
                        && final(self)@ == old(self)@.remove(i)) && (old(self).wf() ==> final(
                    self).wf()),
                Err(e) => e == PngError::ChunkNotFound && final(self)@ == old(self)@ && (forall|
                    i: int,
                |
                    0 <= i < old(self)@.len() ==> (#[trigger] old(self)@[i]).chunk_type
                        != encode_utf8(chunk_type@)),
            },
    {
        let target = chunk_type.as_bytes();
        let n = self.chunks.len();
        let mut i: usize = 0;
        while i < n
            invariant
                i <= n,
                n == self.chunks@.len(),
                self.chunks@ == old(self).chunks@,
                target@ == encode_utf8(chunk_type@),
                forall|j: int|
                    0 <= j < i ==> (#[trigger] chunk_views(self.chunks@)[j]).chunk_type
                        != encode_utf8(chunk_type@),
            decreases n - i,
        {
            if self.chunks[i].has_type(target) {
                let c = self.chunks.remove(i);
                proof {
                    assert(chunk_views(self.chunks@) =~= chunk_views(old(self).chunks@).remove(
                        i as int,
                    ));
                    assert(is_first_match(old(self)@, encode_utf8(chunk_type@), i as int));
                }
                return Ok(c);
            }
            i += 1;
        }
        Err(PngError::ChunkNotFound)
    }

    /// The chunks whose type is outside the registered PNG chunk types, in
    /// container order — a heuristic for chunks that may carry an inserted
    /// message, not a guarantee; absence is a normal outcome.
    pub fn find_possible_messages(&self) -> (r: Option<Vec<&Chunk>>)
        ensures
            match r {
                Some(v) => v@.len() > 0 && chunk_views_ref(v@) == self@.filter(
                    (|c: ChunkView| is_possible_message(c)),
                ),
                None => self@.filter((|c: ChunkView| is_possible_message(c))).len() == 0,
            },
    {
        let n = self.chunks.len();
        let mut found: Vec<&Chunk> = Vec::new();
        let mut i: usize = 0;
        proof {
            reveal_with_fuel(Seq::filter, 1);
            assert(self@.take(0) =~= Seq::<ChunkView>::empty());
        }
        while i < n
            invariant
                i <= n,
                n == self.chunks@.len(),
                self@ == chunk_views(self.chunks@),
                chunk_views_ref(found@) == self@.take(i as int).filter(
                    (|c: ChunkView| is_possible_message(c)),
                ),
            decreases n - i,
        {
            let c = &self.chunks[i];
            proof {
                reveal(Seq::filter);
                assert(self@.take(i + 1).drop_last() =~= self@.take(i as int));
                assert(self@.take(i + 1).last() == self@[i as int]);
            }
            if !type_is_registered(c.chunk_type()) {
                found.push(c);
                proof {
                    assert(chunk_views_ref(found@) =~= chunk_views_ref(
                        found@.drop_last(),
                    ).push(c@));
                }
            }
            i += 1;
        }
        proof {
            assert(self@.take(n as int) =~= self@);
        }
        if found.len() == 0 {
            None
        } else {
            Some(found)
        }
    }
}

/// The views of a sequence of borrowed chunks.
pub open spec fn chunk_views_ref(chunks: Seq<&Chunk>) -> Seq<ChunkView> {
    Seq::new(chunks.len(), |i: int| chunks[i]@)
}

/// Appending one chunk to a sequence appends its wire encoding to the
/// serialization.
pub proof fn lemma_serialize_push(chunks: Seq<ChunkView>, c: ChunkView)
    ensures
        spec_serialize_chunks(chunks.push(c)) == spec_serialize_chunks(chunks) + c.wire_bytes(),
    decreases chunks.len(),
{
    if chunks.len() == 0 {
        assert(chunks.push(c).drop_first() =~= Seq::<ChunkView>::empty());
        assert(spec_serialize_chunks(Seq::<ChunkView>::empty()) == Seq::<u8>::empty());
        assert(chunks.push(c)[0] == c);
        assert(spec_serialize_chunks(chunks.push(c)) == c.wire_bytes() + Seq::<u8>::empty());
        assert(Seq::<u8>::empty() + c.wire_bytes() =~= c.wire_bytes());
        assert(c.wire_bytes() + Seq::<u8>::empty() =~= c.wire_bytes());
    } else {
        assert(chunks.push(c).drop_first() =~= chunks.drop_first().push(c));
        assert(chunks.push(c)[0] == chunks[0]);
        assert(spec_serialize_chunks(chunks.push(c)) == chunks[0].wire_bytes()
            + spec_serialize_chunks(chunks.drop_first().push(c)));
        lemma_serialize_push(chunks.drop_first(), c);
        assert(chunks[0].wire_bytes() + (spec_serialize_chunks(chunks.drop_first())
            + c.wire_bytes()) =~= (chunks[0].wire_bytes() + spec_serialize_chunks(
            chunks.drop_first(),
        )) + c.wire_bytes());
    }
}

/// Law: serializing any well-formed chunk sequence and parsing the result
/// yields exactly that sequence back.
pub proof fn lemma_parse_serialize_chunks(chunks: Seq<ChunkView>)
    requires
        forall|i: int| 0 <= i < chunks.len() ==> (#[trigger] chunks[i]).wf(),
    ensures
        spec_parse_chunks(spec_serialize_chunks(chunks)) == Some(chunks),
    decreases chunks.len(),
{
    if chunks.len() == 0 {
        assert(spec_serialize_chunks(chunks) =~= Seq::<u8>::empty());
    } else {
        let c = chunks[0];
        let bytes = spec_serialize_chunks(chunks);
        let cb = c.wire_bytes();
        let restb = spec_serialize_chunks(chunks.drop_first());
        assert(bytes == cb + restb);
        crate::wire::lemma_be32_roundtrip(c.data.len() as u32);
        crate::wire::lemma_be32_roundtrip(c.crc());
        assert(cb.len() == 12 + c.data.len());
        assert(bytes.subrange(0, 4) =~= crate::wire::be32_bytes(c.data.len() as u32));
        assert(spec_declared_len(bytes) == c.data.len());
        assert(crate::chunk::spec_type_bytes(bytes) =~= c.chunk_type);
        assert(crate::chunk::spec_data_bytes(bytes) =~= c.data);
        assert(bytes.subrange(8 + c.data.len() as int, 12 + c.data.len() as int) =~= crate::wire::be32_bytes(
            c.crc(),
        ));
        assert(spec_parse_chunk(bytes) == Some(c));
        assert(bytes.skip(12 + c.data.len() as int) =~= restb);
        assert(chunks.drop_first().len() < chunks.len());
        lemma_parse_serialize_chunks(chunks.drop_first());
        assert(seq![c] + chunks.drop_first() =~= chunks);
    }
}

/// Law: serializing any well-formed container and parsing the result yields
/// a container with the identical chunk sequence.
pub proof fn lemma_round_trip(chunks: Seq<ChunkView>)
    requires
        forall|i: int| 0 <= i < chunks.len() ==> (#[trigger] chunks[i]).wf(),
    ensures
        spec_parse_png(spec_serialize(chunks)) == Some(chunks),
{
    let bytes = spec_serialize(chunks);
    assert(bytes.subrange(0, 8) =~= png_signature());
    assert(bytes.skip(8) =~= spec_serialize_chunks(chunks));
    lemma_parse_serialize_chunks(chunks);
}

/// Law: appending a chunk whose type is absent from a sequence and then
/// removing the first chunk of that type restores the original sequence.
pub proof fn lemma_append_remove(chunks: Seq<ChunkView>, c: ChunkView)
    requires
        forall|i: int| 0 <= i < chunks.len() ==> (#[trigger] chunks[i]).chunk_type != c.chunk_type,
    ensures
        is_first_match(chunks.push(c), c.chunk_type, chunks.len() as int),
        chunks.push(c).remove(chunks.len() as int) == chunks,
{
    assert(chunks.push(c).remove(chunks.len() as int) =~= chunks);
}

} // verus!
