//! A whole PNG file: the signature and the chunks that follow it.

use crate::chunk::{
    lemma_chunk_round_trip, lemma_decoded_chunk_wf, lemma_encoded_len, spec_decode_chunk, Chunk,
    ChunkView,
};
use crate::chunk_type::{lemma_text_names_type, spec_type_from_text, ChunkType};
use crate::error::{ParseError, PngError};
use crate::text::bytes_as_chars;
use std::str::FromStr;
use vstd::pervasive::arbitrary;
use vstd::prelude::*;
use vstd::slice::slice_subrange;
use vstd::string::StringExecFns;
use vstd::utf8::{decode_utf8, valid_utf8};

verus! {

/// The eight bytes that every PNG file starts with.
pub const STANDARD_HEADER: [u8; 8] = [137, 80, 78, 71, 13, 10, 26, 10];

/// The signature as a byte string.
pub open spec fn spec_signature() -> Seq<u8> {
    STANDARD_HEADER@
}

/// The wire form of a sequence of chunks: their wire forms, one after the
/// other.
pub open spec fn spec_encode_chunks(chunks: Seq<ChunkView>) -> Seq<u8>
    decreases chunks.len(),
{
    if chunks.len() == 0 {
        Seq::empty()
    } else {
        chunks.first().encode() + spec_encode_chunks(chunks.drop_first())
    }
}

/// The wire form of a file: the signature, then the chunks.
pub open spec fn spec_encode_png(chunks: Seq<ChunkView>) -> Seq<u8> {
    spec_signature() + spec_encode_chunks(chunks)
}

/// `done` followed by what `rest` holds, or the failure in `rest`.
pub open spec fn prepend_chunks(
    done: Seq<ChunkView>,
    rest: Result<Seq<ChunkView>, ParseError>,
) -> Result<Seq<ChunkView>, ParseError> {
    match rest {
        Ok(more) => Ok(done + more),
        Err(e) => Err(e),
    }
}

/// What reading chunks from `bytes`, starting at offset `pos`, yields. A
/// clean end of the buffer ends the sequence; fewer than eight bytes left
/// over are `TrailingBytes`; any chunk that cannot be read fails the whole
/// with its own failure kind, at the offset where that chunk starts.
pub open spec fn spec_decode_chunks(bytes: Seq<u8>, pos: nat) -> Result<Seq<ChunkView>, ParseError>
    decreases bytes.len() - pos,
    via decode_chunks_terminates
{
    if pos >= bytes.len() {
        Ok(Seq::empty())
    } else if bytes.len() - pos < 8 {
        Err(ParseError { kind: PngError::TrailingBytes, offset: pos as usize })
    } else {
        match spec_decode_chunk(bytes.skip(pos as int)) {
            Err(kind) => Err(ParseError { kind, offset: pos as usize }),
            Ok(chunk) => prepend_chunks(
                seq![chunk],
                spec_decode_chunks(bytes, pos + 12 + chunk.length as nat),
            ),
        }
    }
}

/// Each chunk that is read takes at least twelve bytes and ends within the
/// buffer, so the bytes still to read become fewer.
#[via_fn]
proof fn decode_chunks_terminates(bytes: Seq<u8>, pos: nat) {
    if pos < bytes.len() && spec_decode_chunk(bytes.skip(pos as int)) is Ok {
        lemma_decoded_chunk_wf(bytes.skip(pos as int));
    }
}

/// What reading a file yields: the chunks after the signature, or the first
/// failure. A buffer that does not start with the signature is a
/// `BadSignature` at offset zero, whatever follows.
pub open spec fn spec_decode_png(bytes: Seq<u8>) -> Result<Seq<ChunkView>, ParseError> {
    if bytes.len() < 8 || bytes.subrange(0, 8) != spec_signature() {
        Err(ParseError { kind: PngError::BadSignature, offset: 0 })
    } else {
        spec_decode_chunks(bytes, 8)
    }
}

/// Whether the type of `chunk`, written as text, is `text`.
pub open spec fn has_type(chunk: ChunkView, text: Seq<char>) -> bool {
    bytes_as_chars(chunk.chunk_type) == text
}

/// The index of the first chunk whose type is `text`, if there is one.
pub open spec fn spec_position(chunks: Seq<ChunkView>, text: Seq<char>) -> Option<int>
    decreases chunks.len(),
{
    if chunks.len() == 0 {
        None
    } else if has_type(chunks.first(), text) {
        Some(0)
    } else {
        match spec_position(chunks.drop_first(), text) {
            Some(i) => Some(i + 1),
            None => None,
        }
    }
}

/// One line of the listing of a file: the type of the chunk, a colon, and
/// the payload as text where it is text.
pub open spec fn spec_render_chunk(chunk: ChunkView) -> Seq<char> {
    bytes_as_chars(chunk.chunk_type) + ": "@ + (if valid_utf8(chunk.data) {
        decode_utf8(chunk.data)
    } else {
        "<binary>"@
    }) + "\n"@
}

/// The listing of a file: one line for each chunk, in order.
pub open spec fn spec_render(chunks: Seq<ChunkView>) -> Seq<char>
    decreases chunks.len(),
{
    if chunks.len() == 0 {
        Seq::empty()
    } else {
        spec_render(chunks.drop_last()) + spec_render_chunk(chunks.last())
    }
}

/// All chunks of the sequence obey the chunk invariant.
pub open spec fn all_wf(chunks: Seq<ChunkView>) -> bool {
    forall|i: int| 0 <= i < chunks.len() ==> (#[trigger] chunks[i]).wf()
}

/// A PNG file as a sequence of chunks. The order of the chunks is their
/// order in the file.
#[derive(Debug)]
pub struct Png {
    header: [u8; 8],
    chunks: Vec<Chunk>,
}

impl View for Png {
    type V = Seq<ChunkView>;

    /// The chunks of the file, in order.
    closed spec fn view(&self) -> Seq<ChunkView> {
        self.chunks@.map_values(|c: Chunk| c@)
    }
}

impl Png {
    #[verifier::type_invariant]
    spec fn inv(self) -> bool {
        &&& self.header@ == spec_signature()
        &&& all_wf(self@)
    }

    /// Whether every chunk of the file obeys the chunk invariant. Every
    /// `Png` that exists at run time does.
    pub open spec fn wf(&self) -> bool {
        all_wf(self@)
    }

    /// Adds `chunk` at the end of the file.
    pub fn append_chunk(&mut self, chunk: Chunk)
        ensures
            final(self)@ == old(self)@.push(chunk@),
            final(self).wf(),
    {
        proof {
            use_type_invariant(&*self);
            use_type_invariant(&chunk);
        }
        // The list is taken out while it changes, so that the file is whole
        // at every step.
        let mut chunks: Vec<Chunk> = Vec::new();
        std::mem::swap(&mut self.chunks, &mut chunks);
        chunks.push(chunk);
        proof {
            assert(chunks@.map_values(|c: Chunk| c@) =~= old(self)@.push(chunk@));
        }
        std::mem::swap(&mut self.chunks, &mut chunks);
    }

    /// The first chunk of the given type, or `None` if the file holds no
    /// such chunk.
    pub fn chunk_by_type(&self, chunk_type: &str) -> (found: Option<&Chunk>)
        ensures
            match found {
                Some(chunk) => spec_position(self@, chunk_type@) matches Some(i) && chunk@
                    == self@[i],
                None => spec_position(self@, chunk_type@) is None,
            },
    {
        match self.position(chunk_type) {
            Some(i) => Some(&self.chunks[i]),
            None => None,
        }
    }

    /// Removes the first chunk of the given type and returns it. Later
    /// chunks of the same type stay, and so does the order of all others. If
    /// the file holds no such chunk, nothing changes and the call fails with
    /// `ChunkNotFound`.
    pub fn remove_chunk(&mut self, chunk_type: &str) -> (removed: Result<Chunk, PngError>)
        ensures
            match removed {
                Ok(chunk) => spec_position(old(self)@, chunk_type@) matches Some(i) && chunk@
                    == old(self)@[i] && final(self)@ == old(self)@.remove(i),
                Err(e) => e == PngError::ChunkNotFound && spec_position(old(self)@, chunk_type@)
                    is None && final(self)@ == old(self)@,
            },
            final(self).wf(),
    {
        proof {
            use_type_invariant(&*self);
        }
        match self.position(chunk_type) {
            Some(i) => {
                let mut chunks: Vec<Chunk> = Vec::new();
                std::mem::swap(&mut self.chunks, &mut chunks);
                let chunk = chunks.remove(i);
                proof {
                    assert(chunks@.map_values(|c: Chunk| c@) =~= old(self)@.remove(i as int));
                }
                std::mem::swap(&mut self.chunks, &mut chunks);
                Ok(chunk)
            },
            None => Err(PngError::ChunkNotFound),
        }
    }

    /// The signature of the file.
    pub fn header(&self) -> (h: &[u8; 8])
        ensures
            h@ == spec_signature(),
    {
        proof {
            use_type_invariant(self);
        }
        &self.header
    }

    /// The chunks of the file, in order.
    pub fn chunks(&self) -> (chunks: &[Chunk])
        ensures
            chunks@.map_values(|c: Chunk| c@) == self@,
            self.wf(),
    {
        proof {
            use_type_invariant(self);
        }
        self.chunks.as_slice()
    }

    /// The wire form of the file: the signature followed by every chunk.
    pub fn as_bytes(&self) -> (v: Vec<u8>)
        ensures
            v@ == spec_encode_png(self@),
    {
        proof {
            use_type_invariant(self);
        }
        let mut v: Vec<u8> = Vec::new();
        v.extend_from_slice(self.header.as_slice());
        let mut i: usize = 0;
        while i < self.chunks.len()
            invariant
                i <= self.chunks.len(),
                v@ == spec_signature() + spec_encode_chunks(self@.take(i as int)),
            decreases self.chunks.len() - i,
        {
            let encoded = self.chunks[i].as_bytes();
            v.extend_from_slice(encoded.as_slice());
            proof {
                lemma_encode_chunks_push(self@.take(i as int), self@[i as int]);
                assert(self@.take(i as int).push(self@[i as int]) =~= self@.take(i + 1));
            }
            i += 1;
        }
        proof {
            assert(self@.take(i as int) =~= self@);
        }
        v
    }

    /// A listing of the file for a human reader: one line for each chunk,
    /// with its type and, where the payload is text, the text. The listing
    /// cannot be read back.
    pub fn to_string(&self) -> (s: String)
        ensures
            s@ == spec_render(self@),
    {
        let mut s = String::new();
        let mut i: usize = 0;
        while i < self.chunks.len()
            invariant
                i <= self.chunks.len(),
                s@ == spec_render(self@.take(i as int)),
            decreases self.chunks.len() - i,
        {
            let chunk = &self.chunks[i];
            let ghost before = s@;
            s.append(chunk.chunk_type().to_string().as_str());
            s.append(": ");
            match chunk.data_as_string() {
                Ok(text) => s.append(text.as_str()),
                Err(_) => s.append("<binary>"),
            }
            s.append("\n");
            proof {
                let done = self@.take(i + 1);
                assert(done.drop_last() =~= self@.take(i as int));
                assert(done.last() == chunk@);
                assert(s@ =~= before + spec_render_chunk(chunk@));
            }
            i += 1;
        }
        proof {
            assert(self@.take(i as int) =~= self@);
        }
        s
    }

    /// The index of the first chunk of the given type.
    fn position(&self, chunk_type: &str) -> (found: Option<usize>)
        ensures
            match found {
                Some(i) => i < self@.len() && spec_position(self@, chunk_type@) == Some(i as int),
                None => spec_position(self@, chunk_type@) is None,
            },
    {
        let wanted = match ChunkType::from_str(chunk_type) {
            Ok(t) => t,
            Err(_) => {
                proof {
                    use_type_invariant(self);
                    lemma_position_of_no_type(self@, chunk_type@);
                }
                return None;
            },
        };
        let mut i: usize = 0;
        while i < self.chunks.len()
            invariant
                i <= self.chunks.len(),
                wanted.wf(),
                spec_type_from_text(chunk_type@) == Ok::<Seq<u8>, PngError>(wanted@),
                forall|j: int| 0 <= j < i ==> !has_type(#[trigger] self@[j], chunk_type@),
            decreases self.chunks.len() - i,
        {
            let candidate = self.chunks[i].chunk_type();
            proof {
                lemma_text_names_type(candidate@, chunk_type@);
            }
            if *candidate == wanted {
                proof {
                    lemma_position_first(self@, chunk_type@, i as int);
                }
                return Some(i);
            }
            i += 1;
        }
        proof {
            lemma_position_none(self@, chunk_type@);
        }
        None
    }
}

impl TryFrom<&[u8]> for Png {
    type Error = ParseError;

    /// Reads a whole file: the signature, then chunks up to the end of the
    /// buffer. One chunk that cannot be read fails the whole file.
    fn try_from(value: &[u8]) -> (r: Result<Png, ParseError>)
        ensures
            match r {
                Ok(png) => spec_decode_png(value@) == Ok::<Seq<ChunkView>, ParseError>(png@)
                    && png.wf(),
                Err(e) => spec_decode_png(value@) == Err::<Seq<ChunkView>, ParseError>(e),
            },
    {
        let total: usize = value.len();
        if total < 8 || !starts_with_signature(value) {
            return Err(ParseError { kind: PngError::BadSignature, offset: 0 });
        }
        let mut chunks: Vec<Chunk> = Vec::new();
        let mut pos: usize = 8;
        while pos < total
            invariant
                8 <= pos <= total,
                total == value@.len(),
                value@.subrange(0, 8) == spec_signature(),
                all_wf(chunks@.map_values(|c: Chunk| c@)),
                spec_decode_chunks(value@, 8) == prepend_chunks(
                    chunks@.map_values(|c: Chunk| c@),
                    spec_decode_chunks(value@, pos as nat),
                ),
            decreases total - pos,
        {
            if total - pos < 8 {
                return Err(ParseError { kind: PngError::TrailingBytes, offset: pos });
            }
            let ghost done = chunks@.map_values(|c: Chunk| c@);
            assert(value@.subrange(pos as int, total as int) == value@.skip(pos as int));
            match Chunk::try_from(slice_subrange(value, pos, total)) {
                Err(kind) => {
                    return Err(ParseError { kind, offset: pos });
                },
                Ok(chunk) => {
                    proof {
                        lemma_decoded_chunk_wf(value@.skip(pos as int));
                    }
                    let ghost rest = spec_decode_chunks(value@, (pos + 12 + chunk@.length) as nat);
                    pos = pos + 12 + chunk.length() as usize;
                    chunks.push(chunk);
                    proof {
                        let now = chunks@.map_values(|c: Chunk| c@);
                        assert(now =~= done.push(chunk@));
                        match rest {
                            Ok(more) => {
                                assert(done + (seq![chunk@] + more) =~= now + more);
                            },
                            Err(_) => {},
                        }
                    }
                },
            }
        }
        proof {
            assert(chunks@.map_values(|c: Chunk| c@) + Seq::<ChunkView>::empty()
                =~= chunks@.map_values(|c: Chunk| c@));
        }
        Ok(Png { header: STANDARD_HEADER, chunks })
    }
}

impl vstd::std_specs::convert::TryFromSpecImpl<&[u8]> for Png {
    /// A file owns its chunks on the heap, so the result of `try_from` is
    /// described by that function's own `ensures`, over views.
    open spec fn obeys_try_from_spec() -> bool {
        false
    }

    open spec fn try_from_spec(value: &[u8]) -> Result<Png, ParseError> {
        arbitrary()
    }
}

/// Whether the first eight bytes of `value` are the PNG signature.
fn starts_with_signature(value: &[u8]) -> (r: bool)
    requires
        value@.len() >= 8,
    ensures
        r == (value@.subrange(0, 8) == spec_signature()),
{
    let mut i: usize = 0;
    while i < 8
        invariant
            i <= 8,
            value@.len() >= 8,
            forall|j: int| 0 <= j < i ==> value@[j] == spec_signature()[j],
        decreases 8 - i,
    {
        if value[i] != STANDARD_HEADER[i] {
            assert(value@.subrange(0, 8)[i as int] != spec_signature()[i as int]);
            return false;
        }
        i += 1;
    }
    assert(value@.subrange(0, 8) =~= spec_signature());
    true
}

/// Appending a chunk to a sequence appends its wire form to that of the
/// sequence.
pub proof fn lemma_encode_chunks_push(chunks: Seq<ChunkView>, chunk: ChunkView)
    ensures
        spec_encode_chunks(chunks.push(chunk)) == spec_encode_chunks(chunks) + chunk.encode(),
    decreases chunks.len(),
{
    let all = chunks.push(chunk);
    if chunks.len() == 0 {
        assert(all.drop_first() =~= Seq::<ChunkView>::empty());
        assert(spec_encode_chunks(Seq::<ChunkView>::empty()) =~= Seq::<u8>::empty());
        assert(spec_encode_chunks(all) =~= chunk.encode());
    } else {
        assert(all.drop_first() =~= chunks.drop_first().push(chunk));
        lemma_encode_chunks_push(chunks.drop_first(), chunk);
        assert(spec_encode_chunks(all) =~= spec_encode_chunks(chunks) + chunk.encode());
    }
}

/// Reading the wire form of well-formed chunks from the offset where it
/// starts gives the chunks back.
pub proof fn lemma_decode_encoded_chunks(before: Seq<u8>, chunks: Seq<ChunkView>)
    requires
        all_wf(chunks),
    ensures
        spec_decode_chunks(before + spec_encode_chunks(chunks), before.len()) == Ok::<
            Seq<ChunkView>,
            ParseError,
        >(chunks),
    decreases chunks.len(),
{
    let bytes = before + spec_encode_chunks(chunks);
    if chunks.len() == 0 {
        assert(chunks =~= Seq::<ChunkView>::empty());
    } else {
        let first = chunks.first();
        let rest = chunks.drop_first();
        assert(first.wf());
        assert(all_wf(rest)) by {
            assert forall|i: int| 0 <= i < rest.len() implies (#[trigger] rest[i]).wf() by {
                assert(rest[i] == chunks[i + 1]);
            }
        }
        lemma_encoded_len(first);
        assert(bytes.skip(before.len() as int) =~= first.encode() + spec_encode_chunks(rest));
        lemma_chunk_round_trip(first, spec_encode_chunks(rest));
        let next = before + first.encode();
        assert(bytes =~= next + spec_encode_chunks(rest));
        lemma_decode_encoded_chunks(next, rest);
        assert(seq![first] + rest =~= chunks);
    }
}

/// Chunks that were read are well formed, and the bytes they were read
/// from are their wire form.
pub proof fn lemma_encode_decoded_chunks(bytes: Seq<u8>, pos: nat)
    requires
        pos <= bytes.len(),
        spec_decode_chunks(bytes, pos) is Ok,
    ensures
        all_wf(spec_decode_chunks(bytes, pos)->Ok_0),
        spec_encode_chunks(spec_decode_chunks(bytes, pos)->Ok_0) == bytes.skip(pos as int),
    decreases bytes.len() - pos,
{
    let chunks = spec_decode_chunks(bytes, pos)->Ok_0;
    if pos >= bytes.len() {
        assert(bytes.skip(pos as int) =~= Seq::<u8>::empty());
    } else {
        let tail = bytes.skip(pos as int);
        assert(bytes.len() - pos >= 8);
        let decoded = spec_decode_chunk(tail);
        assert(decoded is Ok);
        let first = decoded->Ok_0;
        let next = pos + 12 + first.length as nat;
        assert(spec_decode_chunks(bytes, pos) == prepend_chunks(
            seq![first],
            spec_decode_chunks(bytes, next),
        ));
        lemma_decoded_chunk_wf(tail);
        lemma_encode_decoded_chunks(bytes, next);
        let rest = spec_decode_chunks(bytes, next)->Ok_0;
        assert(chunks == seq![first] + rest);
        assert(chunks.first() == first);
        assert(chunks.drop_first() =~= rest);
        assert(all_wf(chunks)) by {
            assert forall|i: int| 0 <= i < chunks.len() implies (#[trigger] chunks[i]).wf() by {
                if i > 0 {
                    assert(chunks[i] == rest[i - 1]);
                }
            }
        }
        assert(tail.subrange(0, 12 + first.length) + bytes.skip(next as int) =~= tail);
    }
}

/// Reading what was written gives the same chunks: for well-formed chunks,
/// `try_from` undoes `as_bytes`.
pub proof fn lemma_png_round_trip(chunks: Seq<ChunkView>)
    requires
        all_wf(chunks),
    ensures
        spec_decode_png(spec_encode_png(chunks)) == Ok::<Seq<ChunkView>, ParseError>(chunks),
{
    let bytes = spec_encode_png(chunks);
    assert(bytes.subrange(0, 8) =~= spec_signature());
    lemma_decode_encoded_chunks(spec_signature(), chunks);
}

/// Writing what was read gives the same bytes: a file that was read and not
/// changed is written back byte for byte.
pub proof fn lemma_png_reencodes(bytes: Seq<u8>)
    requires
        spec_decode_png(bytes) is Ok,
    ensures
        all_wf(spec_decode_png(bytes)->Ok_0),
        spec_encode_png(spec_decode_png(bytes)->Ok_0) == bytes,
{
    assert(bytes.len() >= 8 && bytes.subrange(0, 8) == spec_signature());
    assert(spec_decode_png(bytes) == spec_decode_chunks(bytes, 8));
    lemma_encode_decoded_chunks(bytes, 8);
    let chunks = spec_decode_chunks(bytes, 8)->Ok_0;
    assert(spec_encode_chunks(chunks) == bytes.skip(8));
    assert(all_wf(chunks));
    assert(spec_encode_png(chunks) == spec_signature() + bytes.skip(8));
    assert(spec_signature() + bytes.skip(8) =~= bytes);
}

/// Writing, reading and writing again gives the bytes of the first writing.
pub proof fn lemma_png_write_read_write(chunks: Seq<ChunkView>)
    requires
        all_wf(chunks),
    ensures
        spec_decode_png(spec_encode_png(chunks)) is Ok,
        spec_encode_png(spec_decode_png(spec_encode_png(chunks))->Ok_0) == spec_encode_png(
            chunks,
        ),
{
    lemma_png_round_trip(chunks);
}

/// What the position says: it is the index of a chunk of the type, no chunk
/// before it has the type, and where there is no position no chunk has the
/// type.
pub proof fn lemma_position_is_first(chunks: Seq<ChunkView>, text: Seq<char>)
    ensures
        match spec_position(chunks, text) {
            Some(i) => 0 <= i < chunks.len() && has_type(chunks[i], text) && forall|j: int|
                0 <= j < i ==> !has_type(#[trigger] chunks[j], text),
            None => forall|j: int| 0 <= j < chunks.len() ==> !has_type(#[trigger] chunks[j], text),
        },
    decreases chunks.len(),
{
    if chunks.len() > 0 && !has_type(chunks.first(), text) {
        let rest = chunks.drop_first();
        lemma_position_is_first(rest, text);
        match spec_position(rest, text) {
            Some(i) => {
                assert(rest[i] == chunks[i + 1]);
                assert forall|j: int| 0 <= j < i + 1 implies !has_type(
                    #[trigger] chunks[j],
                    text,
                ) by {
                    if j > 0 {
                        assert(chunks[j] == rest[j - 1]);
                    }
                }
            },
            None => {
                assert forall|j: int| 0 <= j < chunks.len() implies !has_type(
                    #[trigger] chunks[j],
                    text,
                ) by {
                    if j > 0 {
                        assert(chunks[j] == rest[j - 1]);
                    }
                }
            },
        }
    }
}

/// Appending a chunk and then removing by its type gives the chunk and the
/// file back, provided that the file held no chunk of that type before:
/// removal takes the first chunk of the type, which is then the appended one.
pub proof fn lemma_append_then_remove(chunks: Seq<ChunkView>, chunk: ChunkView, text: Seq<char>)
    requires
        has_type(chunk, text),
        spec_position(chunks, text) is None,
    ensures
        spec_position(chunks.push(chunk), text) == Some(chunks.len() as int),
        chunks.push(chunk)[chunks.len() as int] == chunk,
        chunks.push(chunk).remove(chunks.len() as int) == chunks,
        spec_encode_png(chunks.push(chunk).remove(chunks.len() as int)) == spec_encode_png(chunks),
{
    lemma_position_is_first(chunks, text);
    let all = chunks.push(chunk);
    assert forall|j: int| 0 <= j < chunks.len() implies !has_type(#[trigger] all[j], text) by {
        assert(all[j] == chunks[j]);
    }
    lemma_position_first(all, text, chunks.len() as int);
    assert(all.remove(chunks.len() as int) =~= chunks);
}

/// A text that is no chunk type names no chunk of a well-formed file.
proof fn lemma_position_of_no_type(chunks: Seq<ChunkView>, text: Seq<char>)
    requires
        all_wf(chunks),
        spec_type_from_text(text) is Err,
    ensures
        spec_position(chunks, text) is None,
{
    assert forall|j: int| 0 <= j < chunks.len() implies !has_type(#[trigger] chunks[j], text) by {
        assert(chunks[j].wf());
        lemma_text_names_type(chunks[j].chunk_type, text);
    }
    lemma_position_none(chunks, text);
}

/// Where no chunk has the type, there is no position.
pub proof fn lemma_position_none(chunks: Seq<ChunkView>, text: Seq<char>)
    requires
        forall|j: int| 0 <= j < chunks.len() ==> !has_type(#[trigger] chunks[j], text),
    ensures
        spec_position(chunks, text) is None,
    decreases chunks.len(),
{
    if chunks.len() > 0 {
        assert(!has_type(chunks[0], text));
        let rest = chunks.drop_first();
        assert forall|j: int| 0 <= j < rest.len() implies !has_type(#[trigger] rest[j], text) by {
            assert(rest[j] == chunks[j + 1]);
        }
        lemma_position_none(rest, text);
    }
}

/// The position is the index of a chunk that has the type while none
/// before it has.
pub proof fn lemma_position_first(chunks: Seq<ChunkView>, text: Seq<char>, i: int)
    requires
        0 <= i < chunks.len(),
        has_type(chunks[i], text),
        forall|j: int| 0 <= j < i ==> !has_type(#[trigger] chunks[j], text),
    ensures
        spec_position(chunks, text) == Some(i),
    decreases chunks.len(),
{
    if i > 0 {
        assert(!has_type(chunks[0], text));
        let rest = chunks.drop_first();
        assert(rest[i - 1] == chunks[i]);
        assert forall|j: int| 0 <= j < i - 1 implies !has_type(#[trigger] rest[j], text) by {
            assert(rest[j] == chunks[j + 1]);
        }
        lemma_position_first(rest, text, i - 1);
    }
}

} // verus!
