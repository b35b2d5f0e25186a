//! One chunk: a length-prefixed, type-tagged and checksummed record.
//!
//! On the wire a chunk is the length of its payload as four big-endian
//! bytes, the four bytes of its type, the payload, and the CRC-32 of type and
//! payload as four big-endian bytes.

use crate::be32::{
    decode_be32, encode_be32, lemma_decode_encode_be32, lemma_encode_decode_be32,
    spec_decode_be32, spec_encode_be32,
};
use crate::checksum::{calculate_crc, crc32};
use crate::chunk_type::{valid_type_bytes, ChunkType};
use crate::error::PngError;
use crate::text::string_from_utf8;
use vstd::pervasive::{arbitrary, unreached};
use vstd::prelude::*;
use vstd::slice::{slice_subrange, slice_to_vec};
use vstd::utf8::{decode_utf8, valid_utf8};

verus! {

/// The mathematical content of a chunk: its four fields as plain values.
pub struct ChunkView {
    /// The number of payload bytes, as stored in the length field.
    pub length: u32,
    /// The four bytes of the chunk type.
    pub chunk_type: Seq<u8>,
    /// The payload.
    pub data: Seq<u8>,
    /// The checksum, as stored in the last field.
    pub crc: u32,
}

impl ChunkView {
    /// The invariant of a chunk: the type obeys its grammar, the length field
    /// counts the payload, and the checksum covers type and payload.
    pub open spec fn wf(self) -> bool {
        &&& valid_type_bytes(self.chunk_type)
        &&& self.length == self.data.len()
        &&& self.crc == crc32(self.chunk_type + self.data)
    }

    /// The wire form of the chunk.
    pub open spec fn encode(self) -> Seq<u8> {
        spec_encode_be32(self.length) + self.chunk_type + self.data + spec_encode_be32(self.crc)
    }
}

/// The chunk that a type and a payload determine.
pub open spec fn spec_new_chunk(chunk_type: Seq<u8>, data: Seq<u8>) -> ChunkView {
    ChunkView {
        length: data.len() as u32,
        chunk_type,
        data,
        crc: crc32(chunk_type + data),
    }
}

/// The fields of the chunk record at the front of `bytes`, as they stand on
/// the wire: nothing is said yet about the checksum. Bytes after the record
/// are ignored. The checks come in wire order: the header must be there, the
/// type must be letters, and the payload and the checksum field must be
/// there.
#[verifier::opaque]
pub open spec fn spec_read_raw(bytes: Seq<u8>) -> Result<ChunkView, PngError> {
    if bytes.len() < 8 {
        Err(PngError::UnexpectedEof)
    } else if !valid_type_bytes(bytes.subrange(4, 8)) {
        Err(PngError::InvalidTagBytes)
    } else {
        let length = spec_decode_be32(bytes);
        if bytes.len() < 12 + length {
            Err(PngError::UnexpectedEof)
        } else {
            Ok(
                ChunkView {
                    length,
                    chunk_type: bytes.subrange(4, 8),
                    data: bytes.subrange(8, 8 + length),
                    crc: spec_decode_be32(bytes.subrange(8 + length, 12 + length)),
                },
            )
        }
    }
}

/// Whether a stored checksum stands against the one computed over the same
/// bytes.
pub open spec fn spec_check_crc(stored: u32, computed: u32) -> Result<(), PngError> {
    if stored == computed {
        Ok(())
    } else {
        Err(PngError::ChecksumMismatch)
    }
}

/// What reading one chunk from the front of `bytes` yields: the record must
/// be there in full, and its checksum must be the CRC-32 of its type and
/// payload.
pub open spec fn spec_decode_chunk(bytes: Seq<u8>) -> Result<ChunkView, PngError> {
    match spec_read_raw(bytes) {
        Err(e) => Err(e),
        Ok(raw) => match spec_check_crc(raw.crc, crc32(raw.chunk_type + raw.data)) {
            Err(e) => Err(e),
            Ok(()) => Ok(raw),
        },
    }
}

/// A chunk record as it stands on the wire: the four fields, with nothing
/// known yet about whether the checksum fits the contents.
#[derive(Debug)]
pub struct RawChunk {
    /// The length field.
    pub length: u32,
    /// The type field.
    pub chunk_type: ChunkType,
    /// The payload.
    pub data: Vec<u8>,
    /// The checksum field.
    pub crc: u32,
}

impl View for RawChunk {
    type V = ChunkView;

    open spec fn view(&self) -> ChunkView {
        ChunkView {
            length: self.length,
            chunk_type: self.chunk_type@,
            data: self.data@,
            crc: self.crc,
        }
    }
}

impl RawChunk {
    /// Reads the record at the front of `value`: a four-byte big-endian
    /// length, the four letters of the type, as many payload bytes as the
    /// length says, and a four-byte big-endian checksum.
    pub fn read(value: &[u8]) -> (r: Result<RawChunk, PngError>)
        ensures
            match r {
                Ok(raw) => spec_read_raw(value@) == Ok::<ChunkView, PngError>(raw@)
                    && raw@.length == raw@.data.len() && raw.chunk_type.wf() && 12 + raw@.length
                    <= value@.len() <= usize::MAX,
                Err(e) => spec_read_raw(value@) == Err::<ChunkView, PngError>(e),
            },
    {
        proof {
            reveal(spec_read_raw);
        }
        let total: usize = value.len();
        if total < 8 {
            return Err(PngError::UnexpectedEof);
        }
        let length: u32 = decode_be32(value);
        let chunk_type_bytes: [u8; 4] = [value[4], value[5], value[6], value[7]];
        assert(chunk_type_bytes@ =~= value@.subrange(4, 8));
        let chunk_type = match ChunkType::try_from(chunk_type_bytes) {
            Ok(t) => t,
            Err(e) => {
                return Err(e);
            },
        };
        let after_header: usize = total - 8;
        if after_header < 4 || after_header - 4 < length as usize {
            return Err(PngError::UnexpectedEof);
        }
        let data_end: usize = 8 + length as usize;
        let data: Vec<u8> = slice_to_vec(slice_subrange(value, 8, data_end));
        let crc: u32 = decode_be32(slice_subrange(value, data_end, data_end + 4));
        Ok(RawChunk { length, chunk_type, data, crc })
    }

    /// Holds the stored checksum against `computed`, the checksum of the
    /// type and payload: they must be equal.
    pub fn check_crc(&self, computed: u32) -> (r: Result<(), PngError>)
        ensures
            r == spec_check_crc(self@.crc, computed),
    {
        if self.crc == computed {
            Ok(())
        } else {
            Err(PngError::ChecksumMismatch)
        }
    }
}

/// A chunk of a PNG file. Its length field always counts its payload and its
/// checksum always covers its type and payload.
#[derive(Debug, PartialEq, Eq, PartialOrd, Ord)]
pub struct Chunk {
    length: u32,
    chunk_type: ChunkType,
    data: Vec<u8>,
    crc: u32,
}

impl View for Chunk {
    type V = ChunkView;

    closed spec fn view(&self) -> ChunkView {
        ChunkView {
            length: self.length,
            chunk_type: self.chunk_type@,
            data: self.data@,
            crc: self.crc,
        }
    }
}

impl Chunk {
    /// Whether the chunk obeys its invariant. Every `Chunk` that exists at
    /// run time does.
    #[verifier::type_invariant]
    pub open spec fn wf(&self) -> bool {
        self@.wf()
    }

    /// Makes a chunk of the given type around `data`, deriving the length
    /// and the checksum. The payload must be short enough for the four-byte
    /// length field.
    pub fn new(chunk_type: ChunkType, data: Vec<u8>) -> (chunk: Chunk)
        requires
            data@.len() <= u32::MAX,
        ensures
            chunk@ == spec_new_chunk(chunk_type@, data@),
            chunk@.length == data@.len(),
            chunk.wf(),
    {
        let chunk_type_bytes = chunk_type.bytes();
        let mut crc_bytes: Vec<u8> = Vec::new();
        crc_bytes.push(chunk_type_bytes[0]);
        crc_bytes.push(chunk_type_bytes[1]);
        crc_bytes.push(chunk_type_bytes[2]);
        crc_bytes.push(chunk_type_bytes[3]);
        crc_bytes.extend_from_slice(data.as_slice());
        assert(crc_bytes@ =~= chunk_type@ + data@);
        Chunk {
            length: data.len() as u32,
            chunk_type,
            crc: calculate_crc(crc_bytes.as_slice()),
            data,
        }
    }

    /// The number of payload bytes.
    pub fn length(&self) -> (n: u32)
        ensures
            n == self@.length,
            n == self@.data.len(),
    {
        proof {
            use_type_invariant(self);
        }
        self.length
    }

    /// The type of the chunk.
    pub fn chunk_type(&self) -> (t: &ChunkType)
        ensures
            t@ == self@.chunk_type,
            t.wf(),
    {
        proof {
            use_type_invariant(self);
        }
        &self.chunk_type
    }

    /// The payload.
    pub fn data(&self) -> (d: &[u8])
        ensures
            d@ == self@.data,
    {
        self.data.as_slice()
    }

    /// The checksum over type and payload.
    pub fn crc(&self) -> (sum: u32)
        ensures
            sum == self@.crc,
            sum == crc32(self@.chunk_type + self@.data),
    {
        proof {
            use_type_invariant(self);
        }
        self.crc
    }

    /// The payload read as UTF-8 text, or `InvalidUtf8` if it is none.
    pub fn data_as_string(&self) -> (r: Result<String, PngError>)
        ensures
            match r {
                Ok(s) => valid_utf8(self@.data) && s@ == decode_utf8(self@.data),
                Err(e) => !valid_utf8(self@.data) && e == PngError::InvalidUtf8,
            },
    {
        match string_from_utf8(self.data.clone()) {
            Ok(s) => Ok(s),
            Err(_) => Err(PngError::InvalidUtf8),
        }
    }

    /// The payload as text, for a chunk that is known to hold text.
    pub fn to_string(&self) -> (s: String)
        requires
            valid_utf8(self@.data),
        ensures
            s@ == decode_utf8(self@.data),
    {
        match self.data_as_string() {
            Ok(s) => s,
            Err(_) => unreached(),
        }
    }

    /// The wire form of the chunk: length, type, payload, checksum.
    pub fn as_bytes(&self) -> (v: Vec<u8>)
        ensures
            v@ == self@.encode(),
    {
        let mut v: Vec<u8> = Vec::new();
        encode_be32(self.length, &mut v);
        let chunk_type_bytes = self.chunk_type.bytes();
        v.push(chunk_type_bytes[0]);
        v.push(chunk_type_bytes[1]);
        v.push(chunk_type_bytes[2]);
        v.push(chunk_type_bytes[3]);
        assert(v@ =~= spec_encode_be32(self@.length) + self@.chunk_type);
        v.extend_from_slice(self.data.as_slice());
        encode_be32(self.crc, &mut v);
        v
    }
}

impl Clone for Chunk {
    fn clone(&self) -> (copy: Chunk)
        ensures
            copy@ == self@,
    {
        proof {
            use_type_invariant(self);
        }
        Chunk {
            length: self.length,
            chunk_type: self.chunk_type,
            data: self.data.clone(),
            crc: self.crc,
        }
    }
}

impl TryFrom<&[u8]> for Chunk {
    type Error = PngError;

    /// Reads one chunk from the front of `value`, checking its type and its
    /// checksum. Bytes after the chunk are ignored.
    fn try_from(value: &[u8]) -> (r: Result<Chunk, PngError>)
        ensures
            match r {
                Ok(chunk) => spec_decode_chunk(value@) == Ok::<ChunkView, PngError>(chunk@)
                    && chunk.wf(),
                Err(e) => spec_decode_chunk(value@) == Err::<ChunkView, PngError>(e),
            },
    {
        let raw = match RawChunk::read(value) {
            Ok(raw) => raw,
            Err(e) => {
                return Err(e);
            },
        };
        proof {
            lemma_raw_layout(value@);
        }
        let contents = slice_subrange(value, 4, 8 + raw.length as usize);
        match raw.check_crc(calculate_crc(contents)) {
            Ok(()) => {},
            Err(e) => {
                return Err(e);
            },
        }
        Ok(Chunk { length: raw.length, chunk_type: raw.chunk_type, data: raw.data, crc: raw.crc })
    }
}

impl vstd::std_specs::convert::TryFromSpecImpl<&[u8]> for Chunk {
    /// A chunk owns its payload on the heap, so the result of `try_from` is
    /// described by that function's own `ensures`, over views.
    open spec fn obeys_try_from_spec() -> bool {
        false
    }

    open spec fn try_from_spec(value: &[u8]) -> Result<Chunk, PngError> {
        arbitrary()
    }
}

/// The wire form of a chunk is twelve bytes longer than its payload.
pub proof fn lemma_encoded_len(c: ChunkView)
    requires
        c.wf(),
    ensures
        c.encode().len() == 12 + c.data.len(),
{
}

/// How a record that was read lies in the buffer: it fills the first twelve
/// bytes and as many more as the length says, type and payload stand
/// together from the fifth byte on, and the bytes are the wire form of the
/// fields.
pub proof fn lemma_raw_layout(bytes: Seq<u8>)
    requires
        spec_read_raw(bytes) is Ok,
    ensures
        ({
            let raw = spec_read_raw(bytes)->Ok_0;
            &&& valid_type_bytes(raw.chunk_type)
            &&& raw.length == raw.data.len()
            &&& bytes.len() >= 12 + raw.length
            &&& raw.chunk_type + raw.data == bytes.subrange(4, 8 + raw.length)
            &&& raw.encode() == bytes.subrange(0, 12 + raw.length)
        }),
{
    reveal(spec_read_raw);
    let raw = spec_read_raw(bytes)->Ok_0;
    let n = raw.length as int;
    assert(raw.chunk_type + raw.data =~= bytes.subrange(4, 8 + n));
    lemma_encode_decode_be32(bytes.subrange(0, 4));
    lemma_encode_decode_be32(bytes.subrange(8 + n, 12 + n));
    assert(spec_decode_be32(bytes.subrange(0, 4)) == spec_decode_be32(bytes));
    assert(raw.encode() =~= bytes.subrange(0, 12 + n));
}

/// A chunk that was read is well formed, and the bytes it was read from are
/// its wire form: writing is the exact inverse of reading.
pub proof fn lemma_decoded_chunk_wf(bytes: Seq<u8>)
    requires
        spec_decode_chunk(bytes) is Ok,
    ensures
        spec_decode_chunk(bytes)->Ok_0.wf(),
        bytes.len() >= 12 + spec_decode_chunk(bytes)->Ok_0.length,
        spec_decode_chunk(bytes)->Ok_0.encode() == bytes.subrange(
            0,
            12 + spec_decode_chunk(bytes)->Ok_0.length,
        ),
{
    lemma_raw_layout(bytes);
}

/// Four fields written in wire order read back as they are, whatever the
/// checksum field holds, provided that the type is letters and the length
/// field counts the payload. Bytes that follow are ignored.
pub proof fn lemma_read_encoded_fields(c: ChunkView, rest: Seq<u8>)
    requires
        valid_type_bytes(c.chunk_type),
        c.length == c.data.len(),
    ensures
        spec_read_raw(c.encode() + rest) == Ok::<ChunkView, PngError>(c),
{
    reveal(spec_read_raw);
    let bytes = c.encode() + rest;
    let n = c.length as int;
    lemma_decode_encode_be32(c.length);
    lemma_decode_encode_be32(c.crc);
    let head = spec_encode_be32(c.length);
    let tail = spec_encode_be32(c.crc);
    assert(bytes.subrange(4, 8) =~= c.chunk_type);
    assert(bytes.subrange(8, 8 + n) =~= c.data);
    assert(bytes.subrange(8 + n, 12 + n) =~= tail);
    assert(spec_decode_be32(bytes) == spec_decode_be32(head));
}

/// Reading the wire form of a well-formed chunk gives the chunk back,
/// whatever bytes follow it.
pub proof fn lemma_chunk_round_trip(c: ChunkView, rest: Seq<u8>)
    requires
        c.wf(),
    ensures
        spec_decode_chunk(c.encode() + rest) == Ok::<ChunkView, PngError>(c),
{
    lemma_read_encoded_fields(c, rest);
}

/// The checksum guards type and payload. Take the wire form of a
/// well-formed chunk and put another valid type or another payload of the
/// same length in place, leaving the length and the stored checksum as they
/// were. If the checksum of the new contents differs from the stored one,
/// reading fails with `ChecksumMismatch`.
pub proof fn lemma_altered_chunk_rejected(
    c: ChunkView,
    chunk_type: Seq<u8>,
    data: Seq<u8>,
    rest: Seq<u8>,
)
    requires
        c.wf(),
        valid_type_bytes(chunk_type),
        data.len() == c.data.len(),
        crc32(chunk_type + data) != crc32(c.chunk_type + c.data),
    ensures
        spec_decode_chunk(
            (ChunkView { length: c.length, chunk_type, data, crc: c.crc }).encode() + rest,
        ) == Err::<ChunkView, PngError>(PngError::ChecksumMismatch),
{
    lemma_read_encoded_fields(ChunkView { length: c.length, chunk_type, data, crc: c.crc }, rest);
}

/// A chunk made by `Chunk::new` reads back from its wire form unchanged.
pub proof fn lemma_new_chunk_round_trip(chunk_type: Seq<u8>, data: Seq<u8>)
    requires
        valid_type_bytes(chunk_type),
        data.len() <= u32::MAX,
    ensures
        spec_new_chunk(chunk_type, data).wf(),
        spec_new_chunk(chunk_type, data).length == data.len(),
        spec_decode_chunk(spec_new_chunk(chunk_type, data).encode()) == Ok::<ChunkView, PngError>(
            spec_new_chunk(chunk_type, data),
        ),
{
    let c = spec_new_chunk(chunk_type, data);
    lemma_chunk_round_trip(c, Seq::empty());
    assert(c.encode() + Seq::<u8>::empty() =~= c.encode());
}

} // verus!
