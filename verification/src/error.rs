//! Failure kinds shared by every operation of the crate.

use vstd::prelude::*;

verus! {

/// Why an operation on a tag, a chunk or a whole file failed.
#[derive(Clone, Copy, Debug, PartialEq, Eq, Structural)]
pub enum PngError {
    /// A chunk type given as text does not have exactly four characters.
    InvalidTagLength,
    /// A chunk type holds a byte that is not an ASCII letter.
    InvalidTagBytes,
    /// The buffer ends before the record it declares is complete.
    UnexpectedEof,
    /// The stored checksum differs from the one computed over type and data.
    ChecksumMismatch,
    /// The buffer does not start with the PNG signature.
    BadSignature,
    /// Bytes remain after the last chunk that are too few to hold a header.
    TrailingBytes,
    /// No chunk of the requested type is present.
    ChunkNotFound,
    /// A payload that should be shown as text is not valid UTF-8.
    InvalidUtf8,
}

/// A failure met while reading a whole file, with the place where it arose.
#[derive(Clone, Copy, Debug, PartialEq, Eq, Structural)]
pub struct ParseError {
    /// What went wrong.
    pub kind: PngError,
    /// Offset into the buffer of the record that could not be read: zero for
    /// a bad signature, otherwise the first byte of the offending chunk.
    pub offset: usize,
}

} // verus!
