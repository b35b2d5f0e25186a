//! Chunk-level codec for PNG files.
//!
//! A PNG file is an eight-byte signature followed by a sequence of chunks.
//! Each chunk is a length-prefixed, type-tagged and checksummed record. This
//! crate reads such a file into a [`png::Png`], lets the caller look chunks
//! up, append and remove them, and writes the byte stream back out. Pixel data
//! is never decoded: a chunk's payload is an opaque byte string.
//!
//! Every function is verified against a mathematical model of the wire
//! format; the model lives next to the type it describes.
//!
//! - [`chunk_type`]: the four-letter type of a chunk
//! - [`chunk`]: one chunk, read from and written to bytes
//! - [`png`]: a whole file, with lookup, append and removal
//! - [`commands`]: what the command-line tool computes from a file's bytes
//! - [`be32`], [`checksum`], [`text`]: encodings that the above rest on
//! - [`error`]: the failure kinds

pub mod be32;
pub mod checksum;
pub mod chunk;
pub mod chunk_type;
pub mod commands;
pub mod error;
pub mod png;
pub mod text;
