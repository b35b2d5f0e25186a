//! What the four commands of the tool compute from the bytes of a file.
//!
//! Reading and writing files and printing are left to the caller. These
//! functions take the contents of the file and the arguments of the command,
//! and return what is to be written or shown.

use crate::chunk::{spec_new_chunk, Chunk, ChunkView};
use crate::chunk_type::{spec_type_from_text, ChunkType};
use crate::error::{ParseError, PngError};
use crate::png::{spec_decode_png, spec_encode_png, spec_position, spec_render, Png};
use std::str::FromStr;
use vstd::prelude::*;
use vstd::slice::slice_to_vec;
use vstd::utf8::{decode_utf8, encode_utf8, valid_utf8};

verus! {

/// Why a command failed.
#[derive(Clone, Copy, Debug, PartialEq, Eq, Structural)]
pub enum CommandError {
    /// The bytes are no PNG file.
    File(ParseError),
    /// The file is sound, but the request cannot be met.
    Request(PngError),
}

/// What `encode` yields: the file with one more chunk at its end, whose
/// type is `chunk_type` and whose payload is the UTF-8 encoding of `message`.
/// A file that cannot be read is reported before a text that is no chunk
/// type.
pub open spec fn spec_encode(file: Seq<u8>, chunk_type: Seq<char>, message: Seq<char>) -> Result<
    Seq<u8>,
    CommandError,
> {
    match spec_decode_png(file) {
        Err(e) => Err(CommandError::File(e)),
        Ok(chunks) => match spec_type_from_text(chunk_type) {
            Err(e) => Err(CommandError::Request(e)),
            Ok(t) => Ok(spec_encode_png(chunks.push(spec_new_chunk(t, encode_utf8(message))))),
        },
    }
}

/// What `decode` yields: the payload of the first chunk of the type as
/// text, or `None` where the file holds no chunk of the type.
pub open spec fn spec_decode(file: Seq<u8>, chunk_type: Seq<char>) -> Result<
    Option<Seq<char>>,
    CommandError,
> {
    match spec_decode_png(file) {
        Err(e) => Err(CommandError::File(e)),
        Ok(chunks) => match spec_position(chunks, chunk_type) {
            None => Ok(None),
            Some(i) => if valid_utf8(chunks[i].data) {
                Ok(Some(decode_utf8(chunks[i].data)))
            } else {
                Err(CommandError::Request(PngError::InvalidUtf8))
            },
        },
    }
}

/// What `remove` yields: the payload of the first chunk of the type as
/// text, and the file without that chunk.
pub open spec fn spec_remove(file: Seq<u8>, chunk_type: Seq<char>) -> Result<
    (Seq<char>, Seq<u8>),
    CommandError,
> {
    match spec_decode_png(file) {
        Err(e) => Err(CommandError::File(e)),
        Ok(chunks) => match spec_position(chunks, chunk_type) {
            None => Err(CommandError::Request(PngError::ChunkNotFound)),
            Some(i) => if valid_utf8(chunks[i].data) {
                Ok((decode_utf8(chunks[i].data), spec_encode_png(chunks.remove(i))))
            } else {
                Err(CommandError::Request(PngError::InvalidUtf8))
            },
        },
    }
}

/// What `print` yields: the listing of the file.
pub open spec fn spec_print(file: Seq<u8>) -> Result<Seq<char>, CommandError> {
    match spec_decode_png(file) {
        Err(e) => Err(CommandError::File(e)),
        Ok(chunks) => Ok(spec_render(chunks)),
    }
}

/// Reads the file, or says why it cannot be read.
fn load(file_bytes: &[u8]) -> (r: Result<Png, CommandError>)
    ensures
        match r {
            Ok(png) => spec_decode_png(file_bytes@) == Ok::<Seq<ChunkView>, ParseError>(png@)
                && png.wf(),
            Err(e) => spec_decode_png(file_bytes@) is Err && e == CommandError::File(
                spec_decode_png(file_bytes@)->Err_0,
            ),
        },
{
    match Png::try_from(file_bytes) {
        Ok(png) => Ok(png),
        Err(e) => Err(CommandError::File(e)),
    }
}

/// Hides `message` in a file: returns the bytes of the file with one more
/// chunk at its end, of the given type and with the message as its payload.
/// The message must fit the four-byte length field of a chunk.
pub fn encode(file_bytes: &[u8], chunk_type: &str, message: &str) -> (r: Result<
    Vec<u8>,
    CommandError,
>)
    requires
        encode_utf8(message@).len() <= u32::MAX,
    ensures
        match r {
            Ok(out) => spec_encode(file_bytes@, chunk_type@, message@) == Ok::<
                Seq<u8>,
                CommandError,
            >(out@),
            Err(e) => spec_encode(file_bytes@, chunk_type@, message@) == Err::<
                Seq<u8>,
                CommandError,
            >(e),
        },
{
    let mut png = match load(file_bytes) {
        Ok(png) => png,
        Err(e) => {
            return Err(e);
        },
    };
    let chunk_type = match ChunkType::from_str(chunk_type) {
        Ok(t) => t,
        Err(e) => {
            return Err(CommandError::Request(e));
        },
    };
    let new_chunk = Chunk::new(chunk_type, slice_to_vec(message.as_bytes()));
    png.append_chunk(new_chunk);
    Ok(png.as_bytes())
}

/// Finds the message hidden in a file under the given type: the payload of
/// the first chunk of that type, as text. `None` says that the file holds no
/// such chunk; a chunk whose payload is no text fails with `InvalidUtf8`.
pub fn decode(file_bytes: &[u8], chunk_type: &str) -> (r: Result<Option<String>, CommandError>)
    ensures
        match r {
            Ok(Some(text)) => spec_decode(file_bytes@, chunk_type@) == Ok::<
                Option<Seq<char>>,
                CommandError,
            >(Some(text@)),
            Ok(None) => spec_decode(file_bytes@, chunk_type@) == Ok::<
                Option<Seq<char>>,
                CommandError,
            >(None),
            Err(e) => spec_decode(file_bytes@, chunk_type@) == Err::<
                Option<Seq<char>>,
                CommandError,
            >(e),
        },
{
    let png = match load(file_bytes) {
        Ok(png) => png,
        Err(e) => {
            return Err(e);
        },
    };
    match png.chunk_by_type(chunk_type) {
        None => Ok(None),
        Some(chunk) => match chunk.data_as_string() {
            Ok(text) => Ok(Some(text)),
            Err(e) => Err(CommandError::Request(e)),
        },
    }
}

/// Takes the first chunk of the given type out of a file: returns its
/// payload as text, and the bytes of the file without it. A file that holds
/// no such chunk fails with `ChunkNotFound`, a chunk whose payload is no text
/// with `InvalidUtf8`.
pub fn remove(file_bytes: &[u8], chunk_type: &str) -> (r: Result<(String, Vec<u8>), CommandError>)
    ensures
        match r {
            Ok((text, out)) => spec_remove(file_bytes@, chunk_type@) == Ok::<
                (Seq<char>, Seq<u8>),
                CommandError,
            >((text@, out@)),
            Err(e) => spec_remove(file_bytes@, chunk_type@) == Err::<
                (Seq<char>, Seq<u8>),
                CommandError,
            >(e),
        },
{
    let mut png = match load(file_bytes) {
        Ok(png) => png,
        Err(e) => {
            return Err(e);
        },
    };
    let removed = match png.remove_chunk(chunk_type) {
        Ok(chunk) => chunk,
        Err(e) => {
            return Err(CommandError::Request(e));
        },
    };
    match removed.data_as_string() {
        Ok(text) => Ok((text, png.as_bytes())),
        Err(e) => Err(CommandError::Request(e)),
    }
}

/// Lists the chunks of a file, one line for each.
pub fn print(file_bytes: &[u8]) -> (r: Result<String, CommandError>)
    ensures
        match r {
            Ok(listing) => spec_print(file_bytes@) == Ok::<Seq<char>, CommandError>(listing@),
            Err(e) => spec_print(file_bytes@) == Err::<Seq<char>, CommandError>(e),
        },
{
    match load(file_bytes) {
        Ok(png) => Ok(png.to_string()),
        Err(e) => Err(e),
    }
}

} // verus!
