use pngme::chunk::Chunk;
use pngme::chunk_type::ChunkType;
use pngme::commands::{decode, encode, print, remove, CommandError};
use pngme::error::{ParseError, PngError};
use pngme::png::{Png, STANDARD_HEADER};
use std::str::FromStr;

fn chunk(chunk_type: &str, data: &[u8]) -> Chunk {
    Chunk::new(ChunkType::from_str(chunk_type).unwrap(), data.to_vec())
}

fn file_of(chunks: &[Chunk]) -> Vec<u8> {
    let mut bytes = STANDARD_HEADER.to_vec();
    for chunk in chunks {
        bytes.extend_from_slice(&chunk.as_bytes());
    }
    bytes
}

fn small_file() -> Vec<u8> {
    file_of(&[chunk("FrSt", b"one"), chunk("IEND", b"")])
}

fn broken_file() -> Vec<u8> {
    let mut bytes = small_file();
    bytes[17] ^= 0x01;
    bytes
}

const BROKEN: CommandError = CommandError::File(ParseError {
    kind: PngError::ChecksumMismatch,
    offset: 8,
});

#[test]
fn encode_appends_the_message_after_every_other_chunk() {
    let file = small_file();
    let out = encode(&file, "RuSt", "This is where your secret message will be!").unwrap();
    let png = Png::try_from(out.as_slice()).unwrap();
    assert_eq!(png.chunks().len(), 3);
    let added = &png.chunks()[2];
    assert_eq!(added.chunk_type().to_string(), "RuSt");
    assert_eq!(added.length(), 42);
    assert_eq!(added.crc(), 2882656334);
    assert_eq!(
        added.data_as_string().unwrap(),
        "This is where your secret message will be!"
    );
    let mut expected = file;
    expected.extend_from_slice(&added.as_bytes());
    assert_eq!(out, expected);
}

#[test]
fn encode_stores_the_utf8_bytes_of_the_message() {
    let out = encode(&small_file(), "teXt", "é✓").unwrap();
    let png = Png::try_from(out.as_slice()).unwrap();
    assert_eq!(png.chunks()[2].data(), "é✓".as_bytes());
    assert_eq!(png.chunks()[2].length(), 5);
    let out = encode(&out, "emPt", "").unwrap();
    let png = Png::try_from(out.as_slice()).unwrap();
    assert_eq!(png.chunks()[3].length(), 0);
}

#[test]
fn encode_with_a_bad_type_fails() {
    assert_eq!(
        encode(&small_file(), "RuS", "message").unwrap_err(),
        CommandError::Request(PngError::InvalidTagLength)
    );
    assert_eq!(
        encode(&small_file(), "RuS7", "message").unwrap_err(),
        CommandError::Request(PngError::InvalidTagBytes)
    );
}

#[test]
fn a_file_that_cannot_be_read_fails_every_command() {
    let file = broken_file();
    assert_eq!(encode(&file, "RuSt", "message").unwrap_err(), BROKEN);
    assert_eq!(decode(&file, "RuSt").unwrap_err(), BROKEN);
    assert_eq!(remove(&file, "RuSt").unwrap_err(), BROKEN);
    assert_eq!(print(&file).unwrap_err(), BROKEN);
    let no_png = CommandError::File(ParseError { kind: PngError::BadSignature, offset: 0 });
    assert_eq!(encode(b"GIF89a", "RuSt", "message").unwrap_err(), no_png);
    assert_eq!(decode(b"GIF89a", "RuSt").unwrap_err(), no_png);
    assert_eq!(remove(b"GIF89a", "RuSt").unwrap_err(), no_png);
    assert_eq!(print(b"GIF89a").unwrap_err(), no_png);
}

#[test]
fn the_file_is_judged_before_the_chunk_type() {
    assert_eq!(encode(&broken_file(), "bad type", "message").unwrap_err(), BROKEN);
}

#[test]
fn decode_returns_the_hidden_message() {
    let file = encode(&small_file(), "RuSt", "secret").unwrap();
    let file = encode(&file, "RuSt", "later secret").unwrap();
    assert_eq!(decode(&file, "RuSt").unwrap(), Some(String::from("secret")));
    assert_eq!(decode(&file, "FrSt").unwrap(), Some(String::from("one")));
    assert_eq!(decode(&file, "IEND").unwrap(), Some(String::new()));
}

#[test]
fn decode_of_an_absent_type_is_none() {
    assert_eq!(decode(&small_file(), "RuSt").unwrap(), None);
    assert_eq!(decode(&small_file(), "not a type").unwrap(), None);
}

#[test]
fn decode_of_a_binary_payload_is_invalid_utf8() {
    let file = file_of(&[chunk("FrSt", b"one"), chunk("biNa", &[0xC0, 0x80])]);
    assert_eq!(
        decode(&file, "biNa").unwrap_err(),
        CommandError::Request(PngError::InvalidUtf8)
    );
}

#[test]
fn remove_returns_the_message_and_the_file_without_the_chunk() {
    let before = small_file();
    let file = encode(&before, "RuSt", "secret").unwrap();
    let (message, after) = remove(&file, "RuSt").unwrap();
    assert_eq!(message, "secret");
    assert_eq!(after, before);
    assert_eq!(
        remove(&after, "RuSt").unwrap_err(),
        CommandError::Request(PngError::ChunkNotFound)
    );
}

#[test]
fn remove_takes_the_first_of_two() {
    let file = file_of(&[
        chunk("RuSt", b"first"),
        chunk("miDl", b"between"),
        chunk("RuSt", b"second"),
    ]);
    let (message, after) = remove(&file, "RuSt").unwrap();
    assert_eq!(message, "first");
    assert_eq!(after, file_of(&[chunk("miDl", b"between"), chunk("RuSt", b"second")]));
}

#[test]
fn remove_of_a_binary_payload_is_invalid_utf8() {
    let file = file_of(&[chunk("biNa", &[0xFF])]);
    assert_eq!(
        remove(&file, "biNa").unwrap_err(),
        CommandError::Request(PngError::InvalidUtf8)
    );
}

#[test]
fn print_lists_every_chunk() {
    let file = encode(&small_file(), "RuSt", "secret").unwrap();
    assert_eq!(print(&file).unwrap(), "FrSt: one\nIEND: \nRuSt: secret\n");
    assert_eq!(print(&STANDARD_HEADER).unwrap(), "");
}
