use pngme::chunk::Chunk;
use pngme::chunk_type::ChunkType;
use pngme::error::{ParseError, PngError};
use pngme::png::{Png, STANDARD_HEADER};
use std::str::FromStr;

fn chunk_from_strings(chunk_type: &str, data: &str) -> Chunk {
    let chunk_type = ChunkType::from_str(chunk_type).unwrap();
    Chunk::new(chunk_type, data.bytes().collect())
}

fn testing_chunks() -> Vec<Chunk> {
    vec![
        chunk_from_strings("FrSt", "I am the first chunk"),
        chunk_from_strings("miDl", "I am another chunk"),
        chunk_from_strings("LASt", "I am the last chunk"),
    ]
}

fn file_bytes(chunks: &[Chunk]) -> Vec<u8> {
    let mut bytes = STANDARD_HEADER.to_vec();
    for chunk in chunks {
        bytes.extend_from_slice(&chunk.as_bytes());
    }
    bytes
}

fn testing_png() -> Png {
    Png::try_from(file_bytes(&testing_chunks()).as_slice()).unwrap()
}

#[test]
fn signature_is_the_png_magic() {
    assert_eq!(STANDARD_HEADER, [0x89, 0x50, 0x4E, 0x47, 0x0D, 0x0A, 0x1A, 0x0A]);
    assert_eq!(*testing_png().header(), STANDARD_HEADER);
}

#[test]
fn png_of_the_signature_alone_is_empty() {
    let png = Png::try_from(&STANDARD_HEADER[..]).unwrap();
    assert_eq!(png.chunks().len(), 0);
    assert_eq!(png.as_bytes(), STANDARD_HEADER.to_vec());
    assert_eq!(png.to_string(), "");
}

#[test]
fn png_from_valid_bytes_keeps_the_chunks_in_order() {
    let png = testing_png();
    assert_eq!(png.chunks().len(), 3);
    assert_eq!(png.chunks(), testing_chunks().as_slice());
    assert_eq!(png.chunks()[0].chunk_type().to_string(), "FrSt");
    assert_eq!(png.chunks()[1].chunk_type().to_string(), "miDl");
    assert_eq!(png.chunks()[2].chunk_type().to_string(), "LASt");
}

#[test]
fn png_with_a_wrong_signature_is_rejected() {
    let mut bytes = file_bytes(&testing_chunks());
    bytes[0] = 13;
    assert_eq!(
        Png::try_from(bytes.as_slice()).unwrap_err(),
        ParseError { kind: PngError::BadSignature, offset: 0 }
    );
    for index in 0..8 {
        let mut bytes = file_bytes(&testing_chunks());
        bytes[index] ^= 0x01;
        assert_eq!(
            Png::try_from(bytes.as_slice()).unwrap_err().kind,
            PngError::BadSignature
        );
    }
}

#[test]
fn bad_signature_wins_over_what_follows() {
    let mut bytes = vec![13, 80, 78, 71, 13, 10, 26, 10];
    bytes.extend_from_slice(&[1, 2, 3]);
    assert_eq!(
        Png::try_from(bytes.as_slice()).unwrap_err(),
        ParseError { kind: PngError::BadSignature, offset: 0 }
    );
    let mut bytes = vec![13, 80, 78, 71, 13, 10, 26, 10];
    bytes.extend_from_slice(&chunk_from_strings("FrSt", "fine").as_bytes());
    assert_eq!(
        Png::try_from(bytes.as_slice()).unwrap_err().kind,
        PngError::BadSignature
    );
}

#[test]
fn buffer_shorter_than_the_signature_is_a_bad_signature() {
    for cut in 0..8 {
        assert_eq!(
            Png::try_from(&STANDARD_HEADER[..cut]).unwrap_err(),
            ParseError { kind: PngError::BadSignature, offset: 0 }
        );
    }
}

#[test]
fn leftover_bytes_are_trailing_bytes() {
    let whole = file_bytes(&testing_chunks());
    for extra in 1..8 {
        let mut bytes = whole.clone();
        bytes.extend_from_slice(&vec![0u8; extra]);
        assert_eq!(
            Png::try_from(bytes.as_slice()).unwrap_err(),
            ParseError { kind: PngError::TrailingBytes, offset: whole.len() }
        );
    }
    let mut bytes = STANDARD_HEADER.to_vec();
    bytes.push(0);
    assert_eq!(
        Png::try_from(bytes.as_slice()).unwrap_err(),
        ParseError { kind: PngError::TrailingBytes, offset: 8 }
    );
}

#[test]
fn a_truncated_chunk_is_an_unexpected_eof_at_its_start() {
    let chunks = testing_chunks();
    let whole = file_bytes(&chunks);
    let last_start = whole.len() - chunks[2].as_bytes().len();
    for cut in (last_start + 8)..whole.len() {
        assert_eq!(
            Png::try_from(&whole[..cut]).unwrap_err(),
            ParseError { kind: PngError::UnexpectedEof, offset: last_start }
        );
    }
    assert!(Png::try_from(&whole[..last_start]).is_ok());
}

#[test]
fn a_chunk_failure_keeps_its_kind_and_carries_the_offset() {
    let chunks = testing_chunks();
    let second_start = 8 + chunks[0].as_bytes().len();

    let mut bytes = file_bytes(&chunks);
    bytes[second_start + 4] = b'1';
    assert_eq!(
        Png::try_from(bytes.as_slice()).unwrap_err(),
        ParseError { kind: PngError::InvalidTagBytes, offset: second_start }
    );

    let mut bytes = file_bytes(&chunks);
    bytes[second_start + 9] ^= 0x40;
    assert_eq!(
        Png::try_from(bytes.as_slice()).unwrap_err(),
        ParseError { kind: PngError::ChecksumMismatch, offset: second_start }
    );

    let mut bytes = file_bytes(&chunks);
    let last = bytes.len() - 1;
    bytes[last] ^= 0x01;
    assert_eq!(
        Png::try_from(bytes.as_slice()).unwrap_err(),
        ParseError {
            kind: PngError::ChecksumMismatch,
            offset: bytes.len() - chunks[2].as_bytes().len(),
        }
    );

    let mut bytes = file_bytes(&chunks);
    bytes[8 + 4] = b'!';
    assert_eq!(
        Png::try_from(bytes.as_slice()).unwrap_err(),
        ParseError { kind: PngError::InvalidTagBytes, offset: 8 }
    );
}

#[test]
fn as_bytes_reproduces_the_file() {
    let bytes = file_bytes(&testing_chunks());
    let png = Png::try_from(bytes.as_slice()).unwrap();
    assert_eq!(png.as_bytes(), bytes);
    let again = Png::try_from(png.as_bytes().as_slice()).unwrap();
    assert_eq!(again.as_bytes(), png.as_bytes());
    assert_eq!(again.chunks(), png.chunks());
}

#[test]
fn append_chunk_adds_at_the_end() {
    let mut png = testing_png();
    png.append_chunk(chunk_from_strings("TeSt", "Message"));
    assert_eq!(png.chunks().len(), 4);
    assert_eq!(png.chunks()[3], chunk_from_strings("TeSt", "Message"));
    assert_eq!(&png.chunks()[..3], testing_chunks().as_slice());
    let mut expected = file_bytes(&testing_chunks());
    expected.extend_from_slice(&chunk_from_strings("TeSt", "Message").as_bytes());
    assert_eq!(png.as_bytes(), expected);
}

#[test]
fn append_chunk_keeps_duplicates() {
    let mut png = testing_png();
    png.append_chunk(chunk_from_strings("FrSt", "again"));
    png.append_chunk(chunk_from_strings("FrSt", "again"));
    assert_eq!(png.chunks().len(), 5);
}

#[test]
fn chunk_by_type_finds_the_first_match() {
    let mut png = testing_png();
    png.append_chunk(chunk_from_strings("miDl", "a second one"));
    let chunk = png.chunk_by_type("FrSt").unwrap();
    assert_eq!(chunk.chunk_type().to_string(), "FrSt");
    assert_eq!(chunk.data_as_string().unwrap(), "I am the first chunk");
    let chunk = png.chunk_by_type("miDl").unwrap();
    assert_eq!(chunk.data_as_string().unwrap(), "I am another chunk");
    let chunk = png.chunk_by_type("LASt").unwrap();
    assert_eq!(chunk.data_as_string().unwrap(), "I am the last chunk");
}

#[test]
fn chunk_by_type_on_an_absent_type_is_none() {
    let png = testing_png();
    assert!(png.chunk_by_type("TeSt").is_none());
    assert!(png.chunk_by_type("frst").is_none());
    assert!(png.chunk_by_type("FRST").is_none());
    assert!(png.chunk_by_type("").is_none());
    assert!(png.chunk_by_type("FrS").is_none());
    assert!(png.chunk_by_type("FrStX").is_none());
    assert!(png.chunk_by_type("Fr5t").is_none());
    assert!(Png::try_from(&STANDARD_HEADER[..]).unwrap().chunk_by_type("FrSt").is_none());
}

#[test]
fn remove_chunk_takes_the_first_match_only() {
    let mut png = testing_png();
    png.append_chunk(chunk_from_strings("FrSt", "I am a later chunk"));
    let removed = png.remove_chunk("FrSt").unwrap();
    assert_eq!(removed, chunk_from_strings("FrSt", "I am the first chunk"));
    assert_eq!(png.chunks().len(), 3);
    assert_eq!(png.chunks()[0], chunk_from_strings("miDl", "I am another chunk"));
    assert_eq!(png.chunks()[1], chunk_from_strings("LASt", "I am the last chunk"));
    assert_eq!(png.chunks()[2], chunk_from_strings("FrSt", "I am a later chunk"));
    let removed = png.remove_chunk("FrSt").unwrap();
    assert_eq!(removed, chunk_from_strings("FrSt", "I am a later chunk"));
    assert_eq!(png.remove_chunk("FrSt").unwrap_err(), PngError::ChunkNotFound);
}

#[test]
fn remove_chunk_from_the_middle_keeps_the_order() {
    let mut png = testing_png();
    let removed = png.remove_chunk("miDl").unwrap();
    assert_eq!(removed.data_as_string().unwrap(), "I am another chunk");
    let chunks = testing_chunks();
    assert_eq!(png.as_bytes(), file_bytes(&[chunks[0].clone(), chunks[2].clone()]));
}

#[test]
fn remove_chunk_on_an_absent_type_is_chunk_not_found() {
    let mut png = testing_png();
    let before = png.as_bytes();
    assert_eq!(png.remove_chunk("TeSt").unwrap_err(), PngError::ChunkNotFound);
    assert_eq!(png.remove_chunk("nope!").unwrap_err(), PngError::ChunkNotFound);
    assert_eq!(png.remove_chunk("").unwrap_err(), PngError::ChunkNotFound);
    assert_eq!(png.as_bytes(), before);
}

#[test]
fn append_then_remove_restores_the_file() {
    let mut png = testing_png();
    let before = png.as_bytes();
    let appended = chunk_from_strings("TeSt", "Message");
    png.append_chunk(appended.clone());
    assert_ne!(png.as_bytes(), before);
    let removed = png.remove_chunk("TeSt").unwrap();
    assert_eq!(removed, appended);
    assert_eq!(png.as_bytes(), before);
}

#[test]
fn append_then_remove_with_an_earlier_chunk_of_the_type() {
    let mut png = testing_png();
    let before = png.as_bytes();
    let appended = chunk_from_strings("miDl", "Message");
    png.append_chunk(appended.clone());
    let removed = png.remove_chunk("miDl").unwrap();
    assert_eq!(removed, chunk_from_strings("miDl", "I am another chunk"));
    assert_ne!(removed, appended);
    assert_ne!(png.as_bytes(), before);
}

#[test]
fn to_string_lists_the_chunks() {
    let mut png = testing_png();
    assert_eq!(
        png.to_string(),
        "FrSt: I am the first chunk\nmiDl: I am another chunk\nLASt: I am the last chunk\n"
    );
    png.append_chunk(Chunk::new(ChunkType::from_str("biNa").unwrap(), vec![0xFF, 0x00]));
    png.append_chunk(Chunk::new(ChunkType::from_str("IEND").unwrap(), Vec::new()));
    assert_eq!(
        png.to_string(),
        "FrSt: I am the first chunk\nmiDl: I am another chunk\nLASt: I am the last chunk\nbiNa: <binary>\nIEND: \n"
    );
}

#[test]
fn a_real_file_round_trips() {
    let bytes: Vec<u8> = vec![
        0x89, 0x50, 0x4E, 0x47, 0x0D, 0x0A, 0x1A, 0x0A, 0x00, 0x00, 0x00, 0x0D, 0x49, 0x48, 0x44,
        0x52, 0x00, 0x00, 0x00, 0x01, 0x00, 0x00, 0x00, 0x01, 0x08, 0x06, 0x00, 0x00, 0x00, 0x1F,
        0x15, 0xC4, 0x89, 0x00, 0x00, 0x00, 0x0A, 0x49, 0x44, 0x41, 0x54, 0x78, 0x9C, 0x63, 0x00,
        0x01, 0x00, 0x00, 0x05, 0x00, 0x01, 0x0D, 0x0A, 0x2D, 0xB4, 0x00, 0x00, 0x00, 0x00, 0x49,
        0x45, 0x4E, 0x44, 0xAE, 0x42, 0x60, 0x82,
    ];
    let png = Png::try_from(bytes.as_slice()).unwrap();
    assert_eq!(png.chunks().len(), 3);
    assert_eq!(png.chunks()[0].chunk_type().to_string(), "IHDR");
    assert_eq!(png.chunks()[0].length(), 13);
    assert_eq!(png.chunks()[0].crc(), 0x1F15_C489);
    assert_eq!(png.chunks()[1].chunk_type().to_string(), "IDAT");
    assert_eq!(png.chunks()[1].length(), 10);
    assert_eq!(png.chunks()[2].chunk_type().to_string(), "IEND");
    assert_eq!(png.chunks()[2].length(), 0);
    assert_eq!(png.as_bytes(), bytes);
    assert!(png.chunk_by_type("IDAT").is_some());
    assert!(png.chunk_by_type("tEXt").is_none());
}
