use pngme::Chunk;
use pngme::ChunkError;
use pngme::ChunkType;
use pngme::Png;
use pngme::PngError;

const SIGNATURE: [u8; 8] = [137, 80, 78, 71, 13, 10, 26, 10];

fn chunk_from(chunk_type: &str, data: &str) -> Chunk {
    let ct = ChunkType::from_str(chunk_type).unwrap();
    Chunk::new(ct, data.as_bytes().to_vec())
}

fn testing_png_bytes() -> Vec<u8> {
    let chunks = [
        chunk_from("IHDR", "not actually a header"),
        chunk_from("RuSt", "This is where your secret message will be!"),
        chunk_from("IEND", ""),
    ];
    let mut bytes: Vec<u8> = SIGNATURE.to_vec();
    for chunk in chunks.iter() {
        bytes.extend_from_slice(&chunk.as_bytes());
    }
    bytes
}

#[test]
fn test_png_parse_and_serialize_round_trip() {
    let bytes = testing_png_bytes();
    let png = Png::try_from(bytes.as_ref()).unwrap();
    let serialized = png.as_bytes();
    assert_eq!(serialized, bytes);
    let reparsed = Png::try_from(serialized.as_ref()).unwrap();
    assert_eq!(reparsed.as_bytes(), bytes);
    assert_eq!(reparsed.chunks().len(), png.chunks().len());
}

#[test]
fn test_png_parse_empty_chunk_list() {
    let bytes: Vec<u8> = SIGNATURE.to_vec();
    let png = Png::try_from(bytes.as_ref()).unwrap();
    assert_eq!(png.chunks().len(), 0);
    assert_eq!(png.as_bytes(), bytes);
}

#[test]
fn test_png_invalid_signature() {
    let mut bytes = testing_png_bytes();
    bytes[0] = 13;
    let r = Png::try_from(bytes.as_ref());
    assert!(matches!(r, Err(PngError::InvalidSignature)));
    let r = Png::try_from(&bytes[0..4]);
    assert!(matches!(r, Err(PngError::InvalidSignature)));
}

#[test]
fn test_png_propagates_chunk_error() {
    let mut bytes = testing_png_bytes();
    // corrupt one data byte of the second chunk, keeping its stored CRC
    let second_chunk_data_start = 8 + 12 + 21 + 8;
    bytes[second_chunk_data_start] ^= 0x01;
    let r = Png::try_from(bytes.as_ref());
    assert!(matches!(r, Err(PngError::Chunk(ChunkError::InvalidCrc(_, _)))));
}

#[test]
fn test_png_chunk_by_type() {
    let bytes = testing_png_bytes();
    let png = Png::try_from(bytes.as_ref()).unwrap();
    let found = png.chunk_by_type("RuSt").unwrap();
    assert_eq!(
        found.data_as_string().unwrap(),
        "This is where your secret message will be!"
    );
    assert!(png.chunk_by_type("TEST").is_none());
}

#[test]
fn test_png_chunk_by_type_first_match() {
    let mut png = Png::try_from(testing_png_bytes().as_ref()).unwrap();
    png.append_chunk(chunk_from("TEST", "first"));
    png.append_chunk(chunk_from("TEST", "second"));
    let found = png.chunk_by_type("TEST").unwrap();
    assert_eq!(found.data_as_string().unwrap(), "first");
}

#[test]
fn test_png_append_then_remove_restores_bytes() {
    let bytes = testing_png_bytes();
    let mut png = Png::try_from(bytes.as_ref()).unwrap();
    png.append_chunk(chunk_from("TEST", "Message"));
    assert_ne!(png.as_bytes(), bytes);
    let removed = png.remove_chunk("TEST").unwrap();
    assert_eq!(removed.data_as_string().unwrap(), "Message");
    assert_eq!(png.as_bytes(), bytes);
}

#[test]
fn test_png_remove_absent_type_fails_unchanged() {
    let bytes = testing_png_bytes();
    let mut png = Png::try_from(bytes.as_ref()).unwrap();
    let r = png.remove_chunk("TEST");
    assert!(matches!(r, Err(PngError::ChunkNotFound)));
    assert_eq!(png.as_bytes(), bytes);
}

#[test]
fn test_png_find_possible_messages() {
    let png = Png::try_from(testing_png_bytes().as_ref()).unwrap();
    let found = png.find_possible_messages().unwrap();
    assert_eq!(found.len(), 1);
    assert_eq!(
        found[0].data_as_string().unwrap(),
        "This is where your secret message will be!"
    );
}

#[test]
fn test_png_find_possible_messages_none() {
    let chunks = [chunk_from("IHDR", "x"), chunk_from("IEND", "")];
    let mut bytes: Vec<u8> = SIGNATURE.to_vec();
    for chunk in chunks.iter() {
        bytes.extend_from_slice(&chunk.as_bytes());
    }
    let png = Png::try_from(bytes.as_ref()).unwrap();
    assert!(png.find_possible_messages().is_none());
}
