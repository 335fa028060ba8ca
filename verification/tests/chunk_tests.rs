use pngme::Chunk;
use pngme::ChunkError;
use pngme::ChunkType;

fn testing_chunk() -> Chunk {
    let data_length: u32 = 42;
    let chunk_type = "RuSt".as_bytes();
    let message_bytes = "This is where your secret message will be!".as_bytes();
    let crc: u32 = 2882656334;

    let chunk_data: Vec<u8> = data_length
        .to_be_bytes()
        .iter()
        .chain(chunk_type.iter())
        .chain(message_bytes.iter())
        .chain(crc.to_be_bytes().iter())
        .copied()
        .collect();

    Chunk::try_from(chunk_data.as_ref()).unwrap()
}

#[test]
fn test_new_chunk() {
    let chunk_type = ChunkType::from_str("RuSt").unwrap();
    let data = "This is where your secret message will be!"
        .as_bytes()
        .to_vec();
    let chunk = Chunk::new(chunk_type, data);
    assert_eq!(chunk.length(), 42);
    assert_eq!(chunk.crc(), 2882656334);
}

#[test]
fn test_chunk_length() {
    let chunk = testing_chunk();
    assert_eq!(chunk.length(), 42);
}

#[test]
fn test_chunk_type() {
    let chunk = testing_chunk();
    assert_eq!(chunk.chunk_type().to_string(), String::from("RuSt"));
}

#[test]
fn test_chunk_string() {
    let chunk = testing_chunk();
    let chunk_string = chunk.data_as_string().unwrap();
    let expected_chunk_string = String::from("This is where your secret message will be!");
    assert_eq!(chunk_string, expected_chunk_string);
}

#[test]
fn test_chunk_crc() {
    let chunk = testing_chunk();
    assert_eq!(chunk.crc(), 2882656334);
}

#[test]
fn test_valid_chunk_from_bytes() {
    let data_length: u32 = 42;
    let chunk_type = "RuSt".as_bytes();
    let message_bytes = "This is where your secret message will be!".as_bytes();
    let crc: u32 = 2882656334;

    let chunk_data: Vec<u8> = data_length
        .to_be_bytes()
        .iter()
        .chain(chunk_type.iter())
        .chain(message_bytes.iter())
        .chain(crc.to_be_bytes().iter())
        .copied()
        .collect();

    let chunk = Chunk::try_from(chunk_data.as_ref()).unwrap();

    let chunk_string = chunk.data_as_string().unwrap();
    let expected_chunk_string = String::from("This is where your secret message will be!");

    assert_eq!(chunk.length(), 42);
    assert_eq!(chunk.chunk_type().to_string(), String::from("RuSt"));
    assert_eq!(chunk_string, expected_chunk_string);
    assert_eq!(chunk.crc(), 2882656334);
}

#[test]
fn test_invalid_chunk_from_bytes() {
    let data_length: u32 = 42;
    let chunk_type = "RuSt".as_bytes();
    let message_bytes = "This is where your secret message will be!".as_bytes();
    let crc: u32 = 2882656333;

    let chunk_data: Vec<u8> = data_length
        .to_be_bytes()
        .iter()
        .chain(chunk_type.iter())
        .chain(message_bytes.iter())
        .chain(crc.to_be_bytes().iter())
        .copied()
        .collect();

    let chunk = Chunk::try_from(chunk_data.as_ref());

    assert!(chunk.is_err());
}

#[test]
pub fn test_chunk_trait_impls() {
    let data_length: u32 = 42;
    let chunk_type = "RuSt".as_bytes();
    let message_bytes = "This is where your secret message will be!".as_bytes();
    let crc: u32 = 2882656334;

    let chunk_data: Vec<u8> = data_length
        .to_be_bytes()
        .iter()
        .chain(chunk_type.iter())
        .chain(message_bytes.iter())
        .chain(crc.to_be_bytes().iter())
        .copied()
        .collect();

    let chunk: Chunk = Chunk::try_from(chunk_data.as_ref()).unwrap();

    let _chunk_string = format!("{:?}", chunk);
}

#[test]
fn test_chunk_roundtrip_bytes() {
    let chunk = testing_chunk();
    let bytes = chunk.as_bytes();
    let reparsed = Chunk::try_from(bytes.as_ref()).unwrap();
    assert_eq!(reparsed.as_bytes(), bytes);
    assert_eq!(reparsed.crc(), chunk.crc());
    assert_eq!(reparsed.data(), chunk.data());
}

#[test]
fn test_chunk_too_short_fails() {
    for len in 0..12 {
        let bytes: Vec<u8> = vec![0; len];
        let r = Chunk::try_from(bytes.as_ref());
        assert_eq!(r.unwrap_err(), ChunkError::InvalidInput(len));
    }
}

#[test]
fn test_chunk_truncated_payload_fails() {
    // declares 42 data bytes but supplies none after the type
    let data_length: u32 = 42;
    let chunk_type = "RuSt".as_bytes();
    let crc: u32 = 2882656334;
    let chunk_data: Vec<u8> = data_length
        .to_be_bytes()
        .iter()
        .chain(chunk_type.iter())
        .chain(crc.to_be_bytes().iter())
        .copied()
        .collect();
    let r = Chunk::try_from(chunk_data.as_ref());
    assert_eq!(r.unwrap_err(), ChunkError::InvalidInput(12));
}

#[test]
fn test_chunk_crc_bit_flip_sensitivity() {
    // flipping any single bit of the type or data bytes, with the stored
    // CRC held fixed, must fail with an InvalidCrc error
    let chunk = testing_chunk();
    let good = chunk.as_bytes();
    for byte_index in 4..(good.len() - 4) {
        for bit in 0..8 {
            let mut bad = good.clone();
            bad[byte_index] ^= 1u8 << bit;
            let r = Chunk::try_from(bad.as_ref());
            match r {
                Err(ChunkError::InvalidCrc(_, declared)) => {
                    assert_eq!(declared, 2882656334);
                }
                Err(ChunkError::InvalidChunkType(_)) => {
                    // a flip in the type bytes may leave the letter range
                    assert!((4..8).contains(&byte_index));
                }
                other => panic!("expected a failure, got {:?}", other),
            }
        }
    }
}

#[test]
fn test_chunk_invalid_utf8_payload() {
    let chunk_type = ChunkType::from_str("RuSt").unwrap();
    let chunk = Chunk::new(chunk_type, vec![0xff, 0xfe, 0xfd]);
    assert_eq!(chunk.data_as_string(), Err(ChunkError::InvalidUtf8));
}
