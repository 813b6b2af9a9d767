use pngme::chunk::{Chunk, ChunkError};
use pngme::chunk_type::{ChunkType, ChunkTypeError};
use std::str::FromStr;

fn testing_chunk() -> Chunk {
    let data_length: u32 = 42;
    let chunk_type = "RuSt".as_bytes();
    let message_bytes = "This is where your secret message will be!".as_bytes();
    let crc: u32 = 2882656334;

    let chunk_data: Vec<u8> = data_length
        .to_be_bytes()
        .iter()
        .chain(chunk_type.iter())
        .chain(message_bytes.iter())
        .chain(crc.to_be_bytes().iter())
        .copied()
        .collect();

    Chunk::try_from(chunk_data.as_ref()).unwrap()
}

fn framed(length: u32, chunk_type: &[u8], data: &[u8], crc: u32) -> Vec<u8> {
    length
        .to_be_bytes()
        .iter()
        .chain(chunk_type.iter())
        .chain(data.iter())
        .chain(crc.to_be_bytes().iter())
        .copied()
        .collect()
}

#[test]
fn test_new_chunk() {
    let chunk_type = ChunkType::from_str("RuSt").unwrap();
    let data = "This is where your secret message will be!"
        .as_bytes()
        .to_vec();
    let chunk = Chunk::new(chunk_type, data);
    assert_eq!(chunk.length(), 42);
    assert_eq!(chunk.crc(), 2882656334);
}

#[test]
fn test_chunk_length() {
    let chunk = testing_chunk();
    assert_eq!(chunk.length(), 42);
}

#[test]
fn test_chunk_type() {
    let chunk = testing_chunk();
    assert_eq!(chunk.chunk_type().to_string(), String::from("RuSt"));
}

#[test]
fn test_chunk_string() {
    let chunk = testing_chunk();
    let chunk_string = chunk.data_as_string().unwrap();
    let expected_chunk_string = String::from("This is where your secret message will be!");
    assert_eq!(chunk_string, expected_chunk_string);
}

#[test]
fn test_chunk_crc() {
    let chunk = testing_chunk();
    assert_eq!(chunk.crc(), 2882656334);
}

#[test]
fn test_valid_chunk_from_bytes() {
    let data_length: u32 = 42;
    let chunk_type = "RuSt".as_bytes();
    let message_bytes = "This is where your secret message will be!".as_bytes();
    let crc: u32 = 2882656334;

    let chunk_data: Vec<u8> = data_length
        .to_be_bytes()
        .iter()
        .chain(chunk_type.iter())
        .chain(message_bytes.iter())
        .chain(crc.to_be_bytes().iter())
        .copied()
        .collect();

    let chunk = Chunk::try_from(chunk_data.as_ref()).unwrap();

    let chunk_string = chunk.data_as_string().unwrap();
    let expected_chunk_string = String::from("This is where your secret message will be!");

    assert_eq!(chunk.length(), 42);
    assert_eq!(chunk.chunk_type().to_string(), String::from("RuSt"));
    assert_eq!(chunk_string, expected_chunk_string);
    assert_eq!(chunk.crc(), 2882656334);
}

#[test]
fn test_invalid_chunk_from_bytes() {
    let data_length: u32 = 42;
    let chunk_type = "RuSt".as_bytes();
    let message_bytes = "This is where your secret message will be!".as_bytes();
    let crc: u32 = 2882656333;

    let chunk_data: Vec<u8> = data_length
        .to_be_bytes()
        .iter()
        .chain(chunk_type.iter())
        .chain(message_bytes.iter())
        .chain(crc.to_be_bytes().iter())
        .copied()
        .collect();

    let chunk = Chunk::try_from(chunk_data.as_ref());

    assert!(chunk.is_err());
}

#[test]
pub fn test_chunk_trait_impls() {
    let data_length: u32 = 42;
    let chunk_type = "RuSt".as_bytes();
    let message_bytes = "This is where your secret message will be!".as_bytes();
    let crc: u32 = 2882656334;

    let chunk_data: Vec<u8> = data_length
        .to_be_bytes()
        .iter()
        .chain(chunk_type.iter())
        .chain(message_bytes.iter())
        .chain(crc.to_be_bytes().iter())
        .copied()
        .collect();

    let chunk: Chunk = Chunk::try_from(chunk_data.as_ref()).unwrap();

    let _chunk_string = chunk.to_string();
}

#[test]
fn new_chunk_bytes_are_framed() {
    let message = "This is where your secret message will be!".as_bytes();
    let chunk = Chunk::new(ChunkType::from_str("RuSt").unwrap(), message.to_vec());
    let bytes = chunk.as_bytes();
    assert_eq!(bytes, framed(42, b"RuSt", message, 2882656334));
    assert_eq!(bytes.len(), 12 + 42);
}

#[test]
fn chunk_round_trips_through_its_bytes() {
    let data: Vec<u8> = vec![0, 255, 1, 128, 7];
    let chunk = Chunk::new(ChunkType::from_str("teSt").unwrap(), data.clone());
    let back = Chunk::try_from(chunk.as_bytes().as_ref()).unwrap();
    assert_eq!(back.chunk_type(), chunk.chunk_type());
    assert_eq!(back.data(), &data[..]);
    assert_eq!(back.crc(), chunk.crc());
}

#[test]
fn empty_payload_round_trips() {
    let chunk = Chunk::new(ChunkType::from_str("IEND").unwrap(), Vec::new());
    let bytes = chunk.as_bytes();
    assert_eq!(bytes.len(), 12);
    assert_eq!(&bytes[0..8], &[0, 0, 0, 0, 73, 69, 78, 68]);
    let back = Chunk::try_from(bytes.as_ref()).unwrap();
    assert_eq!(back.length(), 0);
}

#[test]
fn crc_of_known_chunk() {
    // the standard IEND chunk carries this checksum
    let chunk = Chunk::new(ChunkType::from_str("IEND").unwrap(), Vec::new());
    assert_eq!(chunk.crc(), 0xAE42_6082);
}

#[test]
fn flipped_checksum_bit_is_a_mismatch() {
    let message = "This is where your secret message will be!".as_bytes();
    let bytes = framed(42, b"RuSt", message, 2882656334 ^ 1);
    assert_eq!(Chunk::try_from(bytes.as_ref()).err(), Some(ChunkError::ChecksumMismatch));
}

#[test]
fn overstated_length_is_truncation() {
    let message = "This is where your secret message will be!".as_bytes();
    let bytes = framed(43, b"RuSt", message, 2882656334);
    assert_eq!(Chunk::try_from(bytes.as_ref()).err(), Some(ChunkError::Truncated));
    let bytes = framed(1000, b"RuSt", message, 2882656334);
    assert_eq!(Chunk::try_from(bytes.as_ref()).err(), Some(ChunkError::Truncated));
}

#[test]
fn short_input_is_truncation() {
    assert_eq!(Chunk::try_from(&[0u8, 0, 0][..]).err(), Some(ChunkError::Truncated));
    assert_eq!(Chunk::try_from(&[][..]).err(), Some(ChunkError::Truncated));
    // length and type present, checksum missing
    let bytes = framed(0, b"RuSt", &[], 0);
    assert_eq!(Chunk::try_from(&bytes[..10]).err(), Some(ChunkError::Truncated));
}

#[test]
fn bad_type_bytes_are_refused() {
    let bytes = framed(0, b"Ru1t", &[], 0);
    assert_eq!(
        Chunk::try_from(bytes.as_ref()).err(),
        Some(ChunkError::BadType(ChunkTypeError::NotAlphabetic))
    );
}

#[test]
fn unset_reserved_bit_is_refused_when_reading() {
    let chunk = Chunk::new(ChunkType::from_str("Rust").unwrap(), b"hi".to_vec());
    assert_eq!(
        Chunk::try_from(chunk.as_bytes().as_ref()).err(),
        Some(ChunkError::BadType(ChunkTypeError::ReservedBitUnset))
    );
}

#[test]
fn trailing_bytes_after_chunk_are_ignored() {
    let chunk = Chunk::new(ChunkType::from_str("RuSt").unwrap(), b"abc".to_vec());
    let mut bytes = chunk.as_bytes();
    bytes.extend_from_slice(&[9, 9, 9]);
    assert_eq!(Chunk::try_from(bytes.as_ref()).unwrap().data(), b"abc");
}

#[test]
fn non_utf8_payload_is_an_error_not_a_panic() {
    let chunk = Chunk::new(ChunkType::from_str("RuSt").unwrap(), vec![0xff, 0xfe, 0x41]);
    assert_eq!(chunk.data_as_string(), Err(ChunkError::InvalidUtf8));
    assert_eq!(chunk.to_string(), "\u{fffd}\u{fffd}A");
}

#[test]
fn valid_utf8_payload_renders_as_itself() {
    let chunk = Chunk::new(ChunkType::from_str("RuSt").unwrap(), "h\u{e9}llo".as_bytes().to_vec());
    assert_eq!(chunk.data_as_string().unwrap(), "h\u{e9}llo");
    assert_eq!(chunk.to_string(), "h\u{e9}llo");
}

#[test]
fn cloned_chunk_keeps_type_and_payload() {
    let chunk = Chunk::new(ChunkType::from_str("RuSt").unwrap(), b"xyz".to_vec());
    let copy = chunk.clone();
    assert_eq!(copy.as_bytes(), chunk.as_bytes());
}
