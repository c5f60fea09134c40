use pngme::chunk::Chunk;
use pngme::chunk_type::ChunkType;
use pngme::error::PngError;

fn chunk_bytes_with_crc(crc: u32) -> Vec<u8> {
    let data_length: u32 = 42;
    let chunk_type = "RuSt".as_bytes();
    let message_bytes = "This is where your secret message will be!".as_bytes();
    data_length
        .to_be_bytes()
        .iter()
        .chain(chunk_type.iter())
        .chain(message_bytes.iter())
        .chain(crc.to_be_bytes().iter())
        .copied()
        .collect()
}

fn testing_chunk() -> Chunk {
    let chunk_data = chunk_bytes_with_crc(2882656334);
    Chunk::try_from(chunk_data.as_ref()).unwrap()
}

#[test]
fn test_new_chunk() {
    let chunk_type = ChunkType::from_str("RuSt").unwrap();
    let data = "This is where your secret message will be!"
        .as_bytes()
        .to_vec();
    let chunk = Chunk::new(chunk_type, data);
    assert_eq!(chunk.length(), 42);
    assert_eq!(chunk.crc(), 2882656334);
}

#[test]
fn test_chunk_length() {
    let chunk = testing_chunk();
    assert_eq!(chunk.length(), 42);
}

#[test]
fn test_chunk_type() {
    let chunk = testing_chunk();
    assert_eq!(chunk.chunk_type().to_string(), String::from("RuSt"));
}

#[test]
fn test_chunk_string() {
    let chunk = testing_chunk();
    let chunk_string = chunk.data_as_string().unwrap();
    let expected_chunk_string = String::from("This is where your secret message will be!");
    assert_eq!(chunk_string, expected_chunk_string);
}

#[test]
fn test_chunk_crc() {
    let chunk = testing_chunk();
    assert_eq!(chunk.crc(), 2882656334);
}

#[test]
fn test_valid_chunk_from_bytes() {
    let chunk_data = chunk_bytes_with_crc(2882656334);
    let chunk = Chunk::try_from(chunk_data.as_ref()).unwrap();

    let chunk_string = chunk.data_as_string().unwrap();
    let expected_chunk_string = String::from("This is where your secret message will be!");

    assert_eq!(chunk.length(), 42);
    assert_eq!(chunk.chunk_type().to_string(), String::from("RuSt"));
    assert_eq!(chunk_string, expected_chunk_string);
    assert_eq!(chunk.crc(), 2882656334);
}

#[test]
fn test_invalid_chunk_from_bytes() {
    let chunk_data = chunk_bytes_with_crc(2882656333);
    let chunk = Chunk::try_from(chunk_data.as_ref());
    assert!(chunk.is_err());
}

#[test]
pub fn test_chunk_trait_impls() {
    let chunk_data = chunk_bytes_with_crc(2882656334);
    let chunk: Chunk = Chunk::try_from(chunk_data.as_ref()).unwrap();
    let _chunk_string = chunk.data_as_string().unwrap();
}

#[test]
fn serialized_chunk_matches_original_bytes() {
    let chunk = testing_chunk();
    let bytes = chunk.as_bytes();
    assert_eq!(bytes, chunk_bytes_with_crc(2882656334));
    assert_eq!(bytes.len(), 42 + 12);
    assert_eq!(&bytes[0..4], &[0, 0, 0, 42]);
}

#[test]
fn chunk_round_trips_through_bytes() {
    let ty = ChunkType::from_str("abCD").unwrap();
    for data in [vec![], vec![0u8, 255, 7], b"hello".to_vec()] {
        let chunk = Chunk::new(ty, data.clone());
        let back = Chunk::try_from(chunk.as_bytes().as_ref()).unwrap();
        assert_eq!(back.chunk_type(), chunk.chunk_type());
        assert_eq!(back.data(), &data[..]);
        assert_eq!(back.crc(), chunk.crc());
    }
}

#[test]
fn crc_is_determined_by_type_and_data() {
    let ty = ChunkType::from_str("RuSt").unwrap();
    let a = Chunk::new(ty, b"same payload".to_vec());
    let b = Chunk::new(ty, b"same payload".to_vec());
    assert_eq!(a.crc(), b.crc());
    let c = Chunk::new(ty, b"same paylaod".to_vec());
    assert_ne!(a.crc(), c.crc());
    let d = Chunk::new(ty, b"Same payload".to_vec());
    assert_ne!(a.crc(), d.crc());
}

#[test]
fn empty_payload_crc_is_crc_of_type() {
    let chunk = Chunk::new(ChunkType::from_str("IEND").unwrap(), vec![]);
    assert_eq!(chunk.length(), 0);
    assert_eq!(chunk.crc(), 0xAE42_6082);
}

#[test]
fn flipping_any_bit_of_payload_or_crc_is_detected() {
    let good = chunk_bytes_with_crc(2882656334);
    for i in 8..good.len() {
        for k in 0..8 {
            let mut bad = good.clone();
            bad[i] ^= 1u8 << k;
            assert_eq!(Chunk::try_from(bad.as_ref()).unwrap_err(), PngError::InvalidCrc);
        }
    }
}

#[test]
fn declared_length_mismatch_is_invalid_length() {
    let mut bytes = chunk_bytes_with_crc(2882656334);
    bytes[3] = 41;
    assert_eq!(Chunk::try_from(bytes.as_ref()).unwrap_err(), PngError::InvalidLength);
    let truncated = &chunk_bytes_with_crc(2882656334)[..20];
    assert_eq!(Chunk::try_from(truncated).unwrap_err(), PngError::InvalidLength);
    assert_eq!(Chunk::try_from(&[0u8, 0, 0][..]).unwrap_err(), PngError::InvalidLength);
}

#[test]
fn bad_type_bytes_in_chunk_are_invalid_chunk_type() {
    let mut bytes = chunk_bytes_with_crc(2882656334);
    bytes[5] = b'1';
    assert_eq!(Chunk::try_from(bytes.as_ref()).unwrap_err(), PngError::InvalidChunkType);
}

#[test]
fn non_utf8_payload_is_invalid_utf8() {
    let chunk = Chunk::new(ChunkType::from_str("RuSt").unwrap(), vec![0xff, 0xfe]);
    assert_eq!(chunk.data_as_string().unwrap_err(), PngError::InvalidUtf8);
}
