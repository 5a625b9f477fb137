use pngme::chunk_type::{ChunkType, ChunkTypeError};

#[test]
pub fn test_chunk_type_from_bytes() {
    let expected = [82, 117, 83, 116];
    let actual = ChunkType::try_from([82, 117, 83, 116]).unwrap();

    assert_eq!(expected, actual.bytes());
}

#[test]
pub fn test_chunk_type_from_str() {
    let expected = ChunkType::try_from([82, 117, 83, 116]).unwrap();
    let actual = ChunkType::from_str("RuSt").unwrap();
    assert_eq!(expected, actual);
}

#[test]
pub fn test_chunk_type_is_critical() {
    let chunk = ChunkType::from_str("RuSt").unwrap();
    assert!(chunk.is_critical());
}

#[test]
pub fn test_chunk_type_is_not_critical() {
    let chunk = ChunkType::from_str("ruSt").unwrap();
    assert!(!chunk.is_critical());
}

#[test]
pub fn test_chunk_type_is_public() {
    let chunk = ChunkType::from_str("RUSt").unwrap();
    assert!(chunk.is_public());
}

#[test]
pub fn test_chunk_type_is_not_public() {
    let chunk = ChunkType::from_str("RuSt").unwrap();
    assert!(!chunk.is_public());
}

#[test]
pub fn test_chunk_type_is_reserved_bit_valid() {
    let chunk = ChunkType::from_str("RuSt").unwrap();
    assert!(chunk.is_reserved_bit_valid());
}

#[test]
pub fn test_chunk_type_is_reserved_bit_invalid() {
    let chunk = ChunkType::from_str("Rust").unwrap();
    assert!(!chunk.is_reserved_bit_valid());
}

#[test]
pub fn test_chunk_type_is_safe_to_copy() {
    let chunk = ChunkType::from_str("RuSt").unwrap();
    assert!(chunk.is_safe_to_copy());
}

#[test]
pub fn test_chunk_type_is_unsafe_to_copy() {
    let chunk = ChunkType::from_str("RuST").unwrap();
    assert!(!chunk.is_safe_to_copy());
}

#[test]
pub fn test_valid_chunk_is_valid() {
    let chunk = ChunkType::from_str("RuSt").unwrap();
    assert!(chunk.is_valid());
}

#[test]
pub fn test_invalid_chunk_is_valid() {
    let chunk = ChunkType::from_str("Rust").unwrap();
    assert!(!chunk.is_valid());

    let chunk = ChunkType::from_str("Ru1t");
    assert!(chunk.is_err());
}

#[test]
pub fn test_chunk_type_string() {
    let chunk = ChunkType::from_str("RuSt").unwrap();
    assert_eq!(&chunk.to_text(), "RuSt");
}

#[test]
pub fn test_chunk_type_trait_impls() {
    let chunk_type_1: ChunkType = ChunkType::try_from([82, 117, 83, 116]).unwrap();
    let chunk_type_2: ChunkType = ChunkType::from_str("RuSt").unwrap();
    let _chunk_string = chunk_type_1.to_text();
    let _are_chunks_equal = chunk_type_1 == chunk_type_2;
}

#[test]
pub fn test_chunk_type_wrong_byte_count() {
    let too_long = ChunkType::from_str("RuStX");
    assert!(matches!(
        too_long,
        Err(ChunkTypeError::InconsistentByteLength(5))
    ));

    let too_short = ChunkType::from_str("RuS");
    assert!(matches!(
        too_short,
        Err(ChunkTypeError::InconsistentByteLength(3))
    ));

    let symbol = ChunkType::from_str("Ru!t");
    assert!(matches!(symbol, Err(ChunkTypeError::InvalidChunkType(_))));
}
