use pngme::args::validate_operation;
use pngme::chunk::{Chunk, ChunkError};
use pngme::chunk_type::ChunkType;
use pngme::png::Png;

fn signature() -> Vec<u8> {
    vec![137, 80, 78, 71, 13, 10, 26, 10]
}

fn chunk_of(type_text: &str, message: &str) -> Chunk {
    let chunk_type = ChunkType::from_str(type_text).unwrap();
    Chunk::new(chunk_type, message.as_bytes().to_vec())
}

fn empty_container() -> Png {
    Png::try_from(signature().as_ref()).unwrap()
}

#[test]
fn test_chunk_round_trip() {
    let chunk = chunk_of("RuSt", "a message");
    let bytes = chunk.as_bytes();
    let parsed = Chunk::try_from(bytes.as_ref()).unwrap();

    assert_eq!(parsed.chunk_type().bytes(), chunk.chunk_type().bytes());
    assert_eq!(parsed.data(), chunk.data());
    assert_eq!(parsed.length(), chunk.length());
    assert_eq!(parsed.crc(), chunk.crc());
}

#[test]
fn test_new_chunk_crc() {
    let chunk = chunk_of("RuSt", "This is where your secret message will be!");
    assert_eq!(chunk.crc(), 2882656334);
    assert_eq!(chunk.length(), 42);
}

#[test]
fn test_container_round_trip() {
    let mut png = empty_container();
    png.append_chunk(chunk_of("IHDR", "start"));
    png.append_chunk(chunk_of("ruSt", "middle"));
    png.append_chunk(chunk_of("IEND", ""));

    let bytes = png.as_bytes();
    let reparsed = Png::try_from(bytes.as_ref()).unwrap();

    assert_eq!(reparsed.chunks.len(), 3);
    for (a, b) in reparsed.chunks.iter().zip(png.chunks.iter()) {
        assert_eq!(a.chunk_type().bytes(), b.chunk_type().bytes());
        assert_eq!(a.data(), b.data());
        assert_eq!(a.length(), b.length());
        assert_eq!(a.crc(), b.crc());
    }
}

#[test]
fn test_checksum_bit_flip_rejected() {
    let chunk = chunk_of("RuSt", "sensitive");
    let bytes = chunk.as_bytes();
    let payload_end = 8 + chunk.length() as usize;
    // every single-bit corruption of the type or payload region must be caught
    for index in 4..payload_end {
        for bit in 0..8 {
            let mut corrupted = bytes.clone();
            corrupted[index] ^= 1u8 << bit;
            let result = Chunk::try_from(corrupted.as_ref());
            assert!(matches!(result, Err(ChunkError::InvalidCrc(_))));
        }
    }
}

#[test]
fn test_length_field_mismatch_rejected() {
    let chunk = chunk_of("RuSt", "four");
    let mut bytes = chunk.as_bytes();
    // declare one payload byte more than the buffer holds
    bytes[3] += 1;
    let result = Chunk::try_from(bytes.as_ref());
    assert!(matches!(result, Err(ChunkError::InvalidLength(5))));

    // a buffer cut off inside its payload is a length error as well
    let truncated = &chunk.as_bytes()[..10];
    assert!(matches!(
        Chunk::try_from(truncated),
        Err(ChunkError::InvalidLength(_))
    ));
}

#[test]
fn test_invalid_type_in_stream_rejected() {
    // "Rust": lowercase reserved-bit byte, checksum correct
    let chunk = chunk_of("Rust", "payload");
    let bytes = chunk.as_bytes();
    let result = Chunk::try_from(bytes.as_ref());
    assert!(matches!(result, Err(ChunkError::InvalidChunkType(t)) if t == "Rust"));
}

#[test]
fn test_lookup_and_removal() {
    let mut png = empty_container();
    png.append_chunk(chunk_of("IHDR", "one"));
    png.append_chunk(chunk_of("ruSt", "two"));
    png.append_chunk(chunk_of("IEND", "three"));

    assert!(png.chunk_by_type("zzZz").is_none());

    let found = png.chunk_by_type("ruSt").unwrap();
    assert_eq!(found.data_as_string().unwrap(), "two");

    let removed = png.remove_chunk("ruSt").unwrap();
    assert_eq!(removed.data_as_string().unwrap(), "two");

    let order: Vec<String> = png
        .chunks
        .iter()
        .map(|c| c.chunk_type().to_text())
        .collect();
    assert_eq!(order, vec!["IHDR".to_string(), "IEND".to_string()]);

    assert!(png.remove_chunk("ruSt").is_none());
}

#[test]
fn test_end_to_end_secret_message() {
    let message = "This is where your secret message will be!";
    let mut bytes: Vec<u8> = signature();
    bytes.extend_from_slice(chunk_of("RuSt", message).as_bytes().as_ref());

    let png = Png::try_from(bytes.as_ref()).unwrap();
    let chunk = png.chunk_by_type("RuSt").unwrap();
    assert_eq!(chunk.data_as_string().unwrap(), message);
}

#[test]
fn test_invalid_signature_rejected() {
    let bytes = [1u8, 2, 3, 4, 5, 6, 7, 8];
    assert!(Png::try_from(&bytes[..]).is_err());
    assert!(Png::try_from(&bytes[..4]).is_err());
}

#[test]
fn test_corrupt_chunk_aborts_container_parse() {
    let mut png = empty_container();
    png.append_chunk(chunk_of("IHDR", "one"));
    png.append_chunk(chunk_of("IEND", "two"));
    let mut bytes = png.as_bytes();
    let last = bytes.len() - 1;
    // corrupt the final chunk's checksum: no partial container may come back
    bytes[last] ^= 0xff;
    assert!(Png::try_from(bytes.as_ref()).is_err());
}

#[test]
fn test_data_as_string_multibyte() {
    let chunk = chunk_of("teXt", "caf\u{e9} \u{1f980}");
    assert_eq!(chunk.data_as_string().unwrap(), "caf\u{e9} \u{1f980}");
}

#[test]
fn test_data_as_string_invalid_utf8() {
    let chunk_type = ChunkType::try_from([116, 101, 88, 116]).unwrap();
    let chunk = Chunk::new(chunk_type, vec![0xff, 0xfe, 0x41]);
    assert!(matches!(
        chunk.data_as_string(),
        Err(ChunkError::InvalidUtf8)
    ));
}

#[test]
fn test_validate_operation_words() {
    assert!(validate_operation("encode").is_ok());
    assert!(validate_operation("decode").is_ok());
    assert!(validate_operation("remove").is_ok());
    assert!(validate_operation("print").is_ok());
    let rejected = validate_operation("frobnicate");
    assert_eq!(rejected.unwrap_err(), "Invalid operation: frobnicate");
}
