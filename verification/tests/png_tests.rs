use pngme::chunk::Chunk;
use pngme::chunk_type::ChunkType;
use pngme::error::PngError;
use pngme::png::Png;

const SIGNATURE: [u8; 8] = [0x89, 0x50, 0x4e, 0x47, 0x0d, 0x0a, 0x1a, 0x0a];

fn chunk_bytes(type_text: &str, data: &str) -> Vec<u8> {
    let ctype = ChunkType::construct_from_text(type_text).unwrap();
    Chunk::new(ctype, data.as_bytes().to_vec()).as_bytes()
}

fn testing_buffer() -> Vec<u8> {
    let mut buffer = SIGNATURE.to_vec();
    buffer.extend_from_slice(&chunk_bytes("IHDR", "header"));
    buffer.extend_from_slice(&chunk_bytes("ruSt", "hidden words"));
    buffer.extend_from_slice(&chunk_bytes("IEND", ""));
    buffer
}

#[test]
fn test_png_parse_and_serialize_round_trip() {
    let buffer = testing_buffer();
    let png = Png::parse(&buffer).unwrap();
    assert_eq!(png.chunks().len(), 3);
    assert_eq!(png.serialize(), buffer);
}

#[test]
fn test_png_parse_signature_only() {
    let png = Png::parse(&SIGNATURE).unwrap();
    assert_eq!(png.chunks().len(), 0);
    assert_eq!(png.serialize(), SIGNATURE.to_vec());
}

#[test]
fn test_png_parse_bad_signature() {
    let mut buffer = testing_buffer();
    buffer[0] = 0x88;
    assert_eq!(Png::parse(&buffer), Err(PngError::BadSignature));
    assert_eq!(Png::parse(&[]), Err(PngError::BadSignature));
    assert_eq!(Png::parse("not a png".as_bytes()), Err(PngError::BadSignature));
}

#[test]
fn test_png_parse_truncated_record() {
    let mut buffer = testing_buffer();
    buffer.truncate(buffer.len() - 1);
    assert_eq!(Png::parse(&buffer), Err(PngError::Malformed));
    let mut short = SIGNATURE.to_vec();
    short.extend_from_slice(&[0, 0, 0, 5]);
    assert_eq!(Png::parse(&short), Err(PngError::Malformed));
}

#[test]
fn test_png_parse_corrupted_checksum() {
    let mut buffer = testing_buffer();
    let last = buffer.len() - 1;
    buffer[last] ^= 0x01;
    assert_eq!(Png::parse(&buffer), Err(PngError::CrcMismatch));
}

#[test]
fn test_png_parse_wrong_length_field() {
    // The length field announces more data bytes than the buffer holds.
    let mut buffer = SIGNATURE.to_vec();
    let mut record = chunk_bytes("teSt", "abc");
    record[3] = 100;
    buffer.extend_from_slice(&record);
    assert_eq!(Png::parse(&buffer), Err(PngError::Malformed));
}

#[test]
fn test_png_append_chunk() {
    let mut png = Png::parse(&testing_buffer()).unwrap();
    let ctype = ChunkType::construct_from_text("TeSt").unwrap();
    png.append_chunk(Chunk::new(ctype, "message".as_bytes().to_vec()));
    assert_eq!(png.chunks().len(), 4);
    let found = png.chunk_by_type("TeSt").unwrap();
    assert_eq!(found.data_as_string().unwrap(), "message");
}

#[test]
fn test_png_chunk_by_type_first_match() {
    let mut buffer = testing_buffer();
    buffer.extend_from_slice(&chunk_bytes("ruSt", "second of its type"));
    let png = Png::parse(&buffer).unwrap();
    let found = png.chunk_by_type("ruSt").unwrap();
    assert_eq!(found.data_as_string().unwrap(), "hidden words");
}

#[test]
fn test_png_chunk_by_type_missing() {
    let png = Png::parse(&testing_buffer()).unwrap();
    assert!(png.chunk_by_type("none").is_none());
    assert!(png.chunk_by_type("toolong").is_none());
}

#[test]
fn test_png_append_then_remove_restores_buffer() {
    let buffer = testing_buffer();
    let mut png = Png::parse(&buffer).unwrap();
    let before = png.serialize().len();
    let ctype = ChunkType::construct_from_text("TeSt").unwrap();
    png.append_chunk(Chunk::new(ctype, "tucked away".as_bytes().to_vec()));
    let removed = png.remove_chunk("TeSt").unwrap();
    assert_eq!(removed.data_as_string().unwrap(), "tucked away");
    assert_eq!(png.serialize().len(), before);
    assert_eq!(png.serialize(), buffer);
}

#[test]
fn test_png_remove_chunk_missing_is_no_op() {
    let buffer = testing_buffer();
    let mut png = Png::parse(&buffer).unwrap();
    assert!(png.remove_chunk("TeSt").is_none());
    assert_eq!(png.serialize(), buffer);
}

#[test]
fn test_chunk_round_trip() {
    let ctype = ChunkType::construct_from_text("ruSt").unwrap();
    let data: Vec<u8> = vec![0, 1, 2, 254, 255];
    let chunk = Chunk::new(ctype, data);
    let reparsed = Chunk::parse(&chunk.as_bytes()).unwrap();
    assert_eq!(reparsed.chunk_type().bytes(), ctype.bytes());
    assert_eq!(reparsed.length(), 5);
    assert!(reparsed.data_as_string().is_none());
}

#[test]
fn test_chunk_parse_too_short() {
    assert_eq!(Chunk::parse(&[0u8; 11]), Err(PngError::Malformed));
}

#[test]
fn test_chunk_bit_flips_are_detected() {
    // Flipping any single bit outside the length field fails the checksum.
    let serial = chunk_bytes("ruSt", "payload");
    for i in 4..serial.len() {
        for j in 0..8 {
            let mut corrupted = serial.clone();
            corrupted[i] ^= 1u8 << j;
            assert_eq!(Chunk::parse(&corrupted), Err(PngError::CrcMismatch));
        }
    }
}

#[test]
fn test_chunk_empty_data_as_text() {
    let ctype = ChunkType::construct_from_text("teXt").unwrap();
    let chunk = Chunk::new(ctype, Vec::new());
    assert_eq!(chunk.length(), 0);
    assert_eq!(chunk.data_as_string().unwrap(), "");
}

#[test]
fn test_chunk_display_string() {
    let ctype = ChunkType::construct_from_text("RuSt").unwrap();
    let chunk = Chunk::new(ctype, "hello".as_bytes().to_vec());
    let shown = chunk.to_display_string();
    let expected = format!(
        "\x1b[93m- length {}\n- crc    {}\n- type   {}\n- data   {}\x1b[0m",
        5,
        chunk.crc(),
        "RuSt",
        "hello"
    );
    assert_eq!(shown, expected);
}

#[test]
fn test_chunk_type_property_bits() {
    let rust_upper = ChunkType::construct_from_text("RuSt").unwrap();
    assert!(rust_upper.is_critical());
    assert!(!rust_upper.is_public());
    assert!(rust_upper.is_reserved_bit_valid());
    assert!(rust_upper.is_safe_to_copy());
    assert!(rust_upper.is_valid());

    let rust_lower = ChunkType::construct_from_text("Rust").unwrap();
    assert!(!rust_lower.is_reserved_bit_valid());
    assert!(!rust_lower.is_valid());
}

#[test]
fn test_chunk_type_rejections() {
    assert_eq!(
        ChunkType::construct_from_text("Ru1t"),
        Err(PngError::InvalidChunkType)
    );
    assert_eq!(
        ChunkType::construct_from_text("RuStx"),
        Err(PngError::InvalidChunkType)
    );
    assert_eq!(
        ChunkType::construct_from_text("abc"),
        Err(PngError::InvalidChunkType)
    );
    assert_eq!(
        ChunkType::construct([82, 117, 49, 116]),
        Err(PngError::InvalidChunkType)
    );
}

#[test]
fn test_be_conversions() {
    assert_eq!(Chunk::to_u32([0x12, 0x34, 0x56, 0x78]), 0x12345678);
    assert_eq!(Chunk::to_bytes(0x12345678), [0x12, 0x34, 0x56, 0x78]);
    assert_eq!(Chunk::to_u32(Chunk::to_bytes(42)), 42);
}

#[test]
fn test_decimal_text() {
    assert_eq!(pngme::text::u32_to_dec_string(0), "0");
    assert_eq!(pngme::text::u32_to_dec_string(42), "42");
    assert_eq!(pngme::text::u32_to_dec_string(4294967295), "4294967295");
}
