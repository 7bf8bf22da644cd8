use pngme::chunk_type::ChunkType;
use pngme::error::Error;
use std::convert::TryFrom;
use std::str::FromStr;

#[test]
pub fn test_chunk_type_from_bytes() {
    let expected = [82, 117, 83, 116];
    let actual = ChunkType::try_from([82, 117, 83, 116]).unwrap();

    assert_eq!(expected, actual.bytes());
}

#[test]
pub fn test_chunk_type_from_str() {
    let expected = ChunkType::try_from([82, 117, 83, 116]).unwrap();
    let actual = ChunkType::from_str("RuSt").unwrap();
    assert_eq!(expected, actual);
}

#[test]
pub fn test_chunk_type_is_critical() {
    let chunk = ChunkType::from_str("RuSt").unwrap();
    assert!(chunk.is_critical());
}

#[test]
pub fn test_chunk_type_is_not_critical() {
    let chunk = ChunkType::from_str("ruSt").unwrap();
    assert!(!chunk.is_critical());
}

#[test]
pub fn test_chunk_type_is_public() {
    let chunk = ChunkType::from_str("RUSt").unwrap();
    assert!(chunk.is_public());
}

#[test]
pub fn test_chunk_type_is_not_public() {
    let chunk = ChunkType::from_str("RuSt").unwrap();
    assert!(!chunk.is_public());
}

#[test]
pub fn test_chunk_type_is_reserved_bit_valid() {
    let chunk = ChunkType::from_str("RuSt").unwrap();
    assert!(chunk.is_reserved_bit_valid());
}

#[test]
pub fn test_chunk_type_is_reserved_bit_invalid() {
    let chunk = ChunkType::from_str("Rust").unwrap();
    assert!(!chunk.is_reserved_bit_valid());
}

#[test]
pub fn test_chunk_type_is_safe_to_copy() {
    let chunk = ChunkType::from_str("RuSt").unwrap();
    assert!(chunk.is_safe_to_copy());
}

#[test]
pub fn test_chunk_type_is_unsafe_to_copy() {
    let chunk = ChunkType::from_str("RuST").unwrap();
    assert!(!chunk.is_safe_to_copy());
}

#[test]
pub fn test_valid_chunk_is_valid() {
    let chunk = ChunkType::from_str("RuSt").unwrap();
    assert!(chunk.is_valid());
}

#[test]
pub fn test_invalid_chunk_is_valid() {
    let chunk = ChunkType::from_str("Rust").unwrap();
    assert!(chunk.is_valid());

    let chunk = ChunkType::from_str("Ru1t");
    assert!(chunk.is_err());
}

#[test]
pub fn test_chunk_type_string() {
    let chunk = ChunkType::from_str("RuSt").unwrap();
    assert_eq!(&chunk.to_string(), "RuSt");
}

#[test]
pub fn test_chunk_type_trait_impls() {
    let chunk_type_1: ChunkType = TryFrom::try_from([82, 117, 83, 116]).unwrap();
    let chunk_type_2: ChunkType = FromStr::from_str("RuSt").unwrap();
    let _chunk_string = format!("{}", chunk_type_1.to_string());
    let _are_chunks_equal = chunk_type_1 == chunk_type_2;
}

#[test]
fn from_text_checks_length_and_letters() {
    assert!(ChunkType::from_text("RuSt").is_ok());
    assert!(ChunkType::from_text("Rust").is_ok());
    assert_eq!(ChunkType::from_text("Ru1t"), Err(Error::InvalidChunkType));
    assert_eq!(ChunkType::from_text("RuS"), Err(Error::InvalidChunkType));
    assert_eq!(ChunkType::from_text("RuStx"), Err(Error::InvalidChunkType));
    assert_eq!(ChunkType::from_text(""), Err(Error::InvalidChunkType));
    assert_eq!(ChunkType::from_text("Ru t"), Err(Error::InvalidChunkType));
    // Four bytes, but not four ASCII letters.
    assert_eq!(ChunkType::from_text("Ré"), Err(Error::InvalidChunkType));
}

#[test]
fn from_bytes_rejects_non_letters() {
    assert_eq!(ChunkType::from_bytes([82, 117, 0, 116]), Err(Error::InvalidChunkType));
    assert_eq!(ChunkType::from_bytes([64, 117, 83, 116]), Err(Error::InvalidChunkType));
    assert_eq!(ChunkType::from_bytes([82, 117, 83, 123]), Err(Error::InvalidChunkType));
    assert_eq!(ChunkType::try_from([91, 117, 83, 116]), Err(Error::InvalidChunkType));
    assert_eq!(ChunkType::from_bytes([65, 90, 97, 122]).unwrap().bytes(), [65, 90, 97, 122]);
}

#[test]
fn flags_of_rust_shaped_types() {
    let t = ChunkType::from_text("RuSt").unwrap();
    assert!(t.is_critical());
    assert!(!t.is_public());
    assert!(t.is_reserved_bit_valid());
    assert!(t.is_safe_to_copy());
    assert!(!ChunkType::from_text("RuST").unwrap().is_safe_to_copy());
}

#[test]
fn only_ancillary_types_are_safe_to_write() {
    assert!(!ChunkType::from_text("IHDR").unwrap().is_safe_to_write());
    assert!(!ChunkType::from_text("RuSt").unwrap().is_safe_to_write());
    assert!(ChunkType::from_text("ruSt").unwrap().is_safe_to_write());
}

#[test]
fn text_round_trip() {
    for s in ["RuSt", "IEND", "abcd", "ZzYy"] {
        let t = ChunkType::from_text(s).unwrap();
        assert_eq!(t.to_string(), s);
        assert_eq!(ChunkType::from_text(&t.to_string()).unwrap(), t);
    }
}

#[test]
fn same_as_compares_bytes() {
    let a = ChunkType::from_text("ruSt").unwrap();
    let b = ChunkType::from_text("ruSt").unwrap();
    let c = ChunkType::from_text("RuSt").unwrap();
    assert!(a.same_as(&b));
    assert!(!a.same_as(&c));
}

#[test]
fn trait_impls_agree_with_constructors() {
    for s in ["RuSt", "Rust", "Ru1t", "", "RuS", "RuStx", "Ru t"] {
        assert_eq!(ChunkType::from_str(s), ChunkType::from_text(s));
    }
    for b in [[82, 117, 83, 116], [114, 117, 83, 116], [82, 117, 49, 116], [82, 117, 83, 0], [82, 117, 83, 200]] {
        assert_eq!(ChunkType::try_from(b), ChunkType::from_bytes(b));
    }
    let t = ChunkType::from_str("ruSt").unwrap();
    assert_eq!(ChunkType::try_from(t.bytes()), Ok(t));
    assert_eq!(ChunkType::from_str(&t.to_string()), Ok(t));
}
