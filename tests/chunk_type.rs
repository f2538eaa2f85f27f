use std::convert::TryFrom;
use std::str::FromStr;

use pngme::{ChunkType, PngError};

#[test]
pub fn test_chunk_type_from_bytes() {
    let expected = [82, 117, 83, 116];
    let actual = ChunkType::try_from([82, 117, 83, 116]).unwrap();

    assert_eq!(expected, actual.bytes());
}

#[test]
pub fn test_chunk_type_from_str() {
    let expected = ChunkType::try_from([82, 117, 83, 116]).unwrap();
    let actual = ChunkType::from_str("RuSt").unwrap();
    assert_eq!(expected, actual);
}

#[test]
pub fn test_chunk_type_is_critical() {
    let chunk = ChunkType::from_str("RuSt").unwrap();
    assert!(chunk.is_critical());
}

#[test]
pub fn test_chunk_type_is_not_critical() {
    let chunk = ChunkType::from_str("ruSt").unwrap();
    assert!(!chunk.is_critical());
}

#[test]
pub fn test_chunk_type_is_public() {
    let chunk = ChunkType::from_str("RUSt").unwrap();
    assert!(chunk.is_public());
}

#[test]
pub fn test_chunk_type_is_not_public() {
    let chunk = ChunkType::from_str("RuSt").unwrap();
    assert!(!chunk.is_public());
}

#[test]
pub fn test_chunk_type_is_reserved_bit_valid() {
    let chunk = ChunkType::from_str("RuSt").unwrap();
    assert!(chunk.is_reserved_bit_valid());
}

#[test]
pub fn test_chunk_type_is_reserved_bit_invalid() {
    let chunk = ChunkType::from_str("Rust").unwrap();
    assert!(!chunk.is_reserved_bit_valid());
}

#[test]
pub fn test_chunk_type_is_safe_to_copy() {
    let chunk = ChunkType::from_str("RuSt").unwrap();
    assert!(chunk.is_safe_to_copy());
}

#[test]
pub fn test_chunk_type_is_unsafe_to_copy() {
    let chunk = ChunkType::from_str("RuST").unwrap();
    assert!(!chunk.is_safe_to_copy());
}

#[test]
pub fn test_valid_chunk_is_valid() {
    let chunk = ChunkType::from_str("RuSt").unwrap();
    assert!(chunk.is_valid());
}

#[test]
pub fn test_invalid_chunk_is_valid() {
    let chunk = ChunkType::from_str("Rust").unwrap();
    println!("{}", chunk.is_valid());
    assert!(!chunk.is_valid());

    let chunk = ChunkType::from_str("Ru1t");
    assert!(chunk.is_err());
}

#[test]
pub fn test_chunk_type_string() {
    let chunk = ChunkType::from_str("RuSt").unwrap();
    assert_eq!(&chunk.to_string(), "RuSt");
}

#[test]
pub fn test_chunk_type_trait_impls() {
    let chunk_type_1: ChunkType = TryFrom::try_from([82, 117, 83, 116]).unwrap();
    let chunk_type_2: ChunkType = FromStr::from_str("RuSt").unwrap();
    let _chunk_string = chunk_type_1.to_string();
    let _are_chunks_equal = chunk_type_1 == chunk_type_2;
}

#[test]
fn from_str_keeps_case_of_every_letter() {
    for s in ["RuSt", "rust", "RUST", "rUsT", "aBcD"] {
        let t = ChunkType::from_str(s).unwrap();
        assert_eq!(t.to_string(), s);
        assert_eq!(t.bytes().to_vec(), s.as_bytes().to_vec());
    }
}

#[test]
fn from_str_rejects_wrong_length_and_non_letters() {
    assert_eq!(ChunkType::from_str("RuS"), Err(PngError::Format));
    assert_eq!(ChunkType::from_str("RuStx"), Err(PngError::Format));
    assert_eq!(ChunkType::from_str(""), Err(PngError::Format));
    assert_eq!(ChunkType::from_str("Ru t"), Err(PngError::Format));
    assert_eq!(ChunkType::from_str("Ruét"), Err(PngError::Format));
    assert_eq!(ChunkType::from_str("Ru1t"), Err(PngError::Format));
}

#[test]
fn each_flag_reads_its_own_byte_only() {
    let base = ChunkType::from_str("RuSt").unwrap();
    for other in ["RxYz", "RAbC", "Rqqq", "RZZZ"] {
        let t = ChunkType::from_str(other).unwrap();
        assert_eq!(t.is_critical(), base.is_critical());
    }
    for other in ["auxx", "Xuyy", "ZuZZ"] {
        let t = ChunkType::from_str(other).unwrap();
        assert_eq!(t.is_public(), base.is_public());
    }
    for other in ["aaSa", "ZZSZ"] {
        let t = ChunkType::from_str(other).unwrap();
        assert_eq!(t.is_reserved_bit_valid(), base.is_reserved_bit_valid());
    }
    for other in ["aaat", "ZZZt"] {
        let t = ChunkType::from_str(other).unwrap();
        assert_eq!(t.is_safe_to_copy(), base.is_safe_to_copy());
    }
}

#[test]
fn validity_rule_examples() {
    let rust = ChunkType::from_str("RuSt").unwrap();
    assert!(rust.is_valid());
    assert!(rust.is_reserved_bit_valid());
    assert!(rust.is_critical());
    assert!(!rust.is_public());
    assert!(rust.is_safe_to_copy());

    let lower = ChunkType::from_str("Rust").unwrap();
    assert!(!lower.is_reserved_bit_valid());
    assert!(!lower.is_valid());
}

#[test]
fn non_letter_bytes_are_never_upper_or_lower() {
    let t = ChunkType::try_from([82, 117, 83, 49]).unwrap();
    assert!(!t.is_valid());
    assert!(!t.is_safe_to_copy());
    let t = ChunkType::try_from([64, 91, 83, 123]).unwrap();
    assert!(!t.is_critical());
    assert!(!t.is_public());
    assert!(!t.is_safe_to_copy());
    assert!(!t.is_valid());
    assert!(ChunkType::is_valid_byte(b'a'));
    assert!(ChunkType::is_valid_byte(b'Z'));
    assert!(!ChunkType::is_valid_byte(b'0'));
    assert!(!ChunkType::is_valid_byte(200));
}

#[test]
fn from_bytes_keeps_bytes_and_renders_them_as_characters() {
    let t = ChunkType::from_bytes([73, 69, 78, 68]);
    assert_eq!(t.bytes(), [73, 69, 78, 68]);
    assert_eq!(t.to_string(), "IEND");
    let odd = ChunkType::from_bytes([0xE9, 65, 66, 67]);
    assert_eq!(odd.to_string(), "\u{e9}ABC");
}
