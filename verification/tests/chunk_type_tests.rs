use pngme::chunk_type::{is_alphabet, ChunkType};
use pngme::error::PngError;
use std::convert::TryFrom;
use std::str::FromStr;

#[test]
pub fn test_chunk_type_from_bytes() {
    let expected = [82, 117, 83, 116];
    let actual = ChunkType::try_from([82, 117, 83, 116]).unwrap();

    assert_eq!(expected, actual.bytes());
}

#[test]
pub fn test_chunk_type_from_str() {
    let expected = ChunkType::try_from([82, 117, 83, 116]).unwrap();
    let actual = ChunkType::from_str("RuSt").unwrap();
    assert_eq!(expected, actual);
}

#[test]
pub fn test_chunk_type_is_critical() {
    let chunk = ChunkType::from_str("RuSt").unwrap();
    assert!(chunk.is_critical());
}

#[test]
pub fn test_chunk_type_is_not_critical() {
    let chunk = ChunkType::from_str("ruSt").unwrap();
    assert!(!chunk.is_critical());
}

#[test]
pub fn test_chunk_type_is_public() {
    let chunk = ChunkType::from_str("RUSt").unwrap();
    assert!(chunk.is_public());
}

#[test]
pub fn test_chunk_type_is_not_public() {
    let chunk = ChunkType::from_str("RuSt").unwrap();
    assert!(!chunk.is_public());
}

#[test]
pub fn test_chunk_type_is_reserved_bit_valid() {
    let chunk = ChunkType::from_str("RuSt").unwrap();
    assert!(chunk.is_reserved_bit_valid());
}

#[test]
pub fn test_chunk_type_is_reserved_bit_invalid() {
    let chunk = ChunkType::from_str("Rust").unwrap();
    assert!(!chunk.is_reserved_bit_valid());
}

#[test]
pub fn test_chunk_type_is_safe_to_copy() {
    let chunk = ChunkType::from_str("RuSt").unwrap();
    assert!(chunk.is_safe_to_copy());
}

#[test]
pub fn test_chunk_type_is_unsafe_to_copy() {
    let chunk = ChunkType::from_str("RuST").unwrap();
    assert!(!chunk.is_safe_to_copy());
}

#[test]
pub fn test_valid_chunk_is_valid() {
    let chunk = ChunkType::from_str("RuSt").unwrap();
    assert!(chunk.is_valid());
}

#[test]
pub fn test_invalid_chunk_is_valid() {
    let chunk = ChunkType::from_str("Rust").unwrap();
    assert!(!chunk.is_valid());

    let chunk = ChunkType::from_str("Ru1t");
    assert!(chunk.is_err());
}

#[test]
pub fn test_chunk_type_string() {
    let chunk = ChunkType::from_str("RuSt").unwrap();
    assert_eq!(&chunk.to_string(), "RuSt");
}

#[test]
pub fn test_chunk_type_trait_impls() {
    let chunk_type_1: ChunkType = TryFrom::try_from([82, 117, 83, 116]).unwrap();
    let chunk_type_2: ChunkType = FromStr::from_str("RuSt").unwrap();
    let _chunk_string = format!("{}", chunk_type_1.to_string());
    let _are_chunks_equal = chunk_type_1 == chunk_type_2;
}

#[test]
fn chunk_type_with_a_digit_is_refused_for_its_bytes() {
    assert_eq!(ChunkType::from_str("Ru1t"), Err(PngError::InvalidTagBytes));
    assert_eq!(
        ChunkType::try_from([82, 117, 49, 116]),
        Err(PngError::InvalidTagBytes)
    );
}

#[test]
fn chunk_type_of_wrong_length_is_refused_for_its_length() {
    assert_eq!(ChunkType::from_str(""), Err(PngError::InvalidTagLength));
    assert_eq!(ChunkType::from_str("RuS"), Err(PngError::InvalidTagLength));
    assert_eq!(ChunkType::from_str("RuStt"), Err(PngError::InvalidTagLength));
}

#[test]
fn chunk_type_length_is_counted_in_characters() {
    // Four characters, five bytes: the length is right, the letters are not.
    assert_eq!(ChunkType::from_str("R\u{fc}St"), Err(PngError::InvalidTagBytes));
    // Three characters, four bytes.
    assert_eq!(ChunkType::from_str("\u{fc}St"), Err(PngError::InvalidTagLength));
}

#[test]
fn chunk_type_bytes_next_to_the_letters_are_refused() {
    for b in [0u8, 64, 91, 96, 123, 127, 128, 255] {
        assert!(!is_alphabet(&b));
        assert_eq!(
            ChunkType::try_from([b, 117, 83, 116]),
            Err(PngError::InvalidTagBytes)
        );
        assert_eq!(
            ChunkType::try_from([82, 117, 83, b]),
            Err(PngError::InvalidTagBytes)
        );
    }
    for b in [65u8, 90, 97, 122] {
        assert!(is_alphabet(&b));
        assert!(ChunkType::try_from([b, b, b, b]).is_ok());
    }
}

#[test]
fn is_alphabet_is_true_of_the_letters_only() {
    for b in 0u8..=255 {
        let letter = (b'a'..=b'z').contains(&b) || (b'A'..=b'Z').contains(&b);
        assert_eq!(is_alphabet(&b), letter);
    }
}

#[test]
fn flags_of_rust_spelled_four_ways() {
    let t = ChunkType::from_str("RuSt").unwrap();
    assert_eq!(
        (t.is_critical(), t.is_public(), t.is_reserved_bit_valid(), t.is_safe_to_copy()),
        (true, false, true, true)
    );
    let t = ChunkType::from_str("rUsT").unwrap();
    assert_eq!(
        (t.is_critical(), t.is_public(), t.is_reserved_bit_valid(), t.is_safe_to_copy()),
        (false, true, false, false)
    );
    assert!(!t.is_valid());
    let t = ChunkType::from_str("AZaz").unwrap();
    assert_eq!(
        (t.is_critical(), t.is_public(), t.is_reserved_bit_valid(), t.is_safe_to_copy()),
        (true, true, false, true)
    );
    let t = ChunkType::from_str("azAZ").unwrap();
    assert_eq!(
        (t.is_critical(), t.is_public(), t.is_reserved_bit_valid(), t.is_safe_to_copy()),
        (false, false, true, false)
    );
    assert!(t.is_valid());
}

#[test]
fn chunk_type_text_round_trip() {
    for text in ["IHDR", "IEND", "ruSt", "tEXt", "AZaz"] {
        let t = ChunkType::from_str(text).unwrap();
        assert_eq!(t.to_string(), text);
        assert_eq!(t.bytes(), <[u8; 4]>::try_from(text.as_bytes()).unwrap());
        assert_eq!(ChunkType::from_str(&t.to_string()), Ok(t));
        assert_eq!(ChunkType::try_from(t.bytes()), Ok(t));
    }
}

#[test]
fn chunk_types_compare_by_their_bytes() {
    let a = ChunkType::from_str("RuSt").unwrap();
    let b = ChunkType::from_str("RuSt").unwrap();
    let c = ChunkType::from_str("RuST").unwrap();
    let d = ChunkType::from_str("ruSt").unwrap();
    assert!(a == b);
    assert!(a != c);
    assert!(a != d);
    let text: Result<ChunkType, PngError> = "RuSt".parse();
    assert_eq!(text, Ok(a));
}
