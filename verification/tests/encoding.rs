use zkvm_from_scratch::utils::{bytes_to_u32_le, u32_to_bytes_le, HexError};
use zkvm_from_scratch::{decode_hex, encode_hex};

#[test]
fn test_hex_conversion() {
    let bytes = vec![0x12, 0x34, 0xab, 0xcd];
    let hex = encode_hex(&bytes);
    assert_eq!(hex, "1234abcd");

    let back_to_bytes = decode_hex(&hex).unwrap();
    assert_eq!(bytes, back_to_bytes);
}

#[test]
fn hex_of_every_byte_reads_back() {
    let bytes: Vec<u8> = (0..=255u8).collect();
    let hex = encode_hex(&bytes);
    assert_eq!(hex.len(), 512);
    assert!(hex.chars().all(|c| c.is_ascii_digit() || ('a'..='f').contains(&c)));
    assert_eq!(decode_hex(&hex), Ok(bytes));
    assert_eq!(encode_hex(&[]), "");
    assert_eq!(decode_hex(""), Ok(vec![]));
    assert_eq!(encode_hex(&[0x00, 0x0f, 0xf0]), "000ff0");
}

#[test]
fn hex_digits_of_either_case_are_read() {
    assert_eq!(decode_hex("1234abcd"), Ok(vec![0x12, 0x34, 0xab, 0xcd]));
    assert_eq!(decode_hex("1234ABCD"), Ok(vec![0x12, 0x34, 0xab, 0xcd]));
    assert_eq!(decode_hex("aF"), Ok(vec![0xaf]));
}

#[test]
fn hex_of_odd_length_is_rejected() {
    assert_eq!(decode_hex("abc"), Err(HexError::OddLength));
    assert_eq!(decode_hex("z"), Err(HexError::OddLength));
    assert_eq!(HexError::OddLength.message(), "Hex string must have even length");
}

#[test]
fn text_that_is_not_hex_is_rejected() {
    assert_eq!(decode_hex("zz"), Err(HexError::InvalidCharacter));
    assert_eq!(decode_hex("12g4"), Err(HexError::InvalidCharacter));
    assert_eq!(decode_hex("+a"), Err(HexError::InvalidCharacter));
    assert_eq!(decode_hex(" 1"), Err(HexError::InvalidCharacter));
    assert_eq!(decode_hex("\u{e9}"), Err(HexError::InvalidCharacter));
    assert_eq!(HexError::InvalidCharacter.message(), "Invalid hex character");
}

#[test]
fn a_chunk_that_splits_a_character_is_rejected() {
    assert_eq!(decode_hex("a\u{e9}b"), Err(HexError::InvalidUtf8));
    assert_eq!(decode_hex("12\u{20ac}3"), Err(HexError::InvalidUtf8));
    assert_eq!(HexError::InvalidUtf8.message(), "Invalid UTF-8");
}

#[test]
fn words_are_little_endian() {
    assert_eq!(u32_to_bytes_le(0x1234_ABCD), [0xCD, 0xAB, 0x34, 0x12]);
    assert_eq!(bytes_to_u32_le(&[0xCD, 0xAB, 0x34, 0x12]), 0x1234_ABCD);
    assert_eq!(bytes_to_u32_le(&[0xCD, 0xAB]), 0xABCD);
    assert_eq!(bytes_to_u32_le(&[]), 0);
    assert_eq!(bytes_to_u32_le(&[1, 2, 3, 4, 5, 6]), 0x0403_0201);
    assert_eq!(bytes_to_u32_le(&u32_to_bytes_le(0xFFFF_FFFE)), 0xFFFF_FFFE);
}
