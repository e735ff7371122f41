use perp_backend::byte_order::{bytes_equal, compare_bytes, ByteOrder};
use perp_backend::hex_codec::{decode_prefixed_hex, prefixed_hex, HexError};

#[test]
fn prefixed_hex_writes_lower_case_digits() {
    assert_eq!(prefixed_hex(&[0x01, 0xab, 0xff, 0x00]), "0x01abff00");
    assert_eq!(prefixed_hex(&[]), "0x");
}

#[test]
fn decode_accepts_both_cases_and_an_optional_prefix() {
    assert_eq!(decode_prefixed_hex("0x01abFF00"), Ok(vec![0x01, 0xab, 0xff, 0x00]));
    assert_eq!(decode_prefixed_hex("01abff00"), Ok(vec![0x01, 0xab, 0xff, 0x00]));
    assert_eq!(decode_prefixed_hex("0x"), Ok(vec![]));
    assert_eq!(decode_prefixed_hex(""), Ok(vec![]));
}

#[test]
fn decode_reports_an_odd_length_before_a_wrong_digit() {
    assert_eq!(decode_prefixed_hex("0xabc"), Err(HexError::OddLength));
    assert_eq!(decode_prefixed_hex("zzz"), Err(HexError::OddLength));
}

#[test]
fn decode_reports_the_first_wrong_digit() {
    assert_eq!(
        decode_prefixed_hex("0x12g4zz"),
        Err(HexError::InvalidHexCharacter { c: 'g', index: 2 })
    );
    assert_eq!(
        decode_prefixed_hex("0X12"),
        Err(HexError::InvalidHexCharacter { c: 'X', index: 1 })
    );
}

#[test]
fn decode_inverts_prefixed_hex() {
    let data: Vec<u8> = (0u8..=255).collect();
    assert_eq!(decode_prefixed_hex(&prefixed_hex(&data)), Ok(data));
}

#[test]
fn compare_bytes_is_lexicographic() {
    assert_eq!(compare_bytes(&[1, 2], &[1, 2, 0]), ByteOrder::Less);
    assert_eq!(compare_bytes(&[1, 3], &[1, 2, 9]), ByteOrder::Greater);
    assert_eq!(compare_bytes(&[], &[]), ByteOrder::Equal);
    assert_eq!(compare_bytes(&[0xff], &[0x01, 0xff]), ByteOrder::Greater);
    assert!(bytes_equal(&[7, 7], &[7, 7]));
    assert!(!bytes_equal(&[7, 7], &[7]));
}
