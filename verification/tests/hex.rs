use bytecode_obfuscator::error::ObfuscationError;
use bytecode_obfuscator::hex::{is_bytecode_str, is_hex_str, parse_hex, to_hex_text};

#[test]
fn every_digit_has_its_value() {
    let all = "0123456789abcdef";
    for i in 0..16usize {
        assert_eq!(parse_hex(&all[i..i + 1]), Ok(i as i32));
        assert_eq!(to_hex_text(i), &all[i..i + 1]);
    }
}

#[test]
fn the_neighbours_of_the_digits_are_no_digits() {
    for c in ["g", "A", "F", "/", ":", "`", "G", " ", "x"] {
        assert!(!is_hex_str(c));
        assert_eq!(parse_hex(c), Err(ObfuscationError::InvalidHex));
    }
}

#[test]
fn hexadecimal_text() {
    assert!(is_hex_str(""));
    assert!(is_hex_str("0"));
    assert!(is_hex_str("0123456789abcdef"));
    assert!(!is_hex_str("0x"));
    assert!(!is_hex_str("AB"));
    assert!(!is_hex_str("12 "));
    assert!(!is_hex_str("\u{3b1}"));
}

#[test]
fn well_formed_buffers() {
    assert!(is_bytecode_str(""));
    assert!(is_bytecode_str("5b"));
    assert!(is_bytecode_str("6001"));
    assert!(!is_bytecode_str("5"));
    assert!(!is_bytecode_str("5b0"));
    assert!(!is_bytecode_str("5B"));
    assert!(!is_bytecode_str("0x5b"));
}

#[test]
fn parse_hex_reads_numbers() {
    assert_eq!(parse_hex(""), Ok(0));
    assert_eq!(parse_hex("0"), Ok(0));
    assert_eq!(parse_hex("16"), Ok(22));
    assert_eq!(parse_hex("000b"), Ok(11));
    assert_eq!(parse_hex("ff"), Ok(255));
    assert_eq!(parse_hex("7fffffff"), Ok(i32::MAX));
    assert_eq!(parse_hex("00000000007fffffff"), Ok(i32::MAX));
}

#[test]
fn parse_hex_refuses_what_an_i32_cannot_hold() {
    assert_eq!(parse_hex("80000000"), Err(ObfuscationError::OperandOverflow));
    assert_eq!(parse_hex("ffffffff"), Err(ObfuscationError::OperandOverflow));
    assert_eq!(parse_hex("100000000"), Err(ObfuscationError::OperandOverflow));
    assert_eq!(
        parse_hex("ffffffffffffffffffffffffffffffffffffffffffffffffffffffffffffffff"),
        Err(ObfuscationError::OperandOverflow)
    );
}

#[test]
fn parse_hex_refuses_other_text() {
    assert_eq!(parse_hex("1g"), Err(ObfuscationError::InvalidHex));
    assert_eq!(parse_hex("FF"), Err(ObfuscationError::InvalidHex));
    assert_eq!(parse_hex("-1"), Err(ObfuscationError::InvalidHex));
    assert_eq!(parse_hex("+1"), Err(ObfuscationError::InvalidHex));
    assert_eq!(parse_hex("0x10"), Err(ObfuscationError::InvalidHex));
    assert_eq!(parse_hex("ffffffffffg"), Err(ObfuscationError::InvalidHex));
}

#[test]
fn to_hex_text_has_no_leading_zeros() {
    assert_eq!(to_hex_text(0), "0");
    assert_eq!(to_hex_text(4), "4");
    assert_eq!(to_hex_text(15), "f");
    assert_eq!(to_hex_text(16), "10");
    assert_eq!(to_hex_text(32), "20");
    assert_eq!(to_hex_text(0xabcdef), "abcdef");
    assert_eq!(to_hex_text(0x7fff_ffff), "7fffffff");
}
