use bytecode_obfuscator::constant::opcodes::{
    get_opcode_name, get_opcode_size, opcode_digit_length, opcode_mnemonic, parse_opcode,
};
use bytecode_obfuscator::error::ObfuscationError;
use bytecode_obfuscator::helper::bytecode::{
    get_instruction_at_index, get_instruction_count, get_last_instruction_position,
};
use bytecode_obfuscator::walker::{walk, Instruction};

const SAMPLE: &str = "6042600a5652602060005b0033602f01601656003360ff5b00";

fn triple(offset: usize, opcode: u8, length: usize) -> Instruction {
    Instruction { offset, opcode, length }
}

#[test]
fn walk_gives_the_triples_in_ascending_order() {
    let expected = vec![
        triple(0, 0x60, 4),
        triple(4, 0x60, 4),
        triple(8, 0x56, 2),
        triple(10, 0x52, 2),
        triple(12, 0x60, 4),
        triple(16, 0x60, 4),
        triple(20, 0x5b, 2),
        triple(22, 0x00, 2),
        triple(24, 0x33, 2),
        triple(26, 0x60, 4),
        triple(30, 0x01, 2),
        triple(32, 0x60, 4),
        triple(36, 0x56, 2),
        triple(38, 0x00, 2),
        triple(40, 0x33, 2),
        triple(42, 0x60, 4),
        triple(46, 0x5b, 2),
        triple(48, 0x00, 2),
    ];
    assert_eq!(walk(SAMPLE), Ok(expected));
}

#[test]
fn walk_of_the_empty_buffer_is_empty() {
    assert_eq!(walk(""), Ok(vec![]));
}

#[test]
fn walking_twice_gives_the_same_triples() {
    let first = walk(SAMPLE);
    let second = walk(SAMPLE);
    assert!(first.is_ok());
    assert_eq!(first, second);
}

#[test]
fn walk_fails_on_an_opcode_that_the_table_lacks() {
    assert_eq!(walk("ff"), Err(ObfuscationError::UnknownOpcode));
    assert_eq!(walk("6001ff00"), Err(ObfuscationError::UnknownOpcode));
    assert_eq!(walk("0c"), Err(ObfuscationError::UnknownOpcode));
    assert_eq!(walk("5b21"), Err(ObfuscationError::UnknownOpcode));
}

#[test]
fn walk_takes_an_unlisted_byte_inside_an_immediate() {
    assert_eq!(walk("60ff"), Ok(vec![triple(0, 0x60, 4)]));
}

#[test]
fn walk_fails_on_text_that_is_not_hexadecimal() {
    assert_eq!(walk("5b0"), Err(ObfuscationError::InvalidHex));
    assert_eq!(walk("5g"), Err(ObfuscationError::InvalidHex));
    assert_eq!(walk("5B"), Err(ObfuscationError::InvalidHex));
    assert_eq!(walk("0x5b"), Err(ObfuscationError::InvalidHex));
    assert_eq!(walk("5b\u{e9}0"), Err(ObfuscationError::InvalidHex));
    assert_eq!(walk("60zz"), Err(ObfuscationError::InvalidHex));
}

#[test]
fn walk_keeps_a_last_instruction_that_lacks_digits() {
    assert_eq!(walk("5b61"), Ok(vec![triple(0, 0x5b, 2), triple(2, 0x61, 6)]));
    assert_eq!(walk("7f00"), Ok(vec![triple(0, 0x7f, 66)]));
}

#[test]
fn opcode_sizes() {
    assert_eq!(get_opcode_size("00"), Some(2));
    assert_eq!(get_opcode_size("5b"), Some(2));
    assert_eq!(get_opcode_size("5f"), Some(2));
    assert_eq!(get_opcode_size("60"), Some(4));
    assert_eq!(get_opcode_size("61"), Some(6));
    assert_eq!(get_opcode_size("7f"), Some(66));
    assert_eq!(get_opcode_size("80"), Some(2));
    assert_eq!(get_opcode_size("a4"), Some(2));
    assert_eq!(get_opcode_size("fe"), Some(2));
    assert_eq!(get_opcode_size("ff"), None);
    assert_eq!(get_opcode_size("a5"), None);
    assert_eq!(get_opcode_size("0c"), None);
    assert_eq!(get_opcode_size("4b"), None);
    assert_eq!(get_opcode_size("f6"), None);
    assert_eq!(get_opcode_size("6"), None);
    assert_eq!(get_opcode_size("600"), None);
    assert_eq!(get_opcode_size("5B"), None);
    assert_eq!(get_opcode_size(""), None);
    assert_eq!(get_opcode_size("\u{e9}"), None);
}

#[test]
fn opcode_lengths_by_byte() {
    for byte in 0x60u8..=0x7f {
        assert_eq!(opcode_digit_length(byte), Some(2 + 2 * (byte as usize - 0x5f)));
    }
    let mut listed = 0;
    for byte in 0u8..=255 {
        if opcode_digit_length(byte).is_some() {
            listed += 1;
        }
    }
    assert_eq!(listed, 12 + 14 + 1 + 27 + 85 + 6 + 3);
    assert_eq!(opcode_digit_length(0xff), None);
}

#[test]
fn parse_opcode_reads_two_digits() {
    assert_eq!(parse_opcode("39"), Some(0x39));
    assert_eq!(parse_opcode("ff"), Some(0xff));
    assert_eq!(parse_opcode("0a"), Some(0x0a));
    assert_eq!(parse_opcode("0A"), None);
    assert_eq!(parse_opcode("390"), None);
}

#[test]
fn last_instruction_position_is_the_last_byte() {
    assert_eq!(get_last_instruction_position(&String::from(SAMPLE)), Ok(24));
    assert_eq!(get_last_instruction_position(&String::from("5b")), Ok(0));
    assert_eq!(get_last_instruction_position(&String::from("6003565b00")), Ok(4));
}

#[test]
fn last_instruction_position_of_the_empty_buffer() {
    assert_eq!(get_last_instruction_position(&String::new()), Ok(-1));
}

#[test]
fn last_instruction_position_counts_a_cut_immediate_in_full() {
    assert_eq!(get_last_instruction_position(&String::from("61")), Ok(2));
    assert_eq!(get_last_instruction_position(&String::from("6100")), Ok(2));
    assert_eq!(get_last_instruction_position(&String::from("7f00")), Ok(32));
}

#[test]
fn last_instruction_position_fails_with_the_walk() {
    assert_eq!(
        get_last_instruction_position(&String::from("ff")),
        Err(ObfuscationError::UnknownOpcode)
    );
    assert_eq!(
        get_last_instruction_position(&String::from("5")),
        Err(ObfuscationError::InvalidHex)
    );
}

#[test]
fn instruction_count() {
    assert_eq!(get_instruction_count(&String::from(SAMPLE)), Ok(18));
    assert_eq!(get_instruction_count(&String::new()), Ok(0));
    assert_eq!(get_instruction_count(&String::from("ff")), Err(ObfuscationError::UnknownOpcode));
}

#[test]
fn instruction_at_index_counts_from_one() {
    let code = String::from(SAMPLE);
    assert_eq!(get_instruction_at_index(&code, 1), Ok(Some(String::from("60"))));
    assert_eq!(get_instruction_at_index(&code, 3), Ok(Some(String::from("56"))));
    assert_eq!(get_instruction_at_index(&code, 18), Ok(Some(String::from("00"))));
    assert_eq!(get_instruction_at_index(&code, 19), Ok(None));
    assert_eq!(get_instruction_at_index(&code, 0), Ok(None));
    assert_eq!(get_instruction_at_index(&code, -1), Ok(None));
    assert_eq!(
        get_instruction_at_index(&String::from("zz"), 1),
        Err(ObfuscationError::InvalidHex)
    );
}

#[test]
fn opcode_names() {
    assert_eq!(get_opcode_name("00"), Some("STOP"));
    assert_eq!(get_opcode_name("0b"), Some("SIGNEXTEND"));
    assert_eq!(get_opcode_name("20"), Some("KECCAK256"));
    assert_eq!(get_opcode_name("39"), Some("CODECOPY"));
    assert_eq!(get_opcode_name("56"), Some("JUMP"));
    assert_eq!(get_opcode_name("57"), Some("JUMPI"));
    assert_eq!(get_opcode_name("5b"), Some("JUMPDEST"));
    assert_eq!(get_opcode_name("5f"), Some("PUSH0"));
    assert_eq!(get_opcode_name("60"), Some("PUSH1"));
    assert_eq!(get_opcode_name("61"), Some("PUSH2"));
    assert_eq!(get_opcode_name("7f"), Some("PUSH32"));
    assert_eq!(get_opcode_name("80"), Some("DUP1"));
    assert_eq!(get_opcode_name("8f"), Some("DUP16"));
    assert_eq!(get_opcode_name("90"), Some("SWAP1"));
    assert_eq!(get_opcode_name("9f"), Some("SWAP16"));
    assert_eq!(get_opcode_name("a0"), Some("LOG0"));
    assert_eq!(get_opcode_name("a4"), Some("LOG4"));
    assert_eq!(get_opcode_name("f3"), Some("RETURN"));
    assert_eq!(get_opcode_name("fa"), Some("STATICCALL"));
    assert_eq!(get_opcode_name("fd"), Some("REVERT"));
    assert_eq!(get_opcode_name("fe"), Some("INVALID"));
    assert_eq!(get_opcode_name("ff"), None);
    assert_eq!(get_opcode_name("0c"), None);
    assert_eq!(get_opcode_name("5B"), None);
    assert_eq!(get_opcode_name("5"), None);
    assert_eq!(get_opcode_name(""), None);
}

#[test]
fn every_listed_opcode_has_a_name_and_a_length() {
    for byte in 0u8..=255 {
        assert_eq!(opcode_mnemonic(byte).is_some(), opcode_digit_length(byte).is_some());
    }
    for n in 1u8..=32 {
        assert_eq!(opcode_mnemonic(0x5f + n), Some(format!("PUSH{}", n).as_str()));
    }
    for n in 1u8..=16 {
        assert_eq!(opcode_mnemonic(0x7f + n), Some(format!("DUP{}", n).as_str()));
        assert_eq!(opcode_mnemonic(0x8f + n), Some(format!("SWAP{}", n).as_str()));
    }
}
