use bytecode_obfuscator::error::ObfuscationError;
use bytecode_obfuscator::helper::bytecode::{
    append_jumpdest, append_push_jump, modify_push_val, pad_hex_val, rm_zero_x,
};
use bytecode_obfuscator::obfuscation::modify_param;
use bytecode_obfuscator::walker::walk;

fn patch(code: &str, offset: i32, value: i32, instruction: &str)
    -> (Result<(), ObfuscationError>, String) {
    let mut buffer = String::from(code);
    let r = modify_push_val(&mut buffer, offset, value, &String::from(instruction));
    (r, buffer)
}

fn patched(code: &str) -> (Result<(), ObfuscationError>, String) {
    (Ok(()), String::from(code))
}

fn refused(e: ObfuscationError, code: &str) -> (Result<(), ObfuscationError>, String) {
    (Err(e), String::from(code))
}

#[test]
fn patch_writes_the_value_in_hexadecimal() {
    assert_eq!(patch("6001565b", 0, 0x19, "60"), patched("6019565b"));
    assert_eq!(patch("6001", 0, 0, "60"), patched("6000"));
    assert_eq!(patch("6001", 0, 255, "60"), patched("60ff"));
}

#[test]
fn patch_pads_with_zeros_to_the_width() {
    assert_eq!(patch("5b61ffff56", 2, 0x24, "61"), patched("5b61002456"));
    assert_eq!(patch("5b61000056", 2, 0x1234, "61"), patched("5b61123456"));
    assert_eq!(
        patch(
            "7f1111111111111111111111111111111111111111111111111111111111111111",
            0,
            i32::MAX,
            "7f"
        ),
        patched("7f000000000000000000000000000000000000000000000000000000007fffffff")
    );
    assert_eq!(patch("63ffffffff", 0, i32::MAX, "63"), patched("637fffffff"));
    assert_eq!(patch("62000000", 0, 0xffffff, "62"), patched("62ffffff"));
}

#[test]
fn patch_changes_the_operand_only() {
    let code = "6042600a5652602060005b0033602f01601656003360ff5b00";
    let (r, after) = patch(code, 32, 0xab, "60");
    assert_eq!(r, Ok(()));
    assert_eq!(after.len(), code.len());
    assert_eq!(&after[..34], &code[..34]);
    assert_eq!(&after[34..36], "ab");
    assert_eq!(&after[36..], &code[36..]);
}

#[test]
fn patch_keeps_every_instruction_where_it_was() {
    let code = "6042600a5652602060005b0033602f01601656003360ff5b00";
    let before = walk(code).unwrap();
    for instruction in before.iter().filter(|i| i.opcode == 0x60) {
        let (r, after) = patch(code, instruction.offset as i32, 0x5b, "60");
        assert_eq!(r, Ok(()));
        assert_eq!(after.len(), code.len());
        assert_eq!(walk(&after).unwrap(), before);
    }
}

#[test]
fn patch_refuses_a_value_that_does_not_fit() {
    assert_eq!(patch("6001", 0, 256, "60"), refused(ObfuscationError::OperandOverflow, "6001"));
    assert_eq!(
        patch("5b61000056", 2, 0x10000, "61"),
        refused(ObfuscationError::OperandOverflow, "5b61000056")
    );
    assert_eq!(
        patch("62ffffff", 0, 0x1000000, "62"),
        refused(ObfuscationError::OperandOverflow, "62ffffff")
    );
    assert_eq!(patch("5f56", 0, 1, "5f"), refused(ObfuscationError::OperandOverflow, "5f56"));
}

#[test]
fn patch_refuses_a_negative_value() {
    assert_eq!(patch("6001", 0, -1, "60"), refused(ObfuscationError::OperandOverflow, "6001"));
    assert_eq!(
        patch("63ffffffff", 0, i32::MIN, "63"),
        refused(ObfuscationError::OperandOverflow, "63ffffffff")
    );
}

#[test]
fn patch_of_an_instruction_without_operand_writes_nothing() {
    assert_eq!(patch("5f56", 0, 0, "5f"), patched("5f56"));
    assert_eq!(patch("5b", 0, 0, "5b"), patched("5b"));
}

#[test]
fn patch_refuses_an_operand_of_another_width() {
    assert_eq!(patch("6001", 0, 1, "61"), refused(ObfuscationError::OperandOverflow, "6001"));
    assert_eq!(patch("610001", 0, 1, "60"), refused(ObfuscationError::OperandOverflow, "610001"));
    assert_eq!(patch("6001", 2, 1, "60"), refused(ObfuscationError::OperandOverflow, "6001"));
}

#[test]
fn patch_refuses_an_operand_that_is_cut() {
    assert_eq!(patch("61ff", 0, 1, "61"), refused(ObfuscationError::OperandOverflow, "61ff"));
    assert_eq!(patch("5b60", 2, 1, "60"), refused(ObfuscationError::OperandOverflow, "5b60"));
}

#[test]
fn patch_refuses_an_offset_without_instruction() {
    assert_eq!(patch("6001", 1, 1, "60"), refused(ObfuscationError::UnknownOpcode, "6001"));
    assert_eq!(patch("6001", 4, 1, "60"), refused(ObfuscationError::UnknownOpcode, "6001"));
    assert_eq!(patch("6001", -2, 1, "60"), refused(ObfuscationError::UnknownOpcode, "6001"));
    assert_eq!(patch("6001", i32::MAX, 1, "60"), refused(ObfuscationError::UnknownOpcode, "6001"));
    assert_eq!(patch("ff01", 0, 1, "60"), refused(ObfuscationError::UnknownOpcode, "ff01"));
    assert_eq!(patch("", 0, 1, "60"), refused(ObfuscationError::UnknownOpcode, ""));
}

#[test]
fn patch_refuses_an_opcode_that_the_table_lacks() {
    assert_eq!(patch("6001", 0, 1, "ff"), refused(ObfuscationError::UnknownOpcode, "6001"));
    assert_eq!(patch("6001", 0, 1, "6"), refused(ObfuscationError::UnknownOpcode, "6001"));
    assert_eq!(patch("6001", 0, 1, "PUSH1"), refused(ObfuscationError::UnknownOpcode, "6001"));
}

#[test]
fn patch_refuses_a_buffer_that_is_not_hexadecimal() {
    assert_eq!(patch("600", 0, 1, "60"), refused(ObfuscationError::InvalidHex, "600"));
    assert_eq!(patch("0x6001", 2, 1, "60"), refused(ObfuscationError::InvalidHex, "0x6001"));
    assert_eq!(patch("60zz", 0, 1, "60"), refused(ObfuscationError::InvalidHex, "60zz"));
}

#[test]
fn landing_patch_writes_0b() {
    let mut code = String::from("6001565b");
    assert_eq!(modify_param::modify_push_val(&mut code, 0), Ok(()));
    assert_eq!(code, "600b565b");
    let mut code = String::from("5b6112345600");
    assert_eq!(modify_param::modify_push_val(&mut code, 2), Ok(()));
    assert_eq!(code, "5b61000b5600");
}

#[test]
fn landing_patch_failures() {
    let mut code = String::from("5b56");
    assert_eq!(
        modify_param::modify_push_val(&mut code, 0),
        Err(ObfuscationError::OperandOverflow)
    );
    assert_eq!(modify_param::modify_push_val(&mut code, 4), Err(ObfuscationError::UnknownOpcode));
    assert_eq!(modify_param::modify_push_val(&mut code, -1), Err(ObfuscationError::UnknownOpcode));
    assert_eq!(code, "5b56");
    let mut code = String::from("61ff");
    assert_eq!(
        modify_param::modify_push_val(&mut code, 0),
        Err(ObfuscationError::OperandOverflow)
    );
    let mut code = String::from("6");
    assert_eq!(modify_param::modify_push_val(&mut code, 0), Err(ObfuscationError::InvalidHex));
}

#[test]
fn append_jumpdest_adds_5b() {
    let mut code = String::from("6001");
    append_jumpdest(&mut code);
    assert_eq!(code, "60015b");
    let mut empty = String::new();
    append_jumpdest(&mut empty).push_str("00");
    assert_eq!(empty, "5b00");
}

#[test]
fn append_push_jump_pads_to_four_digits() {
    let mut code = String::from("5b");
    assert_eq!(append_push_jump(&mut code, String::from("16")), Ok(()));
    assert_eq!(code, "5b61001656");
    assert_eq!(append_push_jump(&mut code, String::from("abcd")), Ok(()));
    assert_eq!(code, "5b6100165661abcd56");
    assert_eq!(append_push_jump(&mut code, String::new()), Ok(()));
    assert_eq!(code, "5b6100165661abcd5661000056");
    let mut odd = String::new();
    assert_eq!(append_push_jump(&mut odd, String::from("a")), Ok(()));
    assert_eq!(odd, "61000a56");
}

#[test]
fn append_push_jump_goes_by_the_number() {
    // The digits of a PUSH3 before a JUMP: the number is 10, and fits.
    let mut code = String::from("5b");
    assert_eq!(append_push_jump(&mut code, String::from("00000a")), Ok(()));
    assert_eq!(code, "5b61000a56");
    let mut code = String::from("5b");
    assert_eq!(append_push_jump(&mut code, String::from("00016")), Ok(()));
    assert_eq!(code, "5b61001656");
    let mut code = String::new();
    assert_eq!(
        append_push_jump(
            &mut code,
            String::from("000000000000000000000000000000000000000000000000000000000000ffff")
        ),
        Ok(())
    );
    assert_eq!(code, "61ffff56");
    let mut code = String::new();
    assert_eq!(append_push_jump(&mut code, String::from("0000000")), Ok(()));
    assert_eq!(code, "61000056");
}

#[test]
fn append_push_jump_refuses_a_number_above_two_bytes() {
    let mut code = String::from("5b");
    assert_eq!(
        append_push_jump(&mut code, String::from("10000")),
        Err(ObfuscationError::OperandOverflow)
    );
    assert_eq!(
        append_push_jump(&mut code, String::from("010000")),
        Err(ObfuscationError::OperandOverflow)
    );
    assert_eq!(
        append_push_jump(&mut code, String::from("123456")),
        Err(ObfuscationError::OperandOverflow)
    );
    assert_eq!(
        append_push_jump(
            &mut code,
            String::from("0100000000000000000000000000000000000000000000000000000000000000")
        ),
        Err(ObfuscationError::OperandOverflow)
    );
    assert_eq!(code, "5b");
}

#[test]
fn append_push_jump_refuses_other_text() {
    let mut code = String::from("5b");
    assert_eq!(append_push_jump(&mut code, String::from("1G")), Err(ObfuscationError::InvalidHex));
    assert_eq!(
        append_push_jump(&mut code, String::from("0x16")),
        Err(ObfuscationError::InvalidHex)
    );
    assert_eq!(code, "5b");
}

#[test]
fn pad_hex_val_pads_to_the_operand() {
    assert_eq!(pad_hex_val(String::from("60"), String::from("a")), Ok(String::from("0a")));
    assert_eq!(pad_hex_val(String::from("60"), String::from("0a")), Ok(String::from("0a")));
    assert_eq!(pad_hex_val(String::from("61"), String::from("19")), Ok(String::from("0019")));
    assert_eq!(pad_hex_val(String::from("62"), String::new()), Ok(String::from("000000")));
    assert_eq!(pad_hex_val(String::from("5b"), String::new()), Ok(String::new()));
    assert_eq!(
        pad_hex_val(String::from("7f"), String::from("1")),
        Ok(String::from("0000000000000000000000000000000000000000000000000000000000000001"))
    );
}

#[test]
fn pad_hex_val_drops_the_zeros_that_are_too_many() {
    assert_eq!(pad_hex_val(String::from("60"), String::from("00a")), Ok(String::from("0a")));
    assert_eq!(pad_hex_val(String::from("61"), String::from("0001234")), Ok(String::from("1234")));
    assert_eq!(pad_hex_val(String::from("61"), String::from("00000a")), Ok(String::from("000a")));
    assert_eq!(pad_hex_val(String::from("5f"), String::from("0")), Ok(String::new()));
    assert_eq!(pad_hex_val(String::from("5f"), String::from("000")), Ok(String::new()));
    assert_eq!(
        pad_hex_val(
            String::from("7f"),
            String::from("00000000000000000000000000000000000000000000000000000000000000000000001f")
        ),
        Ok(String::from("000000000000000000000000000000000000000000000000000000000000001f"))
    );
}

#[test]
fn pad_hex_val_failures() {
    assert_eq!(
        pad_hex_val(String::from("60"), String::from("100")),
        Err(ObfuscationError::OperandOverflow)
    );
    assert_eq!(
        pad_hex_val(String::from("5f"), String::from("1")),
        Err(ObfuscationError::OperandOverflow)
    );
    assert_eq!(
        pad_hex_val(String::from("61"), String::from("012345")),
        Err(ObfuscationError::OperandOverflow)
    );
    assert_eq!(
        pad_hex_val(String::from("60"), String::from("0100")),
        Err(ObfuscationError::OperandOverflow)
    );
    assert_eq!(
        pad_hex_val(String::from("ff"), String::from("0")),
        Err(ObfuscationError::UnknownOpcode)
    );
    assert_eq!(
        pad_hex_val(String::from("PUSH1"), String::from("0")),
        Err(ObfuscationError::UnknownOpcode)
    );
    assert_eq!(
        pad_hex_val(String::from("60"), String::from("g")),
        Err(ObfuscationError::InvalidHex)
    );
    assert_eq!(
        pad_hex_val(String::from("ff"), String::from("g")),
        Err(ObfuscationError::UnknownOpcode)
    );
}

#[test]
fn rm_zero_x_strips_the_prefix() {
    let mut code = String::from("0x6001");
    rm_zero_x(&mut code);
    assert_eq!(code, "6001");
    let mut only = String::from("0x");
    rm_zero_x(&mut only);
    assert_eq!(only, "");
    let mut twice = String::from("0x0x5b");
    rm_zero_x(&mut twice);
    assert_eq!(twice, "0x5b");
}

#[test]
fn rm_zero_x_leaves_other_text() {
    for text in ["6001", "", "0", "x0", "0X5b", "00x5b", "\u{e9}0x"] {
        let mut code = String::from(text);
        rm_zero_x(&mut code);
        assert_eq!(code, text);
    }
    let mut wide = String::from("0x\u{e9}5b");
    rm_zero_x(&mut wide);
    assert_eq!(wide, "\u{e9}5b");
}
