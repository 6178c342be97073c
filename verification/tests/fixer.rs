use bytecode_obfuscator::analysis::push_codecopy_seq::{
    calculate_runtime_offset, get_push_codecopy_index, update_runtime_offset,
};
use bytecode_obfuscator::error::ObfuscationError;
use bytecode_obfuscator::helper::bytecode::get_last_instruction_position;

const CONTRACT: &str = "61000d8061000c5f395ff3fe6003565b00";

fn fix(creation: &str, runtime: &str) -> (Result<(), ObfuscationError>, String) {
    let mut code = String::from(creation);
    let r = update_runtime_offset(&mut code, &String::from(runtime));
    (r, code)
}

#[test]
fn length_is_bytes_of_runtime_and_one() {
    assert_eq!(
        fix(CONTRACT, "6003565b00"),
        (Ok(()), String::from("6100068061000c5f395ff3fe6003565b00"))
    );
    assert_eq!(fix(CONTRACT, ""), (Ok(()), String::from("6100018061000c5f395ff3fe6003565b00")));
    assert_eq!(fix("8060018080803900", "5b5b5b"), (Ok(()), String::from("8060048080803900")));
}

#[test]
fn the_first_push_before_a_codecopy_is_taken() {
    assert_eq!(
        fix("60016002808080393900", "0000"),
        (Ok(()), String::from("60016003808080393900"))
    );
}

#[test]
fn length_that_just_fits() {
    let runtime = "00".repeat(254);
    assert_eq!(fix("60018080803900", &runtime), (Ok(()), String::from("60ff8080803900")));
}

#[test]
fn length_that_does_not_fit() {
    let runtime = "00".repeat(255);
    assert_eq!(
        fix("60018080803900", &runtime),
        (Err(ObfuscationError::OperandOverflow), String::from("60018080803900"))
    );
}

#[test]
fn push0_has_no_room_for_a_length() {
    assert_eq!(
        fix("5f8080803900", "00"),
        (Err(ObfuscationError::OperandOverflow), String::from("5f8080803900"))
    );
}

#[test]
fn pattern_not_found() {
    for creation in ["5b8080803900", "600180803900", "60018080805b39", "", "39", "6001808080"] {
        assert_eq!(
            fix(creation, "00"),
            (Err(ObfuscationError::NoCodecopyLengthPattern), String::from(creation))
        );
    }
}

#[test]
fn fix_fails_with_the_walk_of_the_creation_code() {
    assert_eq!(fix("ff", "00"), (Err(ObfuscationError::UnknownOpcode), String::from("ff")));
    assert_eq!(
        fix("60018080803900f", "00"),
        (Err(ObfuscationError::InvalidHex), String::from("60018080803900f"))
    );
}

#[test]
fn fix_refuses_a_runtime_code_that_is_not_hexadecimal() {
    assert_eq!(fix(CONTRACT, "5b5"), (Err(ObfuscationError::InvalidHex), String::from(CONTRACT)));
    assert_eq!(fix(CONTRACT, "zz"), (Err(ObfuscationError::InvalidHex), String::from(CONTRACT)));
}

#[test]
fn fix_fails_with_the_walk_of_the_runtime_code() {
    assert_eq!(fix(CONTRACT, "ff"), (Err(ObfuscationError::UnknownOpcode), String::from(CONTRACT)));
    assert_eq!(
        fix(CONTRACT, "6001ff"),
        (Err(ObfuscationError::UnknownOpcode), String::from(CONTRACT))
    );
    // The pattern is looked for first.
    assert_eq!(
        fix("600180803900", "ff"),
        (Err(ObfuscationError::NoCodecopyLengthPattern), String::from("600180803900"))
    );
}

#[test]
fn length_counts_the_bytes_that_are_there() {
    // The last instruction of the runtime code lacks its immediate: the
    // length is that of the one byte, and one more.
    assert_eq!(fix(CONTRACT, "61"), (Ok(()), String::from("6100028061000c5f395ff3fe6003565b00")));
}

#[test]
fn push_codecopy_index() {
    assert_eq!(
        get_push_codecopy_index(&String::from(CONTRACT)),
        Ok((0, String::from("61")))
    );
    assert_eq!(
        get_push_codecopy_index(&String::from("8060018080803900")),
        Ok((2, String::from("60")))
    );
    assert_eq!(get_push_codecopy_index(&String::from("5f8080803900")), Ok((0, String::from("5f"))));
    assert_eq!(
        get_push_codecopy_index(&String::from("7f00000000000000000000000000000000000000000000000000000000000000005b5b5b39")),
        Ok((0, String::from("7f")))
    );
    assert_eq!(
        get_push_codecopy_index(&String::from("5b5b6001600280805b39")),
        Ok((8, String::from("60")))
    );
    assert_eq!(
        get_push_codecopy_index(&String::from("600180803900")),
        Err(ObfuscationError::NoCodecopyLengthPattern)
    );
    assert_eq!(
        get_push_codecopy_index(&String::from("60018080803900ff")),
        Err(ObfuscationError::UnknownOpcode)
    );
}

#[test]
fn runtime_offset_is_the_position_of_the_last_byte() {
    assert_eq!(calculate_runtime_offset(&String::from("6001600201")), Ok(4));
    assert_eq!(calculate_runtime_offset(&String::from("6003565b00")), Ok(4));
    assert_eq!(calculate_runtime_offset(&String::from("5b")), Ok(0));
    assert_eq!(calculate_runtime_offset(&String::new()), Ok(-1));
}

#[test]
fn runtime_offset_counts_a_cut_immediate_in_full() {
    assert_eq!(calculate_runtime_offset(&String::from("61")), Ok(2));
    assert_eq!(calculate_runtime_offset(&String::from("7f00")), Ok(32));
}

#[test]
fn runtime_offset_fails_with_the_walk() {
    assert_eq!(
        calculate_runtime_offset(&String::from("ff")),
        Err(ObfuscationError::UnknownOpcode)
    );
    assert_eq!(
        calculate_runtime_offset(&String::from("6001ff")),
        Err(ObfuscationError::UnknownOpcode)
    );
    assert_eq!(calculate_runtime_offset(&String::from("f")), Err(ObfuscationError::InvalidHex));
    assert_eq!(
        calculate_runtime_offset(&String::from("0x5b")),
        Err(ObfuscationError::InvalidHex)
    );
}

#[test]
fn runtime_offset_is_what_the_last_position_is() {
    use_both("6042600a5652602060005b0033602f01601656003360ff5b00");
    use_both("");
    use_both("61");
    use_both("ff");
    use_both("5");
}

fn use_both(code: &str) {
    let text = String::from(code);
    assert_eq!(calculate_runtime_offset(&text), get_last_instruction_position(&text));
}
