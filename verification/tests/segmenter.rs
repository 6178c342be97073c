use bytecode_obfuscator::analysis::code_type::seperate_bytecode;
use bytecode_obfuscator::error::ObfuscationError;

fn parts(init: &str, runtime: &str) -> Result<(String, String), ObfuscationError> {
    Ok((String::from(init), String::from(runtime)))
}

const CONTRACT: &str = "61000d8061000c5f395ff3fe6003565b00";

#[test]
fn splits_at_the_fifth_instruction_counted_from_codecopy() {
    // CODECOPY, PUSH0, RETURN and INVALID end the initialization code; the
    // fifth instruction counted from the CODECOPY begins the runtime code.
    assert_eq!(
        seperate_bytecode(&String::from(CONTRACT)),
        parts("61000d8061000c5f395ff3fe", "6003565b00")
    );
}

#[test]
fn init_ends_exactly_where_runtime_begins() {
    let code = String::from(CONTRACT);
    let (init, runtime) = seperate_bytecode(&code).unwrap();
    assert_eq!(init.len(), 24);
    assert_eq!(format!("{}{}", init, runtime), code);
}

#[test]
fn parts_put_together_are_the_buffer() {
    for code in [
        "395b5b5b5b",
        "5b395b5b5b60015b",
        "39393939395b",
        "6039395b5b5b5b5b",
        "395b5b5b61",
        CONTRACT,
    ] {
        let (init, runtime) = seperate_bytecode(&String::from(code)).unwrap();
        assert_eq!(format!("{}{}", init, runtime), code);
    }
}

#[test]
fn five_instructions_from_the_first_codecopy() {
    assert_eq!(seperate_bytecode(&String::from("395b5b5b5b")), parts("395b5b5b", "5b"));
    assert_eq!(
        seperate_bytecode(&String::from("5b395b5b5b60015b")),
        parts("5b395b5b5b", "60015b")
    );
}

#[test]
fn later_codecopies_count_as_any_instruction() {
    assert_eq!(seperate_bytecode(&String::from("39393939395b")), parts("39393939", "395b"));
}

#[test]
fn a_39_inside_an_immediate_is_no_codecopy() {
    assert_eq!(
        seperate_bytecode(&String::from("6039395b5b5b5b5b")),
        parts("6039395b5b5b", "5b5b")
    );
}

#[test]
fn the_runtime_code_may_end_in_a_cut_instruction() {
    assert_eq!(seperate_bytecode(&String::from("395b5b5b61")), parts("395b5b5b", "61"));
}

#[test]
fn no_split_without_a_fifth_instruction() {
    assert_eq!(
        seperate_bytecode(&String::from("395b5b5b")),
        Err(ObfuscationError::NoInitCodeSplit)
    );
    assert_eq!(seperate_bytecode(&String::from("39")), Err(ObfuscationError::NoInitCodeSplit));
}

#[test]
fn no_split_without_codecopy() {
    assert_eq!(
        seperate_bytecode(&String::from("5b5b5b5b5b5b")),
        Err(ObfuscationError::NoInitCodeSplit)
    );
    assert_eq!(seperate_bytecode(&String::new()), Err(ObfuscationError::NoInitCodeSplit));
    assert_eq!(
        seperate_bytecode(&String::from("6042600a5652602060005b0033602f01601656003360ff5b00")),
        Err(ObfuscationError::NoInitCodeSplit)
    );
}

#[test]
fn split_fails_with_the_walk() {
    assert_eq!(
        seperate_bytecode(&String::from("395b5b5bff")),
        Err(ObfuscationError::UnknownOpcode)
    );
    assert_eq!(
        seperate_bytecode(&String::from("395b5b5b5bff")),
        Err(ObfuscationError::UnknownOpcode)
    );
    assert_eq!(
        seperate_bytecode(&String::from("0x395b5b5b5b")),
        Err(ObfuscationError::InvalidHex)
    );
    assert_eq!(seperate_bytecode(&String::from("395b5b5b5")), Err(ObfuscationError::InvalidHex));
}
