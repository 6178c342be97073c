//! The opcode table: which bytes are instructions, what they are called,
//! and how many digits each instruction takes in the text, its immediate
//! operand included.
//!
//! SELFDESTRUCT (`ff`) is left out on purpose, so that code which can
//! destroy its own account is refused instead of being rewritten.

use crate::hex::{
    digit_at, hex_char, hex_digit_value, hex_digits, is_hex_digit, is_hex_text,
    lemma_hex_char_is_digit, lemma_hex_text_is_ascii, text_len,
};
use vstd::prelude::*;
use vstd::string::*;

verus! {

/// Copies code into memory; the last step of initialization code before
/// its epilogue.
pub const CODECOPY: u8 = 0x39;

/// Jumps to the byte position on top of the stack.
pub const JUMP: u8 = 0x56;

/// Marks a byte position as one that may be jumped to.
pub const JUMPDEST: u8 = 0x5b;

/// Pushes zero; the one PUSH without an immediate.
pub const PUSH0: u8 = 0x5f;

/// Pushes its immediate of one byte.
pub const PUSH1: u8 = 0x60;

/// Pushes its immediate of two bytes.
pub const PUSH2: u8 = 0x61;

/// Pushes its immediate of thirty-two bytes; the widest PUSH.
pub const PUSH32: u8 = 0x7f;

/// The number of bytes that follow the opcode `byte` as its immediate
/// operand: `n` for PUSH`n`, none for every other opcode.
pub open spec fn immediate_bytes(byte: int) -> int {
    if PUSH1 <= byte <= PUSH32 {
        byte - PUSH0
    } else {
        0
    }
}

/// The bytes that the table lists: arithmetic (`00`-`0b`), comparison and
/// bit operations (`10`-`1d`), KECCAK256 (`20`), environment and block
/// (`30`-`4a`), stack, memory, storage and flow (`50`-`5f`), PUSH1 to
/// PUSH32 (`60`-`7f`), DUP (`80`-`8f`), SWAP (`90`-`9f`), LOG (`a0`-`a4`),
/// calls and creation (`f0`-`f5`, `fa`), REVERT (`fd`) and INVALID (`fe`).
pub open spec fn is_opcode(byte: int) -> bool {
    ||| 0x00 <= byte <= 0x0b
    ||| 0x10 <= byte <= 0x1d
    ||| byte == 0x20
    ||| 0x30 <= byte <= 0x4a
    ||| 0x50 <= byte <= 0xa4
    ||| 0xf0 <= byte <= 0xf5
    ||| byte == 0xfa
    ||| byte == 0xfd
    ||| byte == 0xfe
}

/// A PUSH of any width, PUSH0 included.
pub open spec fn is_push(byte: int) -> bool {
    PUSH0 <= byte <= PUSH32
}

/// The digits that the instruction with opcode `byte` takes: two for the
/// opcode and two for each byte of its immediate.
pub open spec fn opcode_length(byte: int) -> Option<int> {
    if is_opcode(byte) {
        Some(2 + 2 * immediate_bytes(byte))
    } else {
        None
    }
}

/// The byte written by the two digits at `offset`.
pub open spec fn byte_at(s: Seq<char>, offset: int) -> int {
    16 * hex_digit_value(s[offset]) + hex_digit_value(s[offset + 1])
}

/// The byte that `text` names, if it is two hexadecimal digits.
pub open spec fn opcode_byte(text: Seq<char>) -> Option<int> {
    if text.len() == 2 && is_hex_digit(text[0]) && is_hex_digit(text[1]) {
        Some(byte_at(text, 0))
    } else {
        None
    }
}

/// The table's answer for the opcode written as `text`.
pub open spec fn opcode_size(text: Seq<char>) -> Option<int> {
    match opcode_byte(text) {
        Some(byte) => opcode_length(byte),
        None => None,
    }
}

/// The two digits that write `byte`.
pub open spec fn opcode_text(byte: int) -> Seq<char> {
    hex_digits(byte, 2)
}

/// The mnemonic of the opcode `byte`, for the bytes that the table lists.
pub open spec fn opcode_name(byte: u8) -> Option<Seq<char>> {
    match byte {
        0x00 => Some("STOP"@),
        0x01 => Some("ADD"@),
        0x02 => Some("MUL"@),
        0x03 => Some("SUB"@),
        0x04 => Some("DIV"@),
        0x05 => Some("SDIV"@),
        0x06 => Some("MOD"@),
        0x07 => Some("SMOD"@),
        0x08 => Some("ADDMOD"@),
        0x09 => Some("MULMOD"@),
        0x0a => Some("EXP"@),
        0x0b => Some("SIGNEXTEND"@),
        0x10 => Some("LT"@),
        0x11 => Some("GT"@),
        0x12 => Some("SLT"@),
        0x13 => Some("SGT"@),
        0x14 => Some("EQ"@),
        0x15 => Some("ISZERO"@),
        0x16 => Some("AND"@),
        0x17 => Some("OR"@),
        0x18 => Some("XOR"@),
        0x19 => Some("NOT"@),
        0x1a => Some("BYTE"@),
        0x1b => Some("SHL"@),
        0x1c => Some("SHR"@),
        0x1d => Some("SAR"@),
        0x20 => Some("KECCAK256"@),
        0x30 => Some("ADDRESS"@),
        0x31 => Some("BALANCE"@),
        0x32 => Some("ORIGIN"@),
        0x33 => Some("CALLER"@),
        0x34 => Some("CALLVALUE"@),
        0x35 => Some("CALLDATALOAD"@),
        0x36 => Some("CALLDATASIZE"@),
        0x37 => Some("CALLDATACOPY"@),
        0x38 => Some("CODESIZE"@),
        0x39 => Some("CODECOPY"@),
        0x3a => Some("GASPRICE"@),
        0x3b => Some("EXTCODESIZE"@),
        0x3c => Some("EXTCODECOPY"@),
        0x3d => Some("RETURNDATASIZE"@),
        0x3e => Some("RETURNDATACOPY"@),
        0x3f => Some("EXTCODEHASH"@),
        0x40 => Some("BLOCKHASH"@),
        0x41 => Some("COINBASE"@),
        0x42 => Some("TIMESTAMP"@),
        0x43 => Some("NUMBER"@),
        0x44 => Some("PREVRANDAO"@),
        0x45 => Some("GASLIMIT"@),
        0x46 => Some("CHAINID"@),
        0x47 => Some("SELFBALANCE"@),
        0x48 => Some("BASEFEE"@),
        0x49 => Some("BLOBHASH"@),
        0x4a => Some("BLOBBASEFEE"@),
        0x50 => Some("POP"@),
        0x51 => Some("MLOAD"@),
        0x52 => Some("MSTORE"@),
        0x53 => Some("MSTORE8"@),
        0x54 => Some("SLOAD"@),
        0x55 => Some("SSTORE"@),
        0x56 => Some("JUMP"@),
        0x57 => Some("JUMPI"@),
        0x58 => Some("PC"@),
        0x59 => Some("MSIZE"@),
        0x5a => Some("GAS"@),
        0x5b => Some("JUMPDEST"@),
        0x5c => Some("TLOAD"@),
        0x5d => Some("TSTORE"@),
        0x5e => Some("MCOPY"@),
        0x5f => Some("PUSH0"@),
        0x60 => Some("PUSH1"@),
        0x61 => Some("PUSH2"@),
        0x62 => Some("PUSH3"@),
        0x63 => Some("PUSH4"@),
        0x64 => Some("PUSH5"@),
        0x65 => Some("PUSH6"@),
        0x66 => Some("PUSH7"@),
        0x67 => Some("PUSH8"@),
        0x68 => Some("PUSH9"@),
        0x69 => Some("PUSH10"@),
        0x6a => Some("PUSH11"@),
        0x6b => Some("PUSH12"@),
        0x6c => Some("PUSH13"@),
        0x6d => Some("PUSH14"@),
        0x6e => Some("PUSH15"@),
        0x6f => Some("PUSH16"@),
        0x70 => Some("PUSH17"@),
        0x71 => Some("PUSH18"@),
        0x72 => Some("PUSH19"@),
        0x73 => Some("PUSH20"@),
        0x74 => Some("PUSH21"@),
        0x75 => Some("PUSH22"@),
        0x76 => Some("PUSH23"@),
        0x77 => Some("PUSH24"@),
        0x78 => Some("PUSH25"@),
        0x79 => Some("PUSH26"@),
        0x7a => Some("PUSH27"@),
        0x7b => Some("PUSH28"@),
        0x7c => Some("PUSH29"@),
        0x7d => Some("PUSH30"@),
        0x7e => Some("PUSH31"@),
        0x7f => Some("PUSH32"@),
        0x80 => Some("DUP1"@),
        0x81 => Some("DUP2"@),
        0x82 => Some("DUP3"@),
        0x83 => Some("DUP4"@),
        0x84 => Some("DUP5"@),
        0x85 => Some("DUP6"@),
        0x86 => Some("DUP7"@),
        0x87 => Some("DUP8"@),
        0x88 => Some("DUP9"@),
        0x89 => Some("DUP10"@),
        0x8a => Some("DUP11"@),
        0x8b => Some("DUP12"@),
        0x8c => Some("DUP13"@),
        0x8d => Some("DUP14"@),
        0x8e => Some("DUP15"@),
        0x8f => Some("DUP16"@),
        0x90 => Some("SWAP1"@),
        0x91 => Some("SWAP2"@),
        0x92 => Some("SWAP3"@),
        0x93 => Some("SWAP4"@),
        0x94 => Some("SWAP5"@),
        0x95 => Some("SWAP6"@),
        0x96 => Some("SWAP7"@),
        0x97 => Some("SWAP8"@),
        0x98 => Some("SWAP9"@),
        0x99 => Some("SWAP10"@),
        0x9a => Some("SWAP11"@),
        0x9b => Some("SWAP12"@),
        0x9c => Some("SWAP13"@),
        0x9d => Some("SWAP14"@),
        0x9e => Some("SWAP15"@),
        0x9f => Some("SWAP16"@),
        0xa0 => Some("LOG0"@),
        0xa1 => Some("LOG1"@),
        0xa2 => Some("LOG2"@),
        0xa3 => Some("LOG3"@),
        0xa4 => Some("LOG4"@),
        0xf0 => Some("CREATE"@),
        0xf1 => Some("CALL"@),
        0xf2 => Some("CALLCODE"@),
        0xf3 => Some("RETURN"@),
        0xf4 => Some("DELEGATECALL"@),
        0xf5 => Some("CREATE2"@),
        0xfa => Some("STATICCALL"@),
        0xfd => Some("REVERT"@),
        0xfe => Some("INVALID"@),
        _ => None,
    }
}

/// A mnemonic or none as plain values.
pub open spec fn name_view(r: Option<&'static str>) -> Option<Seq<char>> {
    match r {
        Some(name) => Some(name@),
        None => None,
    }
}

/// The mnemonic of the opcode written as `text`.
pub open spec fn opcode_name_of(text: Seq<char>) -> Option<Seq<char>> {
    match opcode_byte(text) {
        Some(byte) => opcode_name(byte as u8),
        None => None,
    }
}

/// A length or none as plain values.
pub open spec fn length_view(r: Option<usize>) -> Option<int> {
    match r {
        Some(length) => Some(length as int),
        None => None,
    }
}

/// A byte or none as plain values.
pub open spec fn byte_view(r: Option<u8>) -> Option<int> {
    match r {
        Some(byte) => Some(byte as int),
        None => None,
    }
}

/// The length in digits of the instruction with opcode `byte`, or `None`
/// when the table does not list the byte.
pub fn opcode_digit_length(byte: u8) -> (r: Option<usize>)
    ensures
        length_view(r) == opcode_length(byte as int),
        r matches Some(n) ==> 2 <= n <= 66 && n % 2 == 0,
{
    if byte >= PUSH1 && byte <= PUSH32 {
        let n: usize = (byte - PUSH0) as usize;
        Some(2 + 2 * n)
    } else if byte <= 0x0b || (byte >= 0x10 && byte <= 0x1d) || byte == 0x20 || (byte >= 0x30
        && byte <= 0x4a) || (byte >= 0x50 && byte <= 0xa4) || (byte >= 0xf0 && byte <= 0xf5)
        || byte == 0xfa || byte == 0xfd || byte == 0xfe {
        Some(2)
    } else {
        None
    }
}

/// The byte that the opcode text names, or `None` when the text is not
/// two hexadecimal digits.
pub fn parse_opcode(opcode: &str) -> (r: Option<u8>)
    ensures
        byte_view(r) == opcode_byte(opcode@),
{
    if !opcode.is_ascii() {
        proof {
            if opcode_byte(opcode@) is Some {
                assert(is_hex_text(opcode@));
                lemma_hex_text_is_ascii(opcode@);
            }
        }
        return None;
    }
    if text_len(opcode) != 2 {
        return None;
    }
    match (digit_at(opcode, 0), digit_at(opcode, 1)) {
        (Some(high), Some(low)) => Some(high * 16 + low),
        _ => None,
    }
}

/// Looks an opcode up: the digits its instruction takes, or `None` when the
/// text is not an opcode of the table.
pub fn get_opcode_size(opcode: &str) -> (r: Option<usize>)
    ensures
        length_view(r) == opcode_size(opcode@),
{
    match parse_opcode(opcode) {
        Some(byte) => opcode_digit_length(byte),
        None => None,
    }
}

/// The mnemonic of the opcode `byte`, or `None` when the table does not
/// list the byte.
pub fn opcode_mnemonic(byte: u8) -> (r: Option<&'static str>)
    ensures
        name_view(r) == opcode_name(byte),
{
    match byte {
        0x00 => Some("STOP"),
        0x01 => Some("ADD"),
        0x02 => Some("MUL"),
        0x03 => Some("SUB"),
        0x04 => Some("DIV"),
        0x05 => Some("SDIV"),
        0x06 => Some("MOD"),
        0x07 => Some("SMOD"),
        0x08 => Some("ADDMOD"),
        0x09 => Some("MULMOD"),
        0x0a => Some("EXP"),
        0x0b => Some("SIGNEXTEND"),
        0x10 => Some("LT"),
        0x11 => Some("GT"),
        0x12 => Some("SLT"),
        0x13 => Some("SGT"),
        0x14 => Some("EQ"),
        0x15 => Some("ISZERO"),
        0x16 => Some("AND"),
        0x17 => Some("OR"),
        0x18 => Some("XOR"),
        0x19 => Some("NOT"),
        0x1a => Some("BYTE"),
        0x1b => Some("SHL"),
        0x1c => Some("SHR"),
        0x1d => Some("SAR"),
        0x20 => Some("KECCAK256"),
        0x30 => Some("ADDRESS"),
        0x31 => Some("BALANCE"),
        0x32 => Some("ORIGIN"),
        0x33 => Some("CALLER"),
        0x34 => Some("CALLVALUE"),
        0x35 => Some("CALLDATALOAD"),
        0x36 => Some("CALLDATASIZE"),
        0x37 => Some("CALLDATACOPY"),
        0x38 => Some("CODESIZE"),
        0x39 => Some("CODECOPY"),
        0x3a => Some("GASPRICE"),
        0x3b => Some("EXTCODESIZE"),
        0x3c => Some("EXTCODECOPY"),
        0x3d => Some("RETURNDATASIZE"),
        0x3e => Some("RETURNDATACOPY"),
        0x3f => Some("EXTCODEHASH"),
        0x40 => Some("BLOCKHASH"),
        0x41 => Some("COINBASE"),
        0x42 => Some("TIMESTAMP"),
        0x43 => Some("NUMBER"),
        0x44 => Some("PREVRANDAO"),
        0x45 => Some("GASLIMIT"),
        0x46 => Some("CHAINID"),
        0x47 => Some("SELFBALANCE"),
        0x48 => Some("BASEFEE"),
        0x49 => Some("BLOBHASH"),
        0x4a => Some("BLOBBASEFEE"),
        0x50 => Some("POP"),
        0x51 => Some("MLOAD"),
        0x52 => Some("MSTORE"),
        0x53 => Some("MSTORE8"),
        0x54 => Some("SLOAD"),
        0x55 => Some("SSTORE"),
        0x56 => Some("JUMP"),
        0x57 => Some("JUMPI"),
        0x58 => Some("PC"),
        0x59 => Some("MSIZE"),
        0x5a => Some("GAS"),
        0x5b => Some("JUMPDEST"),
        0x5c => Some("TLOAD"),
        0x5d => Some("TSTORE"),
        0x5e => Some("MCOPY"),
        0x5f => Some("PUSH0"),
        0x60 => Some("PUSH1"),
        0x61 => Some("PUSH2"),
        0x62 => Some("PUSH3"),
        0x63 => Some("PUSH4"),
        0x64 => Some("PUSH5"),
        0x65 => Some("PUSH6"),
        0x66 => Some("PUSH7"),
        0x67 => Some("PUSH8"),
        0x68 => Some("PUSH9"),
        0x69 => Some("PUSH10"),
        0x6a => Some("PUSH11"),
        0x6b => Some("PUSH12"),
        0x6c => Some("PUSH13"),
        0x6d => Some("PUSH14"),
        0x6e => Some("PUSH15"),
        0x6f => Some("PUSH16"),
        0x70 => Some("PUSH17"),
        0x71 => Some("PUSH18"),
        0x72 => Some("PUSH19"),
        0x73 => Some("PUSH20"),
        0x74 => Some("PUSH21"),
        0x75 => Some("PUSH22"),
        0x76 => Some("PUSH23"),
        0x77 => Some("PUSH24"),
        0x78 => Some("PUSH25"),
        0x79 => Some("PUSH26"),
        0x7a => Some("PUSH27"),
        0x7b => Some("PUSH28"),
        0x7c => Some("PUSH29"),
        0x7d => Some("PUSH30"),
        0x7e => Some("PUSH31"),
        0x7f => Some("PUSH32"),
        0x80 => Some("DUP1"),
        0x81 => Some("DUP2"),
        0x82 => Some("DUP3"),
        0x83 => Some("DUP4"),
        0x84 => Some("DUP5"),
        0x85 => Some("DUP6"),
        0x86 => Some("DUP7"),
        0x87 => Some("DUP8"),
        0x88 => Some("DUP9"),
        0x89 => Some("DUP10"),
        0x8a => Some("DUP11"),
        0x8b => Some("DUP12"),
        0x8c => Some("DUP13"),
        0x8d => Some("DUP14"),
        0x8e => Some("DUP15"),
        0x8f => Some("DUP16"),
        0x90 => Some("SWAP1"),
        0x91 => Some("SWAP2"),
        0x92 => Some("SWAP3"),
        0x93 => Some("SWAP4"),
        0x94 => Some("SWAP5"),
        0x95 => Some("SWAP6"),
        0x96 => Some("SWAP7"),
        0x97 => Some("SWAP8"),
        0x98 => Some("SWAP9"),
        0x99 => Some("SWAP10"),
        0x9a => Some("SWAP11"),
        0x9b => Some("SWAP12"),
        0x9c => Some("SWAP13"),
        0x9d => Some("SWAP14"),
        0x9e => Some("SWAP15"),
        0x9f => Some("SWAP16"),
        0xa0 => Some("LOG0"),
        0xa1 => Some("LOG1"),
        0xa2 => Some("LOG2"),
        0xa3 => Some("LOG3"),
        0xa4 => Some("LOG4"),
        0xf0 => Some("CREATE"),
        0xf1 => Some("CALL"),
        0xf2 => Some("CALLCODE"),
        0xf3 => Some("RETURN"),
        0xf4 => Some("DELEGATECALL"),
        0xf5 => Some("CREATE2"),
        0xfa => Some("STATICCALL"),
        0xfd => Some("REVERT"),
        0xfe => Some("INVALID"),
        _ => None,
    }
}

/// Looks an opcode up: its mnemonic, or `None` when the text is not an
/// opcode of the table.
pub fn get_opcode_name(opcode: &str) -> (r: Option<&'static str>)
    ensures
        name_view(r) == opcode_name_of(opcode@),
{
    match parse_opcode(opcode) {
        Some(byte) => opcode_mnemonic(byte),
        None => None,
    }
}

/// The text of a byte is two digits that name the byte.
pub proof fn lemma_opcode_text(byte: int)
    requires
        0 <= byte < 256,
    ensures
        opcode_text(byte).len() == 2,
        is_hex_text(opcode_text(byte)),
        opcode_byte(opcode_text(byte)) == Some(byte),
        opcode_text(byte) == seq![hex_char(byte / 16), hex_char(byte % 16)],
{
    let t = opcode_text(byte);
    assert(t =~= seq![hex_char(byte / 16), hex_char(byte % 16)]) by {
        assert((byte / 16) % 16 == byte / 16);
    }
    lemma_hex_char_is_digit(byte / 16);
    lemma_hex_char_is_digit(byte % 16);
}

/// Text that names a byte is the text of that byte.
pub proof fn lemma_opcode_byte_text(text: Seq<char>)
    requires
        opcode_byte(text) is Some,
    ensures
        0 <= opcode_byte(text).unwrap() < 256,
        opcode_text(opcode_byte(text).unwrap()) == text,
{
    let byte = opcode_byte(text).unwrap();
    lemma_opcode_text(byte);
    assert(opcode_text(byte) =~= text);
}

/// The table gives a mnemonic to the bytes to which it gives a length,
/// and to no others.
pub proof fn lemma_named_opcodes_have_lengths(byte: u8)
    ensures
        opcode_name(byte) is Some <==> opcode_length(byte as int) is Some,
{
}

} // verus!
