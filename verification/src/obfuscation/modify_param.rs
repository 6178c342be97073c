//! Pointing a PUSH at the landing place of a decoy.

use crate::constant::opcodes::{lemma_opcode_byte_text, opcode_byte, opcode_text};
use crate::error::{ObfuscationError, written};
use crate::helper::bytecode::patched;
use crate::hex::{copy_digits, is_bytecode, is_bytecode_str};
use crate::walker::{Instruction, instruction_at, lemma_instruction_at, read_instruction};
use vstd::prelude::*;

verus! {

/// The byte at which every decoy fragment lands after its first jump.
pub const DEAD_BYTECODE_LANDING: i32 = 0x0b;

/// The buffer after the instruction at `offset` has been made to push
/// `DEAD_BYTECODE_LANDING`.
pub open spec fn with_landing(s: Seq<char>, offset: int) -> Result<Seq<char>, ObfuscationError> {
    if !is_bytecode(s) {
        Err(ObfuscationError::InvalidHex)
    } else {
        match instruction_at(s, offset) {
            None => Err(ObfuscationError::UnknownOpcode),
            Some(found) => patched(
                s,
                offset,
                DEAD_BYTECODE_LANDING as int,
                opcode_text(found.opcode as int),
            ),
        }
    }
}

/// Overwrites the operand of the instruction at digit `push_byte_offset`
/// with `0b`, padded with zeros to the width of the operand.
///
/// Fails with `InvalidHex` when the buffer is not well formed, with
/// `UnknownOpcode` when no instruction of the table stands at the offset,
/// and with `OperandOverflow` when the instruction has no operand or not
/// all of it lies within the buffer. On failure the buffer is left as it
/// was.
pub fn modify_push_val(bytecode: &mut String, push_byte_offset: i32) -> (r: Result<
    (),
    ObfuscationError,
>)
    ensures
        written(
            with_landing(old(bytecode)@, push_byte_offset as int),
            old(bytecode)@,
            final(bytecode)@,
            r,
        ),
{
    let text: &str = bytecode.as_str();
    if !is_bytecode_str(text) {
        return Err(ObfuscationError::InvalidHex);
    }
    if push_byte_offset < 0 {
        return Err(ObfuscationError::UnknownOpcode);
    }
    let offset: usize = push_byte_offset as usize;
    let found: Instruction = match read_instruction(text, offset) {
        Some(found) => found,
        None => { return Err(ObfuscationError::UnknownOpcode); },
    };
    proof {
        lemma_instruction_at(text@, offset as int);
        let digits = text@.subrange(offset as int, offset + 2);
        assert(digits[0] == text@[offset as int] && digits[1] == text@[offset + 1]);
        assert(opcode_byte(digits) == Some(found.opcode as int));
        lemma_opcode_byte_text(digits);
    }
    let opcode: String = copy_digits(text, offset, offset + 2);
    crate::helper::bytecode::modify_push_val(
        bytecode,
        push_byte_offset,
        DEAD_BYTECODE_LANDING,
        &opcode,
    )
}

} // verus!
