//! Growing a buffer at its tail, writing operands in place, and the queries
//! that the rewriting steps ask of a buffer.

use crate::analysis::jump_seq::{
    find_jump_seq, is_push_jump, jump_record, jump_records, jump_sequences,
    lemma_jump_records_without_jump, lemma_opcode_digits, PushPositions, PushPositionsView, views,
};
use crate::constant::dead_bytecodes::{dead_bytecodes, is_dead_bytecode_choice};
use crate::constant::opcodes::{
    get_opcode_size, JUMP, JUMPDEST, lemma_opcode_text, opcode_size, opcode_text, PUSH2,
};
use crate::error::{number_view, ObfuscationError, text_view, written};
use crate::hex::{
    capacity, copy_digits, digit_at, fits_digits, has_leading_zeros, hex_digits, hex_value,
    is_bytecode, is_bytecode_str, is_hex_digit, is_hex_str, is_hex_text, lemma_hex_digits_of_value,
    lemma_hex_digits_shape, lemma_hex_value_capacity, lemma_hex_value_joined,
    lemma_hex_value_of_digits, lemma_hex_value_zero, lemma_leading_zeros, text_len, to_hex_digits,
    zeros,
};
use crate::walker::{
    code_end, decoded, differs_in_immediate, immediate, Instruction, instruction_at,
    lemma_decoded_count, lemma_instruction_at, lemma_walk_lacks, read_instruction, walk, walk_from,
    walk_lacks,
};
use rand::Rng;
use vstd::prelude::*;
use vstd::string::*;

verus! {

/// The text of a lone JUMPDEST.
pub open spec fn jumpdest_text() -> Seq<char> {
    seq!['5', 'b']
}

/// The opcode text of PUSH2, the PUSH of every appended jump.
pub open spec fn push2_text() -> Seq<char> {
    seq!['6', '1']
}

/// The text of a lone JUMP.
pub open spec fn jump_text() -> Seq<char> {
    seq!['5', '6']
}

/// The number that `value` stands for, written in exactly as many digits
/// as the operand of `instruction` has.
///
/// Shorter text gets zeros before it. Of longer text the digits before
/// the width of the operand are dropped when they are all zeros; when one
/// of them is not, the number does not fit. So the outcome goes by the
/// number and not by how many zeros stand before it (see
/// `lemma_padded_by_value`).
pub open spec fn padded(instruction: Seq<char>, value: Seq<char>) -> Result<
    Seq<char>,
    ObfuscationError,
> {
    match opcode_size(instruction) {
        None => Err(ObfuscationError::UnknownOpcode),
        Some(size) => {
            let width = size - 2;
            if !is_hex_text(value) {
                Err(ObfuscationError::InvalidHex)
            } else if value.len() <= width {
                Ok(zeros((width - value.len()) as nat) + value)
            } else if has_leading_zeros(value, value.len() - width) {
                Ok(value.subrange(value.len() - width, value.len() as int))
            } else {
                Err(ObfuscationError::OperandOverflow)
            }
        },
    }
}

/// The buffer with a PUSH2 of the number that `jump_to` stands for, and a
/// JUMP, at its tail. The number has to fit the two bytes of the PUSH2,
/// however many zeros the text has before it.
pub open spec fn with_push_jump(s: Seq<char>, jump_to: Seq<char>) -> Result<
    Seq<char>,
    ObfuscationError,
> {
    if !is_hex_text(jump_to) {
        Err(ObfuscationError::InvalidHex)
    } else if hex_value(jump_to) >= 0x1_0000 {
        Err(ObfuscationError::OperandOverflow)
    } else {
        Ok(s + push2_text() + hex_digits(hex_value(jump_to), 4) + jump_text())
    }
}

/// The same over the digits of `jump_to`, without its number: the PUSH2
/// has the digits `padded(push2_text(), jump_to)`.
pub open spec fn with_push_jump_digits(s: Seq<char>, jump_to: Seq<char>) -> Result<
    Seq<char>,
    ObfuscationError,
> {
    match padded(push2_text(), jump_to) {
        Ok(target) => Ok(s + push2_text() + target + jump_text()),
        Err(e) => Err(e),
    }
}

/// The position of the last byte that the instructions of a buffer span:
/// half the offset just past the last instruction, less one. It is -1 for
/// the empty buffer.
pub open spec fn last_position(instructions: Seq<Instruction>) -> int {
    code_end(instructions) / 2 - 1
}

/// The position of the last byte of a buffer, by its instructions.
pub open spec fn last_instruction_position(s: Seq<char>) -> Result<int, ObfuscationError> {
    match decoded(s) {
        Ok(instructions) => Ok(last_position(instructions)),
        Err(e) => Err(e),
    }
}

/// The number of instructions of a buffer.
pub open spec fn instruction_count(s: Seq<char>) -> Result<int, ObfuscationError> {
    match decoded(s) {
        Ok(instructions) => Ok(instructions.len() as int),
        Err(e) => Err(e),
    }
}

/// The opcode text of the instruction at place `index`, counted from 1.
pub open spec fn instruction_text_at(s: Seq<char>, index: int) -> Result<
    Option<Seq<char>>,
    ObfuscationError,
> {
    match decoded(s) {
        Ok(instructions) => if 1 <= index <= instructions.len() {
            Ok(Some(opcode_text(instructions[index - 1].opcode as int)))
        } else {
            Ok(None)
        },
        Err(e) => Err(e),
    }
}

/// The answer of `get_instruction_at_index` as plain values.
pub open spec fn opcode_view(r: Result<Option<String>, ObfuscationError>) -> Result<
    Option<Seq<char>>,
    ObfuscationError,
> {
    match r {
        Ok(Some(text)) => Ok(Some(text@)),
        Ok(None) => Ok(None),
        Err(e) => Err(e),
    }
}

/// The buffer after the operand of the instruction at `offset` has been
/// overwritten with `value`.
///
/// `instruction` names the opcode whose operand is written. The table must
/// list it, and an instruction must stand at `offset`, else the opcode is
/// unknown. The value must fill the operand exactly: the digits of the
/// operand of `instruction` can hold it, and the instruction found at
/// `offset` has an operand of that width, all of it within the buffer.
/// Only the digits of the operand change.
pub open spec fn patched(s: Seq<char>, offset: int, value: int, instruction: Seq<char>) -> Result<
    Seq<char>,
    ObfuscationError,
> {
    if !is_bytecode(s) {
        Err(ObfuscationError::InvalidHex)
    } else {
        match (opcode_size(instruction), instruction_at(s, offset)) {
            (Some(size), Some(found)) => if size != found.length || offset + size > s.len()
                || !fits_digits(value, (size - 2) as nat) {
                Err(ObfuscationError::OperandOverflow)
            } else {
                Ok(
                    s.subrange(0, offset + 2) + hex_digits(value, (size - 2) as nat) + s.subrange(
                        offset + size,
                        s.len() as int,
                    ),
                )
            },
            _ => Err(ObfuscationError::UnknownOpcode),
        }
    }
}

/// The text without a leading `0x`.
pub open spec fn without_zero_x(s: Seq<char>) -> Seq<char> {
    if s.len() >= 2 && s[0] == '0' && s[1] == 'x' {
        s.subrange(2, s.len() as int)
    } else {
        s
    }
}

/// The fragment after the targets of its first `n` jumps have been moved
/// by `position`: each record in turn has its PUSH overwritten with its
/// value plus `position`.
pub open spec fn relocated_upto(
    fragment: Seq<char>,
    records: Seq<PushPositionsView>,
    position: int,
    n: int,
) -> Result<Seq<char>, ObfuscationError>
    decreases n,
{
    if n <= 0 {
        Ok(fragment)
    } else {
        match relocated_upto(fragment, records, position, n - 1) {
            Err(e) => Err(e),
            Ok(text) => if !(i32::MIN <= records[n - 1].value_decimal + position <= i32::MAX) {
                Err(ObfuscationError::OperandOverflow)
            } else {
                patched(
                    text,
                    records[n - 1].byteoffset_decimal,
                    records[n - 1].value_decimal + position,
                    records[n - 1].instruction_bits,
                )
            },
        }
    }
}

/// The fragment made ready to stand after byte `position` of a buffer:
/// the target of each of its PUSH-JUMP pairs is its own value plus
/// `position`.
pub open spec fn relocated(fragment: Seq<char>, position: int) -> Result<
    Seq<char>,
    ObfuscationError,
> {
    match jump_sequences(fragment) {
        Err(e) => Err(e),
        Ok(records) => relocated_upto(fragment, records, position, records.len() as int),
    }
}

/// Whether a fragment is one that begins with `PUSH2 000b; JUMP` and has
/// no other JUMP.
pub open spec fn has_one_jump(fragment: Seq<char>) -> bool {
    &&& instruction_at(fragment, 0) == Some(Instruction { offset: 0, opcode: PUSH2, length: 6 })
    &&& instruction_at(fragment, 6) == Some(Instruction { offset: 6, opcode: JUMP, length: 2 })
    &&& fragment.len() >= 8
    &&& fragment[2] == '0' && fragment[3] == '0' && fragment[4] == '0' && fragment[5] == 'b'
    &&& walk_lacks(fragment, JUMP, 8)
}

/// Appends a JUMPDEST to the buffer and hands the buffer back.
pub fn append_jumpdest(bytecode: &mut String) -> (r: &mut String)
    ensures
        r@ == old(bytecode)@ + jumpdest_text(),
        final(bytecode)@ == final(r)@,
{
    proof {
        reveal_strlit("5b");
        assert("5b"@ =~= jumpdest_text());
    }
    bytecode.append("5b");
    bytecode
}

/// Writes the number that the digits `value` stand for in exactly as many
/// digits as the operand of `instruction` has: with zeros before it, or
/// without the zeros that it has too many.
///
/// Fails with `UnknownOpcode` when the table lacks `instruction`, with
/// `InvalidHex` when `value` is not hexadecimal, and with
/// `OperandOverflow` when the number needs more digits than the operand
/// has.
pub fn pad_hex_val(instruction: String, value: String) -> (r: Result<String, ObfuscationError>)
    ensures
        text_view(r) == padded(instruction@, value@),
{
    let size: usize = match get_opcode_size(instruction.as_str()) {
        Some(size) => size,
        None => { return Err(ObfuscationError::UnknownOpcode); },
    };
    let digits: &str = value.as_str();
    if !is_hex_str(digits) {
        return Err(ObfuscationError::InvalidHex);
    }
    let data_size_chars: usize = size - 2;
    let value_len: usize = text_len(digits);
    if value_len > data_size_chars {
        let surplus: usize = value_len - data_size_chars;
        let mut k: usize = 0;
        while k < surplus
            invariant
                digits.is_ascii(),
                digits@ == value@,
                is_hex_text(digits@),
                opcode_size(instruction@) == Some(size as int),
                value_len == digits@.len(),
                value_len > size - 2,
                surplus == value_len - (size - 2),
                k <= surplus,
                has_leading_zeros(digits@, k as int),
            decreases surplus - k,
        {
            match digit_at(digits, k) {
                Some(0) => {},
                _ => {
                    proof {
                        assert(digits@[k as int] != '0');
                    }
                    return Err(ObfuscationError::OperandOverflow);
                },
            }
            k += 1;
        }
        return Ok(copy_digits(digits, surplus, value_len));
    }
    let padding_needed: usize = data_size_chars - value_len;
    let mut text: String = String::new();
    let mut i: usize = 0;
    while i < padding_needed
        invariant
            i <= padding_needed,
            text@ == zeros(i as nat),
        decreases padding_needed - i,
    {
        proof {
            reveal_strlit("0");
            assert(zeros(i as nat) + "0"@ =~= zeros((i + 1) as nat));
        }
        text.append("0");
        i += 1;
    }
    text.append(value.as_str());
    Ok(text)
}

/// Appends a PUSH2 of the number that the digits `jump_to` stand for,
/// written in four digits, and a JUMP.
///
/// Fails with `InvalidHex` when `jump_to` is not hexadecimal and with
/// `OperandOverflow` when its number is above `0xffff`; the buffer is then
/// left as it was. Zeros before the number do not count: `00000a` gives
/// `61000a56` as `0a` does.
pub fn append_push_jump(bytecode: &mut String, jump_to: String) -> (r: Result<
    (),
    ObfuscationError,
>)
    ensures
        written(with_push_jump(old(bytecode)@, jump_to@), old(bytecode)@, final(bytecode)@, r),
        written(
            with_push_jump_digits(old(bytecode)@, jump_to@),
            old(bytecode)@,
            final(bytecode)@,
            r,
        ),
{
    proof {
        reveal_strlit("61");
        reveal_strlit("56");
        assert("61"@ =~= push2_text());
        assert("56"@ =~= jump_text());
        lemma_push_jump_by_value(bytecode@, jump_to@);
    }
    let padded_hex_val: String = match pad_hex_val(String::from_str("61"), jump_to) {
        Ok(text) => text,
        Err(e) => { return Err(e); },
    };
    bytecode.append("61");
    bytecode.append(padded_hex_val.as_str());
    bytecode.append("56");
    Ok(())
}

/// Walks the buffer and gives the byte position at which its last
/// instruction ends.
pub fn get_last_instruction_position(bytecode: &String) -> (r: Result<i32, ObfuscationError>)
    ensures
        number_view(r) == last_instruction_position(bytecode@),
{
    let instructions: Vec<Instruction> = match walk(bytecode.as_str()) {
        Ok(instructions) => instructions,
        Err(e) => { return Err(e); },
    };
    proof {
        lemma_decoded_count(bytecode@);
    }
    let count: usize = instructions.len();
    if count == 0 {
        return Ok(-1);
    }
    let last: Instruction = instructions[count - 1];
    proof {
        assert(instruction_at(bytecode@, last.offset as int) == Some(last));
        lemma_instruction_at(bytecode@, last.offset as int);
    }
    let end: usize = last.offset + last.length;
    Ok((end / 2) as i32 - 1)
}

/// Walks the buffer and counts its instructions.
pub fn get_instruction_count(bytecode: &String) -> (r: Result<i32, ObfuscationError>)
    ensures
        number_view(r) == instruction_count(bytecode@),
{
    let instructions: Vec<Instruction> = match walk(bytecode.as_str()) {
        Ok(instructions) => instructions,
        Err(e) => { return Err(e); },
    };
    proof {
        lemma_decoded_count(bytecode@);
    }
    Ok(instructions.len() as i32)
}

/// Walks the buffer up to the instruction at place `index`, counted from
/// 1, and gives its opcode text; `None` when the buffer has no such place.
pub fn get_instruction_at_index(bytecode: &String, index: i32) -> (r: Result<
    Option<String>,
    ObfuscationError,
>)
    ensures
        opcode_view(r) == instruction_text_at(bytecode@, index as int),
{
    let instructions: Vec<Instruction> = match walk(bytecode.as_str()) {
        Ok(instructions) => instructions,
        Err(e) => { return Err(e); },
    };
    if index < 1 || index as usize > instructions.len() {
        return Ok(None);
    }
    let found: Instruction = instructions[index as usize - 1];
    proof {
        lemma_decoded_count(bytecode@);
        lemma_opcode_digits(
            bytecode@,
            0,
            instructions@,
            index as int - 1,
        );
    }
    Ok(Some(copy_digits(bytecode.as_str(), found.offset, found.offset + 2)))
}

/// Overwrites the operand of the instruction at digit `push_byte_offset`
/// with `replacement_value`, written in hexadecimal and padded with zeros
/// to the width of the operand.
///
/// `instruction` is the opcode text of that instruction. Fails with
/// `InvalidHex` when the buffer is not well formed, with `UnknownOpcode`
/// when the table lacks `instruction` or no instruction of the table
/// stands at the offset, and with `OperandOverflow` when the value is
/// negative or does not fill the operand found there exactly. On failure
/// the buffer is left as it was; on success its length is unchanged.
pub fn modify_push_val(
    bytecode: &mut String,
    push_byte_offset: i32,
    replacement_value: i32,
    instruction: &String,
) -> (r: Result<(), ObfuscationError>)
    ensures
        written(
            patched(
                old(bytecode)@,
                push_byte_offset as int,
                replacement_value as int,
                instruction@,
            ),
            old(bytecode)@,
            final(bytecode)@,
            r,
        ),
{
    let text: &str = bytecode.as_str();
    if !is_bytecode_str(text) {
        return Err(ObfuscationError::InvalidHex);
    }
    let len: usize = text_len(text);
    let opcode_size: usize = match get_opcode_size(instruction.as_str()) {
        Some(size) => size,
        None => { return Err(ObfuscationError::UnknownOpcode); },
    };
    if push_byte_offset < 0 {
        return Err(ObfuscationError::UnknownOpcode);
    }
    let offset: usize = push_byte_offset as usize;
    let found: Instruction = match read_instruction(text, offset) {
        Some(found) => found,
        None => { return Err(ObfuscationError::UnknownOpcode); },
    };
    proof {
        lemma_instruction_at(text@, offset as int);
    }
    if opcode_size != found.length || offset + opcode_size > len || replacement_value < 0 {
        return Err(ObfuscationError::OperandOverflow);
    }
    let padded_hex_val: String = match to_hex_digits(replacement_value as u32, opcode_size - 2) {
        Some(digits) => digits,
        None => { return Err(ObfuscationError::OperandOverflow); },
    };
    let mut patched_text: String = copy_digits(text, 0, offset + 2);
    patched_text.append(padded_hex_val.as_str());
    patched_text.append(text.substring_ascii(offset + opcode_size, len));
    *bytecode = patched_text;
    Ok(())
}

/// Removes a leading `0x` from the text, if it has one, and hands the text
/// back.
pub fn rm_zero_x(bytecode: &mut String) -> (r: &mut String)
    ensures
        r@ == without_zero_x(old(bytecode)@),
        final(bytecode)@ == final(r)@,
{
    let text: &str = bytecode.as_str();
    let len: usize = text.unicode_len();
    if len >= 2 && text.get_char(0) == '0' && text.get_char(1) == 'x' {
        let stripped: String = text.substring_char(2, len).to_owned();
        *bytecode = stripped;
    }
    bytecode
}

/// Draws a number from `low` to `high`, both included, from the thread's
/// random number generator.
///
/// This is `rand::Rng::random_range` on `rand::rng()` with an inclusive
/// range. It is believed, not proved, that the number lies in the range;
/// nothing is said of which number it is. The range must not be empty:
/// `random_range` panics on an empty range.
#[verifier::external_body]
fn random_in_range(low: u32, high: u32) -> (r: u32)
    requires
        low <= high,
    ensures
        low <= r <= high,
{
    rand::rng().random_range(low..=high)
}

/// Picks a decoy fragment at random: any of the catalogue but the first.
pub fn pick_random_dead_bytecode() -> (r: String)
    ensures
        is_dead_bytecode_choice(r@),
{
    let dead_bytecodes: Vec<String> = dead_bytecodes();
    let random_number: u32 = random_in_range(1, dead_bytecodes.len() as u32 - 1);
    dead_bytecodes[random_number as usize].clone()
}

/// Moves the jump targets of a decoy fragment by `last_ins_position`, the
/// position of the last byte of the buffer that the fragment will follow.
///
/// Fails as the search for the fragment's jumps does, and with
/// `OperandOverflow` when a moved target is above `i32::MAX`, negative, or
/// too wide for the operand that holds it.
pub fn relocate_dead_bytecode(dead_bytecode: &String, last_ins_position: i32) -> (r: Result<
    String,
    ObfuscationError,
>)
    ensures
        text_view(r) == relocated(dead_bytecode@, last_ins_position as int),
{
    let mut relocated_bytecode: String = dead_bytecode.clone();
    let push_jump_seq: Vec<PushPositions> = match find_jump_seq(dead_bytecode) {
        Ok(found) => found,
        Err(e) => { return Err(e); },
    };
    let count: usize = push_jump_seq.len();
    let mut k: usize = 0;
    while k < count
        invariant
            count == push_jump_seq.len(),
            k <= count,
            jump_sequences(dead_bytecode@) == Ok::<Seq<PushPositionsView>, ObfuscationError>(
                views(push_jump_seq@),
            ),
            relocated_upto(
                dead_bytecode@,
                views(push_jump_seq@),
                last_ins_position as int,
                k as int,
            ) == Ok::<Seq<char>, ObfuscationError>(relocated_bytecode@),
        decreases count - k,
    {
        let current_push_dest: i32 = push_jump_seq[k].value_decimal;
        proof {
            assert(views(push_jump_seq@)[k as int] == push_jump_seq@[k as int]@);
        }
        let moved: Result<(), ObfuscationError> = match current_push_dest.checked_add(
            last_ins_position,
        ) {
            Some(updated_push_dest) => modify_push_val(
                &mut relocated_bytecode,
                push_jump_seq[k].byteoffset_decimal,
                updated_push_dest,
                &push_jump_seq[k].instruction_bits,
            ),
            None => Err(ObfuscationError::OperandOverflow),
        };
        match moved {
            Ok(()) => {},
            Err(e) => {
                proof {
                    lemma_relocated_error(
                        dead_bytecode@,
                        views(push_jump_seq@),
                        last_ins_position as int,
                        k + 1,
                        count as int,
                    );
                }
                return Err(e);
            },
        }
        k += 1;
    }
    Ok(relocated_bytecode)
}

/// Picks a decoy fragment at random and moves its jump targets by
/// `last_ins_position`.
///
/// Whichever fragment is picked, the result is what
/// `relocate_dead_bytecode` gives for it.
pub fn get_dead_bytecode(last_ins_position: i32) -> (r: Result<String, ObfuscationError>)
    ensures
        exists|fragment: Seq<char>|
            is_dead_bytecode_choice(fragment) && text_view(r) == #[trigger] relocated(
                fragment,
                last_ins_position as int,
            ),
{
    let dead_bytecode: String = pick_random_dead_bytecode();
    relocate_dead_bytecode(&dead_bytecode, last_ins_position)
}

/// A lone JUMPDEST is one instruction.
pub proof fn lemma_jumpdest_decoded()
    ensures
        is_bytecode(jumpdest_text()),
        decoded(jumpdest_text()) == Ok::<Seq<Instruction>, ObfuscationError>(
            seq![Instruction { offset: 0, opcode: JUMPDEST, length: 2 }],
        ),
{
    reveal_with_fuel(walk_from, 3);
    let text = jumpdest_text();
    assert(instruction_at(text, 0) == Some(Instruction { offset: 0, opcode: JUMPDEST, length: 2 }));
    assert(walk_from(text, 2) == Ok::<Seq<Instruction>, ObfuscationError>(Seq::empty()));
    assert(seq![Instruction { offset: 0, opcode: JUMPDEST, length: 2 }] + Seq::empty()
        =~= seq![Instruction { offset: 0, opcode: JUMPDEST, length: 2 }]);
}

/// A PUSH2 with its JUMP is two instructions.
pub proof fn lemma_push_jump_decoded(target: Seq<char>)
    requires
        is_hex_text(target),
        target.len() == 4,
    ensures
        is_bytecode(push2_text() + target + jump_text()),
        decoded(push2_text() + target + jump_text()) == Ok::<Seq<Instruction>, ObfuscationError>(
            seq![
                Instruction { offset: 0, opcode: PUSH2, length: 6 },
                Instruction { offset: 6, opcode: JUMP, length: 2 },
            ],
        ),
        immediate(
            push2_text() + target + jump_text(),
            Instruction { offset: 0, opcode: PUSH2, length: 6 },
        ) == target,
{
    reveal_with_fuel(walk_from, 4);
    let text = push2_text() + target + jump_text();
    let push = Instruction { offset: 0, opcode: PUSH2, length: 6 };
    let jump = Instruction { offset: 6, opcode: JUMP, length: 2 };
    assert(text.len() == 8);
    assert(text[0] == '6' && text[1] == '1' && text[6] == '5' && text[7] == '6');
    assert forall|i: int| 0 <= i < text.len() implies is_hex_digit(#[trigger] text[i]) by {
        if 2 <= i < 6 {
            assert(text[i] == target[i - 2]);
        }
    }
    assert(instruction_at(text, 0) == Some(push));
    assert(instruction_at(text, 6) == Some(jump));
    assert(walk_from(text, 8) == Ok::<Seq<Instruction>, ObfuscationError>(Seq::empty()));
    assert(walk_from(text, 6) == Ok::<Seq<Instruction>, ObfuscationError>(seq![jump])) by {
        assert(seq![jump] + Seq::empty() =~= seq![jump]);
    }
    assert(seq![push] + seq![jump] =~= seq![push, jump]);
    assert(immediate(text, push) =~= target);
}

/// What a successful overwrite leaves: a well-formed buffer of the same
/// length that differs from the old one only in the immediate written,
/// which now reads as `value`.
pub proof fn lemma_patched(s: Seq<char>, offset: int, value: int, instruction: Seq<char>)
    requires
        patched(s, offset, value, instruction) is Ok,
    ensures
        instruction_at(s, offset) is Some,
        opcode_size(instruction) == Some(instruction_at(s, offset).unwrap().length as int),
        offset + instruction_at(s, offset).unwrap().length <= s.len(),
        patched(s, offset, value, instruction).unwrap().len() == s.len(),
        is_bytecode(patched(s, offset, value, instruction).unwrap()),
        differs_in_immediate(
            s,
            patched(s, offset, value, instruction).unwrap(),
            instruction_at(s, offset).unwrap(),
        ),
        immediate(
            patched(s, offset, value, instruction).unwrap(),
            instruction_at(s, offset).unwrap(),
        ) == hex_digits(value, (instruction_at(s, offset).unwrap().length - 2) as nat),
        hex_value(
            immediate(
                patched(s, offset, value, instruction).unwrap(),
                instruction_at(s, offset).unwrap(),
            ),
        ) == value,
{
    let found = instruction_at(s, offset).unwrap();
    let t = patched(s, offset, value, instruction).unwrap();
    lemma_instruction_at(s, offset);
    let width = (found.length - 2) as nat;
    let digits = hex_digits(value, width);
    lemma_hex_digits_shape(value, width);
    lemma_hex_value_of_digits(value, width);
    assert(t == s.subrange(0, offset + 2) + digits + s.subrange(
        offset + found.length,
        s.len() as int,
    ));
    assert(t.len() == s.len());
    assert forall|i: int| 0 <= i < t.len() implies is_hex_digit(#[trigger] t[i]) by {
        if i < offset + 2 {
            assert(t[i] == s[i]);
        } else if i < offset + found.length {
            assert(t[i] == digits[i - offset - 2]);
        } else {
            assert(t[i] == s[i]);
        }
    }
    assert forall|i: int|
        0 <= i < s.len() && !(found.offset + 2 <= i < found.offset
            + found.length) implies #[trigger] t[i] == s[i] by {}
    assert(immediate(t, found) =~= digits);
}

/// Once the relocation of some records fails, that of more records fails
/// alike.
pub proof fn lemma_relocated_error(
    fragment: Seq<char>,
    records: Seq<PushPositionsView>,
    position: int,
    m: int,
    n: int,
)
    requires
        m <= n,
        relocated_upto(fragment, records, position, m) is Err,
    ensures
        relocated_upto(fragment, records, position, n) == relocated_upto(
            fragment,
            records,
            position,
            m,
        ),
    decreases n - m,
{
    if m < n {
        lemma_relocated_error(fragment, records, position, m, n - 1);
    }
}

/// Padding goes by the number: for an operand of up to four bytes, the
/// digits of `value` are padded to the number that they stand for, written
/// in the width of the operand, and they are refused when that number
/// does not fit the width, and only then.
pub proof fn lemma_padded_by_value(instruction: Seq<char>, value: Seq<char>)
    requires
        opcode_size(instruction) is Some,
        opcode_size(instruction).unwrap() - 2 <= 8,
        is_hex_text(value),
    ensures
        padded(instruction, value) == if fits_digits(
            hex_value(value),
            (opcode_size(instruction).unwrap() - 2) as nat,
        ) {
            Ok::<Seq<char>, ObfuscationError>(
                hex_digits(hex_value(value), (opcode_size(instruction).unwrap() - 2) as nat),
            )
        } else {
            Err::<Seq<char>, ObfuscationError>(ObfuscationError::OperandOverflow)
        },
{
    let size = opcode_size(instruction).unwrap();
    let width = (size - 2) as nat;
    lemma_hex_value_zero(value);
    if value.len() <= width {
        let filled = zeros((width - value.len()) as nat) + value;
        assert(is_hex_text(filled)) by {
            assert forall|i: int| 0 <= i < filled.len() implies is_hex_digit(
                #[trigger] filled[i],
            ) by {
                if i >= width - value.len() {
                    assert(filled[i] == value[i - (width - value.len())]);
                }
            }
        }
        lemma_leading_zeros((width - value.len()) as nat, value);
        lemma_hex_value_capacity(filled);
        lemma_hex_digits_of_value(filled);
    } else {
        let surplus = value.len() - width;
        let high = value.subrange(0, surplus);
        let low = value.subrange(surplus, value.len() as int);
        assert(value =~= high + low);
        lemma_hex_value_joined(high, low);
        lemma_hex_value_capacity(low);
        lemma_hex_digits_of_value(low);
        lemma_hex_value_zero(high);
        if has_leading_zeros(value, surplus) {
            assert(has_leading_zeros(high, high.len() as int)) by {
                assert forall|i: int| 0 <= i < high.len() implies #[trigger] high[i] == '0' by {
                    assert(value[i] == '0');
                }
            }
        } else {
            assert(!has_leading_zeros(high, high.len() as int)) by {
                if has_leading_zeros(high, high.len() as int) {
                    assert forall|i: int|
                        0 <= i < surplus && i < value.len() implies #[trigger] value[i] == '0' by {
                        assert(high[i] == '0');
                    }
                }
            }
            assert(hex_value(high) * capacity(width) >= capacity(width)) by (nonlinear_arith)
                requires
                    hex_value(high) >= 1,
                    capacity(width) >= 1,
            ;
        }
    }
}

/// The two ways in which `append_push_jump` is stated say the same.
pub proof fn lemma_push_jump_by_value(s: Seq<char>, jump_to: Seq<char>)
    ensures
        with_push_jump_digits(s, jump_to) == with_push_jump(s, jump_to),
{
    assert(opcode_size(push2_text()) == Some(6int));
    if is_hex_text(jump_to) {
        lemma_hex_value_zero(jump_to);
        lemma_padded_by_value(push2_text(), jump_to);
    }
}

/// A fragment that begins with `PUSH2 000b; JUMP` and has no other JUMP
/// has one jump to move, and it can be moved by every position that
/// leaves its target within two bytes.
pub proof fn lemma_one_jump_relocates(fragment: Seq<char>, position: int)
    requires
        decoded(fragment) is Ok,
        has_one_jump(fragment),
        fits_digits(11 + position, 4),
    ensures
        jump_sequences(fragment) is Ok,
        jump_sequences(fragment).unwrap().len() == 1,
        jump_sequences(fragment).unwrap()[0].value_decimal == 11,
        relocated(fragment, position) is Ok,
{
    reveal_with_fuel(walk_from, 3);
    reveal_with_fuel(jump_records, 3);
    reveal_with_fuel(relocated_upto, 3);
    let instructions = decoded(fragment).unwrap();
    let push = Instruction { offset: 0, opcode: PUSH2, length: 6 };
    let jump = Instruction { offset: 6, opcode: JUMP, length: 2 };
    let rest = walk_from(fragment, 8).unwrap();
    assert(instructions == seq![push] + (seq![jump] + rest));
    lemma_walk_lacks(fragment, JUMP, 8);
    assert(instructions[0] == push);
    assert(instructions[1] == jump);
    assert forall|k: int| 1 < k < instructions.len() implies (#[trigger] instructions[k]).opcode
        != JUMP by {
        assert(instructions[k] == rest[k - 2]);
    }
    lemma_jump_records_without_jump(fragment, instructions, 1, instructions.len() as int);
    let digits = immediate(fragment, push);
    assert(digits =~= seq!['0', '0', '0', 'b']);
    assert(hex_value(digits) == 11) by {
        reveal_with_fuel(hex_value, 5);
        assert(digits.drop_last() =~= seq!['0', '0', '0']);
        assert(digits.drop_last().drop_last() =~= seq!['0', '0']);
        assert(digits.drop_last().drop_last().drop_last() =~= seq!['0']);
        assert(digits.drop_last().drop_last().drop_last().drop_last() =~= Seq::<char>::empty());
    }
    assert(is_push_jump(instructions, 0));
    let records = jump_records(fragment, instructions, 1).unwrap();
    assert(records =~= seq![jump_record(fragment, instructions, 0)]);
    lemma_opcode_text(PUSH2 as int);
}

} // verus!
