//! The runtime-length fixer: the initialization code copies the runtime
//! code by a length that it pushes four instructions before its CODECOPY,
//! and that length has to follow when the runtime code grows.

use crate::analysis::code_type::instructions_left;
use crate::analysis::jump_seq::lemma_opcode_digits;
use crate::constant::opcodes::{
    CODECOPY, is_push, lemma_opcode_text, opcode_size, opcode_text, PUSH0, PUSH32,
};
use crate::error::{number_view, ObfuscationError, written};
use crate::helper::bytecode::{
    get_last_instruction_position, last_instruction_position, modify_push_val, patched,
};
use crate::hex::{copy_digits, is_bytecode, lemma_hex_text_is_ascii, MAX_DIGITS, text_len};
use crate::walker::{
    decoded, Instruction, instruction_at, is_complete, is_walk, lemma_decoded_count,
    lemma_decoded_joined, lemma_instruction_at, walk,
};
use vstd::prelude::*;

verus! {

/// Whether instruction `k` is a PUSH and the fourth instruction after it a
/// CODECOPY.
pub open spec fn is_length_push(instructions: Seq<Instruction>, k: int) -> bool {
    &&& 0 <= k && k + 4 < instructions.len()
    &&& is_push(instructions[k].opcode as int)
    &&& instructions[k + 4].opcode == CODECOPY
}

/// The index of the first such PUSH at or after index `from`; the number
/// of instructions when there is none.
pub open spec fn first_length_push(instructions: Seq<Instruction>, from: int) -> int
    decreases instructions_left(instructions, from),
{
    if from >= instructions.len() {
        instructions.len() as int
    } else if is_length_push(instructions, from) {
        from
    } else {
        first_length_push(instructions, from + 1)
    }
}

/// The digit offset and the opcode text of the PUSH that pushes the length
/// of the runtime code.
pub open spec fn push_codecopy_index(s: Seq<char>) -> Result<(int, Seq<char>), ObfuscationError> {
    match decoded(s) {
        Err(e) => Err(e),
        Ok(instructions) => {
            let k = first_length_push(instructions, 0);
            if k < instructions.len() {
                Ok((instructions[k].offset as int, opcode_text(instructions[k].opcode as int)))
            } else {
                Err(ObfuscationError::NoCodecopyLengthPattern)
            }
        },
    }
}

/// The answer of `get_push_codecopy_index` as plain values.
pub open spec fn index_view(r: Result<(i32, String), ObfuscationError>) -> Result<
    (int, Seq<char>),
    ObfuscationError,
> {
    match r {
        Ok((offset, opcode)) => Ok((offset as int, opcode@)),
        Err(e) => Err(e),
    }
}

/// The length that the creation code is made to copy: the number of bytes
/// of the runtime code and one more.
pub open spec fn copied_length(runtime: Seq<char>) -> int {
    runtime.len() as int / 2 + 1
}

/// The creation code with the length that it copies set to
/// `copied_length(runtime)`. Runtime code that cannot be walked has no
/// length to copy.
pub open spec fn with_runtime_offset(creation: Seq<char>, runtime: Seq<char>) -> Result<
    Seq<char>,
    ObfuscationError,
> {
    match push_codecopy_index(creation) {
        Err(e) => Err(e),
        Ok((offset, opcode)) => match last_instruction_position(runtime) {
            Err(e) => Err(e),
            Ok(_) => patched(creation, offset, copied_length(runtime), opcode),
        },
    }
}

/// Sets the length that the creation code copies to the number of bytes of
/// the runtime code, and one more.
///
/// Fails as the walk of the creation code does, with
/// `NoCodecopyLengthPattern` when no PUSH stands four instructions before
/// a CODECOPY, as the walk of the runtime code does, and with
/// `OperandOverflow` when the length does not fit the operand of that
/// PUSH. On failure the creation code is left as it was.
pub fn update_runtime_offset(creation_code: &mut String, runtime_bytecode: &String) -> (r: Result<
    (),
    ObfuscationError,
>)
    ensures
        written(
            with_runtime_offset(old(creation_code)@, runtime_bytecode@),
            old(creation_code)@,
            final(creation_code)@,
            r,
        ),
{
    let (push_index, push_instruction) = match get_push_codecopy_index(creation_code) {
        Ok(found) => found,
        Err(e) => { return Err(e); },
    };
    match calculate_runtime_offset(runtime_bytecode) {
        Ok(_) => {},
        Err(e) => { return Err(e); },
    }
    proof {
        lemma_hex_text_is_ascii(runtime_bytecode@);
    }
    let runtime_byte_length: usize = text_len(runtime_bytecode.as_str()) / 2;
    let updated_push_val: i32 = (runtime_byte_length + 1) as i32;
    modify_push_val(creation_code, push_index, updated_push_val, &push_instruction)
}

/// Finds the first PUSH that stands four instructions before a CODECOPY,
/// and gives its digit offset and its opcode text.
pub fn get_push_codecopy_index(creation_code: &String) -> (r: Result<
    (i32, String),
    ObfuscationError,
>)
    ensures
        index_view(r) == push_codecopy_index(creation_code@),
{
    let text: &str = creation_code.as_str();
    let instructions: Vec<Instruction> = match walk(text) {
        Ok(instructions) => instructions,
        Err(e) => { return Err(e); },
    };
    let count: usize = instructions.len();
    proof {
        lemma_decoded_count(text@);
    }
    let mut k: usize = 0;
    while k < count
        invariant
            text@ == creation_code@,
            text.is_ascii(),
            is_bytecode(text@),
            count == instructions.len(),
            2 * count <= text@.len(),
            decoded(text@) == Ok::<Seq<Instruction>, ObfuscationError>(instructions@),
            is_walk(text@, 0, instructions@),
            k <= count,
            forall|i: int| 0 <= i < k ==> !is_length_push(instructions@, i),
        decreases count - k,
    {
        let current: Instruction = instructions[k];
        if PUSH0 <= current.opcode && current.opcode <= PUSH32 && k + 4 < count && instructions[k
            + 4].opcode == CODECOPY {
            proof {
                lemma_first_length_push_skips(instructions@, 0, k as int);
                lemma_opcode_digits(text@, 0, instructions@, k as int);
            }
            let current_instruction: String = copy_digits(text, current.offset, current.offset + 2);
            return Ok((current.offset as i32, current_instruction));
        }
        k += 1;
    }
    proof {
        lemma_first_length_push_skips(instructions@, 0, count as int);
    }
    Err(ObfuscationError::NoCodecopyLengthPattern)
}

/// Walks the runtime code and gives the byte position at which its last
/// instruction ends: one less than the number of its bytes, when no
/// instruction lacks digits.
///
/// Fails as the walk of the runtime code does.
pub fn calculate_runtime_offset(runtime_bytecode: &String) -> (r: Result<i32, ObfuscationError>)
    ensures
        number_view(r) == last_instruction_position(runtime_bytecode@),
{
    get_last_instruction_position(runtime_bytecode)
}

/// The first such PUSH is not looked for before `from`.
pub proof fn lemma_first_length_push_range(instructions: Seq<Instruction>, from: int)
    requires
        0 <= from,
    ensures
        0 <= first_length_push(instructions, from) <= instructions.len(),
    decreases instructions_left(instructions, from),
{
    if from < instructions.len() && !is_length_push(instructions, from) {
        lemma_first_length_push_range(instructions, from + 1);
    }
}

/// No instruction from `from` up to `k` is such a PUSH.
pub proof fn lemma_first_length_push_skips(instructions: Seq<Instruction>, from: int, k: int)
    requires
        0 <= from <= k <= instructions.len(),
        forall|i: int| from <= i < k ==> !is_length_push(instructions, i),
    ensures
        first_length_push(instructions, from) == first_length_push(instructions, k),
    decreases k - from,
{
    if from < k {
        lemma_first_length_push_skips(instructions, from + 1, k);
    }
}

/// The first such PUSH is one, and no instruction before it is.
pub proof fn lemma_first_length_push_is_first(instructions: Seq<Instruction>, from: int)
    requires
        0 <= from,
        first_length_push(instructions, from) < instructions.len(),
    ensures
        from <= first_length_push(instructions, from),
        is_length_push(instructions, first_length_push(instructions, from)),
        forall|i: int|
            from <= i < first_length_push(instructions, from) ==> !is_length_push(instructions, i),
    decreases instructions_left(instructions, from),
{
    if from < instructions.len() && !is_length_push(instructions, from) {
        lemma_first_length_push_is_first(instructions, from + 1);
    }
}

/// More code after the creation code does not change which PUSH pushes
/// the length: the first PUSH four instructions before a CODECOPY is the
/// same one.
pub proof fn lemma_push_codecopy_index_joined(creation: Seq<char>, more: Seq<char>)
    requires
        push_codecopy_index(creation) is Ok,
        is_complete(creation, decoded(creation).unwrap()),
        decoded(more) is Ok,
        creation.len() + more.len() <= MAX_DIGITS,
    ensures
        push_codecopy_index(creation + more) == push_codecopy_index(creation),
        decoded(creation + more) is Ok,
        instruction_at(creation + more, push_codecopy_index(creation).unwrap().0) is Some,
        opcode_size(push_codecopy_index(creation).unwrap().1) == Some(
            instruction_at(
                creation + more,
                push_codecopy_index(creation).unwrap().0,
            ).unwrap().length as int,
        ),
        push_codecopy_index(creation).unwrap().0 + instruction_at(
            creation + more,
            push_codecopy_index(creation).unwrap().0,
        ).unwrap().length <= creation.len(),
{
    let first = decoded(creation).unwrap();
    let joined = creation + more;
    lemma_decoded_joined(creation, more);
    let all = decoded(joined).unwrap();
    let k = first_length_push(first, 0);
    lemma_first_length_push_is_first(first, 0);
    assert(all.take(first.len() as int) =~= first);
    assert(all[k] == first[k]);
    assert(all[k + 4] == first[k + 4]);
    assert forall|i: int| 0 <= i < k implies !is_length_push(all, i) by {
        assert(!is_length_push(first, i));
        assert(all[i] == first[i]);
        assert(all[i + 4] == first[i + 4]);
    }
    lemma_first_length_push_skips(all, 0, k);
    assert(first_length_push(all, k) == k);
    lemma_decoded_count(creation);
    lemma_decoded_count(joined);
    assert(instruction_at(joined, all[k].offset as int) == Some(all[k]));
    lemma_instruction_at(joined, all[k].offset as int);
    lemma_opcode_text(all[k].opcode as int);
    assert(first[k + 1].offset == first[k].offset + first[k].length);
    assert(first[k + 1].offset < creation.len());
}

} // verus!
