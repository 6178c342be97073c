//! The code segmenter: where the initialization code of a contract ends
//! and its runtime code begins.
//!
//! Compilers end the initialization code with a CODECOPY and a short
//! epilogue of fixed shape, so the runtime code is taken to begin at the
//! fifth instruction counted from the first CODECOPY, the CODECOPY itself
//! being the first.

use crate::constant::opcodes::CODECOPY;
use crate::error::ObfuscationError;
use crate::hex::{copy_digits, lemma_hex_text_subrange, text_len};
use crate::walker::{
    decoded, Instruction, instruction_at, is_complete, is_walk, lemma_decoded_count,
    lemma_instruction_at, lemma_walk_from_before, walk,
};
use vstd::prelude::*;

verus! {

/// The instructions from `from` to the end.
pub open spec fn instructions_left(instructions: Seq<Instruction>, from: int) -> nat {
    if from < instructions.len() {
        (instructions.len() - from) as nat
    } else {
        0
    }
}

/// The index of the first instruction with opcode `opcode` at or after
/// index `from`; the number of instructions when there is none.
pub open spec fn first_with_opcode(instructions: Seq<Instruction>, opcode: u8, from: int) -> int
    decreases instructions_left(instructions, from),
{
    if from >= instructions.len() {
        instructions.len() as int
    } else if instructions[from].opcode == opcode {
        from
    } else {
        first_with_opcode(instructions, opcode, from + 1)
    }
}

/// The index of the instruction with which the runtime code begins: the
/// fourth after the first CODECOPY.
pub open spec fn runtime_start(instructions: Seq<Instruction>) -> Option<int> {
    let first = first_with_opcode(instructions, CODECOPY, 0);
    if first + 4 < instructions.len() {
        Some(first + 4)
    } else {
        None
    }
}

/// The initialization code and the runtime code of a buffer.
pub open spec fn separated(s: Seq<char>) -> Result<(Seq<char>, Seq<char>), ObfuscationError> {
    match decoded(s) {
        Err(e) => Err(e),
        Ok(instructions) => match runtime_start(instructions) {
            None => Err(ObfuscationError::NoInitCodeSplit),
            Some(k) => Ok(
                (
                    s.subrange(0, instructions[k].offset as int),
                    s.subrange(instructions[k].offset as int, s.len() as int),
                ),
            ),
        },
    }
}

/// The answer of `seperate_bytecode` as plain values.
pub open spec fn separated_view(r: Result<(String, String), ObfuscationError>) -> Result<
    (Seq<char>, Seq<char>),
    ObfuscationError,
> {
    match r {
        Ok((init, runtime)) => Ok((init@, runtime@)),
        Err(e) => Err(e),
    }
}

/// Divides a contract's code into initialization code and runtime code.
///
/// The two parts, put together again, are the buffer. Fails as the walk
/// of the buffer does, and with `NoInitCodeSplit` when the buffer has no
/// CODECOPY or fewer than four instructions after the first one.
pub fn seperate_bytecode(bytecode: &String) -> (r: Result<(String, String), ObfuscationError>)
    ensures
        separated_view(r) == separated(bytecode@),
        r matches Ok((init, runtime)) ==> init@ + runtime@ == bytecode@,
{
    let text: &str = bytecode.as_str();
    let instructions: Vec<Instruction> = match walk(text) {
        Ok(instructions) => instructions,
        Err(e) => { return Err(e); },
    };
    let len: usize = text_len(text);
    let count: usize = instructions.len();
    proof {
        lemma_decoded_count(text@);
    }
    let mut init_code_seperation_counter: usize = 0;
    let mut has_code_copy_passed: bool = false;
    let mut k: usize = 0;
    while k < count
        invariant
            text@ == bytecode@,
            text.is_ascii(),
            len == text@.len(),
            count == instructions.len(),
            decoded(text@) == Ok::<Seq<Instruction>, ObfuscationError>(instructions@),
            is_walk(text@, 0, instructions@),
            k <= count,
            init_code_seperation_counter < 5,
            !has_code_copy_passed ==> init_code_seperation_counter == 0 && forall|i: int|
                0 <= i < k ==> (#[trigger] instructions@[i]).opcode != CODECOPY,
            has_code_copy_passed ==> first_with_opcode(instructions@, CODECOPY, 0) + (
            init_code_seperation_counter as int) == k,
        decreases count - k,
    {
        let current: Instruction = instructions[k];
        if current.opcode == CODECOPY || has_code_copy_passed {
            proof {
                if !has_code_copy_passed {
                    lemma_first_with_opcode_skips(instructions@, CODECOPY, 0, k as int);
                }
            }
            init_code_seperation_counter += 1;
            has_code_copy_passed = true;
        }
        if init_code_seperation_counter == 5 {
            let init_bytecode: String = copy_digits(text, 0, current.offset);
            let runtime_bytecode: String = copy_digits(text, current.offset, len);
            proof {
                assert(init_bytecode@ + runtime_bytecode@ =~= text@);
            }
            return Ok((init_bytecode, runtime_bytecode));
        }
        k += 1;
    }
    proof {
        if !has_code_copy_passed {
            lemma_first_with_opcode_skips(instructions@, CODECOPY, 0, count as int);
        }
    }
    Err(ObfuscationError::NoInitCodeSplit)
}

/// The first instruction with an opcode is not looked for before `from`.
pub proof fn lemma_first_with_opcode_range(instructions: Seq<Instruction>, opcode: u8, from: int)
    requires
        0 <= from,
    ensures
        from <= first_with_opcode(instructions, opcode, from) || first_with_opcode(
            instructions,
            opcode,
            from,
        ) == instructions.len(),
        0 <= first_with_opcode(instructions, opcode, from) <= instructions.len(),
    decreases instructions_left(instructions, from),
{
    if from < instructions.len() && instructions[from].opcode != opcode {
        lemma_first_with_opcode_range(instructions, opcode, from + 1);
    }
}

/// No instruction before index `k` has the opcode.
pub proof fn lemma_first_with_opcode_skips(
    instructions: Seq<Instruction>,
    opcode: u8,
    from: int,
    k: int,
)
    requires
        0 <= from <= k <= instructions.len(),
        forall|i: int| from <= i < k ==> (#[trigger] instructions[i]).opcode != opcode,
    ensures
        first_with_opcode(instructions, opcode, from) == first_with_opcode(instructions, opcode, k),
    decreases k - from,
{
    if from < k {
        lemma_first_with_opcode_skips(instructions, opcode, from + 1, k);
    }
}

/// The initialization code of a buffer can be walked, and none of its
/// instructions lacks digits: it ends where an instruction of the buffer
/// begins.
pub proof fn lemma_separated_init(s: Seq<char>)
    requires
        separated(s) is Ok,
    ensures
        decoded(separated(s).unwrap().0) is Ok,
        is_complete(separated(s).unwrap().0, decoded(separated(s).unwrap().0).unwrap()),
        separated(s).unwrap().0.len() + separated(s).unwrap().1.len() == s.len(),
        separated(s).unwrap().0 + separated(s).unwrap().1 == s,
{
    let instructions = decoded(s).unwrap();
    let k = runtime_start(instructions).unwrap();
    lemma_first_with_opcode_range(instructions, CODECOPY, 0);
    lemma_decoded_count(s);
    lemma_walk_from_before(s, 0, k);
    let init = separated(s).unwrap().0;
    assert(instruction_at(s, instructions[k].offset as int) == Some(instructions[k]));
    lemma_instruction_at(s, instructions[k].offset as int);
    lemma_hex_text_subrange(s, 0, instructions[k].offset as int);
    assert(init + separated(s).unwrap().1 =~= s);
}

} // verus!
