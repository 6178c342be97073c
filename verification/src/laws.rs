//! What holds of the engine as a whole, proved from the definitions of its
//! steps.

use crate::analysis::code_type::{
    lemma_first_with_opcode_range, lemma_separated_init, runtime_start, separated,
};
use crate::analysis::jump_seq::{
    jump_record, jump_sequences, lemma_record_source, lemma_records_after_patch, PushPositionsView,
};
use crate::analysis::push_codecopy_seq::{
    copied_length, first_length_push, lemma_first_length_push_range,
    lemma_push_codecopy_index_joined, push_codecopy_index, with_runtime_offset,
};
use crate::constant::opcodes::{CODECOPY, opcode_size};
use crate::error::ObfuscationError;
use crate::helper::bytecode::{lemma_patched, patched, relocated, relocated_upto, without_zero_x};
use crate::hex::{fits_digits, MAX_DIGITS};
use crate::obfuscation::detour::{lemma_detours_succeed, sites_fit};
use crate::obfuscation::obfuscate::{
    code_parts, detours_length, lemma_detours_length_positive, lemma_sites_grow, obfuscated,
    obfuscated_sites, processed_sites, smaller,
};
use crate::walker::{
    decoded, Instruction, instruction_at, is_complete, lemma_decoded_count, lemma_walk_from_is_walk,
    lemma_walk_from_keeps, walk_view,
};
use vstd::prelude::*;

verus! {

/// Whether an instruction of the buffer starts at `offset`.
pub open spec fn is_instruction_start(s: Seq<char>, offset: int) -> bool {
    decoded(s) matches Ok(instructions) && exists|k: int|
        0 <= k < instructions.len() && (#[trigger] instructions[k]).offset == offset
}

/// Writing the operand of an instruction changes neither the length of the
/// buffer nor any instruction: the buffer decodes to the same offsets,
/// opcodes and lengths as before.
pub proof fn lemma_patch_keeps_instructions(
    s: Seq<char>,
    offset: int,
    value: int,
    instruction: Seq<char>,
)
    requires
        is_instruction_start(s, offset),
        patched(s, offset, value, instruction) is Ok,
    ensures
        patched(s, offset, value, instruction).unwrap().len() == s.len(),
        decoded(patched(s, offset, value, instruction).unwrap()) == decoded(s),
{
    let instructions = decoded(s).unwrap();
    let t = patched(s, offset, value, instruction).unwrap();
    let k = choose|k: int|
        0 <= k < instructions.len() && (#[trigger] instructions[k]).offset == offset;
    lemma_patched(s, offset, value, instruction);
    lemma_walk_from_is_walk(s, 0);
    assert(instruction_at(s, instructions[k].offset as int) == Some(instructions[k]));
    lemma_walk_from_keeps(s, t, 0, instructions, k);
}

/// The initialization code and the runtime code of a buffer, put together
/// again, are the buffer.
pub proof fn lemma_separation_is_exact(s: Seq<char>)
    requires
        separated(s) is Ok,
    ensures
        separated(s).unwrap().0 + separated(s).unwrap().1 == s,
{
    let (init, runtime) = separated(s).unwrap();
    let instructions = decoded(s).unwrap();
    let k = runtime_start(instructions).unwrap();
    lemma_decoded_count(s);
    lemma_first_with_opcode_range(instructions, CODECOPY, 0);
    assert(instructions[k].offset < s.len());
    assert(init + runtime =~= s);
}

/// Two walks of one text give the same instructions, or fail alike: what a
/// walk returns depends on nothing but the characters of the buffer.
pub proof fn lemma_decoding_is_repeatable(
    s: Seq<char>,
    first: Result<Vec<Instruction>, ObfuscationError>,
    second: Result<Vec<Instruction>, ObfuscationError>,
)
    requires
        walk_view(first) == decoded(s),
        walk_view(second) == decoded(s),
    ensures
        walk_view(first) == walk_view(second),
{
}


/// The records of a fragment after the targets of its first `n` jumps have
/// been moved by `position`, held against the records before: the moved
/// ones push their old value plus `position`, the others are as they were,
/// and no record has changed its offset, its place or its opcode.
pub open spec fn is_moved_upto(
    before: Seq<PushPositionsView>,
    after: Seq<PushPositionsView>,
    position: int,
    n: int,
) -> bool {
    &&& after.len() == before.len()
    &&& forall|i: int|
        0 <= i < before.len() ==> {
            &&& (#[trigger] after[i]).byteoffset_decimal == before[i].byteoffset_decimal
            &&& after[i].instruction_position == before[i].instruction_position
            &&& after[i].instruction_bits == before[i].instruction_bits
            &&& i < n ==> after[i].value_decimal == before[i].value_decimal + position
            &&& i >= n ==> after[i] == before[i]
        }
}

/// Moving the targets of the first `n` jumps of a fragment keeps its
/// length and its instructions, and moves those targets and no others.
pub proof fn lemma_relocated_upto(fragment: Seq<char>, position: int, n: int)
    requires
        jump_sequences(fragment) is Ok,
        0 <= n <= jump_sequences(fragment).unwrap().len(),
        relocated_upto(fragment, jump_sequences(fragment).unwrap(), position, n) is Ok,
    ensures
        ({
            let before = jump_sequences(fragment).unwrap();
            let moved = relocated_upto(fragment, before, position, n).unwrap();
            &&& moved.len() == fragment.len()
            &&& decoded(moved) == decoded(fragment)
            &&& jump_sequences(moved) is Ok
            &&& is_moved_upto(before, jump_sequences(moved).unwrap(), position, n)
        }),
    decreases n,
{
    let before = jump_sequences(fragment).unwrap();
    let instructions = decoded(fragment).unwrap();
    let count = instructions.len() as int;
    if n > 0 {
        let earlier = relocated_upto(fragment, before, position, n - 1).unwrap();
        lemma_relocated_upto(fragment, position, n - 1);
        let current = jump_sequences(earlier).unwrap();
        let moved = relocated_upto(fragment, before, position, n).unwrap();
        let target = before[n - 1].value_decimal + position;
        assert(current[n - 1] == before[n - 1]);
        assert(moved == patched(
            earlier,
            before[n - 1].byteoffset_decimal,
            target,
            before[n - 1].instruction_bits,
        ).unwrap());
        lemma_record_source(earlier, instructions, count, n - 1);
        let k = current[n - 1].instruction_position - 1;
        lemma_decoded_count(earlier);
        assert(instruction_at(earlier, instructions[k].offset as int) == Some(instructions[k]));
        lemma_patched(
            earlier,
            before[n - 1].byteoffset_decimal,
            target,
            before[n - 1].instruction_bits,
        );
        lemma_walk_from_keeps(earlier, moved, 0, instructions, k);
        lemma_records_after_patch(earlier, moved, instructions, k, count);
        assert(current.take(n - 1).len() == n - 1);
        let after = jump_sequences(moved).unwrap();
        assert(after == current.update(n - 1, jump_record(moved, instructions, k)));
        assert forall|i: int| 0 <= i < before.len() implies {
            &&& (#[trigger] after[i]).byteoffset_decimal == before[i].byteoffset_decimal
            &&& after[i].instruction_position == before[i].instruction_position
            &&& after[i].instruction_bits == before[i].instruction_bits
            &&& i < n ==> after[i].value_decimal == before[i].value_decimal + position
            &&& i >= n ==> after[i] == before[i]
        } by {
            if i != n - 1 {
                assert(after[i] == current[i]);
            }
        }
    }
}

/// A decoy made ready for position `p` has the jumps that it had before,
/// at the same offsets, and the target of each is its old target plus
/// `p`; the decoy has kept its length and its instructions.
pub proof fn lemma_relocation_is_additive(fragment: Seq<char>, position: int)
    requires
        relocated(fragment, position) is Ok,
    ensures
        jump_sequences(fragment) is Ok,
        jump_sequences(relocated(fragment, position).unwrap()) is Ok,
        is_moved_upto(
            jump_sequences(fragment).unwrap(),
            jump_sequences(relocated(fragment, position).unwrap()).unwrap(),
            position,
            jump_sequences(fragment).unwrap().len() as int,
        ),
        relocated(fragment, position).unwrap().len() == fragment.len(),
        decoded(relocated(fragment, position).unwrap()) == decoded(fragment),
{
    lemma_relocated_upto(fragment, position, jump_sequences(fragment).unwrap().len() as int);
}

/// An obfuscated contract is longer than the contract it was made of,
/// taken without its `0x`, by a JUMPDEST, a decoy fragment and a PUSH2
/// with its JUMP for each jump site that got a detour; so it is strictly
/// longer as soon as one did.
pub proof fn lemma_obfuscation_grows(input: Seq<char>, dead_bytecodes: Seq<Seq<char>>)
    requires
        obfuscated(input, dead_bytecodes) is Ok,
    ensures
        obfuscated(input, dead_bytecodes).unwrap().len() == without_zero_x(input).len()
            + detours_length(dead_bytecodes, processed_sites(input, dead_bytecodes)),
        processed_sites(input, dead_bytecodes) >= 1 ==> obfuscated(
            input,
            dead_bytecodes,
        ).unwrap().len() > without_zero_x(input).len(),
{
    let code = without_zero_x(input);
    let (init, runtime, divided) = code_parts(input).unwrap();
    let sites = jump_sequences(runtime).unwrap();
    let n = smaller(sites.len() as int, dead_bytecodes.len() as int);
    let grown = obfuscated_sites(runtime, sites, dead_bytecodes, n).unwrap();
    lemma_sites_grow(runtime, sites, dead_bytecodes, n);
    lemma_detours_length_positive(dead_bytecodes, n);
    if divided {
        lemma_separation_is_exact(code);
        assert(init.len() + runtime.len() == code.len());
        let (offset, opcode) = push_codecopy_index(init + grown).unwrap();
        lemma_patched(init + grown, offset, copied_length(grown), opcode);
    }
}

/// An obfuscated contract can be walked from its first instruction to its
/// last.
pub proof fn lemma_obfuscation_can_be_walked(input: Seq<char>, dead_bytecodes: Seq<Seq<char>>)
    requires
        obfuscated(input, dead_bytecodes) is Ok,
    ensures
        decoded(obfuscated(input, dead_bytecodes).unwrap()) is Ok,
{
    let (init, runtime, divided) = code_parts(input).unwrap();
    let sites = jump_sequences(runtime).unwrap();
    let n = smaller(sites.len() as int, dead_bytecodes.len() as int);
    let grown = obfuscated_sites(runtime, sites, dead_bytecodes, n).unwrap();
    if divided {
        let joined = init + grown;
        let (offset, opcode) = push_codecopy_index(joined).unwrap();
        let instructions = decoded(joined).unwrap();
        let k = first_length_push(instructions, 0);
        lemma_first_length_push_range(instructions, 0);
        assert(instructions[k].offset == offset);
        lemma_patch_keeps_instructions(joined, offset, copied_length(grown), opcode);
    }
}

/// Whether the operand of the PUSH that pushes the length in `init` can
/// hold `length`.
pub open spec fn length_fits(init: Seq<char>, length: int) -> bool {
    push_codecopy_index(init) matches Ok((offset, opcode)) && fits_digits(
        length,
        (opcode_size(opcode).unwrap() - 2) as nat,
    )
}

/// When the obfuscation of a contract is owed.
///
/// The contract, without its `0x`, can be walked, and so can its runtime
/// code, none of whose instructions lacks digits. Every site that is to
/// get a detour fits (`site_fits`). With its detours the contract is no
/// longer than a buffer may be. And a contract with initialization code
/// pushes the length in it, four instructions before a CODECOPY, with a
/// PUSH whose operand can hold the bytes of the runtime code with its
/// detours, and one more.
pub open spec fn obfuscation_fits(input: Seq<char>, dead_bytecodes: Seq<Seq<char>>) -> bool {
    &&& code_parts(input) matches Ok((init, runtime, divided))
    &&& jump_sequences(runtime) matches Ok(sites)
    &&& is_complete(runtime, decoded(runtime).unwrap())
    &&& sites_fit(
        runtime,
        dead_bytecodes,
        smaller(sites.len() as int, dead_bytecodes.len() as int),
    )
    &&& without_zero_x(input).len() + detours_length(
        dead_bytecodes,
        smaller(sites.len() as int, dead_bytecodes.len() as int),
    ) <= MAX_DIGITS
    &&& divided ==> length_fits(
        init,
        (runtime.len() + detours_length(
            dead_bytecodes,
            smaller(sites.len() as int, dead_bytecodes.len() as int),
        )) / 2 + 1,
    )
}

/// A contract that fits is obfuscated: no step fails. The outcome is
/// longer than the contract without its `0x` by what the detours add,
/// and strictly longer when the runtime code has a jump site and a
/// fragment is given.
pub proof fn lemma_obfuscation_is_owed(input: Seq<char>, dead_bytecodes: Seq<Seq<char>>)
    requires
        obfuscation_fits(input, dead_bytecodes),
    ensures
        obfuscated(input, dead_bytecodes) is Ok,
        obfuscated(input, dead_bytecodes).unwrap().len() == without_zero_x(input).len()
            + detours_length(dead_bytecodes, processed_sites(input, dead_bytecodes)),
        processed_sites(input, dead_bytecodes) >= 1 ==> obfuscated(
            input,
            dead_bytecodes,
        ).unwrap().len() > without_zero_x(input).len(),
{
    let code = without_zero_x(input);
    let (init, runtime, divided) = code_parts(input).unwrap();
    let sites = jump_sequences(runtime).unwrap();
    let n = smaller(sites.len() as int, dead_bytecodes.len() as int);
    lemma_detours_length_positive(dead_bytecodes, n);
    if divided {
        lemma_separated_init(code);
    }
    lemma_detours_succeed(runtime, dead_bytecodes, n);
    let grown = obfuscated_sites(runtime, sites, dead_bytecodes, n).unwrap();
    lemma_sites_grow(runtime, sites, dead_bytecodes, n);
    if divided {
        lemma_push_codecopy_index_joined(init, grown);
        let joined = init + grown;
        assert(with_runtime_offset(joined, grown) is Ok);
    }
    lemma_obfuscation_grows(input, dead_bytecodes);
}

} // verus!
