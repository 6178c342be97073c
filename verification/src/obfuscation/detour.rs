//! What a detour looks like, instruction by instruction, and why the jump
//! sites found at the start stay where they are while detours are added.

use crate::analysis::jump_seq::{
    is_push_jump, jump_record, jump_records, jump_sequences, lemma_jump_records_joined,
    lemma_record_source, lemma_records_after_patch, PushPositionsView, recorded_digits,
};
use crate::constant::dead_bytecodes::{
    is_dead_bytecode_choice, lemma_choice_can_be_walked, lemma_choice_relocates,
};
use crate::constant::opcodes::{is_push, JUMP, JUMPDEST, lemma_opcode_text, opcode_size, PUSH2};
use crate::error::ObfuscationError;
use crate::helper::bytecode::{
    jump_text, jumpdest_text, last_instruction_position, lemma_jumpdest_decoded, lemma_patched,
    lemma_push_jump_decoded, patched, push2_text, relocated,
};
use crate::hex::{
    fits_digits, hex_digits, hex_value, is_hex_text, lemma_hex_digits_shape,
    lemma_hex_text_subrange, lemma_hex_value_of_digits, lemma_hex_value_zero, MAX_DIGITS,
};
use crate::laws::lemma_relocation_is_additive;
use crate::obfuscation::obfuscate::{
    detours_length, lemma_detours_length_positive, lemma_site_grows, lemma_sites_grow,
    obfuscated_site, obfuscated_sites,
};
use crate::walker::{
    decoded, immediate, Instruction, instruction_at, is_complete, lemma_decoded_count,
    lemma_decoded_joined, lemma_instruction_at, lemma_walk_from_keeps, moved_all,
};
use vstd::prelude::*;

verus! {

/// The record of a site after its PUSH has been made to push `position`.
pub open spec fn retargeted(site: PushPositionsView, position: int) -> PushPositionsView {
    PushPositionsView {
        byteoffset_decimal: site.byteoffset_decimal,
        byteoffset_hex: site.byteoffset_hex,
        instruction_position: site.instruction_position,
        instruction_bits: site.instruction_bits,
        value_decimal: position,
        value_hex: recorded_digits(
            hex_digits(position, (opcode_size(site.instruction_bits).unwrap() - 2) as nat),
        ),
        next_instruction_code: site.next_instruction_code,
    }
}

/// The JUMPDEST that a detour appends to code of `length` digits.
pub open spec fn landing(length: int) -> Instruction {
    Instruction { offset: length as usize, opcode: JUMPDEST, length: 2 }
}

/// The PUSH2 and the JUMP that end a detour, the PUSH2 at digit `offset`.
pub open spec fn way_back(offset: int) -> Seq<Instruction> {
    seq![
        Instruction { offset: offset as usize, opcode: PUSH2, length: 6 },
        Instruction { offset: (offset + 6) as usize, opcode: JUMP, length: 2 },
    ]
}

/// The instructions of the runtime code after a detour: those it had, the
/// JUMPDEST, those of the decoy, and the PUSH2 with its JUMP.
pub open spec fn with_detour(
    before: Seq<Instruction>,
    length: int,
    dead: Seq<Instruction>,
    dead_length: int,
) -> Seq<Instruction> {
    before.push(landing(length)) + moved_all(dead, length + 2) + way_back(length + 2 + dead_length)
}

/// Whether no instruction of a decoy lacks digits.
pub open spec fn is_whole(dead_bytecode: Seq<char>) -> bool {
    decoded(dead_bytecode) matches Ok(instructions) ==> is_complete(dead_bytecode, instructions)
}

/// The byte position of the JUMPDEST of the detour of site `j`.
pub open spec fn landing_position(
    runtime: Seq<char>,
    dead_bytecodes: Seq<Seq<char>>,
    j: int,
) -> int {
    (runtime.len() + detours_length(dead_bytecodes, j)) / 2
}

/// What holds of the runtime code after the first `n` jump sites have got
/// their detours: the instructions that the code had at the start are
/// still its first instructions, and the records among them are those
/// found at the start, except that each of the first `n` sites now pushes
/// the position of its JUMPDEST.
pub open spec fn sites_stay(
    runtime: Seq<char>,
    dead_bytecodes: Seq<Seq<char>>,
    n: int,
    text: Seq<char>,
) -> bool {
    let before = decoded(runtime).unwrap();
    let sites = jump_sequences(runtime).unwrap();
    &&& decoded(text) is Ok
    &&& is_complete(text, decoded(text).unwrap())
    &&& before.len() <= decoded(text).unwrap().len()
    &&& decoded(text).unwrap().take(before.len() as int) == before
    &&& jump_records(text, decoded(text).unwrap(), before.len() as int) is Ok
    &&& jump_records(text, decoded(text).unwrap(), before.len() as int).unwrap().len()
        == sites.len()
    &&& forall|j: int|
        0 <= j < sites.len() ==> #[trigger] jump_records(
            text,
            decoded(text).unwrap(),
            before.len() as int,
        ).unwrap()[j] == if j < n {
            retargeted(sites[j], landing_position(runtime, dead_bytecodes, j))
        } else {
            sites[j]
        }
}

/// The digits of the operand of a site's PUSH.
pub open spec fn site_width(site: PushPositionsView) -> nat {
    (opcode_size(site.instruction_bits).unwrap() - 2) as nat
}

/// Whether site `j` can get its detour through `dead_bytecodes[j]`: the
/// operand of its PUSH can hold the byte position of its JUMPDEST, the
/// jumps of the decoy can be moved to where the decoy will stand, and the
/// old target of the site is no more than `0xffff`.
pub open spec fn site_fits(runtime: Seq<char>, dead_bytecodes: Seq<Seq<char>>, j: int) -> bool {
    let site = jump_sequences(runtime).unwrap()[j];
    let position = landing_position(runtime, dead_bytecodes, j);
    &&& fits_digits(position, site_width(site))
    &&& relocated(dead_bytecodes[j], position) is Ok
    &&& is_whole(dead_bytecodes[j])
    &&& site.value_decimal < 0x1_0000
}

/// Whether the first `n` sites can get their detours, and the code with
/// them is no longer than a buffer may be.
pub open spec fn sites_fit(runtime: Seq<char>, dead_bytecodes: Seq<Seq<char>>, n: int) -> bool {
    &&& runtime.len() + detours_length(dead_bytecodes, n) <= MAX_DIGITS
    &&& forall|j: int| 0 <= j < n ==> #[trigger] site_fits(runtime, dead_bytecodes, j)
}

/// A JUMPDEST at the tail of the code is one more instruction, and the
/// records of the code before it are as they were.
pub proof fn lemma_with_jumpdest(runtime: Seq<char>, n: int)
    requires
        decoded(runtime) is Ok,
        is_complete(runtime, decoded(runtime).unwrap()),
        0 <= n <= decoded(runtime).unwrap().len(),
        runtime.len() + 2 <= MAX_DIGITS,
    ensures
        decoded(runtime + jumpdest_text()) == Ok::<Seq<Instruction>, ObfuscationError>(
            decoded(runtime).unwrap().push(landing(runtime.len() as int)),
        ),
        is_complete(runtime + jumpdest_text(), decoded(runtime + jumpdest_text()).unwrap()),
        last_instruction_position(runtime + jumpdest_text()) == Ok::<int, ObfuscationError>(
            runtime.len() as int / 2,
        ),
        jump_records(runtime + jumpdest_text(), decoded(runtime + jumpdest_text()).unwrap(), n)
            == jump_records(runtime, decoded(runtime).unwrap(), n),
{
    let before = decoded(runtime).unwrap();
    let grown = runtime + jumpdest_text();
    lemma_jumpdest_decoded();
    lemma_decoded_joined(runtime, jumpdest_text());
    let all = decoded(grown).unwrap();
    assert(all =~= before.push(landing(runtime.len() as int)));
    assert(!is_push_jump(all, before.len() - 1));
    lemma_jump_records_joined(runtime, jumpdest_text(), n);
}

/// Writing the operand of the PUSH of a jump site changes the record of
/// that site, which then pushes the value written, and nothing else: the
/// instructions and the other records are as they were.
pub proof fn lemma_patched_site(s: Seq<char>, n: int, i: int, value: int)
    requires
        decoded(s) is Ok,
        0 <= n <= decoded(s).unwrap().len(),
        jump_records(s, decoded(s).unwrap(), n) is Ok,
        0 <= i < jump_records(s, decoded(s).unwrap(), n).unwrap().len(),
        value <= i32::MAX,
        patched(
            s,
            jump_records(s, decoded(s).unwrap(), n).unwrap()[i].byteoffset_decimal,
            value,
            jump_records(s, decoded(s).unwrap(), n).unwrap()[i].instruction_bits,
        ) is Ok,
    ensures
        ({
            let sites = jump_records(s, decoded(s).unwrap(), n).unwrap();
            let text = patched(
                s,
                sites[i].byteoffset_decimal,
                value,
                sites[i].instruction_bits,
            ).unwrap();
            &&& text.len() == s.len()
            &&& decoded(text) == decoded(s)
            &&& jump_records(text, decoded(s).unwrap(), n) == Ok::<
                Seq<PushPositionsView>,
                ObfuscationError,
            >(sites.update(i, retargeted(sites[i], value)))
        }),
{
    let all = decoded(s).unwrap();
    let sites = jump_records(s, all, n).unwrap();
    let site = sites[i];
    let text = patched(s, site.byteoffset_decimal, value, site.instruction_bits).unwrap();
    lemma_decoded_count(s);
    lemma_record_source(s, all, n, i);
    let k = site.instruction_position - 1;
    assert(instruction_at(s, all[k].offset as int) == Some(all[k]));
    lemma_patched(s, site.byteoffset_decimal, value, site.instruction_bits);
    lemma_walk_from_keeps(s, text, 0, all, k);
    lemma_records_after_patch(s, text, all, k, n);
    assert(sites.take(i).len() == i);
    assert(jump_record(text, all, k) == retargeted(site, value));
}

/// A decoy and the way back at the tail of the code are the instructions
/// of the decoy and two more, and the records of the code before them are
/// as they were.
pub proof fn lemma_with_tail(code: Seq<char>, dead: Seq<char>, target: Seq<char>, n: int)
    requires
        decoded(code) is Ok,
        is_complete(code, decoded(code).unwrap()),
        decoded(dead) is Ok,
        is_complete(dead, decoded(dead).unwrap()),
        is_hex_text(target),
        target.len() == 4,
        code.len() + dead.len() + 8 <= MAX_DIGITS,
        0 <= n <= decoded(code).unwrap().len(),
        n == decoded(code).unwrap().len() ==> n > 0 && !is_push(
            decoded(code).unwrap().last().opcode as int,
        ),
    ensures
        ({
            let text = code + dead + push2_text() + target + jump_text();
            let way = way_back((code.len() + dead.len()) as int);
            &&& decoded(text) == Ok::<Seq<Instruction>, ObfuscationError>(
                decoded(code).unwrap() + moved_all(decoded(dead).unwrap(), code.len() as int)
                    + way,
            )
            &&& is_complete(text, decoded(text).unwrap())
            &&& immediate(text, way[0]) == target
            &&& jump_records(text, decoded(text).unwrap(), n) == jump_records(
                code,
                decoded(code).unwrap(),
                n,
            )
        }),
{
    let text = code + dead + push2_text() + target + jump_text();
    let way_text = push2_text() + target + jump_text();
    let joined = code + dead;
    let tail = dead + way_text;
    lemma_decoded_joined(code, dead);
    lemma_push_jump_decoded(target);
    lemma_decoded_joined(joined, way_text);
    assert(text =~= joined + way_text);
    assert(text =~= code + tail);
    let way = way_back((code.len() + dead.len()) as int);
    let found = decoded(way_text).unwrap();
    assert(moved_all(found, joined.len() as int) =~= way);
    assert(immediate(text, way[0]) =~= immediate(way_text, found[0]));
    let before = decoded(code).unwrap();
    let all = decoded(text).unwrap();
    if n == before.len() {
        assert(all[n - 1] == before.last());
    }
    lemma_jump_records_joined(code, tail, n);
}

/// The record of a PUSH pushes what its digits say.
pub proof fn lemma_recorded_value(digits: Seq<char>)
    ensures
        hex_value(recorded_digits(digits)) == hex_value(digits),
{
    reveal_with_fuel(hex_value, 3);
    if digits.len() == 0 {
        let two = seq!['0', '0'];
        assert(two.drop_last() =~= seq!['0']);
        assert(seq!['0'].drop_last() =~= Seq::<char>::empty());
    }
}

/// The shape of a detour.
///
/// Take runtime code in which no instruction lacks digits, one of the jump
/// sites among its first `n` instructions, and a decoy of which the same
/// holds, and let the code with the detour be no longer than a buffer may
/// be. After the detour the code has the instructions that it had,
/// then a JUMPDEST, the instructions of the decoy, and a PUSH2 with a
/// JUMP. The site pushes the byte position of the JUMPDEST, the PUSH2
/// pushes what the site pushed before, and every other record among the
/// first `n` instructions is as it was. Again no instruction lacks digits.
pub proof fn lemma_detour_shape(runtime: Seq<char>, n: int, i: int, dead_bytecode: Seq<char>)
    requires
        decoded(runtime) is Ok,
        is_complete(runtime, decoded(runtime).unwrap()),
        0 <= n <= decoded(runtime).unwrap().len(),
        jump_records(runtime, decoded(runtime).unwrap(), n) is Ok,
        0 <= i < jump_records(runtime, decoded(runtime).unwrap(), n).unwrap().len(),
        decoded(dead_bytecode) is Ok ==> is_complete(
            dead_bytecode,
            decoded(dead_bytecode).unwrap(),
        ),
        runtime.len() + 2 + dead_bytecode.len() + 8 <= MAX_DIGITS,
        obfuscated_site(
            runtime,
            jump_records(runtime, decoded(runtime).unwrap(), n).unwrap()[i],
            dead_bytecode,
        ) is Ok,
    ensures
        ({
            let before = decoded(runtime).unwrap();
            let sites = jump_records(runtime, before, n).unwrap();
            let text = obfuscated_site(runtime, sites[i], dead_bytecode).unwrap();
            let length = runtime.len() as int;
            let dead_length = dead_bytecode.len() as int;
            &&& decoded(dead_bytecode) is Ok
            &&& decoded(text) == Ok::<Seq<Instruction>, ObfuscationError>(
                with_detour(before, length, decoded(dead_bytecode).unwrap(), dead_length),
            )
            &&& is_complete(text, decoded(text).unwrap())
            &&& jump_records(text, decoded(text).unwrap(), n) == Ok::<
                Seq<PushPositionsView>,
                ObfuscationError,
            >(sites.update(i, retargeted(sites[i], length / 2)))
            &&& hex_value(immediate(text, way_back(length + 2 + dead_length)[0]))
                == sites[i].value_decimal
        }),
{
    reveal(obfuscated_site);
    let before = decoded(runtime).unwrap();
    let sites = jump_records(runtime, before, n).unwrap();
    let site = sites[i];
    let length = runtime.len() as int;
    let position = length / 2;
    let grown = runtime + jumpdest_text();
    assert(decoded(grown) is Ok);
    lemma_with_jumpdest(runtime, n);
    let code = patched(grown, site.byteoffset_decimal, position, site.instruction_bits).unwrap();
    lemma_patched_site(grown, n, i, position);
    assert(last_instruction_position(code) == Ok::<int, ObfuscationError>(position));
    let dead = relocated(dead_bytecode, position).unwrap();
    lemma_relocation_is_additive(dead_bytecode, position);
    let target = hex_digits(hex_value(site.value_hex), 4);
    let text = obfuscated_site(runtime, site, dead_bytecode).unwrap();
    assert(text == code + dead + push2_text() + target + jump_text());
    lemma_hex_value_zero(site.value_hex);
    lemma_hex_digits_shape(hex_value(site.value_hex), 4);
    lemma_hex_value_of_digits(hex_value(site.value_hex), 4);
    lemma_with_tail(code, dead, target, n);
    let all = decoded(text).unwrap();
    assert(all =~= with_detour(before, length, decoded(dead_bytecode).unwrap(), dead.len() as int));
    lemma_record_source(runtime, before, n, i);
    lemma_recorded_value(immediate(runtime, before[site.instruction_position - 1]));
}

/// The jump sites found at the start stay good while detours are added.
///
/// Take runtime code and decoys in which no instruction lacks digits, and
/// let the code with its detours be no longer than a buffer may be. Then
/// after any number of detours every site that has not yet got its own is
/// found where it was found at the start, with the same opcode and the
/// same target.
pub proof fn lemma_sites_stay(runtime: Seq<char>, dead_bytecodes: Seq<Seq<char>>, n: int)
    requires
        decoded(runtime) is Ok,
        is_complete(runtime, decoded(runtime).unwrap()),
        jump_sequences(runtime) is Ok,
        0 <= n <= jump_sequences(runtime).unwrap().len(),
        n <= dead_bytecodes.len(),
        forall|j: int| 0 <= j < n ==> is_whole(#[trigger] dead_bytecodes[j]),
        obfuscated_sites(runtime, jump_sequences(runtime).unwrap(), dead_bytecodes, n) is Ok,
        obfuscated_sites(
            runtime,
            jump_sequences(runtime).unwrap(),
            dead_bytecodes,
            n,
        ).unwrap().len() <= MAX_DIGITS,
    ensures
        sites_stay(
            runtime,
            dead_bytecodes,
            n,
            obfuscated_sites(runtime, jump_sequences(runtime).unwrap(), dead_bytecodes, n).unwrap(),
        ),
    decreases n,
{
    let before = decoded(runtime).unwrap();
    let count = before.len() as int;
    let sites = jump_sequences(runtime).unwrap();
    let text = obfuscated_sites(runtime, sites, dead_bytecodes, n).unwrap();
    if n == 0 {
        assert(before.take(count) =~= before);
    } else {
        let earlier = obfuscated_sites(runtime, sites, dead_bytecodes, n - 1).unwrap();
        let dead_bytecode = dead_bytecodes[n - 1];
        lemma_site_grows(earlier, sites[n - 1], dead_bytecode);
        lemma_sites_grow(runtime, sites, dead_bytecodes, n - 1);
        lemma_sites_stay(runtime, dead_bytecodes, n - 1);
        let found = decoded(earlier).unwrap();
        let records = jump_records(earlier, found, count).unwrap();
        assert(records[n - 1] == sites[n - 1]);
        assert(is_whole(dead_bytecode));
        lemma_detour_shape(earlier, count, n - 1, dead_bytecode);
        let all = decoded(text).unwrap();
        assert(all.take(count) =~= found.take(count));
        let now = jump_records(text, all, count).unwrap();
        assert forall|j: int| 0 <= j < sites.len() implies #[trigger] now[j] == if j < n {
            retargeted(sites[j], landing_position(runtime, dead_bytecodes, j))
        } else {
            sites[j]
        } by {
            if j != n - 1 {
                assert(now[j] == records[j]);
            }
        }
    }
}

/// The fragments that `obfuscate` picks keep the jump sites where they
/// were found: what `lemma_sites_stay` asks of the decoys holds of every
/// fragment of the catalogue.
pub proof fn lemma_random_sites_stay(runtime: Seq<char>, dead_bytecodes: Seq<Seq<char>>, n: int)
    requires
        decoded(runtime) is Ok,
        is_complete(runtime, decoded(runtime).unwrap()),
        jump_sequences(runtime) is Ok,
        0 <= n <= jump_sequences(runtime).unwrap().len(),
        n <= dead_bytecodes.len(),
        forall|j: int| 0 <= j < n ==> is_dead_bytecode_choice(#[trigger] dead_bytecodes[j]),
        obfuscated_sites(runtime, jump_sequences(runtime).unwrap(), dead_bytecodes, n) is Ok,
        obfuscated_sites(
            runtime,
            jump_sequences(runtime).unwrap(),
            dead_bytecodes,
            n,
        ).unwrap().len() <= MAX_DIGITS,
    ensures
        sites_stay(
            runtime,
            dead_bytecodes,
            n,
            obfuscated_sites(runtime, jump_sequences(runtime).unwrap(), dead_bytecodes, n).unwrap(),
        ),
{
    assert forall|j: int| 0 <= j < n implies is_whole(#[trigger] dead_bytecodes[j]) by {
        lemma_choice_can_be_walked(dead_bytecodes[j]);
    }
    lemma_sites_stay(runtime, dead_bytecodes, n);
}

/// When a detour is owed.
///
/// Take runtime code in which no instruction lacks digits and one of the
/// jump sites among its first `n` instructions. The site gets its detour
/// when the operand of its PUSH can hold the byte position of the new
/// JUMPDEST, the jumps of the decoy can be moved to where the decoy will
/// stand, the old target of the site is no more than `0xffff`, and the
/// code with the detour is no longer than a buffer may be.
pub proof fn lemma_detour_succeeds(runtime: Seq<char>, n: int, i: int, dead_bytecode: Seq<char>)
    requires
        decoded(runtime) is Ok,
        is_complete(runtime, decoded(runtime).unwrap()),
        0 <= n <= decoded(runtime).unwrap().len(),
        jump_records(runtime, decoded(runtime).unwrap(), n) is Ok,
        0 <= i < jump_records(runtime, decoded(runtime).unwrap(), n).unwrap().len(),
        runtime.len() + 2 + dead_bytecode.len() + 8 <= MAX_DIGITS,
        fits_digits(
            runtime.len() as int / 2,
            site_width(jump_records(runtime, decoded(runtime).unwrap(), n).unwrap()[i]),
        ),
        relocated(dead_bytecode, runtime.len() as int / 2) is Ok,
        jump_records(runtime, decoded(runtime).unwrap(), n).unwrap()[i].value_decimal < 0x1_0000,
    ensures
        obfuscated_site(
            runtime,
            jump_records(runtime, decoded(runtime).unwrap(), n).unwrap()[i],
            dead_bytecode,
        ) is Ok,
{
    reveal(obfuscated_site);
    let before = decoded(runtime).unwrap();
    let site = jump_records(runtime, before, n).unwrap()[i];
    let position = runtime.len() as int / 2;
    let grown = runtime + jumpdest_text();
    lemma_with_jumpdest(runtime, n);
    let all = decoded(grown).unwrap();
    lemma_decoded_count(grown);
    lemma_record_source(grown, all, n, i);
    let k = site.instruction_position - 1;
    let found = all[k];
    assert(instruction_at(grown, found.offset as int) == Some(found));
    lemma_instruction_at(grown, found.offset as int);
    lemma_opcode_text(found.opcode as int);
    assert(all[k + 1].offset == found.offset + found.length);
    assert(all[k + 1].offset < grown.len());
    assert(patched(grown, site.byteoffset_decimal, position, site.instruction_bits) is Ok);
    lemma_patched_site(grown, n, i, position);
    lemma_hex_text_subrange(grown, found.offset + 2, found.offset + found.length);
    lemma_recorded_value(immediate(grown, found));
    assert(is_hex_text(site.value_hex));
}

/// When the detours of the first `n` sites are owed: the runtime code
/// has no instruction that lacks digits, and every one of the sites fits.
pub proof fn lemma_detours_succeed(runtime: Seq<char>, dead_bytecodes: Seq<Seq<char>>, n: int)
    requires
        decoded(runtime) is Ok,
        is_complete(runtime, decoded(runtime).unwrap()),
        jump_sequences(runtime) is Ok,
        0 <= n <= jump_sequences(runtime).unwrap().len(),
        n <= dead_bytecodes.len(),
        sites_fit(runtime, dead_bytecodes, n),
    ensures
        obfuscated_sites(runtime, jump_sequences(runtime).unwrap(), dead_bytecodes, n) is Ok,
        sites_stay(
            runtime,
            dead_bytecodes,
            n,
            obfuscated_sites(runtime, jump_sequences(runtime).unwrap(), dead_bytecodes, n).unwrap(),
        ),
    decreases n,
{
    let sites = jump_sequences(runtime).unwrap();
    let before = decoded(runtime).unwrap();
    let count = before.len() as int;
    if n > 0 {
        lemma_detours_length_positive(dead_bytecodes, n - 1);
        assert(sites_fit(runtime, dead_bytecodes, n - 1)) by {
            assert forall|j: int| 0 <= j < n - 1 implies #[trigger] site_fits(
                runtime,
                dead_bytecodes,
                j,
            ) by {}
        }
        lemma_detours_succeed(runtime, dead_bytecodes, n - 1);
        let earlier = obfuscated_sites(runtime, sites, dead_bytecodes, n - 1).unwrap();
        lemma_sites_grow(runtime, sites, dead_bytecodes, n - 1);
        assert(site_fits(runtime, dead_bytecodes, n - 1));
        let found = decoded(earlier).unwrap();
        let records = jump_records(earlier, found, count).unwrap();
        assert(records[n - 1] == sites[n - 1]);
        lemma_detour_succeeds(earlier, count, n - 1, dead_bytecodes[n - 1]);
        lemma_site_grows(earlier, sites[n - 1], dead_bytecodes[n - 1]);
    }
    assert forall|j: int| 0 <= j < n implies is_whole(#[trigger] dead_bytecodes[j]) by {
        assert(site_fits(runtime, dead_bytecodes, j));
    }
    lemma_sites_grow(runtime, sites, dead_bytecodes, n);
    lemma_sites_stay(runtime, dead_bytecodes, n);
}

/// When a site fits a fragment picked at random: the operand of its PUSH
/// can hold the byte position of its JUMPDEST, the JUMPDEST of the
/// fragment, eleven bytes on, is within two bytes, and the old target of
/// the site is no more than `0xffff`.
pub proof fn lemma_random_site_fits(runtime: Seq<char>, dead_bytecodes: Seq<Seq<char>>, j: int)
    requires
        jump_sequences(runtime) is Ok,
        0 <= j < jump_sequences(runtime).unwrap().len(),
        j < dead_bytecodes.len(),
        is_dead_bytecode_choice(dead_bytecodes[j]),
        fits_digits(
            landing_position(runtime, dead_bytecodes, j),
            site_width(jump_sequences(runtime).unwrap()[j]),
        ),
        landing_position(runtime, dead_bytecodes, j) + 11 <= 0xffff,
        jump_sequences(runtime).unwrap()[j].value_decimal < 0x1_0000,
    ensures
        site_fits(runtime, dead_bytecodes, j),
{
    lemma_choice_can_be_walked(dead_bytecodes[j]);
    lemma_choice_relocates(dead_bytecodes[j], landing_position(runtime, dead_bytecodes, j));
}

} // verus!
