//! The orchestrator: every direct jump of the runtime code is sent on a
//! detour through a decoy fragment before it reaches its target.
//!
//! For a jump site `PUSH t; JUMP` the runtime code grows at its tail by a
//! JUMPDEST, a decoy fragment and `PUSH2 t; JUMP`, and the PUSH of the
//! site is made to push the position of the new JUMPDEST. The position of
//! the last byte is asked of the buffer anew after every step that wrote
//! to it. The jump sites are found once, before the first detour: nothing
//! before the old tail moves, so they stay where they were found (see
//! `lemma_sites_stay`), and an overwrite refuses an offset at which the
//! instruction named does not stand.

use crate::analysis::code_type::{separated, seperate_bytecode};
use crate::analysis::jump_seq::{
    find_jump_seq, jump_sequences, PushPositions, PushPositionsView, views,
};
use crate::analysis::push_codecopy_seq::{update_runtime_offset, with_runtime_offset};
use crate::constant::dead_bytecodes::is_dead_bytecode_choice;
use crate::error::{ObfuscationError, written};
use crate::helper::bytecode::{
    append_jumpdest, append_push_jump, get_last_instruction_position, jumpdest_text,
    last_instruction_position, lemma_patched, modify_push_val, patched, pick_random_dead_bytecode,
    relocate_dead_bytecode, relocated, rm_zero_x, with_push_jump, without_zero_x,
};
use crate::hex::texts;
use crate::laws::{
    lemma_obfuscation_can_be_walked, lemma_obfuscation_grows, lemma_obfuscation_is_owed,
    lemma_relocation_is_additive, obfuscation_fits,
};
use crate::walker::{decoded, walk};
use vstd::prelude::*;
use vstd::string::*;

verus! {

/// The runtime code after one jump site has got its detour through
/// `dead_bytecode`.
#[verifier::opaque]
pub open spec fn obfuscated_site(
    runtime: Seq<char>,
    site: PushPositionsView,
    dead_bytecode: Seq<char>,
) -> Result<Seq<char>, ObfuscationError> {
    let with_jumpdest = runtime + jumpdest_text();
    match last_instruction_position(with_jumpdest) {
        Err(e) => Err(e),
        Ok(jumpdest_position) => match patched(
            with_jumpdest,
            site.byteoffset_decimal,
            jumpdest_position,
            site.instruction_bits,
        ) {
            Err(e) => Err(e),
            Ok(retargeted) => match last_instruction_position(retargeted) {
                Err(e) => Err(e),
                Ok(position) => match relocated(dead_bytecode, position) {
                    Err(e) => Err(e),
                    Ok(dead) => with_push_jump(retargeted + dead, site.value_hex),
                },
            },
        },
    }
}

/// The runtime code after the first `n` of `sites` have got their
/// detours, site `i` through `dead_bytecodes[i]`.
pub open spec fn obfuscated_sites(
    runtime: Seq<char>,
    sites: Seq<PushPositionsView>,
    dead_bytecodes: Seq<Seq<char>>,
    n: int,
) -> Result<Seq<char>, ObfuscationError>
    decreases n,
{
    if n <= 0 {
        Ok(runtime)
    } else {
        match obfuscated_sites(runtime, sites, dead_bytecodes, n - 1) {
            Err(e) => Err(e),
            Ok(text) => obfuscated_site(text, sites[n - 1], dead_bytecodes[n - 1]),
        }
    }
}

/// The initialization code and the runtime code of a contract, without a
/// leading `0x`. Code that does not divide is runtime code as a whole.
pub open spec fn code_parts(input: Seq<char>) -> Result<
    (Seq<char>, Seq<char>, bool),
    ObfuscationError,
> {
    let code = without_zero_x(input);
    match separated(code) {
        Ok((init, runtime)) => Ok((init, runtime, true)),
        Err(ObfuscationError::NoInitCodeSplit) => Ok((Seq::empty(), code, false)),
        Err(e) => Err(e),
    }
}

/// The smaller of two numbers.
pub open spec fn smaller(a: int, b: int) -> int {
    if a <= b {
        a
    } else {
        b
    }
}

/// The obfuscated contract: as many jump sites of the runtime code as
/// there are fragments in `dead_bytecodes` get their detours, in the order
/// of the sites, and the length that the initialization code copies is set
/// anew. Code without initialization code has no such length; it has to
/// be code that can still be walked.
pub open spec fn obfuscated(input: Seq<char>, dead_bytecodes: Seq<Seq<char>>) -> Result<
    Seq<char>,
    ObfuscationError,
> {
    match code_parts(input) {
        Err(e) => Err(e),
        Ok((init, runtime, divided)) => match jump_sequences(runtime) {
            Err(e) => Err(e),
            Ok(sites) => match obfuscated_sites(
                runtime,
                sites,
                dead_bytecodes,
                smaller(sites.len() as int, dead_bytecodes.len() as int),
            ) {
                Err(e) => Err(e),
                Ok(grown) => if divided {
                    with_runtime_offset(init + grown, grown)
                } else {
                    match decoded(grown) {
                        Ok(_) => Ok(grown),
                        Err(e) => Err(e),
                    }
                },
            },
        },
    }
}

/// The number of jump sites of the runtime code of a contract.
pub open spec fn jump_site_count(input: Seq<char>) -> Result<int, ObfuscationError> {
    match code_parts(input) {
        Err(e) => Err(e),
        Ok((init, runtime, divided)) => match jump_sequences(runtime) {
            Err(e) => Err(e),
            Ok(sites) => Ok(sites.len() as int),
        },
    }
}

/// Whether the runtime code of a contract has a jump site.
pub open spec fn has_jump_site(input: Seq<char>) -> bool {
    jump_site_count(input) matches Ok(count) && count >= 1
}

/// The number of jump sites that get a detour: one for each fragment,
/// until the sites or the fragments run out.
pub open spec fn processed_sites(input: Seq<char>, dead_bytecodes: Seq<Seq<char>>) -> int {
    match jump_site_count(input) {
        Ok(count) => smaller(count, dead_bytecodes.len() as int),
        Err(_) => 0,
    }
}

/// The digits that the detours of the first `n` sites add: for each a
/// JUMPDEST, the fragment, and a PUSH2 with its JUMP.
pub open spec fn detours_length(dead_bytecodes: Seq<Seq<char>>, n: int) -> int
    decreases n,
{
    if n <= 0 {
        0
    } else {
        detours_length(dead_bytecodes, n - 1) + 2 + dead_bytecodes[n - 1].len() + 8
    }
}

/// How `obfuscate_with` leaves a contract for the fragments given: written
/// as `obfuscated` says, code that can be walked, and longer than the
/// contract without its `0x` by what the detours add; or untouched when a
/// step fails. No step fails for a contract that fits
/// (`obfuscation_fits`).
pub open spec fn is_obfuscation(
    input: Seq<char>,
    dead_bytecodes: Seq<Seq<char>>,
    after: Seq<char>,
    r: Result<(), ObfuscationError>,
) -> bool {
    &&& written(obfuscated(input, dead_bytecodes), input, after, r)
    &&& obfuscation_fits(input, dead_bytecodes) ==> r is Ok
    &&& r is Ok ==> decoded(after) is Ok
    &&& r is Ok ==> after.len() == without_zero_x(input).len() + detours_length(
        dead_bytecodes,
        processed_sites(input, dead_bytecodes),
    )
    &&& r is Ok && processed_sites(input, dead_bytecodes) >= 1 ==> after.len()
        > without_zero_x(input).len()
}

/// The answer of `count_jump_sites` as plain values.
pub open spec fn count_view(r: Result<usize, ObfuscationError>) -> Result<int, ObfuscationError> {
    match r {
        Ok(count) => Ok(count as int),
        Err(e) => Err(e),
    }
}

/// The answer of `divide_code` as plain values.
pub open spec fn parts_view(r: Result<(String, String, bool), ObfuscationError>) -> Result<
    (Seq<char>, Seq<char>, bool),
    ObfuscationError,
> {
    match r {
        Ok((init, runtime, divided)) => Ok((init@, runtime@, divided)),
        Err(e) => Err(e),
    }
}

/// Whether `obfuscate` can draw the fragments `dead_bytecodes` for the
/// contract `input`: one for each jump site up to `max_iterations`, each
/// of them any fragment of the catalogue but the first. For a contract
/// whose jump sites cannot be counted it draws none.
pub open spec fn is_random_choice(
    input: Seq<char>,
    max_iterations: int,
    dead_bytecodes: Seq<Seq<char>>,
) -> bool {
    &&& forall|i: int|
        0 <= i < dead_bytecodes.len() ==> is_dead_bytecode_choice(#[trigger] dead_bytecodes[i])
    &&& match jump_site_count(input) {
        Ok(count) => dead_bytecodes.len() == smaller(count, max_iterations),
        Err(_) => dead_bytecodes.len() == 0,
    }
}

/// Gives one jump site its detour.
///
/// A JUMPDEST is appended and the PUSH of the site is made to push its
/// position; then `dead_bytecode` follows, its own jumps moved to where it
/// now stands, and last a PUSH2 of the site's first target and a JUMP.
/// Any step that fails fails the whole, and the runtime code is then left
/// as it was.
pub fn obfuscate_jump_site(
    runtime_bytecode: &mut String,
    push_jump: &PushPositions,
    dead_bytecode: &String,
) -> (r: Result<(), ObfuscationError>)
    ensures
        written(
            obfuscated_site(old(runtime_bytecode)@, push_jump@, dead_bytecode@),
            old(runtime_bytecode)@,
            final(runtime_bytecode)@,
            r,
        ),
{
    proof {
        reveal(obfuscated_site);
    }
    let mut bytecode: String = runtime_bytecode.clone();
    append_jumpdest(&mut bytecode);
    let ideal_jumpdest_position: String = push_jump.value_hex.clone();
    let appended_jumpdest_pos: i32 = match get_last_instruction_position(&bytecode) {
        Ok(position) => position,
        Err(e) => { return Err(e); },
    };
    match modify_push_val(
        &mut bytecode,
        push_jump.byteoffset_decimal,
        appended_jumpdest_pos,
        &push_jump.instruction_bits,
    ) {
        Ok(()) => {},
        Err(e) => { return Err(e); },
    }
    let last_ins_position: i32 = match get_last_instruction_position(&bytecode) {
        Ok(position) => position,
        Err(e) => { return Err(e); },
    };
    let relocated_bytecode: String = match relocate_dead_bytecode(
        dead_bytecode,
        last_ins_position,
    ) {
        Ok(text) => text,
        Err(e) => { return Err(e); },
    };
    bytecode.append(relocated_bytecode.as_str());
    match append_push_jump(&mut bytecode, ideal_jumpdest_position) {
        Ok(()) => {},
        Err(e) => { return Err(e); },
    }
    *runtime_bytecode = bytecode;
    Ok(())
}

/// Removes a leading `0x` and divides the code into initialization code
/// and runtime code; the third part says whether it did divide.
pub fn divide_code(creation_bytecode: &String) -> (r: Result<
    (String, String, bool),
    ObfuscationError,
>)
    ensures
        parts_view(r) == code_parts(creation_bytecode@),
{
    let mut code: String = creation_bytecode.clone();
    rm_zero_x(&mut code);
    match seperate_bytecode(&code) {
        Ok((init_code, runtime_bytecode)) => Ok((init_code, runtime_bytecode, true)),
        Err(ObfuscationError::NoInitCodeSplit) => Ok((String::new(), code, false)),
        Err(e) => Err(e),
    }
}

/// Counts the jump sites of the runtime code of a contract.
pub fn count_jump_sites(creation_bytecode: &String) -> (r: Result<usize, ObfuscationError>)
    ensures
        count_view(r) == jump_site_count(creation_bytecode@),
{
    let runtime_bytecode: String = match divide_code(creation_bytecode) {
        Ok(parts) => parts.1,
        Err(e) => { return Err(e); },
    };
    match find_jump_seq(&runtime_bytecode) {
        Ok(push_jump_seq) => Ok(push_jump_seq.len()),
        Err(e) => Err(e),
    }
}

/// Obfuscates a contract with the decoy fragments given: one jump site of
/// the runtime code for each fragment, in order, until the sites or the
/// fragments run out.
///
/// The contract is given in hexadecimal, with or without a leading `0x`,
/// and is written back without it. Code that does not divide into
/// initialization code and runtime code is runtime code as a whole, and
/// no length is set for it.
///
/// The obfuscation succeeds for every contract that fits: see
/// `obfuscation_fits`, which asks that the targets and the length fit the
/// operands that have to hold them. Any step that fails fails the whole,
/// and the contract is then left as
/// it was: `InvalidHex` and `UnknownOpcode` when the code, a fragment or
/// the code with its detours cannot be walked, `OperandOverflow` when a
/// jump target or the length of
/// the runtime code does not fit the operand that has to hold it, and
/// `NoCodecopyLengthPattern` when the initialization code pushes no
/// length.
pub fn obfuscate_with(creation_bytecode: &mut String, dead_bytecodes: &Vec<String>) -> (r: Result<
    (),
    ObfuscationError,
>)
    ensures
        is_obfuscation(
            old(creation_bytecode)@,
            texts(dead_bytecodes@),
            final(creation_bytecode)@,
            r,
        ),
{
    proof {
        if obfuscation_fits(creation_bytecode@, texts(dead_bytecodes@)) {
            lemma_obfuscation_is_owed(creation_bytecode@, texts(dead_bytecodes@));
        }
        if obfuscated(creation_bytecode@, texts(dead_bytecodes@)) is Ok {
            lemma_obfuscation_grows(creation_bytecode@, texts(dead_bytecodes@));
            lemma_obfuscation_can_be_walked(creation_bytecode@, texts(dead_bytecodes@));
        }
    }
    let (init_code, mut runtime_bytecode, divided) = match divide_code(creation_bytecode) {
        Ok(parts) => parts,
        Err(e) => { return Err(e); },
    };
    let push_jump_seq: Vec<PushPositions> = match find_jump_seq(&runtime_bytecode) {
        Ok(found) => found,
        Err(e) => { return Err(e); },
    };
    let iterations: usize = if push_jump_seq.len() <= dead_bytecodes.len() {
        push_jump_seq.len()
    } else {
        dead_bytecodes.len()
    };
    let ghost runtime: Seq<char> = runtime_bytecode@;
    let mut index: usize = 0;
    while index < iterations
        invariant
            creation_bytecode@ == old(creation_bytecode)@,
            obfuscation_fits(creation_bytecode@, texts(dead_bytecodes@)) ==> obfuscated(
                creation_bytecode@,
                texts(dead_bytecodes@),
            ) is Ok,
            code_parts(creation_bytecode@) == Ok::<(Seq<char>, Seq<char>, bool), ObfuscationError>(
                (init_code@, runtime, divided),
            ),
            jump_sequences(runtime) == Ok::<Seq<PushPositionsView>, ObfuscationError>(
                views(push_jump_seq@),
            ),
            index <= iterations,
            iterations == smaller(push_jump_seq.len() as int, dead_bytecodes.len() as int),
            obfuscated_sites(
                runtime,
                views(push_jump_seq@),
                texts(dead_bytecodes@),
                index as int,
            ) == Ok::<Seq<char>, ObfuscationError>(runtime_bytecode@),
        decreases iterations - index,
    {
        proof {
            assert(views(push_jump_seq@)[index as int] == push_jump_seq@[index as int]@);
            assert(texts(dead_bytecodes@)[index as int] == dead_bytecodes@[index as int]@);
        }
        match obfuscate_jump_site(
            &mut runtime_bytecode,
            &push_jump_seq[index],
            &dead_bytecodes[index],
        ) {
            Ok(()) => {},
            Err(e) => {
                proof {
                    lemma_obfuscated_sites_error(
                        runtime,
                        views(push_jump_seq@),
                        texts(dead_bytecodes@),
                        index + 1,
                        iterations as int,
                    );
                }
                return Err(e);
            },
        }
        index += 1;
    }
    let mut obfuscated_bytecode: String = init_code;
    obfuscated_bytecode.append(runtime_bytecode.as_str());
    if divided {
        match update_runtime_offset(&mut obfuscated_bytecode, &runtime_bytecode) {
            Ok(()) => {},
            Err(e) => { return Err(e); },
        }
    } else {
        proof {
            assert(obfuscated_bytecode@ =~= runtime_bytecode@);
        }
        match walk(obfuscated_bytecode.as_str()) {
            Ok(_) => {},
            Err(e) => { return Err(e); },
        }
    }
    *creation_bytecode = obfuscated_bytecode;
    Ok(())
}

/// Obfuscates a contract: up to `max_iterations` jump sites of its runtime
/// code get a detour through a decoy fragment picked at random.
///
/// Whatever fragments are picked, the outcome is that of `obfuscate_with`
/// for them: the contract obfuscated and longer by what the detours add,
/// or an error and the contract as it was. The obfuscation succeeds when
/// the contract fits whichever fragments are picked, and then the
/// contract is strictly longer than it was without its `0x`, as soon as
/// its runtime code has a jump site and `max_iterations` is not zero.
pub fn obfuscate(creation_bytecode: &mut String, max_iterations: usize) -> (r: Result<
    (),
    ObfuscationError,
>)
    ensures
        exists|dead_bytecodes: Seq<Seq<char>>|
            #[trigger] is_random_choice(
                old(creation_bytecode)@,
                max_iterations as int,
                dead_bytecodes,
            ) && is_obfuscation(
                old(creation_bytecode)@,
                dead_bytecodes,
                final(creation_bytecode)@,
                r,
            ),
        (forall|dead_bytecodes: Seq<Seq<char>>| #[trigger]
            is_random_choice(old(creation_bytecode)@, max_iterations as int, dead_bytecodes)
                ==> obfuscation_fits(old(creation_bytecode)@, dead_bytecodes)) ==> r is Ok,
        r is Ok ==> final(creation_bytecode)@.len() >= without_zero_x(
            old(creation_bytecode)@,
        ).len(),
        r is Ok && max_iterations >= 1 && has_jump_site(old(creation_bytecode)@)
            ==> final(creation_bytecode)@.len() > without_zero_x(old(creation_bytecode)@).len(),
{
    let count: usize = match count_jump_sites(creation_bytecode) {
        Ok(count) => count,
        Err(e) => {
            proof {
                let none = Seq::<Seq<char>>::empty();
                assert(is_random_choice(creation_bytecode@, max_iterations as int, none));
            }
            return Err(e);
        },
    };
    let iterations: usize = if count <= max_iterations {
        count
    } else {
        max_iterations
    };
    let mut dead_bytecodes: Vec<String> = Vec::new();
    let mut index: usize = 0;
    while index < iterations
        invariant
            index <= iterations,
            dead_bytecodes.len() == index,
            forall|i: int|
                0 <= i < index ==> is_dead_bytecode_choice(#[trigger] texts(dead_bytecodes@)[i]),
        decreases iterations - index,
    {
        let dead_bytecode: String = pick_random_dead_bytecode();
        proof {
            assert(texts(dead_bytecodes@.push(dead_bytecode)) =~= texts(dead_bytecodes@).push(
                dead_bytecode@,
            ));
        }
        dead_bytecodes.push(dead_bytecode);
        index += 1;
    }
    proof {
        assert(is_random_choice(
            creation_bytecode@,
            max_iterations as int,
            texts(dead_bytecodes@),
        ));
        lemma_detours_length_positive(
            texts(dead_bytecodes@),
            processed_sites(creation_bytecode@, texts(dead_bytecodes@)),
        );
    }
    obfuscate_with(creation_bytecode, &dead_bytecodes)
}

/// Once the detours of some sites fail, those of more sites fail alike.
pub proof fn lemma_obfuscated_sites_error(
    runtime: Seq<char>,
    sites: Seq<PushPositionsView>,
    dead_bytecodes: Seq<Seq<char>>,
    m: int,
    n: int,
)
    requires
        m <= n,
        obfuscated_sites(runtime, sites, dead_bytecodes, m) is Err,
    ensures
        obfuscated_sites(runtime, sites, dead_bytecodes, n) == obfuscated_sites(
            runtime,
            sites,
            dead_bytecodes,
            m,
        ),
    decreases n - m,
{
    if m < n {
        lemma_obfuscated_sites_error(runtime, sites, dead_bytecodes, m, n - 1);
    }
}

/// A detour adds a JUMPDEST, the fragment, and a PUSH2 with its JUMP to
/// the runtime code, and nothing else.
pub proof fn lemma_site_grows(runtime: Seq<char>, site: PushPositionsView, dead_bytecode: Seq<char>)
    requires
        obfuscated_site(runtime, site, dead_bytecode) is Ok,
    ensures
        obfuscated_site(runtime, site, dead_bytecode).unwrap().len() == runtime.len() + 2
            + dead_bytecode.len() + 8,
{
    reveal(obfuscated_site);
    let with_jumpdest = runtime + jumpdest_text();
    let jumpdest_position = last_instruction_position(with_jumpdest).unwrap();
    lemma_patched(
        with_jumpdest,
        site.byteoffset_decimal,
        jumpdest_position,
        site.instruction_bits,
    );
    let retargeted = patched(
        with_jumpdest,
        site.byteoffset_decimal,
        jumpdest_position,
        site.instruction_bits,
    ).unwrap();
    let position = last_instruction_position(retargeted).unwrap();
    lemma_relocation_is_additive(dead_bytecode, position);
}

/// The detours of the first `n` sites add what `detours_length` says.
pub proof fn lemma_sites_grow(
    runtime: Seq<char>,
    sites: Seq<PushPositionsView>,
    dead_bytecodes: Seq<Seq<char>>,
    n: int,
)
    requires
        obfuscated_sites(runtime, sites, dead_bytecodes, n) is Ok,
    ensures
        obfuscated_sites(runtime, sites, dead_bytecodes, n).unwrap().len() == runtime.len()
            + detours_length(dead_bytecodes, n),
    decreases n,
{
    if n > 0 {
        lemma_sites_grow(runtime, sites, dead_bytecodes, n - 1);
        lemma_site_grows(
            obfuscated_sites(runtime, sites, dead_bytecodes, n - 1).unwrap(),
            sites[n - 1],
            dead_bytecodes[n - 1],
        );
    }
}

/// Every detour makes the code longer.
pub proof fn lemma_detours_length_positive(dead_bytecodes: Seq<Seq<char>>, n: int)
    ensures
        detours_length(dead_bytecodes, n) >= 0,
        n >= 1 ==> detours_length(dead_bytecodes, n) >= 10 * n,
    decreases n,
{
    if n > 0 {
        lemma_detours_length_positive(dead_bytecodes, n - 1);
    }
}

} // verus!
