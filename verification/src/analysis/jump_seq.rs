//! The jump-sequence finder: every PUSH whose next instruction is a JUMP.

use crate::constant::opcodes::{
    byte_at, is_push, JUMP, lemma_opcode_byte_text, opcode_byte, opcode_text, parse_opcode, PUSH0,
    PUSH32,
};
use crate::error::ObfuscationError;
use crate::hex::{
    copy_digits, hex_text, hex_value, is_bytecode, is_hex_text, lemma_hex_text_subrange, parse_hex,
    text_len, to_hex_text,
};
use crate::walker::{
    decoded, differs_in_immediate, immediate, Instruction, instruction_at, is_complete, is_walk,
    lemma_decoded_count, lemma_instruction_at, lemma_walk_from_joined, lemma_walk_ordered, walk,
};
use vstd::prelude::*;
use vstd::string::*;

verus! {

/// A PUSH that is followed at once by a JUMP.
#[derive(Debug, PartialEq, Eq)]
pub struct PushPositions {
    /// The digit offset of the PUSH.
    pub byteoffset_decimal: i32,
    /// The same offset in hexadecimal, without leading zeros.
    pub byteoffset_hex: String,
    /// The place of the PUSH among the instructions, counted from 1.
    pub instruction_position: i32,
    /// The two digits of the PUSH opcode.
    pub instruction_bits: String,
    /// The number that the PUSH pushes: 0 when it has no immediate.
    pub value_decimal: i32,
    /// The digits of the immediate: `00` when the PUSH has none.
    pub value_hex: String,
    /// The two digits of the PUSH opcode once more.
    pub next_instruction_code: String,
}

/// A `PushPositions` as plain values.
pub struct PushPositionsView {
    pub byteoffset_decimal: int,
    pub byteoffset_hex: Seq<char>,
    pub instruction_position: int,
    pub instruction_bits: Seq<char>,
    pub value_decimal: int,
    pub value_hex: Seq<char>,
    pub next_instruction_code: Seq<char>,
}

impl View for PushPositions {
    type V = PushPositionsView;

    open spec fn view(&self) -> PushPositionsView {
        PushPositionsView {
            byteoffset_decimal: self.byteoffset_decimal as int,
            byteoffset_hex: self.byteoffset_hex@,
            instruction_position: self.instruction_position as int,
            instruction_bits: self.instruction_bits@,
            value_decimal: self.value_decimal as int,
            value_hex: self.value_hex@,
            next_instruction_code: self.next_instruction_code@,
        }
    }
}

impl Clone for PushPositions {
    fn clone(&self) -> (r: Self)
        ensures
            r@ == self@,
    {
        PushPositions {
            byteoffset_decimal: self.byteoffset_decimal,
            byteoffset_hex: self.byteoffset_hex.clone(),
            instruction_position: self.instruction_position,
            instruction_bits: self.instruction_bits.clone(),
            value_decimal: self.value_decimal,
            value_hex: self.value_hex.clone(),
            next_instruction_code: self.next_instruction_code.clone(),
        }
    }
}

/// The records of a vector as plain values.
pub open spec fn views(records: Seq<PushPositions>) -> Seq<PushPositionsView> {
    records.map_values(|p: PushPositions| p@)
}

/// The digits recorded for an immediate: the immediate itself, or `00` for
/// the PUSH without one.
pub open spec fn recorded_digits(digits: Seq<char>) -> Seq<char> {
    if digits.len() == 0 {
        seq!['0', '0']
    } else {
        digits
    }
}

/// The record of a PUSH with opcode text `opcode` and immediate `digits`
/// that is instruction number `position` and starts at digit `offset`.
pub open spec fn push_record(opcode: Seq<char>, position: int, offset: int, digits: Seq<char>)
    -> PushPositionsView {
    PushPositionsView {
        byteoffset_decimal: offset,
        byteoffset_hex: hex_text(offset),
        instruction_position: position,
        instruction_bits: opcode,
        value_decimal: hex_value(digits),
        value_hex: recorded_digits(digits),
        next_instruction_code: opcode,
    }
}

/// Whether two opcode texts are a PUSH and a JUMP.
pub open spec fn is_push_jump_text(current: Seq<char>, next: Seq<char>) -> bool {
    &&& opcode_byte(next) == Some(JUMP as int)
    &&& opcode_byte(current) matches Some(byte)
    &&& is_push(byte)
}

/// What `check_push_jump_seq` answers.
pub open spec fn checked_push_jump(
    current: Seq<char>,
    next: Seq<char>,
    position: int,
    offset: int,
    digits: Seq<char>,
) -> Result<Option<PushPositionsView>, ObfuscationError> {
    if !is_push_jump_text(current, next) {
        Ok(None)
    } else if offset > i32::MAX || !is_hex_text(digits) {
        Err(ObfuscationError::InvalidHex)
    } else if hex_value(digits) > i32::MAX {
        Err(ObfuscationError::OperandOverflow)
    } else {
        Ok(Some(push_record(current, position, offset, digits)))
    }
}

/// Whether instruction `k` is a PUSH and instruction `k + 1` a JUMP. The
/// last instruction has no next one, and so never is.
pub open spec fn is_push_jump(instructions: Seq<Instruction>, k: int) -> bool {
    &&& 0 <= k && k + 1 < instructions.len()
    &&& is_push(instructions[k].opcode as int)
    &&& instructions[k + 1].opcode == JUMP
}

/// The record of instruction `k` of a buffer.
pub open spec fn jump_record(s: Seq<char>, instructions: Seq<Instruction>, k: int)
    -> PushPositionsView {
    push_record(
        opcode_text(instructions[k].opcode as int),
        k + 1,
        instructions[k].offset as int,
        immediate(s, instructions[k]),
    )
}

/// The records of the PUSH-JUMP pairs among the first `n` instructions, in
/// the order of the instructions. An immediate above `i32::MAX` is an
/// `OperandOverflow`.
pub open spec fn jump_records(s: Seq<char>, instructions: Seq<Instruction>, n: int) -> Result<
    Seq<PushPositionsView>,
    ObfuscationError,
>
    decreases n,
{
    if n <= 0 {
        Ok(Seq::empty())
    } else {
        match jump_records(s, instructions, n - 1) {
            Err(e) => Err(e),
            Ok(found) => if !is_push_jump(instructions, n - 1) {
                Ok(found)
            } else if hex_value(immediate(s, instructions[n - 1])) > i32::MAX {
                Err(ObfuscationError::OperandOverflow)
            } else {
                Ok(found.push(jump_record(s, instructions, n - 1)))
            },
        }
    }
}

/// The records of all PUSH-JUMP pairs of a buffer.
pub open spec fn jump_sequences(s: Seq<char>) -> Result<Seq<PushPositionsView>, ObfuscationError> {
    match decoded(s) {
        Err(e) => Err(e),
        Ok(instructions) => jump_records(s, instructions, instructions.len() as int),
    }
}

/// The answer of `check_push_jump_seq` as plain values.
pub open spec fn check_view(r: Result<Option<PushPositions>, ObfuscationError>) -> Result<
    Option<PushPositionsView>,
    ObfuscationError,
> {
    match r {
        Ok(Some(record)) => Ok(Some(record@)),
        Ok(None) => Ok(None),
        Err(e) => Err(e),
    }
}

/// The answer of `find_jump_seq` as plain values.
pub open spec fn found_view(r: Result<Vec<PushPositions>, ObfuscationError>) -> Result<
    Seq<PushPositionsView>,
    ObfuscationError,
> {
    match r {
        Ok(records) => Ok(views(records@)),
        Err(e) => Err(e),
    }
}

/// Decides whether an instruction and its successor are a PUSH-JUMP pair,
/// and if so makes the record.
///
/// `current_instruction` and `next_instruction` are opcode texts,
/// `push_value` is the immediate of the first. The answer is `None` unless
/// the first is a PUSH of the table and the second is JUMP. For a pair,
/// `InvalidHex` says that the immediate is not hexadecimal or that the
/// offset is above `i32::MAX`, `OperandOverflow` that the immediate is.
pub fn check_push_jump_seq(
    current_instruction: String,
    next_instruction: &String,
    ins_position: &i32,
    push_index: &usize,
    push_value: &String,
) -> (r: Result<Option<PushPositions>, ObfuscationError>)
    ensures
        check_view(r) == checked_push_jump(
            current_instruction@,
            next_instruction@,
            *ins_position as int,
            *push_index as int,
            push_value@,
        ),
{
    let is_jump: bool = match parse_opcode(next_instruction.as_str()) {
        Some(byte) => byte == JUMP,
        None => false,
    };
    let is_push: bool = match parse_opcode(current_instruction.as_str()) {
        Some(byte) => PUSH0 <= byte && byte <= PUSH32,
        None => false,
    };
    if !(is_jump && is_push) {
        return Ok(None);
    }
    if *push_index > i32::MAX as usize {
        return Err(ObfuscationError::InvalidHex);
    }
    let value_decimal: i32 = match parse_hex(push_value.as_str()) {
        Ok(v) => v,
        Err(e) => { return Err(e); },
    };
    let value_hex: String = if text_len(push_value.as_str()) == 0 {
        proof {
            reveal_strlit("00");
            assert("00"@ =~= seq!['0', '0']);
        }
        String::from_str("00")
    } else {
        push_value.clone()
    };
    let record = PushPositions {
        byteoffset_decimal: *push_index as i32,
        byteoffset_hex: to_hex_text(*push_index),
        instruction_position: *ins_position,
        instruction_bits: current_instruction.clone(),
        value_decimal,
        value_hex,
        next_instruction_code: current_instruction,
    };
    Ok(Some(record))
}

/// Finds every PUSH that is followed at once by a JUMP.
///
/// The records come in the order of the instructions. The walk of the
/// buffer fails as `walk` does; an immediate above `i32::MAX` in such a
/// pair is an `OperandOverflow`.
pub fn find_jump_seq(bytecode: &String) -> (r: Result<Vec<PushPositions>, ObfuscationError>)
    ensures
        found_view(r) == jump_sequences(bytecode@),
        r matches Ok(records) ==> records@.len() == jump_sequences(bytecode@).unwrap().len()
            && forall|i: int|
            0 <= i < records@.len() ==> (#[trigger] records@[i])@ == jump_sequences(
                bytecode@,
            ).unwrap()[i],
{
    let text: &str = bytecode.as_str();
    let instructions: Vec<Instruction> = match walk(text) {
        Ok(instructions) => instructions,
        Err(e) => { return Err(e); },
    };
    let len: usize = text_len(text);
    let count: usize = instructions.len();
    let mut found: Vec<PushPositions> = Vec::new();
    proof {
        lemma_decoded_count(text@);
        assert(views(found@) =~= Seq::empty());
    }
    let mut k: usize = 0;
    while k < count
        invariant
            text@ == bytecode@,
            text.is_ascii(),
            is_bytecode(text@),
            len == text@.len(),
            count == instructions.len(),
            2 * count <= len,
            decoded(text@) == Ok::<Seq<Instruction>, ObfuscationError>(instructions@),
            is_walk(text@, 0, instructions@),
            k <= count,
            jump_records(text@, instructions@, k as int) == Ok::<
                Seq<PushPositionsView>,
                ObfuscationError,
            >(views(found@)),
        decreases count - k,
    {
        let current: Instruction = instructions[k];
        proof {
            lemma_opcode_digits(text@, 0, instructions@, k as int);
            if k + 1 < count {
                lemma_opcode_digits(text@, 0, instructions@, k + 1);
                assert(instructions@[k + 1].offset == current.offset + current.length);
            }
        }
        let end: usize = if current.offset + current.length <= len {
            current.offset + current.length
        } else {
            len
        };
        let current_instruction: String = copy_digits(text, current.offset, current.offset + 2);
        let current_params: String = copy_digits(text, current.offset + 2, end);
        let next_instruction: String = if k + 1 < count {
            let next: Instruction = instructions[k + 1];
            copy_digits(text, next.offset, next.offset + 2)
        } else {
            proof {
                reveal_strlit("00");
            }
            String::from_str("00")
        };
        let instruction_position: i32 = (k + 1) as i32;
        proof {
            lemma_hex_text_subrange(text@, current.offset + 2, end as int);
            assert(is_push_jump_text(current_instruction@, next_instruction@) == is_push_jump(
                instructions@,
                k as int,
            ));
        }
        match check_push_jump_seq(
            current_instruction,
            &next_instruction,
            &instruction_position,
            &current.offset,
            &current_params,
        ) {
            Ok(Some(val)) => {
                proof {
                    assert(views(found@.push(val)) =~= views(found@).push(val@));
                }
                found.push(val);
            },
            Ok(None) => {},
            Err(e) => {
                proof {
                    assert(jump_records(text@, instructions@, k + 1) == Err::<
                        Seq<PushPositionsView>,
                        ObfuscationError,
                    >(e));
                    lemma_jump_records_error(text@, instructions@, k + 1, count as int);
                }
                return Err(e);
            },
        }
        k += 1;
    }
    proof {
        assert forall|i: int| 0 <= i < found@.len() implies (#[trigger] found@[i])@ == views(
            found@,
        )[i] by {}
    }
    Ok(found)
}

/// The opcode text of an instruction of a buffer names its opcode byte.
pub proof fn lemma_opcode_digits(s: Seq<char>, from: int, instructions: Seq<Instruction>, k: int)
    requires
        is_walk(s, from, instructions),
        s.len() <= usize::MAX,
        0 <= k < instructions.len(),
    ensures
        instructions[k].offset + 2 <= s.len(),
        opcode_byte(s.subrange(instructions[k].offset as int, instructions[k].offset + 2)) == Some(
            instructions[k].opcode as int,
        ),
        s.subrange(instructions[k].offset as int, instructions[k].offset + 2) == opcode_text(
            instructions[k].opcode as int,
        ),
        2 <= instructions[k].length <= 66,
{
    let offset = instructions[k].offset as int;
    assert(instruction_at(s, offset) == Some(instructions[k]));
    lemma_instruction_at(s, offset);
    let text = s.subrange(offset, offset + 2);
    assert(text[0] == s[offset] && text[1] == s[offset + 1]);
    assert(byte_at(text, 0) == byte_at(s, offset));
    lemma_opcode_byte_text(text);
}

/// Once the records of a prefix fail, those of every longer prefix fail
/// alike.
pub proof fn lemma_jump_records_error(s: Seq<char>, instructions: Seq<Instruction>, m: int, n: int)
    requires
        m <= n,
        jump_records(s, instructions, m) is Err,
    ensures
        jump_records(s, instructions, n) == jump_records(s, instructions, m),
    decreases n - m,
{
    if m < n {
        lemma_jump_records_error(s, instructions, m, n - 1);
    }
}

/// The records of a prefix exist when those of a longer prefix do.
pub proof fn lemma_jump_records_prefix(s: Seq<char>, instructions: Seq<Instruction>, m: int, n: int)
    requires
        m <= n,
        jump_records(s, instructions, n) is Ok,
    ensures
        jump_records(s, instructions, m) is Ok,
{
    if jump_records(s, instructions, m) is Err {
        lemma_jump_records_error(s, instructions, m, n);
    }
}

/// Every record is the record of a PUSH-JUMP pair: its place among the
/// instructions, less one, is the index of the PUSH, and the records
/// before it are those of the instructions before that PUSH.
pub proof fn lemma_record_source(s: Seq<char>, instructions: Seq<Instruction>, n: int, i: int)
    requires
        jump_records(s, instructions, n) is Ok,
        0 <= i < jump_records(s, instructions, n).unwrap().len(),
    ensures
        ({
            let records = jump_records(s, instructions, n).unwrap();
            let k = records[i].instruction_position - 1;
            &&& 0 <= k < n
            &&& is_push_jump(instructions, k)
            &&& records[i] == jump_record(s, instructions, k)
            &&& jump_records(s, instructions, k) == Ok::<Seq<PushPositionsView>, ObfuscationError>(
                records.take(i),
            )
            &&& hex_value(immediate(s, instructions[k])) <= i32::MAX
        }),
    decreases n,
{
    let records = jump_records(s, instructions, n).unwrap();
    if n > 0 {
        let before = jump_records(s, instructions, n - 1).unwrap();
        if i < before.len() {
            lemma_record_source(s, instructions, n - 1, i);
            assert(records.take(i) =~= before.take(i));
        } else {
            assert(records.take(i) =~= before);
        }
    }
}

/// New digits in the immediate of one PUSH-JUMP pair change the record of
/// that pair and no other.
pub proof fn lemma_records_after_patch(
    s: Seq<char>,
    t: Seq<char>,
    instructions: Seq<Instruction>,
    k: int,
    n: int,
)
    requires
        s.len() <= usize::MAX,
        is_walk(s, 0, instructions),
        is_push_jump(instructions, k),
        differs_in_immediate(s, t, instructions[k]),
        0 <= n <= instructions.len(),
        jump_records(s, instructions, n) is Ok,
        hex_value(immediate(t, instructions[k])) <= i32::MAX,
    ensures
        n > k ==> jump_records(s, instructions, k) is Ok,
        jump_records(t, instructions, n) == Ok::<Seq<PushPositionsView>, ObfuscationError>(
            if n <= k {
                jump_records(s, instructions, n).unwrap()
            } else {
                jump_records(s, instructions, n).unwrap().update(
                    jump_records(s, instructions, k).unwrap().len() as int,
                    jump_record(t, instructions, k),
                )
            },
        ),
        n > k ==> jump_records(s, instructions, k).unwrap().len() < jump_records(
            s,
            instructions,
            n,
        ).unwrap().len(),
    decreases n,
{
    if n > k {
        lemma_jump_records_prefix(s, instructions, k, n);
    }
    if n > 0 {
        let j = n - 1;
        let old_records = jump_records(s, instructions, n).unwrap();
        let before = jump_records(s, instructions, j).unwrap();
        lemma_records_after_patch(s, t, instructions, k, j);
        if is_push_jump(instructions, j) {
            if j == k {
                let place = before.len() as int;
                assert(old_records == before.push(jump_record(s, instructions, k)));
                assert(before.push(jump_record(t, instructions, k)) =~= old_records.update(
                    place,
                    jump_record(t, instructions, k),
                ));
            } else {
                let current = instructions[j];
                assert(instructions[j + 1].offset == current.offset + current.length);
                assert(instructions[j + 1].offset < s.len());
                if j < k {
                    lemma_walk_ordered(s, 0, instructions, j, k);
                } else {
                    lemma_walk_ordered(s, 0, instructions, k, j);
                }
                assert(immediate(t, current) =~= immediate(s, current));
                if j > k {
                    let place = jump_records(s, instructions, k).unwrap().len() as int;
                    assert(before.update(place, jump_record(t, instructions, k)).push(
                        jump_record(s, instructions, j),
                    ) =~= old_records.update(place, jump_record(t, instructions, k)));
                }
            }
        }
    }
}

/// The records among the first `n` instructions are made of those
/// instructions, of the one after them, and of their immediates, and of
/// nothing else.
pub proof fn lemma_jump_records_agree(
    s: Seq<char>,
    t: Seq<char>,
    in_s: Seq<Instruction>,
    in_t: Seq<Instruction>,
    n: int,
)
    requires
        0 <= n <= in_s.len(),
        n <= in_t.len(),
        forall|j: int| 0 <= j < n ==> #[trigger] in_s[j] == in_t[j],
        forall|j: int| 0 <= j < n ==> #[trigger] is_push_jump(in_s, j) == is_push_jump(in_t, j),
        forall|j: int|
            0 <= j < n && #[trigger] is_push_jump(in_s, j) ==> immediate(s, in_s[j]) == immediate(
                t,
                in_s[j],
            ),
    ensures
        jump_records(s, in_s, n) == jump_records(t, in_t, n),
    decreases n,
{
    if n > 0 {
        lemma_jump_records_agree(s, t, in_s, in_t, n - 1);
        assert(in_s[n - 1] == in_t[n - 1]);
        assert(is_push_jump(in_s, n - 1) == is_push_jump(in_t, n - 1));
    }
}

/// The records among the first `n` instructions of a buffer are the same
/// when more code is joined to the buffer, as long as the last of those
/// instructions does not become a PUSH before a JUMP by it.
pub proof fn lemma_jump_records_joined(x: Seq<char>, y: Seq<char>, n: int)
    requires
        decoded(x) is Ok,
        is_complete(x, decoded(x).unwrap()),
        decoded(x + y) is Ok,
        0 <= n <= decoded(x).unwrap().len(),
        n == decoded(x).unwrap().len() ==> !is_push_jump(decoded(x + y).unwrap(), n - 1),
    ensures
        decoded(x).unwrap().len() <= decoded(x + y).unwrap().len(),
        decoded(x + y).unwrap().take(decoded(x).unwrap().len() as int) == decoded(x).unwrap(),
        jump_records(x + y, decoded(x + y).unwrap(), n) == jump_records(x, decoded(x).unwrap(), n),
{
    let first = decoded(x).unwrap();
    let all = decoded(x + y).unwrap();
    let whole = x + y;
    lemma_decoded_count(x);
    lemma_walk_from_joined(x, y, 0);
    assert(all.take(first.len() as int) =~= first);
    assert forall|j: int| 0 <= j < n implies #[trigger] is_push_jump(first, j) == is_push_jump(
        all,
        j,
    ) by {
        assert(all[j] == first[j]);
        if j + 1 < first.len() {
            assert(all[j + 1] == first[j + 1]);
        }
    }
    assert forall|j: int| 0 <= j < n && #[trigger] is_push_jump(first, j) implies immediate(
        x,
        first[j],
    ) == immediate(whole, first[j]) by {
        assert(first[j + 1].offset == first[j].offset + first[j].length);
        assert(first[j + 1].offset < x.len());
        assert(immediate(x, first[j]) =~= immediate(whole, first[j]));
    }
    assert forall|j: int| 0 <= j < n implies #[trigger] first[j] == all[j] by {}
    lemma_jump_records_agree(x, whole, first, all, n);
}

/// Instructions of which none is followed by a JUMP add no record.
pub proof fn lemma_jump_records_without_jump(
    s: Seq<char>,
    instructions: Seq<Instruction>,
    m: int,
    n: int,
)
    requires
        0 <= m <= n <= instructions.len(),
        forall|k: int| m < k < instructions.len() ==> (#[trigger] instructions[k]).opcode != JUMP,
    ensures
        jump_records(s, instructions, n) == jump_records(s, instructions, m),
    decreases n - m,
{
    if m < n {
        lemma_jump_records_without_jump(s, instructions, m, n - 1);
        if n < instructions.len() {
            assert(instructions[n].opcode != JUMP);
        }
        assert(!is_push_jump(instructions, n - 1));
    }
}

} // verus!
