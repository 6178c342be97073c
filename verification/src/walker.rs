//! The instruction walker: where each instruction of a buffer starts, which
//! opcode it has and how many digits it takes.
//!
//! A walk starts at digit 0, looks the opcode at the current offset up in
//! the table and moves on by the length that the table gives. It ends when
//! the next offset is past the last digit, so the last instruction may lack
//! part of its immediate.

use crate::constant::opcodes::{byte_at, opcode_digit_length, opcode_length};
use crate::error::ObfuscationError;
use crate::hex::{
    digit_at, is_bytecode, is_bytecode_str, is_hex_digit, lemma_hex_text_concat, MAX_DIGITS,
    text_len,
};
use vstd::prelude::*;

verus! {

/// One instruction of a buffer: the digit offset of its opcode, the opcode
/// byte, and its length in digits, immediate included.
#[derive(Clone, Copy, Debug, PartialEq, Eq, Structural)]
pub struct Instruction {
    /// The digit offset at which the opcode begins.
    pub offset: usize,
    /// The opcode byte.
    pub opcode: u8,
    /// The digits that the instruction takes: two for the opcode and two
    /// for each byte of the immediate, whether the text holds them or not.
    pub length: usize,
}

/// The instruction whose opcode stands at `offset`, if the two digits there
/// are an opcode of the table.
pub open spec fn instruction_at(s: Seq<char>, offset: int) -> Option<Instruction> {
    if 0 <= offset && offset % 2 == 0 && offset + 2 <= s.len() && is_hex_digit(s[offset])
        && is_hex_digit(s[offset + 1]) {
        match opcode_length(byte_at(s, offset)) {
            Some(length) => Some(
                Instruction {
                    offset: offset as usize,
                    opcode: byte_at(s, offset) as u8,
                    length: length as usize,
                },
            ),
            None => None,
        }
    } else {
        None
    }
}

/// The digits from `offset` to the end of the text.
pub open spec fn digits_left(s: Seq<char>, offset: int) -> nat {
    if offset < s.len() {
        (s.len() - offset) as nat
    } else {
        0
    }
}

/// The instructions met by a walk that starts at `offset`.
pub open spec fn walk_from(s: Seq<char>, offset: int) -> Result<Seq<Instruction>, ObfuscationError>
    decreases digits_left(s, offset),
{
    if offset >= s.len() {
        Ok(Seq::empty())
    } else {
        match instruction_at(s, offset) {
            None => Err(ObfuscationError::UnknownOpcode),
            Some(first) => match walk_from(s, offset + first.length) {
                Ok(rest) => Ok(seq![first] + rest),
                Err(e) => Err(e),
            },
        }
    }
}

/// The instructions of a buffer, in the order of their offsets.
///
/// Text that is not a well-formed buffer has none (`InvalidHex`); a byte at
/// an instruction boundary that the table does not list stops the walk
/// (`UnknownOpcode`).
pub open spec fn decoded(s: Seq<char>) -> Result<Seq<Instruction>, ObfuscationError> {
    if is_bytecode(s) {
        walk_from(s, 0)
    } else {
        Err(ObfuscationError::InvalidHex)
    }
}

/// The offset just past the last instruction.
pub open spec fn code_end(instructions: Seq<Instruction>) -> int {
    if instructions.len() == 0 {
        0
    } else {
        instructions.last().offset + instructions.last().length
    }
}

/// The digits of the immediate of `instruction`.
pub open spec fn immediate(s: Seq<char>, instruction: Instruction) -> Seq<char> {
    s.subrange(instruction.offset + 2, instruction.offset + instruction.length)
}

/// What holds of the instructions that a walk from `from` returns: each is
/// the instruction found at its offset, they follow one another without a
/// gap, and only the last may reach past the end of the text.
pub open spec fn is_walk(s: Seq<char>, from: int, instructions: Seq<Instruction>) -> bool {
    &&& instructions.len() == 0 <==> from >= s.len()
    &&& instructions.len() > 0 ==> instructions[0].offset == from
    &&& code_end(instructions) >= s.len() || instructions.len() == 0
    &&& forall|k: int|
        0 <= k < instructions.len() ==> {
            &&& instruction_at(s, (#[trigger] instructions[k]).offset as int) == Some(
                instructions[k],
            )
            &&& instructions[k].offset < s.len()
        }
    &&& forall|i: int, j: int|
        0 <= i && j == i + 1 && j < instructions.len() ==> (#[trigger] instructions[j]).offset == (
        #[trigger] instructions[i]).offset + instructions[i].length
}

/// The result of an executable walk as plain values.
pub open spec fn walk_view(r: Result<Vec<Instruction>, ObfuscationError>) -> Result<
    Seq<Instruction>,
    ObfuscationError,
> {
    match r {
        Ok(instructions) => Ok(instructions@),
        Err(e) => Err(e),
    }
}

/// Whether `t` is `s` with other digits in the immediate of `instruction`
/// and nowhere else.
pub open spec fn differs_in_immediate(
    s: Seq<char>,
    t: Seq<char>,
    instruction: Instruction,
) -> bool {
    &&& t.len() == s.len()
    &&& forall|i: int|
        0 <= i < s.len() && !(instruction.offset + 2 <= i < instruction.offset
            + instruction.length) ==> #[trigger] t[i] == s[i]
}

/// The offset at which a walk from `offset` ends: the first offset that
/// it reaches at or past the end of the text. A walk that fails ends where
/// it fails.
pub open spec fn walk_end(s: Seq<char>, offset: int) -> int
    decreases digits_left(s, offset),
{
    if offset >= s.len() {
        offset
    } else {
        match instruction_at(s, offset) {
            None => offset,
            Some(first) => walk_end(s, offset + first.length),
        }
    }
}

/// Whether a walk from `offset` meets no instruction with the opcode.
pub open spec fn walk_lacks(s: Seq<char>, opcode: u8, offset: int) -> bool
    decreases digits_left(s, offset),
{
    if offset >= s.len() {
        true
    } else {
        match instruction_at(s, offset) {
            None => true,
            Some(first) => first.opcode != opcode && walk_lacks(s, opcode, offset + first.length),
        }
    }
}

/// Whether no instruction lacks digits: the last one ends where the text
/// ends.
pub open spec fn is_complete(s: Seq<char>, instructions: Seq<Instruction>) -> bool {
    code_end(instructions) == s.len()
}

/// An instruction that stands `by` digits further on.
pub open spec fn moved(instruction: Instruction, by: int) -> Instruction {
    Instruction {
        offset: (instruction.offset + by) as usize,
        opcode: instruction.opcode,
        length: instruction.length,
    }
}

/// Instructions that stand `by` digits further on.
pub open spec fn moved_all(instructions: Seq<Instruction>, by: int) -> Seq<Instruction> {
    instructions.map_values(|i: Instruction| moved(i, by))
}

/// What a walk of `first` followed by a walk of `second` gives, when the
/// second text begins `by` digits after the first.
pub open spec fn joined_walks(
    first: Seq<Instruction>,
    second: Result<Seq<Instruction>, ObfuscationError>,
    by: int,
) -> Result<Seq<Instruction>, ObfuscationError> {
    match second {
        Ok(rest) => Ok(first + moved_all(rest, by)),
        Err(e) => Err(e),
    }
}

/// Reads the instruction whose opcode stands at `offset`.
pub(crate) fn read_instruction(bytecode: &str, offset: usize) -> (r: Option<Instruction>)
    requires
        bytecode.is_ascii(),
    ensures
        r == instruction_at(bytecode@, offset as int),
{
    let len: usize = text_len(bytecode);
    if offset % 2 != 0 || len < 2 || offset > len - 2 {
        return None;
    }
    let high: u8 = match digit_at(bytecode, offset) {
        Some(d) => d,
        None => { return None; },
    };
    let low: u8 = match digit_at(bytecode, offset + 1) {
        Some(d) => d,
        None => { return None; },
    };
    let opcode: u8 = high * 16 + low;
    match opcode_digit_length(opcode) {
        Some(length) => Some(Instruction { offset, opcode, length }),
        None => None,
    }
}

/// Walks a buffer from its first instruction to its last and gives the
/// instructions in the order of their offsets.
///
/// Fails with `InvalidHex` when the text is not a well-formed buffer, and
/// with `UnknownOpcode` when the two digits at an instruction boundary are
/// not in the opcode table. Two walks of one text give the same answer.
pub fn walk(bytecode: &str) -> (r: Result<Vec<Instruction>, ObfuscationError>)
    ensures
        walk_view(r) == decoded(bytecode@),
        r is Ok ==> bytecode.is_ascii(),
{
    if !is_bytecode_str(bytecode) {
        return Err(ObfuscationError::InvalidHex);
    }
    let len: usize = text_len(bytecode);
    let mut instructions: Vec<Instruction> = Vec::new();
    let mut offset: usize = 0;
    while offset < len
        invariant
            bytecode.is_ascii(),
            is_bytecode(bytecode@),
            len == bytecode@.len(),
            offset % 2 == 0,
            offset <= len + 64,
            match walk_from(bytecode@, offset as int) {
                Ok(rest) => walk_from(bytecode@, 0) == Ok::<Seq<Instruction>, ObfuscationError>(
                    instructions@ + rest,
                ),
                Err(e) => walk_from(bytecode@, 0) == Err::<Seq<Instruction>, ObfuscationError>(e),
            },
        decreases len + 64 - offset,
    {
        match read_instruction(bytecode, offset) {
            None => {
                return Err(ObfuscationError::UnknownOpcode);
            },
            Some(found) => {
                let length: usize = found.length;
                proof {
                    lemma_instruction_at(bytecode@, offset as int);
                    match walk_from(bytecode@, offset + length) {
                        Ok(rest) => {
                            assert(instructions@ + (seq![found] + rest) =~= instructions@.push(
                                found,
                            ) + rest);
                        },
                        Err(_) => {},
                    }
                }
                instructions.push(found);
                offset = offset + length;
            },
        }
    }
    proof {
        assert(instructions@ + Seq::<Instruction>::empty() =~= instructions@);
    }
    Ok(instructions)
}

/// An instruction found in a text starts where it was looked for, has the
/// length that the table gives for its opcode, and at least its opcode lies
/// within the text.
pub proof fn lemma_instruction_at(s: Seq<char>, offset: int)
    requires
        instruction_at(s, offset) is Some,
        s.len() <= usize::MAX,
    ensures
        instruction_at(s, offset).unwrap().offset == offset,
        instruction_at(s, offset).unwrap().opcode == byte_at(s, offset),
        opcode_length(byte_at(s, offset)) == Some(instruction_at(s, offset).unwrap().length as int),
        2 <= instruction_at(s, offset).unwrap().length <= 66,
        instruction_at(s, offset).unwrap().length % 2 == 0,
        0 <= offset,
        offset % 2 == 0,
        offset + 2 <= s.len(),
{
}

/// A walk returns what `is_walk` describes.
pub proof fn lemma_walk_from_is_walk(s: Seq<char>, from: int)
    requires
        0 <= from,
        s.len() <= usize::MAX,
        walk_from(s, from) is Ok,
    ensures
        is_walk(s, from, walk_from(s, from).unwrap()),
    decreases digits_left(s, from),
{
    if from < s.len() {
        let first = instruction_at(s, from).unwrap();
        let next = from + first.length;
        lemma_walk_from_is_walk(s, next);
        let rest = walk_from(s, next).unwrap();
        let all = walk_from(s, from).unwrap();
        assert(all == seq![first] + rest);
        assert(all[0] == first);
        assert forall|k: int| 0 <= k < all.len() implies {
            &&& instruction_at(s, (#[trigger] all[k]).offset as int) == Some(all[k])
            &&& all[k].offset < s.len()
        } by {
            if k > 0 {
                assert(all[k] == rest[k - 1]);
            }
        }
        lemma_instruction_at(s, from);
        assert forall|i: int, j: int| 0 <= i && j == i + 1 && j < all.len() implies (
        #[trigger] all[j]).offset == (#[trigger] all[i]).offset + all[i].length by {
            assert(all[j] == rest[j - 1]);
            if i > 0 {
                assert(all[i] == rest[i - 1]);
            }
        }
        if rest.len() > 0 {
            assert(all.last() == rest.last());
        }
    }
}

/// Instructions do not overlap: an earlier one ends where a later one
/// starts, or before.
pub proof fn lemma_walk_ordered(
    s: Seq<char>,
    from: int,
    instructions: Seq<Instruction>,
    i: int,
    j: int,
)
    requires
        is_walk(s, from, instructions),
        0 <= i < j < instructions.len(),
    ensures
        instructions[i].offset + instructions[i].length <= instructions[j].offset,
    decreases j - i,
{
    if i + 1 < j {
        lemma_walk_ordered(s, from, instructions, i, j - 1);
    }
    assert(instructions[j].offset == instructions[j - 1].offset + instructions[j - 1].length);
}

/// Two texts of one length that agree from `from` on are walked alike from
/// there.
pub proof fn lemma_walk_from_agrees(s: Seq<char>, t: Seq<char>, from: int)
    requires
        0 <= from,
        s.len() == t.len(),
        forall|i: int| from <= i < s.len() ==> s[i] == t[i],
    ensures
        walk_from(s, from) == walk_from(t, from),
    decreases digits_left(s, from),
{
    if from < s.len() {
        if from + 2 <= s.len() {
            assert(s[from] == t[from]);
            assert(s[from + 1] == t[from + 1]);
        }
        assert(instruction_at(s, from) == instruction_at(t, from));
        match instruction_at(s, from) {
            Some(first) => {
                lemma_walk_from_agrees(s, t, from + first.length);
            },
            None => {},
        }
    }
}

/// The `k`-th instruction of a walk from `from` starts at least `2 * k`
/// digits after `from`.
pub proof fn lemma_walk_offset_bound(
    s: Seq<char>,
    from: int,
    instructions: Seq<Instruction>,
    k: int,
)
    requires
        is_walk(s, from, instructions),
        s.len() <= usize::MAX,
        0 <= k < instructions.len(),
    ensures
        instructions[k].offset >= from + 2 * k,
    decreases k,
{
    if k > 0 {
        lemma_walk_offset_bound(s, from, instructions, k - 1);
        assert(instructions[k].offset == instructions[k - 1].offset + instructions[k - 1].length);
        lemma_instruction_at(s, instructions[k - 1].offset as int);
    }
}

/// A buffer has at most one instruction for each of its bytes.
pub proof fn lemma_decoded_count(s: Seq<char>)
    requires
        decoded(s) is Ok,
    ensures
        is_walk(s, 0, decoded(s).unwrap()),
        2 * decoded(s).unwrap().len() <= s.len(),
{
    lemma_walk_from_is_walk(s, 0);
    let instructions = decoded(s).unwrap();
    if instructions.len() > 0 {
        lemma_walk_offset_bound(s, 0, instructions, instructions.len() - 1);
    }
}

/// New digits in the immediate of one instruction leave the walk as it
/// was.
pub proof fn lemma_walk_from_keeps(
    s: Seq<char>,
    t: Seq<char>,
    from: int,
    instructions: Seq<Instruction>,
    k: int,
)
    requires
        0 <= from,
        s.len() <= usize::MAX,
        walk_from(s, from) == Ok::<Seq<Instruction>, ObfuscationError>(instructions),
        0 <= k < instructions.len(),
        differs_in_immediate(s, t, instructions[k]),
    ensures
        walk_from(t, from) == Ok::<Seq<Instruction>, ObfuscationError>(instructions),
    decreases k,
{
    let first = instruction_at(s, from).unwrap();
    let next = from + first.length;
    let rest = walk_from(s, next).unwrap();
    assert(instructions == seq![first] + rest);
    lemma_instruction_at(s, from);
    if k == 0 {
        assert(instructions[0] == first);
        assert(t[from] == s[from]);
        assert(t[from + 1] == s[from + 1]);
        assert(instruction_at(t, from) == Some(first));
        assert forall|i: int| next <= i < s.len() implies s[i] == t[i] by {
            assert(t[i] == s[i]);
        }
        lemma_walk_from_agrees(s, t, next);
    } else {
        assert(instructions[k] == rest[k - 1]);
        lemma_walk_from_is_walk(s, next);
        lemma_walk_offset_bound(s, next, rest, k - 1);
        assert(t[from] == s[from]);
        assert(t[from + 1] == s[from + 1]);
        assert(instruction_at(t, from) == Some(first));
        lemma_walk_from_keeps(s, t, next, rest, k - 1);
    }
}

/// A walk that ends where the text ends does not fail, and none of its
/// instructions lacks digits.
pub proof fn lemma_walk_end(s: Seq<char>, from: int)
    requires
        0 <= from <= s.len(),
        s.len() <= usize::MAX,
        walk_end(s, from) == s.len(),
    ensures
        walk_from(s, from) is Ok,
        from < s.len() ==> is_complete(s, walk_from(s, from).unwrap()),
    decreases digits_left(s, from),
{
    if from < s.len() {
        match instruction_at(s, from) {
            Some(first) => {
                lemma_instruction_at(s, from);
                let next = from + first.length;
                lemma_walk_end_reaches(s, next);
                lemma_walk_end(s, next);
                let rest = walk_from(s, next).unwrap();
                let all = walk_from(s, from).unwrap();
                assert(all == seq![first] + rest);
                if rest.len() > 0 {
                    assert(all.last() == rest.last());
                } else {
                    assert(all.last() == first);
                }
            },
            None => {},
        }
    }
}

/// A walk ends no earlier than it starts.
pub proof fn lemma_walk_end_reaches(s: Seq<char>, from: int)
    requires
        s.len() <= usize::MAX,
    ensures
        walk_end(s, from) >= from,
    decreases digits_left(s, from),
{
    if from < s.len() {
        match instruction_at(s, from) {
            Some(first) => {
                lemma_instruction_at(s, from);
                lemma_walk_end_reaches(s, from + first.length);
            },
            None => {},
        }
    }
}

/// A walk in the second of two joined texts meets the instructions that it
/// meets in that text alone, each further on by the length of the first.
pub proof fn lemma_walk_from_moved(x: Seq<char>, y: Seq<char>, from: int)
    requires
        0 <= from,
        x.len() % 2 == 0,
        x.len() + y.len() <= usize::MAX,
    ensures
        walk_from(x + y, x.len() + from) == joined_walks(
            Seq::empty(),
            walk_from(y, from),
            x.len() as int,
        ),
    decreases digits_left(y, from),
{
    let by = x.len() as int;
    let whole = x + y;
    if from < y.len() {
        if from + 2 <= y.len() {
            assert(whole[by + from] == y[from]);
            assert(whole[by + from + 1] == y[from + 1]);
        }
        match instruction_at(y, from) {
            Some(first) => {
                lemma_instruction_at(y, from);
                assert(instruction_at(whole, by + from) == Some(moved(first, by)));
                lemma_walk_from_moved(x, y, from + first.length);
                match walk_from(y, from + first.length) {
                    Ok(rest) => {
                        assert(seq![moved(first, by)] + (Seq::<Instruction>::empty() + moved_all(
                            rest,
                            by,
                        )) =~= Seq::<Instruction>::empty() + moved_all(seq![first] + rest, by));
                    },
                    Err(_) => {},
                }
            },
            None => {
                assert(instruction_at(whole, by + from) is None);
            },
        }
    } else {
        assert(Seq::<Instruction>::empty() + moved_all(Seq::<Instruction>::empty(), by)
            =~= Seq::<Instruction>::empty());
    }
}

/// A walk in the first of two joined texts meets the instructions that it
/// meets in that text alone, and goes on into the second, when no
/// instruction of the first lacks digits.
pub proof fn lemma_walk_from_joined(x: Seq<char>, y: Seq<char>, from: int)
    requires
        0 <= from <= x.len(),
        x.len() % 2 == 0,
        x.len() + y.len() <= usize::MAX,
        walk_from(x, from) is Ok,
        from < x.len() ==> is_complete(x, walk_from(x, from).unwrap()),
    ensures
        walk_from(x + y, from) == joined_walks(
            walk_from(x, from).unwrap(),
            walk_from(y, 0),
            x.len() as int,
        ),
    decreases digits_left(x, from),
{
    let whole = x + y;
    if from < x.len() {
        let first = instruction_at(x, from).unwrap();
        lemma_instruction_at(x, from);
        let next = from + first.length;
        let rest = walk_from(x, next).unwrap();
        let found = walk_from(x, from).unwrap();
        assert(found == seq![first] + rest);
        if rest.len() > 0 {
            assert(found.last() == rest.last());
        } else {
            assert(found.last() == first);
        }
        assert(whole[from] == x[from]);
        assert(whole[from + 1] == x[from + 1]);
        assert(instruction_at(whole, from) == Some(first));
        lemma_walk_from_joined(x, y, next);
        match walk_from(y, 0) {
            Ok(tail) => {
                assert(seq![first] + (rest + moved_all(tail, x.len() as int)) =~= found + moved_all(
                    tail,
                    x.len() as int,
                ));
            },
            Err(_) => {},
        }
    } else {
        lemma_walk_from_moved(x, y, 0);
        assert(walk_from(x, from).unwrap() =~= Seq::<Instruction>::empty());
    }
}

/// The instructions of two buffers joined are those of the first and then
/// those of the second, further on by the length of the first, when no
/// instruction of the first lacks digits.
pub proof fn lemma_decoded_joined(x: Seq<char>, y: Seq<char>)
    requires
        decoded(x) is Ok,
        is_complete(x, decoded(x).unwrap()),
        is_bytecode(y),
        x.len() + y.len() <= MAX_DIGITS,
    ensures
        is_bytecode(x + y),
        decoded(x + y) == joined_walks(decoded(x).unwrap(), decoded(y), x.len() as int),
        decoded(y) is Ok && is_complete(y, decoded(y).unwrap()) ==> is_complete(
            x + y,
            decoded(x + y).unwrap(),
        ),
{
    lemma_hex_text_concat(x, y);
    lemma_walk_from_joined(x, y, 0);
    if decoded(y) is Ok && is_complete(y, decoded(y).unwrap()) {
        let first = decoded(x).unwrap();
        let second = decoded(y).unwrap();
        let all = decoded(x + y).unwrap();
        if second.len() > 0 {
            lemma_decoded_count(y);
            assert(all.last() == moved(second.last(), x.len() as int));
        } else {
            assert(all =~= first);
        }
    }
}

/// The text before an instruction is walked as the whole text is, up to
/// that instruction, and none of its instructions lacks digits.
pub proof fn lemma_walk_from_before(s: Seq<char>, from: int, k: int)
    requires
        0 <= from,
        s.len() <= usize::MAX,
        walk_from(s, from) is Ok,
        0 <= k < walk_from(s, from).unwrap().len(),
    ensures
        walk_from(s, from).unwrap()[k].offset <= s.len(),
        from <= walk_from(s, from).unwrap()[k].offset,
        walk_from(s.subrange(0, walk_from(s, from).unwrap()[k].offset as int), from) == Ok::<
            Seq<Instruction>,
            ObfuscationError,
        >(walk_from(s, from).unwrap().take(k)),
        k > 0 ==> is_complete(
            s.subrange(0, walk_from(s, from).unwrap()[k].offset as int),
            walk_from(s, from).unwrap().take(k),
        ),
    decreases k,
{
    let all = walk_from(s, from).unwrap();
    lemma_walk_from_is_walk(s, from);
    let end = all[k].offset as int;
    let part = s.subrange(0, end);
    let first = instruction_at(s, from).unwrap();
    lemma_instruction_at(s, from);
    let next = from + first.length;
    let rest = walk_from(s, next).unwrap();
    assert(all == seq![first] + rest);
    if k == 0 {
        assert(all.take(0) =~= Seq::<Instruction>::empty());
    } else {
        assert(all[k] == rest[k - 1]);
        lemma_walk_from_before(s, next, k - 1);
        assert(part[from] == s[from]);
        assert(part[from + 1] == s[from + 1]);
        assert(instruction_at(part, from) == Some(first));
        assert(seq![first] + rest.take(k - 1) =~= all.take(k));
        assert(all.take(k).last() == all[k - 1]);
        assert(all[k].offset == all[k - 1].offset + all[k - 1].length);
    }
}

/// A walk that meets no instruction with an opcode returns none with it.
pub proof fn lemma_walk_lacks(s: Seq<char>, opcode: u8, from: int)
    requires
        0 <= from,
        s.len() <= usize::MAX,
        walk_from(s, from) is Ok,
        walk_lacks(s, opcode, from),
    ensures
        forall|k: int|
            0 <= k < walk_from(s, from).unwrap().len() ==> (#[trigger] walk_from(
                s,
                from,
            ).unwrap()[k]).opcode != opcode,
    decreases digits_left(s, from),
{
    if from < s.len() {
        let first = instruction_at(s, from).unwrap();
        lemma_instruction_at(s, from);
        let rest = walk_from(s, from + first.length).unwrap();
        let all = walk_from(s, from).unwrap();
        assert(all == seq![first] + rest);
        lemma_walk_lacks(s, opcode, from + first.length);
        assert forall|k: int| 0 <= k < all.len() implies (#[trigger] all[k]).opcode != opcode by {
            if k > 0 {
                assert(all[k] == rest[k - 1]);
            }
        }
    }
}

} // verus!
