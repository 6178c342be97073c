//! The ways in which a rewriting step can fail, and how contracts speak of
//! a step that may fail.

use vstd::prelude::*;

verus! {

/// Why the engine gave up on a piece of bytecode.
#[derive(Clone, Copy, Debug, PartialEq, Eq, Structural)]
pub enum ObfuscationError {
    /// Text that has to be hexadecimal is not: it holds a character outside
    /// `0-9a-f`, or, for a whole buffer, an odd number of digits or more
    /// digits than an `i32` can count.
    InvalidHex,
    /// The two digits at an instruction boundary are not in the opcode table.
    UnknownOpcode,
    /// The code has no fifth instruction counted from its first CODECOPY, so
    /// it does not divide into initialization code and runtime code.
    NoInitCodeSplit,
    /// No PUSH stands four instructions before a CODECOPY, so the length
    /// that the initialization code copies cannot be found.
    NoCodecopyLengthPattern,
    /// A value does not fit where it has to go: a replacement in the digits
    /// of the operand it is written to, or an immediate in an `i32`.
    OperandOverflow,
}

/// A number or an error as plain values.
pub open spec fn number_view(r: Result<i32, ObfuscationError>) -> Result<int, ObfuscationError> {
    match r {
        Ok(number) => Ok(number as int),
        Err(e) => Err(e),
    }
}

/// A text or an error as plain values.
pub open spec fn text_view(r: Result<String, ObfuscationError>) -> Result<
    Seq<char>,
    ObfuscationError,
> {
    match r {
        Ok(text) => Ok(text@),
        Err(e) => Err(e),
    }
}

/// How a step that may fail leaves a buffer: written as the outcome says,
/// or untouched when the outcome is an error.
pub open spec fn written(
    outcome: Result<Seq<char>, ObfuscationError>,
    before: Seq<char>,
    after: Seq<char>,
    r: Result<(), ObfuscationError>,
) -> bool {
    match outcome {
        Ok(text) => r is Ok && after == text,
        Err(e) => r == Err::<(), ObfuscationError>(e) && after == before,
    }
}

} // verus!
