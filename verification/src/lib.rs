//! Rewrites EVM-style contract bytecode, given as hexadecimal text, so that
//! its direct jumps take a detour through inert decoy code.
//!
//! A contract is divided into initialization code and runtime code
//! (`analysis::code_type`). Every `PUSH t; JUMP` of the runtime code
//! (`analysis::jump_seq`) is made to jump to a JUMPDEST appended to the
//! code, which is followed by a decoy fragment of the catalogue
//! (`constant::dead_bytecodes`) and by `PUSH2 t; JUMP`
//! (`obfuscation::obfuscate`, `helper::bytecode`). Last the length by which
//! the initialization code copies the runtime code is set anew
//! (`analysis::push_codecopy_seq`).
//!
//! All of it rests on the walk of a buffer from instruction to instruction
//! (`walker`) by the opcode table (`constant::opcodes`). Every function is
//! verified: its contract states, over the characters of the text, what is
//! returned or written, and when it fails with which error. What holds of
//! the steps together is proved in `laws` and `obfuscation::detour`, among
//! it when an obfuscation is owed (`laws::obfuscation_fits`).
//!
//! The one thing taken on trust is that the random number drawn for the
//! choice of a decoy lies in the range asked for.

pub mod analysis;
pub mod constant;
pub mod error;
pub mod helper;
pub mod hex;
pub mod laws;
pub mod obfuscation;
pub mod walker;
