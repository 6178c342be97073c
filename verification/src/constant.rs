//! Fixed data of the virtual machine and of the engine.

pub mod dead_bytecodes;
pub mod opcodes;
