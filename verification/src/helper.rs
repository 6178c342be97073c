//! The steps that read or change a buffer.

pub mod bytecode;
