//! What the engine finds out about a buffer before it changes it.

pub mod code_type;
pub mod jump_seq;
pub mod push_codecopy_seq;
