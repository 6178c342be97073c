//! The rewriting itself: one jump site, and a whole contract.

pub mod detour;
pub mod modify_param;
pub mod obfuscate;
