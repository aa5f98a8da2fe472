//! Ice blocks that slide over a grid of fixed objects, and the symbols that
//! they carry.

pub mod grid;
pub mod symbol;
pub mod transform;
pub mod undo;
