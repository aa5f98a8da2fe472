//! The state of single puzzles: an engine together with the player's
//! progress.

pub mod dots;
pub mod icyem;
pub mod syzygy;
pub mod wrecked;
