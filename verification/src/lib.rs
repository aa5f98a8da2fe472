//! Puzzle engines of a grid-based logic game: symbol orientations, pipe
//! networks, sliding ice blocks, coupled letter columns, light toggling and
//! tile shifting, each with the state that records a player's progress.

pub mod access;
pub mod cells;
pub mod column;
pub mod device;
pub mod direction;
pub mod ice;
pub mod lights;
pub mod location;
pub mod plane;
pub mod point;
pub mod puzzles;
pub mod saved;
