//! Conway's Game of Life on a fixed, bounded grid.
//!
//! The grid has no wraparound: every position outside it counts as a dead
//! cell. A generation is never edited in place; one step builds the next
//! generation from the current one.

pub mod board;
pub mod grid;
pub mod seed;
pub mod simulator;
pub mod theorems;
