//! Generation of 9x9 sudoku puzzles with a certified-unique solution.
//!
//! The library is built from four parts that share one grid
//! representation: validity primitives on the grid, a randomized
//! backtracking filler that produces a fully solved grid, a bounded
//! solution-counting oracle used as a uniqueness decision procedure,
//! and a hole puncher that removes digits while the oracle certifies
//! that a single solution remains.

pub mod grid;
pub mod rng;
pub mod filler;
pub mod oracle;
pub mod puncher;
pub mod fingerprint;
pub mod laws;
pub mod render;
