//! Terminal minesweeper: the board, its rules and the command decoding,
//! with their contracts proved by Verus.

pub mod cell;
pub mod level;
pub mod game;
pub mod timer;
pub mod input;
pub mod laws;
