//! Rules engine of a falling-block puzzle: a grid of cells, one controlled
//! piece that moves, turns and falls, rows that clear when they fill up.
//!
//! Every operation is stated against a mathematical model of the board
//! and proved to implement it.
//!
//! - `model`: what a board is and what each operation makes of it.
//! - `tetris`: the board, its cells, the catalog of pieces.
//! - `action`: gravity, moves to the side, quarter turns, row clearing, the
//!   frame.
//! - `invariants`: what every move keeps.
//! - `laws`: when a move is refused, how the game ends, which states it
//!   can reach.
//! - `turns`: the geometry of quarter turns.

pub mod action;
pub mod invariants;
pub mod laws;
pub mod model;
pub mod tetris;
pub mod turns;
