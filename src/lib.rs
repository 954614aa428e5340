//! A Minesweeper game engine: a rectangular board of covered cells, some of
//! which hide mines, with a safe first click, cascading reveals of empty
//! regions, flag bookkeeping and win/loss classification.

pub mod board;
mod clock;
pub mod controls;
mod engine;
mod random;
pub mod theorems;

pub use board::{Board, Difficulty, GameError, GameState, Position, Square, SquareState};
pub use controls::{difficulty_after, Click, KeyCommand};
pub use engine::MineSweeper;
