//! A verified core for a fixed 9x9 minesweeper game: the board model, the
//! flood-fill reveal algorithm, and the game-state transitions with flag
//! tracking and win/lose detection. Rendering and input interception are
//! left to the surrounding program.

pub mod board;
pub mod count;
pub mod flood;
pub mod game;
