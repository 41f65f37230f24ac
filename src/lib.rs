//! A two-player three-in-a-row game on a 3x3 grid: the board, its win and
//! draw rules, input validation and the turn controller, all verified.

pub mod board;
pub mod game;
pub mod input;
