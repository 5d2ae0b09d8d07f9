//! Ristinolla: an ultimate tic-tac-toe engine library.
//!
//! The board is a 9x9 grid made of nine small 3x3 boards. Winning a small
//! board marks the corresponding cell of the large board; winning the large
//! board wins the game.

pub mod types;
pub mod board;
pub mod position;
pub mod engine;
pub mod score;
pub mod search;
pub mod util;
pub mod text;
pub mod ugi;
