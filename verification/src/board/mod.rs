pub mod tictactoe;

pub use tictactoe::{TerminalState, TicTacToe};
pub mod zobrist;
pub mod board;

pub use board::{Board, BoardModel};
pub mod laws;
pub mod movegen;

pub use movegen::MoveList;
pub mod parse;
