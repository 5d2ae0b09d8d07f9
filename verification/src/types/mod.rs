pub mod piece;
pub mod color;
pub mod file;
pub mod rank;

pub use piece::Piece;
pub use color::Color;
pub use file::File;
pub use rank::Rank;
pub mod bitboard;
pub mod square;

pub use bitboard::Bitboard;
pub use square::Square;
pub mod moves;

pub use moves::Move;
