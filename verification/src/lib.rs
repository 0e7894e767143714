pub mod board;
pub mod color;
pub mod fen;
pub mod piece;
pub mod rule;
pub mod square;
