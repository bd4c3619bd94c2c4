pub mod types;
pub mod misc;
pub mod bitboard;
pub mod zobrist;
pub mod position;
pub mod movegen;
