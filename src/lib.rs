//! The decision core of a chess engine: bitboards, the position with its incremental Zobrist
//! hash and its check and pin constraints, move text, scores, and the decisions of the
//! background search worker.

pub mod attacks;
pub mod bitboard;
pub mod board;
pub mod color;
pub mod pieces;
pub mod score;
pub mod search;
pub mod square;
pub mod zobrist;
