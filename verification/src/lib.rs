pub mod attacks;
pub mod eval;
pub mod fen;
pub mod hash;
pub mod history;
pub mod bitboard;
pub mod movegen;
pub mod position;
pub mod rng;
