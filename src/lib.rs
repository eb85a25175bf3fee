//! Core of a chess engine: board representation, move generation, make/undo
//! with incremental Zobrist hashing, evaluation, transposition table and search.

pub mod attacks;
pub mod bitboard;
pub mod board;
pub mod engine_game;
pub mod eval;
pub mod fen;
pub mod game;
pub mod movegen;
pub mod material;
pub mod moves;
pub mod options;
pub mod params;
pub mod piece;
pub mod search;
pub mod square;
pub mod strategy;
pub mod transposition_table;
pub mod zobrist;
