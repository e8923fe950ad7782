//! A chess engine core: board representation with make/unmake, legal move
//! generation, static evaluation, Zobrist fingerprints, a transposition table
//! and an alpha-beta search.
pub mod board;
pub mod eval;
pub mod mirror;
pub mod movegen;
pub mod search;
pub mod uci;
