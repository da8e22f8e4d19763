//! A chess move-search engine: a static evaluator, Zobrist fingerprints, a
//! bounded transposition table, move ordering and an alpha-beta search with
//! iterative deepening, over a rules library that generates and plays moves.

pub mod types;
pub mod tables;
pub mod eval;
pub mod oracle;
pub mod zobrist;
pub mod tt;
pub mod ordering;
pub mod search;
pub mod api;
