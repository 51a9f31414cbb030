//! A Connect Four engine: a bitboard position with reversible moves and a
//! depth-limited negamax search with alpha-beta pruning over it.
//!
//! Every executable function carries a contract over the mathematical model
//! of the position ([`board::Board`]), and the laws that relate the functions
//! to each other are stated and proved as public proof functions.

pub mod bits;
pub mod board;
pub mod lines;
pub mod minimax;
pub mod piece;
pub mod search;
pub mod state;
