//! A legal chess move generator: board and piece model, attack maps,
//! pin resolution, check handling, castling, en passant, promotion, and
//! a make/undo state machine with history.

pub mod attack;
pub mod board;
pub mod chessmove;
pub mod color;
pub mod game;
pub mod laws;
pub mod pieces;
