pub mod king;
pub mod pawn;
pub mod knight;
pub mod piece;
pub mod position;
pub mod relative_position;
pub mod sliding_attacks;
pub mod sliding_moves;
pub mod to_piece;
