use vstd::prelude::*;

use crate::color::Color;
use crate::pieces::piece::{Piece, PieceEnum};
use crate::pieces::position::Position;

verus! {

/// Whether `v` is a square value of the compact board encoding:
/// 0 for empty, 1-6 for White Pawn/Rook/Knight/Bishop/Queen/King,
/// 11-16 for the same Black pieces.
pub open spec fn valid_square_byte(v: u8) -> bool {
    v == 0 || 1 <= v <= 6 || 11 <= v <= 16
}

/// The piece (or empty square) a valid square value stands for, placed
/// at `position`.
pub open spec fn spec_to_piece(v: u8, position: Position) -> Option<Piece> {
    if v == 0 {
        None
    } else {
        let color = if v >= 11 {
            Color::BLACK
        } else {
            Color::WHITE
        };
        let code = if v >= 11 {
            v - 10
        } else {
            v as int
        };
        let kind = if code == 1 {
            PieceEnum::PAWN
        } else if code == 2 {
            PieceEnum::ROOK
        } else if code == 3 {
            PieceEnum::KNIGHT
        } else if code == 4 {
            PieceEnum::BISHOP
        } else if code == 5 {
            PieceEnum::QUEEN
        } else {
            PieceEnum::KING
        };
        Some(Piece { kind, color, position })
    }
}

/// The square value that encodes `s`.
pub open spec fn spec_piece_byte(s: Option<Piece>) -> u8 {
    match s {
        None => 0u8,
        Some(p) => {
            let code: u8 = match p.kind {
                PieceEnum::PAWN => 1u8,
                PieceEnum::ROOK => 2u8,
                PieceEnum::KNIGHT => 3u8,
                PieceEnum::BISHOP => 4u8,
                PieceEnum::QUEEN => 5u8,
                PieceEnum::KING => 6u8,
            };
            if p.color == Color::BLACK {
                (code + 10) as u8
            } else {
                code
            }
        },
    }
}

/// Encoding a decoded square value gives the value back.
pub proof fn lemma_byte_round_trip(v: u8, position: Position)
    requires
        valid_square_byte(v),
    ensures
        spec_piece_byte(spec_to_piece(v, position)) == v,
{
}

/// Decoding an encoded square gives the piece back, at the position the
/// decoder is told to place it.
pub proof fn lemma_piece_round_trip(s: Option<Piece>, position: Position)
    ensures
        valid_square_byte(spec_piece_byte(s)),
        s is None ==> spec_to_piece(spec_piece_byte(s), position) is None,
        s matches Some(p) ==> spec_to_piece(spec_piece_byte(s), position) == Some(
            Piece { position, ..p },
        ),
{
}

/// Runtime check for a valid square value of the compact encoding.
pub fn is_valid_square_byte(v: u8) -> (r: bool)
    ensures
        r == valid_square_byte(v),
{
    v == 0 || (1 <= v && v <= 6) || (11 <= v && v <= 16)
}

/// Decodes one square value of the compact board encoding.
pub fn to_piece(value: u8, position: Position) -> (r: Option<Piece>)
    requires
        valid_square_byte(value),
    ensures
        r == spec_to_piece(value, position),
{
    if value == 0 {
        None
    } else {
        let color = if value >= 11 {
            Color::BLACK
        } else {
            Color::WHITE
        };
        let code = if value >= 11 {
            value - 10
        } else {
            value
        };
        let kind = if code == 1 {
            PieceEnum::PAWN
        } else if code == 2 {
            PieceEnum::ROOK
        } else if code == 3 {
            PieceEnum::KNIGHT
        } else if code == 4 {
            PieceEnum::BISHOP
        } else if code == 5 {
            PieceEnum::QUEEN
        } else {
            PieceEnum::KING
        };
        Some(Piece { kind, color, position })
    }
}

/// Encodes one square as its compact square value.
pub fn piece_byte(s: &Option<Piece>) -> (r: u8)
    ensures
        r == spec_piece_byte(*s),
{
    match s {
        None => 0,
        Some(p) => {
            let code: u8 = match p.kind {
                PieceEnum::PAWN => 1,
                PieceEnum::ROOK => 2,
                PieceEnum::KNIGHT => 3,
                PieceEnum::BISHOP => 4,
                PieceEnum::QUEEN => 5,
                PieceEnum::KING => 6,
            };
            if p.color == Color::BLACK {
                code + 10
            } else {
                code
            }
        },
    }
}

} // verus!
