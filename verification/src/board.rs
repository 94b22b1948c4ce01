use vstd::prelude::*;

use crate::color::Color;
use crate::game::GameError;
use crate::pieces::piece::{Piece, PieceEnum};
use crate::pieces::position::{
    lemma_sq_pos_at, on_board, pos_at, sq_of, square_index, Position,
};
use crate::pieces::to_piece::{
    is_valid_square_byte, piece_byte, spec_piece_byte, spec_to_piece, to_piece, valid_square_byte,
};

verus! {

/// The 8x8 grid of squares, each empty or holding one piece, kept in
/// file-major, rank-ascending order.
#[derive(Debug)]
pub struct Board {
    squares: Vec<Option<Piece>>,
}

/// A board of the right size whose pieces each carry the square they
/// stand on.
pub open spec fn board_wf(b: Seq<Option<Piece>>) -> bool {
    &&& b.len() == 64
    &&& forall|i: int|
        0 <= i < 64 ==> ((#[trigger] b[i]) matches Some(p) ==> p.position == pos_at(i))
}

/// The piece (if any) standing on the on-board square `p`.
pub open spec fn piece_at(b: Seq<Option<Piece>>, p: Position) -> Option<Piece> {
    b[sq_of(p)]
}

/// The compact encoding of a board: one square value per square, in
/// file-major, rank-ascending order.
pub open spec fn spec_board_bytes(b: Seq<Option<Piece>>) -> Seq<u8> {
    Seq::new(64, |i: int| spec_piece_byte(b[i]))
}

/// The board a sequence of 64 valid square values decodes to.
pub open spec fn spec_decoded_board(bytes: Seq<u8>) -> Seq<Option<Piece>> {
    Seq::new(64, |i: int| spec_to_piece(bytes[i], pos_at(i)))
}

/// Whether every value of `bytes` is a valid square value.
pub open spec fn all_bytes_valid(bytes: Seq<u8>) -> bool {
    forall|i: int| 0 <= i < bytes.len() ==> valid_square_byte(#[trigger] bytes[i])
}

/// The square of the last occurrence of the value `v` among the first
/// `n` entries of `bytes`, if any.
pub open spec fn last_code_pos(bytes: Seq<u8>, v: u8, n: int) -> Option<Position>
    decreases n,
{
    if n <= 0 {
        None
    } else if bytes[n - 1] == v {
        Some(pos_at(n - 1))
    } else {
        last_code_pos(bytes, v, n - 1)
    }
}

/// The standard opening setup of the square at (file, rank).
pub open spec fn spec_initial_at(p: Position) -> Option<Piece> {
    let back_kind = if p.0 == 1 || p.0 == 8 {
        PieceEnum::ROOK
    } else if p.0 == 2 || p.0 == 7 {
        PieceEnum::KNIGHT
    } else if p.0 == 3 || p.0 == 6 {
        PieceEnum::BISHOP
    } else if p.0 == 4 {
        PieceEnum::QUEEN
    } else {
        PieceEnum::KING
    };
    if p.1 == 2 {
        Some(Piece { kind: PieceEnum::PAWN, color: Color::WHITE, position: p })
    } else if p.1 == 7 {
        Some(Piece { kind: PieceEnum::PAWN, color: Color::BLACK, position: p })
    } else if p.1 == 1 {
        Some(Piece { kind: back_kind, color: Color::WHITE, position: p })
    } else if p.1 == 8 {
        Some(Piece { kind: back_kind, color: Color::BLACK, position: p })
    } else {
        None
    }
}

/// The standard 32-piece opening board.
pub open spec fn spec_initial_board() -> Seq<Option<Piece>> {
    Seq::new(64, |i: int| spec_initial_at(pos_at(i)))
}

/// The standard opening setup of one square.
fn initial_piece_at(p: Position) -> (r: Option<Piece>)
    requires
        on_board(p),
    ensures
        r == spec_initial_at(p),
{
    let back_kind = if p.0 == 1 || p.0 == 8 {
        PieceEnum::ROOK
    } else if p.0 == 2 || p.0 == 7 {
        PieceEnum::KNIGHT
    } else if p.0 == 3 || p.0 == 6 {
        PieceEnum::BISHOP
    } else if p.0 == 4 {
        PieceEnum::QUEEN
    } else {
        PieceEnum::KING
    };
    if p.1 == 2 {
        Some(Piece { kind: PieceEnum::PAWN, color: Color::WHITE, position: p })
    } else if p.1 == 7 {
        Some(Piece { kind: PieceEnum::PAWN, color: Color::BLACK, position: p })
    } else if p.1 == 1 {
        Some(Piece { kind: back_kind, color: Color::WHITE, position: p })
    } else if p.1 == 8 {
        Some(Piece { kind: back_kind, color: Color::BLACK, position: p })
    } else {
        None
    }
}

impl View for Board {
    type V = Seq<Option<Piece>>;

    closed spec fn view(&self) -> Seq<Option<Piece>> {
        self.squares@
    }
}

impl Board {
    /// A board of the right size (64 squares).
    pub open spec fn dim_ok(&self) -> bool {
        self@.len() == 64
    }

    /// A well-formed board: 64 squares, each piece carrying the square
    /// it stands on.
    pub open spec fn wf(&self) -> bool {
        board_wf(self@)
    }

    /// The board with every square empty.
    pub fn empty() -> (r: Board)
        ensures
            r@.len() == 64,
            forall|i: int| 0 <= i < 64 ==> r@[i] is None,
            r.wf(),
    {
        let mut squares: Vec<Option<Piece>> = Vec::new();
        let mut i: usize = 0;
        while i < 64
            invariant
                i <= 64,
                squares@.len() == i,
                forall|j: int| 0 <= j < i ==> squares@[j] is None,
            decreases 64 - i,
        {
            squares.push(None);
            i += 1;
        }
        Board { squares }
    }

    /// The standard initial position.
    pub fn initial() -> (r: Board)
        ensures
            r@ == spec_initial_board(),
            r.wf(),
    {
        let mut squares: Vec<Option<Piece>> = Vec::new();
        let mut i: usize = 0;
        while i < 64
            invariant
                i <= 64,
                squares@.len() == i,
                forall|j: int| 0 <= j < i ==> squares@[j] == spec_initial_board()[j],
            decreases 64 - i,
        {
            let file = (i / 8 + 1) as u8;
            let rank = (i % 8 + 1) as u8;
            let p = Position(file, rank);
            proof {
                lemma_sq_pos_at(i as int);
                assert(p == pos_at(i as int));
            }
            squares.push(initial_piece_at(p));
            i += 1;
        }
        let r = Board { squares };
        proof {
            assert(r@ =~= spec_initial_board());
            assert forall|i: int| 0 <= i < 64 implies ((#[trigger] r@[i]) matches Some(p) ==>
                p.position == pos_at(i)) by {
                assert(r@[i] == spec_initial_at(pos_at(i)));
            }
        }
        r
    }

    /// The contents of the square at `position`.
    pub fn get_square(&self, position: Position) -> (r: &Option<Piece>)
        requires
            self.dim_ok(),
            on_board(position),
        ensures
            *r == piece_at(self@, position),
    {
        &self.squares[square_index(position)]
    }

    /// Whether the square at `pos` is empty.
    pub fn is_empty(&self, pos: Position) -> (r: bool)
        requires
            self.dim_ok(),
            on_board(pos),
        ensures
            r == (piece_at(self@, pos) is None),
    {
        self.get_square(pos).is_none()
    }

    /// Replaces the contents of the square at `position` with `square`.
    pub fn set_square(&mut self, square: Option<Piece>, position: Position)
        requires
            old(self).dim_ok(),
            on_board(position),
        ensures
            final(self)@ == old(self)@.update(sq_of(position), square),
            final(self).dim_ok(),
    {
        let i = square_index(position);
        self.squares.set(i, square);
    }

    /// Removes and returns the piece standing at `position`; the caller
    /// must name an occupied square.
    pub fn take_piece(&mut self, position: Position) -> (r: Piece)
        requires
            old(self).dim_ok(),
            on_board(position),
            piece_at(old(self)@, position) is Some,
        ensures
            Some(r) == piece_at(old(self)@, position),
            final(self)@ == old(self)@.update(sq_of(position), None),
            final(self).dim_ok(),
    {
        let i = square_index(position);
        let taken = self.squares[i];
        self.squares.set(i, None);
        match taken {
            Some(p) => p,
            None => unreached(),
        }
    }

    /// The compact encoding of this board: 64 square values in
    /// file-major, rank-ascending order.
    pub fn to_u8_board(&self) -> (r: Vec<u8>)
        requires
            self.dim_ok(),
        ensures
            r@ == spec_board_bytes(self@),
    {
        let mut bytes: Vec<u8> = Vec::new();
        let mut i: usize = 0;
        while i < 64
            invariant
                i <= 64,
                self.dim_ok(),
                bytes@.len() == i,
                forall|j: int| 0 <= j < i ==> bytes@[j] == spec_board_bytes(self@)[j],
            decreases 64 - i,
        {
            bytes.push(piece_byte(&self.squares[i]));
            i += 1;
        }
        proof {
            assert(bytes@ =~= spec_board_bytes(self@));
        }
        bytes
    }

    /// Decodes 64 square values into a board, also reporting where each
    /// king stands. Fails with `MalformedRecord` when a value is not a
    /// square value of the encoding, and with `MissingKing` when a side
    /// has no king.
    pub fn from_u8_board(board_arr: &[u8]) -> (r: Result<(Board, Position, Position), GameError>)
        requires
            board_arr@.len() == 64,
        ensures
            r matches Err(e) ==> (e == GameError::MalformedRecord || e == GameError::MissingKing),
            (r == Err::<(Board, Position, Position), GameError>(GameError::MalformedRecord)) <==> !all_bytes_valid(board_arr@),
            (r == Err::<(Board, Position, Position), GameError>(GameError::MissingKing)) <==> (
            all_bytes_valid(board_arr@) && (last_code_pos(board_arr@, 6, 64) is None || last_code_pos(
                board_arr@,
                16,
                64,
            ) is None)),
            r matches Ok(t) ==> {
                &&& t.0@ == spec_decoded_board(board_arr@)
                &&& t.0.wf()
                &&& Some(t.1) == last_code_pos(board_arr@, 6, 64)
                &&& Some(t.2) == last_code_pos(board_arr@, 16, 64)
            },
    {
        let mut squares: Vec<Option<Piece>> = Vec::new();
        let mut white_king: Option<Position> = None;
        let mut black_king: Option<Position> = None;
        let mut i: usize = 0;
        while i < 64
            invariant
                i <= 64,
                board_arr@.len() == 64,
                squares@.len() == i,
                forall|j: int| 0 <= j < i ==> valid_square_byte(#[trigger] board_arr@[j]),
                forall|j: int| 0 <= j < i ==> squares@[j] == spec_decoded_board(board_arr@)[j],
                white_king == last_code_pos(board_arr@, 6, i as int),
                black_king == last_code_pos(board_arr@, 16, i as int),
            decreases 64 - i,
        {
            let v = board_arr[i];
            if !is_valid_square_byte(v) {
                return Err(GameError::MalformedRecord);
            }
            let file = (i / 8 + 1) as u8;
            let rank = (i % 8 + 1) as u8;
            let p = Position(file, rank);
            proof {
                lemma_sq_pos_at(i as int);
                assert(p == pos_at(i as int));
            }
            squares.push(to_piece(v, p));
            if v == 6 {
                white_king = Some(p);
            }
            if v == 16 {
                black_king = Some(p);
            }
            i += 1;
        }
        assert(all_bytes_valid(board_arr@));
        let wk = match white_king {
            None => {
                return Err(GameError::MissingKing);
            },
            Some(p) => p,
        };
        let bk = match black_king {
            None => {
                return Err(GameError::MissingKing);
            },
            Some(p) => p,
        };
        let board = Board { squares };
        proof {
            assert(board@ =~= spec_decoded_board(board_arr@));
            assert forall|k: int| 0 <= k < 64 implies ((#[trigger] board@[k]) matches Some(p) ==>
                p.position == pos_at(k)) by {
                assert(board@[k] == spec_to_piece(board_arr@[k], pos_at(k)));
            }
        }
        Ok((board, wk, bk))
    }

    /// Every piece of `color` except its king, in file-major,
    /// rank-ascending board order.
    pub fn pieces_of_color_except_king(&self, color: Color) -> (r: Vec<Piece>)
        requires
            self.dim_ok(),
        ensures
            r@ == pieces_upto(self@, color, 64),
    {
        let mut pieces: Vec<Piece> = Vec::new();
        let mut i: usize = 0;
        while i < 64
            invariant
                i <= 64,
                self.dim_ok(),
                pieces@ == pieces_upto(self@, color, i as int),
            decreases 64 - i,
        {
            match &self.squares[i] {
                Some(p) => {
                    if p.color == color && !matches!(p.kind, PieceEnum::KING) {
                        pieces.push(*p);
                        proof {
                            assert(pieces@ =~= pieces_upto(self@, color, i as int).push(
                                self@[i as int]->Some_0,
                            ));
                        }
                    }
                },
                None => {},
            }
            i += 1;
        }
        pieces
    }
}

/// The pieces of `color` other than its king among the first `n`
/// squares, in board order.
pub open spec fn pieces_upto(b: Seq<Option<Piece>>, color: Color, n: int) -> Seq<Piece>
    decreases n,
{
    if n <= 0 {
        Seq::empty()
    } else {
        pieces_upto(b, color, n - 1) + (match b[n - 1] {
            Some(p) => if p.color == color && p.kind != PieceEnum::KING {
                seq![p]
            } else {
                Seq::empty()
            },
            None => Seq::empty(),
        })
    }
}

/// A value that occurs among the first `n` entries has a last
/// occurrence there.
pub proof fn lemma_code_present(bytes: Seq<u8>, v: u8, j: int, n: int)
    requires
        0 <= j < n <= 64,
        bytes[j] == v,
    ensures
        last_code_pos(bytes, v, n) is Some,
    decreases n,
{
    if bytes[n - 1] != v {
        lemma_code_present(bytes, v, j, n - 1);
    }
}

/// Where the last occurrence of `v` lies, the square is on the board
/// and `bytes` holds `v` at its index.
pub proof fn lemma_last_code_pos(bytes: Seq<u8>, v: u8, n: int)
    requires
        0 <= n <= 64,
    ensures
        last_code_pos(bytes, v, n) matches Some(p) ==> on_board(p) && bytes[sq_of(p)] == v,
    decreases n,
{
    if n > 0 {
        if bytes[n - 1] == v {
            lemma_sq_pos_at(n - 1);
        } else {
            lemma_last_code_pos(bytes, v, n - 1);
        }
    }
}

} // verus!
