use vstd::prelude::*;

use crate::board::Board;
use crate::chessmove::{
    lemma_concat_moves_shape, lemma_concat_promotions_none, moves_shape_ok, promotions_none,
    ChessMove,
};
use crate::color::Color;
use crate::pieces::king::{
    king_attacks, king_moves, lemma_king_moves_shape, spec_king_attacks, spec_king_moves,
};
use crate::pieces::knight::{
    knight_attacks, knight_moves, lemma_knight_moves_shape, spec_knight_attacks,
    spec_knight_moves,
};
use crate::pieces::pawn::{
    lemma_pawn_moves_shape, pawn_attacks, pawn_moves_ignoring_pins, spec_pawn_attacks,
    spec_pawn_moves,
};
use crate::pieces::position::{on_board, on_board_xy, sq, Position};
use crate::pieces::relative_position::{get_line_to_other_piece, spec_line, Direction};
use crate::pieces::sliding_attacks::{
    diagonal_attacks, lemma_ray_attacks_on_board, ray_attacks, ray_fuel, spec_diagonal_attacks,
    spec_straight_attacks, straight_attacks,
};
use crate::pieces::sliding_moves::{
    diagonal_sliding, lemma_ray_moves_shape, ray_moves, spec_diagonal_sliding,
    spec_straight_sliding, straight_sliding,
};

verus! {

/// The six kinds of chess piece.
#[derive(Clone, Copy, Debug, PartialEq, Eq, Structural, Hash)]
pub enum PieceEnum {
    PAWN,
    ROOK,
    BISHOP,
    KNIGHT,
    QUEEN,
    KING,
}

/// The kinds a pawn may promote to.
#[derive(Clone, Copy, Debug, PartialEq, Eq, Structural, Hash)]
pub enum PromotionPiece {
    Rook,
    Knight,
    Bishop,
    Queen,
}

/// One chess man: its kind, its side, and the square it stands on.
#[derive(Clone, Copy, Debug, PartialEq, Eq, Structural, Hash)]
pub struct Piece {
    pub kind: PieceEnum,
    pub color: Color,
    pub position: Position,
}

impl Piece {
    /// The kind of this piece.
    pub fn piece(&self) -> (r: PieceEnum)
        ensures
            r == self.kind,
    {
        self.kind
    }

    /// The side this piece belongs to.
    pub fn color(&self) -> (r: Color)
        ensures
            r == self.color,
    {
        self.color
    }

    /// The square this piece stands on.
    pub fn position(&self) -> (r: Position)
        ensures
            r == self.position,
    {
        self.position
    }

    /// Moves the piece to `position`, leaving kind and color unchanged.
    pub fn set_position(&mut self, position: Position)
        ensures
            *final(self) == (Piece { position, ..*old(self) }),
    {
        self.position = position;
    }
}

/// The piece a promotion choice turns a pawn into.
pub fn promotion_piece_to_piece(promotion_piece: PromotionPiece, color: Color, position: Position) -> (r:
    Piece)
    ensures
        r == spec_promotion_piece(promotion_piece, color, position),
{
    match promotion_piece {
        PromotionPiece::Rook => Piece { kind: PieceEnum::ROOK, color, position },
        PromotionPiece::Knight => Piece { kind: PieceEnum::KNIGHT, color, position },
        PromotionPiece::Bishop => Piece { kind: PieceEnum::BISHOP, color, position },
        PromotionPiece::Queen => Piece { kind: PieceEnum::QUEEN, color, position },
    }
}

/// The piece a promotion choice stands for.
pub open spec fn spec_promotion_piece(
    promotion_piece: PromotionPiece,
    color: Color,
    position: Position,
) -> Piece {
    match promotion_piece {
        PromotionPiece::Rook => Piece { kind: PieceEnum::ROOK, color, position },
        PromotionPiece::Knight => Piece { kind: PieceEnum::KNIGHT, color, position },
        PromotionPiece::Bishop => Piece { kind: PieceEnum::BISHOP, color, position },
        PromotionPiece::Queen => Piece { kind: PieceEnum::QUEEN, color, position },
    }
}

/// Builds the piece of the given kind, side and square.
pub fn type_to_piece(piece_type: PieceEnum, color: Color, position: Position) -> (r: Piece)
    ensures
        r == (Piece { kind: piece_type, color, position }),
{
    Piece { kind: piece_type, color, position }
}

/// Every entry of a filtered sequence is an entry of the sequence it
/// was filtered from.
pub proof fn lemma_filter_subset<T>(s: Seq<T>, p: spec_fn(T) -> bool)
    ensures
        forall|i: int| 0 <= i < s.filter(p).len() ==> s.contains(#[trigger] s.filter(p)[i]),
    decreases s.len(),
{
    reveal(Seq::filter);
    if s.len() > 0 {
        lemma_filter_subset(s.drop_last(), p);
        let out = s.filter(p);
        let sub = s.drop_last().filter(p);
        assert forall|i: int| 0 <= i < out.len() implies s.contains(out[i]) by {
            if p(s.last()) && i == out.len() - 1 {
                assert(out[i] == s[s.len() - 1]);
            } else {
                assert(out[i] == sub[i]);
                assert(s.drop_last().contains(sub[i]));
                let j = choose|j: int| 0 <= j < s.drop_last().len() && s.drop_last()[j] == sub[i];
                assert(s[j] == out[i]);
            }
        }
    }
}

/// The squares the piece `me` threatens, per its kind.
pub open spec fn spec_attacks(b: Seq<Option<Piece>>, me: Piece, enemy_king: Position) -> Seq<
    Position,
> {
    match me.kind {
        PieceEnum::PAWN => spec_pawn_attacks(me.position, me.color),
        PieceEnum::ROOK => spec_straight_attacks(b, me.position, enemy_king),
        PieceEnum::BISHOP => spec_diagonal_attacks(b, me.position, enemy_king),
        PieceEnum::KNIGHT => spec_knight_attacks(me.position),
        PieceEnum::QUEEN => spec_straight_attacks(b, me.position, enemy_king)
            + spec_diagonal_attacks(b, me.position, enemy_king),
        PieceEnum::KING => spec_king_attacks(me.position),
    }
}

/// A sequence of on-board squares: every entry lies on the board.
pub open spec fn all_on_board(s: Seq<Position>) -> bool {
    forall|i: int| 0 <= i < s.len() ==> on_board(#[trigger] s[i])
}

/// Joining two sequences of on-board squares gives one.
pub proof fn lemma_concat_on_board(a: Seq<Position>, b: Seq<Position>)
    requires
        all_on_board(a),
        all_on_board(b),
    ensures
        all_on_board(a + b),
{
    assert forall|i: int| 0 <= i < (a + b).len() implies on_board(#[trigger] (a + b)[i]) by {
        if i < a.len() {
            assert((a + b)[i] == a[i]);
        } else {
            assert((a + b)[i] == b[i - a.len()]);
        }
    }
}

/// The squares of a straight-slider's four rays all lie on the board.
pub proof fn lemma_straight_attacks_on_board(b: Seq<Option<Piece>>, p: Position, enemy_king: Position)
    requires
        on_board(p),
    ensures
        all_on_board(spec_straight_attacks(b, p, enemy_king)),
{
    let f = p.0 as int;
    let r = p.1 as int;
    lemma_ray_attacks_on_board(b, f, r, 1, 0, enemy_king);
    lemma_ray_attacks_on_board(b, f, r, -1, 0, enemy_king);
    lemma_ray_attacks_on_board(b, f, r, 0, 1, enemy_king);
    lemma_ray_attacks_on_board(b, f, r, 0, -1, enemy_king);
    lemma_concat_on_board(
        ray_attacks(b, f, r, 1, 0, enemy_king),
        ray_attacks(b, f, r, -1, 0, enemy_king),
    );
    lemma_concat_on_board(
        ray_attacks(b, f, r, 1, 0, enemy_king) + ray_attacks(b, f, r, -1, 0, enemy_king),
        ray_attacks(b, f, r, 0, 1, enemy_king),
    );
    lemma_concat_on_board(
        ray_attacks(b, f, r, 1, 0, enemy_king) + ray_attacks(b, f, r, -1, 0, enemy_king)
            + ray_attacks(b, f, r, 0, 1, enemy_king),
        ray_attacks(b, f, r, 0, -1, enemy_king),
    );
}

/// The squares of a diagonal-slider's four rays all lie on the board.
pub proof fn lemma_diagonal_attacks_on_board(b: Seq<Option<Piece>>, p: Position, enemy_king: Position)
    requires
        on_board(p),
    ensures
        all_on_board(spec_diagonal_attacks(b, p, enemy_king)),
{
    let f = p.0 as int;
    let r = p.1 as int;
    lemma_ray_attacks_on_board(b, f, r, 1, 1, enemy_king);
    lemma_ray_attacks_on_board(b, f, r, 1, -1, enemy_king);
    lemma_ray_attacks_on_board(b, f, r, -1, 1, enemy_king);
    lemma_ray_attacks_on_board(b, f, r, -1, -1, enemy_king);
    lemma_concat_on_board(
        ray_attacks(b, f, r, 1, 1, enemy_king),
        ray_attacks(b, f, r, 1, -1, enemy_king),
    );
    lemma_concat_on_board(
        ray_attacks(b, f, r, 1, 1, enemy_king) + ray_attacks(b, f, r, 1, -1, enemy_king),
        ray_attacks(b, f, r, -1, 1, enemy_king),
    );
    lemma_concat_on_board(
        ray_attacks(b, f, r, 1, 1, enemy_king) + ray_attacks(b, f, r, 1, -1, enemy_king)
            + ray_attacks(b, f, r, -1, 1, enemy_king),
        ray_attacks(b, f, r, -1, -1, enemy_king),
    );
}

/// Every square a piece threatens lies on the board.
pub proof fn lemma_attacks_on_board(b: Seq<Option<Piece>>, me: Piece, enemy_king: Position)
    requires
        on_board(me.position),
    ensures
        all_on_board(spec_attacks(b, me, enemy_king)),
{
    match me.kind {
        PieceEnum::PAWN => {},
        PieceEnum::ROOK => {
            lemma_straight_attacks_on_board(b, me.position, enemy_king);
        },
        PieceEnum::BISHOP => {
            lemma_diagonal_attacks_on_board(b, me.position, enemy_king);
        },
        PieceEnum::KNIGHT => {},
        PieceEnum::QUEEN => {
            lemma_straight_attacks_on_board(b, me.position, enemy_king);
            lemma_diagonal_attacks_on_board(b, me.position, enemy_king);
            lemma_concat_on_board(
                spec_straight_attacks(b, me.position, enemy_king),
                spec_diagonal_attacks(b, me.position, enemy_king),
            );
        },
        PieceEnum::KING => {},
    }
}

/// The pin-unaware pseudo-legal moves of the piece `me`, per its kind.
pub open spec fn spec_moves_ignoring_pins(
    b: Seq<Option<Piece>>,
    me: Piece,
    en_passant: Option<Position>,
    king_pos: Position,
) -> Seq<ChessMove> {
    match me.kind {
        PieceEnum::PAWN => spec_pawn_moves(b, me, en_passant, king_pos),
        PieceEnum::ROOK => spec_straight_sliding(b, me),
        PieceEnum::BISHOP => spec_diagonal_sliding(b, me),
        PieceEnum::KNIGHT => spec_knight_moves(b, me),
        PieceEnum::QUEEN => spec_straight_sliding(b, me) + spec_diagonal_sliding(b, me),
        PieceEnum::KING => spec_king_moves(b, me),
    }
}

/// Walking from (f, r) toward the piece's own king: the empty squares
/// passed, provided the first occupied square met is that king.
pub open spec fn pin_walk_to_king(
    b: Seq<Option<Piece>>,
    f: int,
    r: int,
    df: int,
    dr: int,
    me: Piece,
) -> Option<Seq<Position>>
    decreases ray_fuel(f, r, df, dr),
    when -1 <= df <= 1 && -1 <= dr <= 1 && !(df == 0 && dr == 0) && on_board_xy(f, r)
{
    let nf = f + df;
    let nr = r + dr;
    if !on_board_xy(nf, nr) {
        None
    } else {
        let p = Position(nf as u8, nr as u8);
        match b[sq(nf, nr)] {
            None => match pin_walk_to_king(b, nf, nr, df, dr, me) {
                None => None,
                Some(s) => Some(seq![p] + s),
            },
            Some(q) => if q.kind != PieceEnum::KING {
                None
            } else if q.color == me.color {
                Some(Seq::empty())
            } else {
                None
            },
        }
    }
}

/// Walking from (f, r) away from the piece's own king: the empty
/// squares passed and the pinning slider's square, provided the first
/// occupied square met holds an enemy queen, or an enemy rook on a
/// straight line, or an enemy bishop on a diagonal.
pub open spec fn pin_walk_away(
    b: Seq<Option<Piece>>,
    f: int,
    r: int,
    df: int,
    dr: int,
    me: Piece,
    diagonal: bool,
) -> Option<Seq<Position>>
    decreases ray_fuel(f, r, df, dr),
    when -1 <= df <= 1 && -1 <= dr <= 1 && !(df == 0 && dr == 0) && on_board_xy(f, r)
{
    let nf = f + df;
    let nr = r + dr;
    if !on_board_xy(nf, nr) {
        None
    } else {
        let p = Position(nf as u8, nr as u8);
        match b[sq(nf, nr)] {
            None => match pin_walk_away(b, nf, nr, df, dr, me, diagonal) {
                None => None,
                Some(s) => Some(seq![p] + s),
            },
            Some(q) => if q.color == me.color {
                None
            } else if q.kind == PieceEnum::QUEEN || (q.kind == PieceEnum::ROOK && !diagonal) || (
            q.kind == PieceEnum::BISHOP && diagonal) {
                Some(seq![p])
            } else {
                None
            },
        }
    }
}

/// The move restriction an absolute pin puts on the piece `me`: nothing
/// when it is unrestricted, else the exhaustive whitelist of squares it
/// may still move to, from the squares shielding its king up to and
/// including the pinning slider.
pub open spec fn spec_pin_restriction(b: Seq<Option<Piece>>, me: Piece, king: Position) -> Option<
    Seq<Position>,
> {
    if me.position == king {
        None
    } else {
        match spec_line(me.position, king) {
            None => None,
            Some((mover, direction)) => {
                let diagonal = direction is DIAGONAL;
                match pin_walk_to_king(
                    b,
                    me.position.0 as int,
                    me.position.1 as int,
                    mover.0 as int,
                    mover.1 as int,
                    me,
                ) {
                    None => None,
                    Some(s1) => match pin_walk_away(
                        b,
                        me.position.0 as int,
                        me.position.1 as int,
                        -(mover.0 as int),
                        -(mover.1 as int),
                        me,
                        diagonal,
                    ) {
                        None => None,
                        Some(s2) => Some(s1 + s2),
                    },
                }
            },
        }
    }
}

/// Holds of a move whose destination is one of the whitelist `ws`.
pub open spec fn pin_pred(ws: Seq<Position>) -> spec_fn(ChessMove) -> bool {
    |mv: ChessMove| ws.contains(mv.to)
}

/// The moves of the piece `me` with its pin restriction applied: its
/// pin-unaware moves, cut down to the pin whitelist when it is pinned.
pub open spec fn spec_piece_moves(
    b: Seq<Option<Piece>>,
    me: Piece,
    king: Position,
    en_passant: Option<Position>,
) -> Seq<ChessMove> {
    let mi = spec_moves_ignoring_pins(b, me, en_passant, king);
    match spec_pin_restriction(b, me, king) {
        None => mi,
        Some(ws) => mi.filter(pin_pred(ws)),
    }
}

/// Whether the list `positions` holds `p`.
pub fn positions_contain(positions: &Vec<Position>, p: Position) -> (r: bool)
    ensures
        r == positions@.contains(p),
{
    let mut i: usize = 0;
    while i < positions.len()
        invariant
            i <= positions@.len(),
            forall|j: int| 0 <= j < i ==> positions@[j] != p,
        decreases positions@.len() - i,
    {
        if positions[i] == p {
            assert(positions@[i as int] == p);
            return true;
        }
        i += 1;
    }
    false
}

/// Walks toward the piece's own king, appending passed empty squares to
/// `acc`; reports whether the walk reached that king unobstructed.
fn pin_walk_to_king_exec(
    board: &Board,
    cf: u8,
    cr: u8,
    df: i8,
    dr: i8,
    me: &Piece,
    acc: &mut Vec<Position>,
) -> (ok: bool)
    requires
        board.dim_ok(),
        1 <= cf <= 8,
        1 <= cr <= 8,
        -1 <= df <= 1,
        -1 <= dr <= 1,
        !(df == 0 && dr == 0),
    ensures
        match pin_walk_to_king(board@, cf as int, cr as int, df as int, dr as int, *me) {
            None => ok == false,
            Some(s) => ok == true && final(acc)@ == old(acc)@ + s,
        },
    decreases ray_fuel(cf as int, cr as int, df as int, dr as int),
{
    let nf = cf as i16 + df as i16;
    let nr = cr as i16 + dr as i16;
    if nf < 1 || nf > 8 || nr < 1 || nr > 8 {
        return false;
    }
    let p = Position(nf as u8, nr as u8);
    match board.get_square(p) {
        None => {
            let ghost before = acc@;
            acc.push(p);
            let ok = pin_walk_to_king_exec(board, nf as u8, nr as u8, df, dr, me, acc);
            proof {
                if ok {
                    let s = pin_walk_to_king(
                        board@,
                        nf as int,
                        nr as int,
                        df as int,
                        dr as int,
                        *me,
                    )->Some_0;
                    assert(before + (seq![p] + s) =~= (before.push(p)) + s);
                }
            }
            ok
        },
        Some(q) => {
            if !matches!(q.kind, PieceEnum::KING) {
                false
            } else if q.color == me.color {
                proof {
                    assert(acc@ + Seq::<Position>::empty() =~= acc@);
                }
                true
            } else {
                false
            }
        },
    }
}

/// Walks away from the piece's own king, appending passed empty squares
/// and finally the pinning slider's square to `acc`; reports whether a
/// matching pinner was found.
fn pin_walk_away_exec(
    board: &Board,
    cf: u8,
    cr: u8,
    df: i8,
    dr: i8,
    me: &Piece,
    diagonal: bool,
    acc: &mut Vec<Position>,
) -> (ok: bool)
    requires
        board.dim_ok(),
        1 <= cf <= 8,
        1 <= cr <= 8,
        -1 <= df <= 1,
        -1 <= dr <= 1,
        !(df == 0 && dr == 0),
    ensures
        match pin_walk_away(board@, cf as int, cr as int, df as int, dr as int, *me, diagonal) {
            None => ok == false,
            Some(s) => ok == true && final(acc)@ == old(acc)@ + s,
        },
    decreases ray_fuel(cf as int, cr as int, df as int, dr as int),
{
    let nf = cf as i16 + df as i16;
    let nr = cr as i16 + dr as i16;
    if nf < 1 || nf > 8 || nr < 1 || nr > 8 {
        return false;
    }
    let p = Position(nf as u8, nr as u8);
    match board.get_square(p) {
        None => {
            let ghost before = acc@;
            acc.push(p);
            let ok = pin_walk_away_exec(board, nf as u8, nr as u8, df, dr, me, diagonal, acc);
            proof {
                if ok {
                    let s = pin_walk_away(
                        board@,
                        nf as int,
                        nr as int,
                        df as int,
                        dr as int,
                        *me,
                        diagonal,
                    )->Some_0;
                    assert(before + (seq![p] + s) =~= (before.push(p)) + s);
                }
            }
            ok
        },
        Some(q) => {
            if q.color == me.color {
                false
            } else if matches!(q.kind, PieceEnum::QUEEN) || (matches!(q.kind, PieceEnum::ROOK)
                && !diagonal) || (matches!(q.kind, PieceEnum::BISHOP) && diagonal) {
                let ghost before = acc@;
                acc.push(p);
                proof {
                    assert(before + seq![p] =~= acc@);
                }
                true
            } else {
                false
            }
        },
    }
}

impl Piece {
    /// The squares this piece threatens; for sliders the ray sees
    /// through the enemy king on `enemy_king_pos`.
    pub fn attacks(&self, board: &Board, enemy_king_pos: Position) -> (r: Vec<Position>)
        requires
            board.dim_ok(),
            on_board(self.position),
        ensures
            r@ == spec_attacks(board@, *self, enemy_king_pos),
    {
        match self.kind {
            PieceEnum::PAWN => pawn_attacks(self.position, self.color),
            PieceEnum::ROOK => straight_attacks(self.position, board, enemy_king_pos),
            PieceEnum::BISHOP => diagonal_attacks(self.position, board, enemy_king_pos),
            PieceEnum::KNIGHT => knight_attacks(self.position),
            PieceEnum::QUEEN => {
                let mut acc = straight_attacks(self.position, board, enemy_king_pos);
                let mut diag = diagonal_attacks(self.position, board, enemy_king_pos);
                acc.append(&mut diag);
                acc
            },
            PieceEnum::KING => king_attacks(self.position),
        }
    }

    /// The pseudo-legal moves of this piece, ignoring any pin on it.
    /// `king_pos` only matters for a pawn's en passant capture; a king
    /// square off the board must not share a pawn's rank.
    pub fn moves_ignoring_pins(
        &self,
        board: &Board,
        en_passant: &Option<Position>,
        king_pos: Position,
    ) -> (r: Vec<ChessMove>)
        requires
            board.dim_ok(),
            on_board(self.position),
            self.kind == PieceEnum::PAWN ==> (king_pos.1 == self.position.1 ==> 1 <= king_pos.0
                <= 8),
        ensures
            r@ == spec_moves_ignoring_pins(board@, *self, *en_passant, king_pos),
    {
        match self.kind {
            PieceEnum::PAWN => pawn_moves_ignoring_pins(self, board, en_passant, king_pos),
            PieceEnum::ROOK => straight_sliding(self, board),
            PieceEnum::BISHOP => diagonal_sliding(self, board),
            PieceEnum::KNIGHT => knight_moves(self, board),
            PieceEnum::QUEEN => {
                let mut acc = straight_sliding(self, board);
                let mut diag = diagonal_sliding(self, board);
                acc.append(&mut diag);
                acc
            },
            PieceEnum::KING => king_moves(self, board),
        }
    }

    /// The restriction an absolute pin puts on this piece: nothing when
    /// it is unrestricted, else the exhaustive whitelist of squares it
    /// may still move to.
    pub fn valid_moves_during_pin(&self, board: &Board, king: Position) -> (r: Option<
        Vec<Position>,
    >)
        requires
            board.dim_ok(),
            on_board(self.position),
        ensures
            (r is Some) == (spec_pin_restriction(board@, *self, king) is Some),
            r matches Some(v) ==> v@ == spec_pin_restriction(board@, *self, king)->Some_0,
    {
        if self.position == king {
            return None;
        }
        match get_line_to_other_piece(&self.position, king) {
            None => None,
            Some((mover, direction)) => {
                let mut acc: Vec<Position> = Vec::new();
                let diagonal = matches!(direction, Direction::DIAGONAL(_));
                if !pin_walk_to_king_exec(
                    board,
                    self.position.0,
                    self.position.1,
                    mover.0,
                    mover.1,
                    self,
                    &mut acc,
                ) {
                    return None;
                }
                if !pin_walk_away_exec(
                    board,
                    self.position.0,
                    self.position.1,
                    -mover.0,
                    -mover.1,
                    self,
                    diagonal,
                    &mut acc,
                ) {
                    return None;
                }
                Some(acc)
            },
        }
    }

    /// The moves of this piece with its pin restriction applied: its
    /// pseudo-legal moves, cut down to the pin whitelist when it is
    /// pinned.
    pub fn moves(&self, board: &Board, king: Position, en_passant: &Option<Position>) -> (r: Vec<
        ChessMove,
    >)
        requires
            board.dim_ok(),
            on_board(self.position),
            self.kind == PieceEnum::PAWN ==> (king.1 == self.position.1 ==> 1 <= king.0 <= 8),
        ensures
            r@ == spec_piece_moves(board@, *self, king, *en_passant),
    {
        let mi = self.moves_ignoring_pins(board, en_passant, king);
        match self.valid_moves_during_pin(board, king) {
            None => mi,
            Some(ws) => {
                let ghost pred = pin_pred(ws@);
                let mut acc: Vec<ChessMove> = Vec::new();
                let mut i: usize = 0;
                proof {
                    reveal(Seq::filter);
                    assert(mi@.take(0).filter(pred) =~= Seq::<ChessMove>::empty());
                }
                while i < mi.len()
                    invariant
                        i <= mi@.len(),
                        pred == pin_pred(ws@),
                        acc@ == mi@.take(i as int).filter(pred),
                    decreases mi@.len() - i,
                {
                    let mv = mi[i];
                    if positions_contain(&ws, mv.to) {
                        acc.push(mv);
                    }
                    proof {
                        reveal(Seq::filter);
                        assert(mi@.take(i + 1).drop_last() =~= mi@.take(i as int));
                        assert(mi@.take(i + 1).last() == mi@[i as int]);
                    }
                    i += 1;
                }
                proof {
                    assert(mi@.take(mi@.len() as int) =~= mi@);
                }
                acc
            },
        }
    }
}

/// Every move of a straight slider starts at its square and lands on
/// the board.
pub proof fn lemma_straight_sliding_shape(b: Seq<Option<Piece>>, me: Piece)
    requires
        on_board(me.position),
    ensures
        moves_shape_ok(spec_straight_sliding(b, me), me.position),
{
    let f = me.position.0 as int;
    let r = me.position.1 as int;
    lemma_ray_moves_shape(b, me.position, f, r, 1, 0, me.color);
    lemma_ray_moves_shape(b, me.position, f, r, -1, 0, me.color);
    lemma_ray_moves_shape(b, me.position, f, r, 0, 1, me.color);
    lemma_ray_moves_shape(b, me.position, f, r, 0, -1, me.color);
    let r1 = ray_moves(b, me.position, f, r, 1, 0, me.color);
    let r2 = ray_moves(b, me.position, f, r, -1, 0, me.color);
    let r3 = ray_moves(b, me.position, f, r, 0, 1, me.color);
    let r4 = ray_moves(b, me.position, f, r, 0, -1, me.color);
    lemma_concat_moves_shape(r1, r2, me.position);
    lemma_concat_moves_shape(r1 + r2, r3, me.position);
    lemma_concat_moves_shape(r1 + r2 + r3, r4, me.position);
}

/// Every move of a diagonal slider starts at its square and lands on
/// the board.
pub proof fn lemma_diagonal_sliding_shape(b: Seq<Option<Piece>>, me: Piece)
    requires
        on_board(me.position),
    ensures
        moves_shape_ok(spec_diagonal_sliding(b, me), me.position),
{
    let f = me.position.0 as int;
    let r = me.position.1 as int;
    lemma_ray_moves_shape(b, me.position, f, r, 1, 1, me.color);
    lemma_ray_moves_shape(b, me.position, f, r, 1, -1, me.color);
    lemma_ray_moves_shape(b, me.position, f, r, -1, 1, me.color);
    lemma_ray_moves_shape(b, me.position, f, r, -1, -1, me.color);
    let r1 = ray_moves(b, me.position, f, r, 1, 1, me.color);
    let r2 = ray_moves(b, me.position, f, r, 1, -1, me.color);
    let r3 = ray_moves(b, me.position, f, r, -1, 1, me.color);
    let r4 = ray_moves(b, me.position, f, r, -1, -1, me.color);
    lemma_concat_moves_shape(r1, r2, me.position);
    lemma_concat_moves_shape(r1 + r2, r3, me.position);
    lemma_concat_moves_shape(r1 + r2 + r3, r4, me.position);
}

/// Every pin-unaware move of a piece starts at the piece's square and
/// lands on the board.
pub proof fn lemma_moves_ignoring_pins_shape(
    b: Seq<Option<Piece>>,
    me: Piece,
    en_passant: Option<Position>,
    king_pos: Position,
)
    requires
        on_board(me.position),
    ensures
        moves_shape_ok(spec_moves_ignoring_pins(b, me, en_passant, king_pos), me.position),
{
    match me.kind {
        PieceEnum::PAWN => {
            lemma_pawn_moves_shape(b, me, en_passant, king_pos);
        },
        PieceEnum::ROOK => {
            lemma_straight_sliding_shape(b, me);
        },
        PieceEnum::BISHOP => {
            lemma_diagonal_sliding_shape(b, me);
        },
        PieceEnum::KNIGHT => {
            lemma_knight_moves_shape(b, me);
        },
        PieceEnum::QUEEN => {
            lemma_straight_sliding_shape(b, me);
            lemma_diagonal_sliding_shape(b, me);
            lemma_concat_moves_shape(
                spec_straight_sliding(b, me),
                spec_diagonal_sliding(b, me),
                me.position,
            );
        },
        PieceEnum::KING => {
            lemma_king_moves_shape(b, me);
        },
    }
}

/// Filtering keeps a list of moves in good shape.
pub proof fn lemma_filter_moves_shape(s: Seq<ChessMove>, p: spec_fn(ChessMove) -> bool, from: Position)
    requires
        moves_shape_ok(s, from),
    ensures
        moves_shape_ok(s.filter(p), from),
{
    lemma_filter_subset(s, p);
    let out = s.filter(p);
    assert forall|i: int| 0 <= i < out.len() implies (#[trigger] out[i]).from == from && on_board(
        out[i].to,
    ) by {
        assert(s.contains(out[i]));
        let j = choose|j: int| 0 <= j < s.len() && s[j] == out[i];
        assert(s[j].from == from && on_board(s[j].to));
    }
}

/// No move of a piece other than a pawn carries a promotion.
pub proof fn lemma_moves_ignoring_pins_promotions(
    b: Seq<Option<Piece>>,
    me: Piece,
    en_passant: Option<Position>,
    king_pos: Position,
)
    requires
        me.kind != PieceEnum::PAWN,
        on_board(me.position),
    ensures
        promotions_none(spec_moves_ignoring_pins(b, me, en_passant, king_pos)),
{
    let f = me.position.0 as int;
    let r = me.position.1 as int;
    match me.kind {
        PieceEnum::PAWN => {},
        PieceEnum::ROOK | PieceEnum::BISHOP | PieceEnum::QUEEN => {
            lemma_ray_moves_shape(b, me.position, f, r, 1, 0, me.color);
            lemma_ray_moves_shape(b, me.position, f, r, -1, 0, me.color);
            lemma_ray_moves_shape(b, me.position, f, r, 0, 1, me.color);
            lemma_ray_moves_shape(b, me.position, f, r, 0, -1, me.color);
            lemma_ray_moves_shape(b, me.position, f, r, 1, 1, me.color);
            lemma_ray_moves_shape(b, me.position, f, r, 1, -1, me.color);
            lemma_ray_moves_shape(b, me.position, f, r, -1, 1, me.color);
            lemma_ray_moves_shape(b, me.position, f, r, -1, -1, me.color);
            let s1 = ray_moves(b, me.position, f, r, 1, 0, me.color);
            let s2 = ray_moves(b, me.position, f, r, -1, 0, me.color);
            let s3 = ray_moves(b, me.position, f, r, 0, 1, me.color);
            let s4 = ray_moves(b, me.position, f, r, 0, -1, me.color);
            let d1 = ray_moves(b, me.position, f, r, 1, 1, me.color);
            let d2 = ray_moves(b, me.position, f, r, 1, -1, me.color);
            let d3 = ray_moves(b, me.position, f, r, -1, 1, me.color);
            let d4 = ray_moves(b, me.position, f, r, -1, -1, me.color);
            lemma_concat_promotions_none(s1, s2);
            lemma_concat_promotions_none(s1 + s2, s3);
            lemma_concat_promotions_none(s1 + s2 + s3, s4);
            lemma_concat_promotions_none(d1, d2);
            lemma_concat_promotions_none(d1 + d2, d3);
            lemma_concat_promotions_none(d1 + d2 + d3, d4);
            lemma_concat_promotions_none(spec_straight_sliding(b, me), spec_diagonal_sliding(b, me));
        },
        PieceEnum::KNIGHT => {
            lemma_knight_moves_shape(b, me);
        },
        PieceEnum::KING => {
            lemma_king_moves_shape(b, me);
        },
    }
}

/// Filtering keeps a list of moves without promotions.
pub proof fn lemma_filter_promotions_none(s: Seq<ChessMove>, p: spec_fn(ChessMove) -> bool)
    requires
        promotions_none(s),
    ensures
        promotions_none(s.filter(p)),
{
    lemma_filter_subset(s, p);
    let out = s.filter(p);
    assert forall|i: int| 0 <= i < out.len() implies (#[trigger] out[i]).promotion is None by {
        assert(s.contains(out[i]));
        let j = choose|j: int| 0 <= j < s.len() && s[j] == out[i];
        assert(s[j].promotion is None);
    }
}

/// No pin-filtered move of a piece other than a pawn carries a
/// promotion.
pub proof fn lemma_piece_moves_promotions(
    b: Seq<Option<Piece>>,
    me: Piece,
    king: Position,
    en_passant: Option<Position>,
)
    requires
        me.kind != PieceEnum::PAWN,
        on_board(me.position),
    ensures
        promotions_none(spec_piece_moves(b, me, king, en_passant)),
{
    lemma_moves_ignoring_pins_promotions(b, me, en_passant, king);
    match spec_pin_restriction(b, me, king) {
        None => {},
        Some(ws) => {
            lemma_filter_promotions_none(
                spec_moves_ignoring_pins(b, me, en_passant, king),
                pin_pred(ws),
            );
        },
    }
}

/// Every pin-filtered move of a piece starts at the piece's square and
/// lands on the board.
pub proof fn lemma_piece_moves_shape(
    b: Seq<Option<Piece>>,
    me: Piece,
    king: Position,
    en_passant: Option<Position>,
)
    requires
        on_board(me.position),
    ensures
        moves_shape_ok(spec_piece_moves(b, me, king, en_passant), me.position),
{
    lemma_moves_ignoring_pins_shape(b, me, en_passant, king);
    match spec_pin_restriction(b, me, king) {
        None => {},
        Some(ws) => {
            lemma_filter_moves_shape(
                spec_moves_ignoring_pins(b, me, en_passant, king),
                pin_pred(ws),
                me.position,
            );
        },
    }
}

} // verus!
