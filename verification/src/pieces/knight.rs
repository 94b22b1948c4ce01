use vstd::prelude::*;

use crate::board::Board;
use crate::chessmove::{moves_shape_ok, promotions_none, ChessMove};
use crate::pieces::piece::Piece;
use crate::pieces::position::{on_board, on_board_xy, sq, Position};

verus! {

/// The knight's jump from `p` by (df, dr), if it stays on the board.
pub open spec fn knight_target(p: Position, df: int, dr: int) -> Seq<Position> {
    let nf = p.0 + df;
    let nr = p.1 + dr;
    if on_board_xy(nf, nr) {
        seq![Position(nf as u8, nr as u8)]
    } else {
        Seq::empty()
    }
}

/// The squares a knight at `p` threatens: the eight jumps, in the fixed
/// offset order (1,2), (1,-2), (-1,2), (-1,-2), (2,1), (2,-1), (-2,1),
/// (-2,-1), those off the board left out.
pub open spec fn spec_knight_attacks(p: Position) -> Seq<Position> {
    knight_target(p, 1, 2) + knight_target(p, 1, -2) + knight_target(p, -1, 2) + knight_target(
        p,
        -1,
        -2,
    ) + knight_target(p, 2, 1) + knight_target(p, 2, -1) + knight_target(p, -2, 1) + knight_target(
        p,
        -2,
        -1,
    )
}

/// The knight's jump as a move, kept when the target is on the board
/// and not held by a piece of the knight's own side.
pub open spec fn knight_move_at(b: Seq<Option<Piece>>, me: Piece, df: int, dr: int) -> Seq<
    ChessMove,
> {
    let nf = me.position.0 + df;
    let nr = me.position.1 + dr;
    if on_board_xy(nf, nr) && (match b[sq(nf, nr)] {
        Some(q) => q.color != me.color,
        None => true,
    }) {
        seq![ChessMove { from: me.position, to: Position(nf as u8, nr as u8), promotion: None }]
    } else {
        Seq::empty()
    }
}

/// The moves of a knight: its eight jumps, in the fixed offset order,
/// kept when on the board and not blocked by its own side.
pub open spec fn spec_knight_moves(b: Seq<Option<Piece>>, me: Piece) -> Seq<ChessMove> {
    knight_move_at(b, me, 1, 2) + knight_move_at(b, me, 1, -2) + knight_move_at(b, me, -1, 2)
        + knight_move_at(b, me, -1, -2) + knight_move_at(b, me, 2, 1) + knight_move_at(b, me, 2, -1)
        + knight_move_at(b, me, -2, 1) + knight_move_at(b, me, -2, -1)
}

/// Pushes the knight jump by (df, dr) when it stays on the board.
fn push_knight_target(acc: &mut Vec<Position>, p: Position, df: i8, dr: i8)
    requires
        -2 <= df <= 2,
        -2 <= dr <= 2,
    ensures
        final(acc)@ == old(acc)@ + knight_target(p, df as int, dr as int),
{
    let ghost before = acc@;
    let nf = p.0 as i16 + df as i16;
    let nr = p.1 as i16 + dr as i16;
    if 1 <= nf && nf <= 8 && 1 <= nr && nr <= 8 {
        acc.push(Position(nf as u8, nr as u8));
    }
    proof {
        assert(acc@ =~= before + knight_target(p, df as int, dr as int));
    }
}

/// Pushes the knight jump by (df, dr) as a move when it is available.
fn push_knight_move(acc: &mut Vec<ChessMove>, board: &Board, me: &Piece, df: i8, dr: i8)
    requires
        board.dim_ok(),
        -2 <= df <= 2,
        -2 <= dr <= 2,
    ensures
        final(acc)@ == old(acc)@ + knight_move_at(board@, *me, df as int, dr as int),
{
    let ghost before = acc@;
    let nf = me.position.0 as i16 + df as i16;
    let nr = me.position.1 as i16 + dr as i16;
    if 1 <= nf && nf <= 8 && 1 <= nr && nr <= 8 {
        let to = Position(nf as u8, nr as u8);
        let keep = match board.get_square(to) {
            Some(q) => q.color != me.color,
            None => true,
        };
        if keep {
            acc.push(ChessMove { from: me.position, to, promotion: None });
        }
    }
    proof {
        assert(acc@ =~= before + knight_move_at(board@, *me, df as int, dr as int));
    }
}

/// The squares a knight at `p` threatens.
pub fn knight_attacks(p: Position) -> (r: Vec<Position>)
    ensures
        r@ == spec_knight_attacks(p),
        forall|i: int| 0 <= i < r@.len() ==> on_board(#[trigger] r@[i]),
{
    let mut acc: Vec<Position> = Vec::new();
    push_knight_target(&mut acc, p, 1, 2);
    push_knight_target(&mut acc, p, 1, -2);
    push_knight_target(&mut acc, p, -1, 2);
    push_knight_target(&mut acc, p, -1, -2);
    push_knight_target(&mut acc, p, 2, 1);
    push_knight_target(&mut acc, p, 2, -1);
    push_knight_target(&mut acc, p, -2, 1);
    push_knight_target(&mut acc, p, -2, -1);
    proof {
        assert(acc@ =~= spec_knight_attacks(p));
    }
    acc
}

/// The pseudo-legal moves of the knight `me`.
pub fn knight_moves(me: &Piece, board: &Board) -> (r: Vec<ChessMove>)
    requires
        board.dim_ok(),
    ensures
        r@ == spec_knight_moves(board@, *me),
{
    let mut acc: Vec<ChessMove> = Vec::new();
    push_knight_move(&mut acc, board, me, 1, 2);
    push_knight_move(&mut acc, board, me, 1, -2);
    push_knight_move(&mut acc, board, me, -1, 2);
    push_knight_move(&mut acc, board, me, -1, -2);
    push_knight_move(&mut acc, board, me, 2, 1);
    push_knight_move(&mut acc, board, me, 2, -1);
    push_knight_move(&mut acc, board, me, -2, 1);
    push_knight_move(&mut acc, board, me, -2, -1);
    proof {
        assert(acc@ =~= spec_knight_moves(board@, *me));
    }
    acc
}

/// Every knight move starts at the knight's square and lands on the
/// board.
pub proof fn lemma_knight_moves_shape(b: Seq<Option<Piece>>, me: Piece)
    ensures
        moves_shape_ok(spec_knight_moves(b, me), me.position),
        promotions_none(spec_knight_moves(b, me)),
{
    let s = spec_knight_moves(b, me);
    assert forall|i: int| 0 <= i < s.len() implies (#[trigger] s[i]).from == me.position
        && on_board(s[i].to) && s[i].promotion is None by {
        let a1 = knight_move_at(b, me, 1, 2);
        let a2 = a1 + knight_move_at(b, me, 1, -2);
        let a3 = a2 + knight_move_at(b, me, -1, 2);
        let a4 = a3 + knight_move_at(b, me, -1, -2);
        let a5 = a4 + knight_move_at(b, me, 2, 1);
        let a6 = a5 + knight_move_at(b, me, 2, -1);
        let a7 = a6 + knight_move_at(b, me, -2, 1);
        assert(s == a7 + knight_move_at(b, me, -2, -1));
    }
}

} // verus!
