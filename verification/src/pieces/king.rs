use vstd::prelude::*;

use crate::board::Board;
use crate::chessmove::{moves_shape_ok, promotions_none, ChessMove};
use crate::pieces::piece::Piece;
use crate::pieces::position::{on_board, on_board_xy, sq, Position};

verus! {

/// The king's step from `p` by (df, dr), if it stays on the board.
pub open spec fn king_target(p: Position, df: int, dr: int) -> Seq<Position> {
    let nf = p.0 + df;
    let nr = p.1 + dr;
    if on_board_xy(nf, nr) {
        seq![Position(nf as u8, nr as u8)]
    } else {
        Seq::empty()
    }
}

/// The squares a king at `p` threatens: its up-to-eight neighbours, in
/// the order left, up-left, down-left, right, up-right, down-right,
/// down, up.
pub open spec fn spec_king_attacks(p: Position) -> Seq<Position> {
    king_target(p, -1, 0) + king_target(p, -1, 1) + king_target(p, -1, -1) + king_target(p, 1, 0)
        + king_target(p, 1, 1) + king_target(p, 1, -1) + king_target(p, 0, -1) + king_target(
        p,
        0,
        1,
    )
}

/// The king's step as a move, kept when the target square is on the
/// board and empty or held by the enemy.
pub open spec fn king_move_at(b: Seq<Option<Piece>>, me: Piece, df: int, dr: int) -> Seq<
    ChessMove,
> {
    let nf = me.position.0 + df;
    let nr = me.position.1 + dr;
    if on_board_xy(nf, nr) && (match b[sq(nf, nr)] {
        Some(q) => q.color != me.color,
        None => true,
    }) {
        seq![ChessMove { from: me.position, to: Position(nf as u8, nr as u8), promotion: None }]
    } else {
        Seq::empty()
    }
}

/// The plain moves of a king (castling aside): steps to its neighbour
/// squares that are empty or held by the enemy, in the same order as
/// `spec_king_attacks`.
pub open spec fn spec_king_moves(b: Seq<Option<Piece>>, me: Piece) -> Seq<ChessMove> {
    king_move_at(b, me, -1, 0) + king_move_at(b, me, -1, 1) + king_move_at(b, me, -1, -1)
        + king_move_at(b, me, 1, 0) + king_move_at(b, me, 1, 1) + king_move_at(b, me, 1, -1)
        + king_move_at(b, me, 0, -1) + king_move_at(b, me, 0, 1)
}

/// Pushes the king step by (df, dr) when it stays on the board.
fn push_king_target(acc: &mut Vec<Position>, p: Position, df: i8, dr: i8)
    requires
        -1 <= df <= 1,
        -1 <= dr <= 1,
    ensures
        final(acc)@ == old(acc)@ + king_target(p, df as int, dr as int),
{
    let ghost before = acc@;
    let nf = p.0 as i16 + df as i16;
    let nr = p.1 as i16 + dr as i16;
    if 1 <= nf && nf <= 8 && 1 <= nr && nr <= 8 {
        acc.push(Position(nf as u8, nr as u8));
    }
    proof {
        assert(acc@ =~= before + king_target(p, df as int, dr as int));
    }
}

/// Pushes the king step by (df, dr) as a move when it is available.
fn push_king_move(acc: &mut Vec<ChessMove>, board: &Board, me: &Piece, df: i8, dr: i8)
    requires
        board.dim_ok(),
        -1 <= df <= 1,
        -1 <= dr <= 1,
    ensures
        final(acc)@ == old(acc)@ + king_move_at(board@, *me, df as int, dr as int),
{
    let ghost before = acc@;
    let nf = me.position.0 as i16 + df as i16;
    let nr = me.position.1 as i16 + dr as i16;
    if 1 <= nf && nf <= 8 && 1 <= nr && nr <= 8 {
        let to = Position(nf as u8, nr as u8);
        let keep = match board.get_square(to) {
            Some(q) => q.color != me.color,
            None => true,
        };
        if keep {
            acc.push(ChessMove { from: me.position, to, promotion: None });
        }
    }
    proof {
        assert(acc@ =~= before + king_move_at(board@, *me, df as int, dr as int));
    }
}

/// The squares a king at `p` threatens.
pub fn king_attacks(p: Position) -> (r: Vec<Position>)
    ensures
        r@ == spec_king_attacks(p),
        forall|i: int| 0 <= i < r@.len() ==> on_board(#[trigger] r@[i]),
{
    let mut acc: Vec<Position> = Vec::new();
    push_king_target(&mut acc, p, -1, 0);
    push_king_target(&mut acc, p, -1, 1);
    push_king_target(&mut acc, p, -1, -1);
    push_king_target(&mut acc, p, 1, 0);
    push_king_target(&mut acc, p, 1, 1);
    push_king_target(&mut acc, p, 1, -1);
    push_king_target(&mut acc, p, 0, -1);
    push_king_target(&mut acc, p, 0, 1);
    proof {
        assert(acc@ =~= spec_king_attacks(p));
    }
    acc
}

/// The plain moves of the king `me` (castling is appended by the legal
/// move assembler, which has the attack context this cannot see).
pub fn king_moves(me: &Piece, board: &Board) -> (r: Vec<ChessMove>)
    requires
        board.dim_ok(),
    ensures
        r@ == spec_king_moves(board@, *me),
{
    let mut acc: Vec<ChessMove> = Vec::new();
    push_king_move(&mut acc, board, me, -1, 0);
    push_king_move(&mut acc, board, me, -1, 1);
    push_king_move(&mut acc, board, me, -1, -1);
    push_king_move(&mut acc, board, me, 1, 0);
    push_king_move(&mut acc, board, me, 1, 1);
    push_king_move(&mut acc, board, me, 1, -1);
    push_king_move(&mut acc, board, me, 0, -1);
    push_king_move(&mut acc, board, me, 0, 1);
    proof {
        assert(acc@ =~= spec_king_moves(board@, *me));
    }
    acc
}

/// Every plain king move starts at the king's square, lands on the
/// board one file at most away, and carries no promotion.
pub proof fn lemma_king_moves_shape(b: Seq<Option<Piece>>, me: Piece)
    ensures
        moves_shape_ok(spec_king_moves(b, me), me.position),
        promotions_none(spec_king_moves(b, me)),
        forall|i: int|
            0 <= i < spec_king_moves(b, me).len() ==> {
                let mv = #[trigger] spec_king_moves(b, me)[i];
                mv.to.0 <= mv.from.0 + 1 && mv.from.0 <= mv.to.0 + 1
            },
{
    let s = spec_king_moves(b, me);
    assert forall|i: int| 0 <= i < s.len() implies (#[trigger] s[i]).from == me.position
        && on_board(s[i].to) && s[i].promotion is None && s[i].to.0 <= s[i].from.0 + 1
        && s[i].from.0 <= s[i].to.0 + 1 by {
        let a1 = king_move_at(b, me, -1, 0);
        let a2 = a1 + king_move_at(b, me, -1, 1);
        let a3 = a2 + king_move_at(b, me, -1, -1);
        let a4 = a3 + king_move_at(b, me, 1, 0);
        let a5 = a4 + king_move_at(b, me, 1, 1);
        let a6 = a5 + king_move_at(b, me, 1, -1);
        let a7 = a6 + king_move_at(b, me, 0, -1);
        assert(s == a7 + king_move_at(b, me, 0, 1));
    }
}

} // verus!
