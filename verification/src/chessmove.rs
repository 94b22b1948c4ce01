use vstd::prelude::*;

use crate::pieces::piece::PromotionPiece;
use crate::pieces::position::{on_board, Position};

verus! {

/// A list of moves that all start at `from` and all land on the board.
pub open spec fn moves_shape_ok(s: Seq<ChessMove>, from: Position) -> bool {
    forall|i: int|
        0 <= i < s.len() ==> (#[trigger] s[i]).from == from && on_board(s[i].to)
}

/// A list of moves none of which carries a promotion.
pub open spec fn promotions_none(s: Seq<ChessMove>) -> bool {
    forall|i: int| 0 <= i < s.len() ==> (#[trigger] s[i]).promotion is None
}

/// Joining two lists of moves without promotions gives one.
pub proof fn lemma_concat_promotions_none(a: Seq<ChessMove>, b: Seq<ChessMove>)
    requires
        promotions_none(a),
        promotions_none(b),
    ensures
        promotions_none(a + b),
{
    assert forall|i: int| 0 <= i < (a + b).len() implies (#[trigger] (a + b)[i]).promotion
        is None by {
        if i < a.len() {
            assert((a + b)[i] == a[i]);
        } else {
            assert((a + b)[i] == b[i - a.len()]);
        }
    }
}

/// Joining two lists of moves of good shape gives one.
pub proof fn lemma_concat_moves_shape(a: Seq<ChessMove>, b: Seq<ChessMove>, from: Position)
    requires
        moves_shape_ok(a, from),
        moves_shape_ok(b, from),
    ensures
        moves_shape_ok(a + b, from),
{
    assert forall|i: int| 0 <= i < (a + b).len() implies (#[trigger] (a + b)[i]).from == from
        && on_board((a + b)[i].to) by {
        if i < a.len() {
            assert((a + b)[i] == a[i]);
        } else {
            assert((a + b)[i] == b[i - a.len()]);
        }
    }
}

/// A candidate or chosen transition: source square, target square, and,
/// for a pawn reaching the far rank, the kind promoted to.
#[derive(Clone, Copy, Debug, PartialEq, Eq, Structural, Hash)]
pub struct ChessMove {
    pub from: Position,
    pub to: Position,
    pub promotion: Option<PromotionPiece>,
}

impl ChessMove {
    /// Structural equality, usable from executable code.
    pub fn same_as(&self, other: &ChessMove) -> (r: bool)
        ensures
            r == (*self == *other),
    {
        self.from == other.from && self.to == other.to && match (self.promotion, other.promotion) {
            (None, None) => true,
            (Some(a), Some(b)) => a == b,
            _ => false,
        }
    }
}

/// Whether the list `moves` holds `mv`.
pub fn moves_contain(moves: &Vec<ChessMove>, mv: &ChessMove) -> (r: bool)
    ensures
        r == moves@.contains(*mv),
{
    let mut i: usize = 0;
    while i < moves.len()
        invariant
            i <= moves@.len(),
            forall|j: int| 0 <= j < i ==> moves@[j] != *mv,
        decreases moves@.len() - i,
    {
        if moves[i].same_as(mv) {
            assert(moves@[i as int] == *mv);
            return true;
        }
        i += 1;
    }
    false
}

} // verus!
