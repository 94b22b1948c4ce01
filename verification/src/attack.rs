use vstd::prelude::*;

use crate::board::{piece_at, Board};
use crate::color::Color;
use crate::pieces::piece::{all_on_board, lemma_attacks_on_board, spec_attacks, Piece};
use crate::pieces::position::{
    lemma_sq_pos_at, on_board, pos_at, sq_of, square_index, Position,
};

verus! {

/// For one side, the attacker pieces per square: a map from each of the
/// 64 squares, in file-major rank-ascending order, to the pieces of
/// that side threatening it.
pub struct AttackedBoard {
    squares: Vec<Vec<Piece>>,
}

impl View for AttackedBoard {
    type V = Seq<Seq<Piece>>;

    closed spec fn view(&self) -> Seq<Seq<Piece>> {
        self.squares@.map_values(|v: Vec<Piece>| v@)
    }
}

impl AttackedBoard {
    /// The pieces threatening the square `pos`.
    pub fn attackers(&self, pos: Position) -> (r: &Vec<Piece>)
        requires
            self@.len() == 64,
            on_board(pos),
        ensures
            r@ == self@[sq_of(pos)],
    {
        &self.squares[square_index(pos)]
    }

    /// How many pieces threaten the square `pos`.
    pub fn attacker_count(&self, pos: Position) -> (r: usize)
        requires
            self@.len() == 64,
            on_board(pos),
        ensures
            r == self@[sq_of(pos)].len(),
    {
        self.squares[square_index(pos)].len()
    }
}

/// An attack map with no attacker recorded yet.
pub open spec fn empty_attacked() -> Seq<Seq<Piece>> {
    Seq::new(64, |i: int| Seq::<Piece>::empty())
}

/// Records the piece `p` as an attacker of each square of `targets` in
/// turn (squares off the board recorded nowhere).
pub open spec fn push_targets(ab: Seq<Seq<Piece>>, p: Piece, targets: Seq<Position>) -> Seq<
    Seq<Piece>,
>
    decreases targets.len(),
{
    if targets.len() == 0 {
        ab
    } else {
        let prev = push_targets(ab, p, targets.drop_last());
        let t = targets.last();
        if on_board(t) {
            prev.update(sq_of(t), prev[sq_of(t)].push(p))
        } else {
            prev
        }
    }
}

/// Recording attackers does not change the number of squares.
pub proof fn lemma_push_targets_len(ab: Seq<Seq<Piece>>, p: Piece, targets: Seq<Position>)
    requires
        ab.len() == 64,
    ensures
        push_targets(ab, p, targets).len() == 64,
    decreases targets.len(),
{
    if targets.len() > 0 {
        lemma_push_targets_len(ab, p, targets.drop_last());
        let t = targets.last();
        if on_board(t) {
            crate::pieces::position::lemma_pos_at_sq(t);
        }
    }
}

/// The attack map of `color` built from the pieces on the first `n`
/// squares, in board order.
pub open spec fn spec_attacked_upto(
    b: Seq<Option<Piece>>,
    color: Color,
    enemy_king: Position,
    n: int,
) -> Seq<Seq<Piece>>
    decreases n,
{
    if n <= 0 {
        empty_attacked()
    } else {
        let prev = spec_attacked_upto(b, color, enemy_king, n - 1);
        match b[n - 1] {
            Some(p) => if p.color == color {
                push_targets(prev, p, spec_attacks(b, p, enemy_king))
            } else {
                prev
            },
            None => prev,
        }
    }
}

/// The attack map of `color`: for every square, the pieces of that side
/// threatening it, collected piece by piece in board order. Sliding
/// rays see through the defending king standing on `enemy_king_pos`.
pub open spec fn spec_attacked(b: Seq<Option<Piece>>, color: Color, enemy_king: Position) -> Seq<
    Seq<Piece>,
> {
    spec_attacked_upto(b, color, enemy_king, 64)
}

/// The attack map keeps its 64 squares.
pub proof fn lemma_attacked_upto_len(
    b: Seq<Option<Piece>>,
    color: Color,
    enemy_king: Position,
    n: int,
)
    ensures
        spec_attacked_upto(b, color, enemy_king, n).len() == 64,
    decreases n,
{
    if n > 0 {
        lemma_attacked_upto_len(b, color, enemy_king, n - 1);
        match b[n - 1] {
            Some(p) => {
                if p.color == color {
                    lemma_push_targets_len(
                        spec_attacked_upto(b, color, enemy_king, n - 1),
                        p,
                        spec_attacks(b, p, enemy_king),
                    );
                }
            },
            None => {},
        }
    }
}

/// Builds, for the side `color`, the map from each square to the pieces
/// of that side threatening it.
pub fn get_attacked_squares(board: &Board, color: Color, enemy_king_pos: Position) -> (r:
    AttackedBoard)
    requires
        board.wf(),
    ensures
        r@ == spec_attacked(board@, color, enemy_king_pos),
        r@.len() == 64,
{
    let mut squares: Vec<Vec<Piece>> = Vec::new();
    let mut i: usize = 0;
    while i < 64
        invariant
            i <= 64,
            squares@.len() == i,
            forall|j: int| 0 <= j < i ==> (#[trigger] squares@[j])@ == Seq::<Piece>::empty(),
        decreases 64 - i,
    {
        squares.push(Vec::new());
        i += 1;
    }
    let mut ab = AttackedBoard { squares };
    proof {
        assert(ab@ =~= empty_attacked());
        assert(spec_attacked_upto(board@, color, enemy_king_pos, 0) == empty_attacked());
    }
    let mut n: usize = 0;
    while n < 64
        invariant
            n <= 64,
            board.wf(),
            ab.squares@.len() == 64,
            ab@ == spec_attacked_upto(board@, color, enemy_king_pos, n as int),
        decreases 64 - n,
    {
        let file = (n / 8 + 1) as u8;
        let rank = (n % 8 + 1) as u8;
        let pos = Position(file, rank);
        proof {
            lemma_sq_pos_at(n as int);
            assert(pos == pos_at(n as int));
            assert(piece_at(board@, pos) == board@[n as int]);
        }
        let ghost prev = ab@;
        match board.get_square(pos) {
            None => {},
            Some(piece) => {
                if piece.color() == color {
                    let piece = *piece;
                    let targets = piece.attacks(board, enemy_king_pos);
                    let ghost tseq = targets@;
                    let mut j: usize = 0;
                    proof {
                        lemma_attacks_on_board(board@, piece, enemy_king_pos);
                        assert(tseq.take(0) =~= Seq::<Position>::empty());
                    }
                    while j < targets.len()
                        invariant
                            j <= tseq.len(),
                            targets@ == tseq,
                            all_on_board(tseq),
                            ab.squares@.len() == 64,
                            ab@ == push_targets(prev, piece, tseq.take(j as int)),
                        decreases tseq.len() - j,
                    {
                        let t = targets[j];
                        let ghost mid = ab@;
                        let idx = square_index(t);
                        ab.squares[idx].push(piece);
                        proof {
                            assert(ab@ =~= mid.update(sq_of(t), mid[sq_of(t)].push(piece)));
                            assert(tseq.take(j + 1).drop_last() =~= tseq.take(j as int));
                            assert(tseq.take(j + 1).last() == tseq[j as int]);
                        }
                        j += 1;
                    }
                    proof {
                        assert(tseq.take(tseq.len() as int) =~= tseq);
                    }
                }
            },
        }
        n += 1;
    }
    ab
}

} // verus!
