use vstd::prelude::*;

use crate::board::Board;
use crate::chessmove::{lemma_concat_moves_shape, moves_shape_ok, ChessMove};
use crate::color::Color;
use crate::pieces::piece::{Piece, PieceEnum, PromotionPiece};
use crate::pieces::position::{on_board, sq, sq_of, Position};

verus! {

/// The squares a pawn at `p` of side `c` threatens: its one or two
/// forward diagonals, left one first. A pawn on its far rank threatens
/// nothing.
pub open spec fn spec_pawn_attacks(p: Position, c: Color) -> Seq<Position> {
    let nr = p.1 + (if c == Color::WHITE {
        1int
    } else {
        -1int
    });
    if !(1 <= nr <= 8) {
        Seq::empty()
    } else if p.0 == 1 {
        seq![Position(2, nr as u8)]
    } else if p.0 == 8 {
        seq![Position(7, nr as u8)]
    } else {
        seq![Position((p.0 - 1) as u8, nr as u8), Position((p.0 + 1) as u8, nr as u8)]
    }
}

/// The squares a pawn at `p` threatens.
pub fn pawn_attacks(p: Position, c: Color) -> (r: Vec<Position>)
    requires
        on_board(p),
    ensures
        r@ == spec_pawn_attacks(p, c),
        forall|i: int| 0 <= i < r@.len() ==> on_board(#[trigger] r@[i]),
{
    let mut acc: Vec<Position> = Vec::new();
    let nr = p.1 as i16 + (if matches!(c, Color::WHITE) {
        1
    } else {
        -1
    });
    if 1 <= nr && nr <= 8 {
        if p.0 == 1 {
            acc.push(Position(2, nr as u8));
        } else if p.0 == 8 {
            acc.push(Position(7, nr as u8));
        } else {
            acc.push(Position(p.0 - 1, nr as u8));
            acc.push(Position(p.0 + 1, nr as u8));
        }
    }
    proof {
        assert(acc@ =~= spec_pawn_attacks(p, c));
    }
    acc
}

/// Holds of a square when an enemy of `me` stands on it.
pub open spec fn capture_pred(b: Seq<Option<Piece>>, me: Piece) -> spec_fn(Position) -> bool {
    |pos: Position|
        match b[sq_of(pos)] {
            Some(q) => q.color != me.color,
            None => false,
        }
}

/// The threat squares of the pawn `me` that hold an enemy piece, in
/// threat order: its ordinary capture targets.
pub open spec fn spec_pawn_capture_targets(b: Seq<Option<Piece>>, me: Piece) -> Seq<Position> {
    spec_pawn_attacks(me.position, me.color).filter(capture_pred(b, me))
}

/// The forward squares of the pawn `me`: the two-square advance from
/// its starting rank when both squares ahead are empty, then the single
/// advance when the square ahead is empty.
pub open spec fn spec_pawn_forward(b: Seq<Option<Piece>>, me: Piece) -> Seq<Position> {
    let p = me.position;
    let initial: int = if me.color == Color::WHITE {
        2
    } else {
        7
    };
    let initial_one: int = if me.color == Color::WHITE {
        3
    } else {
        6
    };
    let initial_two: int = if me.color == Color::WHITE {
        4
    } else {
        5
    };
    let last: int = if me.color == Color::WHITE {
        8
    } else {
        1
    };
    let moving: int = if me.color == Color::WHITE {
        1
    } else {
        -1
    };
    (if p.1 == initial && b[sq(p.0 as int, initial_one)] is None && b[sq(p.0 as int, initial_two)]
        is None {
        seq![Position(p.0, initial_two as u8)]
    } else {
        Seq::empty()
    }) + (if p.1 != last && b[sq(p.0 as int, p.1 + moving)] is None {
        seq![Position(p.0, (p.1 + moving) as u8)]
    } else {
        Seq::empty()
    })
}

/// One step of the discovered-check scan along the capturing pawn's
/// rank: walking from file `f` by `df`, skipping the two squares the en
/// passant capture would vacate, does the first piece met turn out to
/// be an enemy rook or queen?
pub open spec fn ep_scan(
    b: Seq<Option<Piece>>,
    f: int,
    rank: int,
    df: int,
    skip1: Position,
    skip2: Position,
    c: Color,
) -> bool
    decreases (if df > 0 {
        9 - f
    } else {
        f
    }),
    when (df == 1 || df == -1) && 0 <= f <= 9
{
    let nf = f + df;
    if nf <= 0 || nf >= 9 {
        false
    } else {
        let pos = Position(nf as u8, rank as u8);
        if pos == skip1 || pos == skip2 {
            ep_scan(b, nf, rank, df, skip1, skip2, c)
        } else {
            match b[sq(nf, rank)] {
                None => ep_scan(b, nf, rank, df, skip1, skip2, c),
                Some(q) => q.color != c && (q.kind == PieceEnum::QUEEN || q.kind
                    == PieceEnum::ROOK),
            }
        }
    }
}

/// Whether capturing en passant would expose the pawn's own king along
/// the shared rank: both the capturing and the captured pawn leave that
/// rank at once, so the scan from the king skips exactly those two
/// squares.
pub open spec fn spec_cannot_ep_discovered(
    b: Seq<Option<Piece>>,
    me: Piece,
    king_pos: Position,
    ep: Position,
) -> bool {
    &&& king_pos.1 == me.position.1
    &&& {
        let df: int = if king_pos.0 > me.position.0 {
            -1
        } else {
            1
        };
        ep_scan(
            b,
            king_pos.0 as int,
            king_pos.1 as int,
            df,
            me.position,
            Position(ep.0, me.position.1),
            me.color,
        )
    }
}

/// Walks the discovered-check scan for an en passant capture. A king
/// square off the board must not share the pawn's rank: the scan is
/// only meaningful from a real square.
pub fn cannot_en_passant_due_to_discovered_check(
    me: &Piece,
    king_pos: Position,
    ep: Position,
    board: &Board,
) -> (r: bool)
    requires
        board.dim_ok(),
        on_board(me.position),
        king_pos.1 == me.position.1 ==> 1 <= king_pos.0 <= 8,
    ensures
        r == spec_cannot_ep_discovered(board@, *me, king_pos, ep),
{
    if king_pos.1 != me.position.1 {
        return false;
    }
    let df: i8 = if king_pos.0 > me.position.0 {
        -1
    } else {
        1
    };
    let skip1 = me.position;
    let skip2 = Position(ep.0, me.position.1);
    let rank = me.position.1;
    let mut cf = king_pos.0;
    let mut res = false;
    let ghost full = ep_scan(
        board@,
        king_pos.0 as int,
        rank as int,
        df as int,
        skip1,
        skip2,
        me.color,
    );
    loop
        invariant_except_break
            full == ep_scan(board@, cf as int, rank as int, df as int, skip1, skip2, me.color),
            0 <= cf <= 9,
            res == false,
        invariant
            board.dim_ok(),
            1 <= rank <= 8,
            df == 1i8 || df == -1i8,
        ensures
            res == full,
        decreases (if df > 0i8 {
            9 - cf as int
        } else {
            cf as int
        }),
    {
        let nf = cf as i16 + df as i16;
        if nf <= 0 || nf >= 9 {
            break ;
        }
        let pos = Position(nf as u8, rank);
        if !(pos == skip1 || pos == skip2) {
            match board.get_square(pos) {
                None => {},
                Some(q) => {
                    if q.color != me.color && (matches!(q.kind, PieceEnum::QUEEN) || matches!(
                        q.kind,
                        PieceEnum::ROOK,
                    )) {
                        res = true;
                    }
                    break ;
                },
            }
        }
        cf = nf as u8;
    }
    res
}

/// The en passant target of the pawn `me`, when the target names a
/// board square, the target and the pawn stand on the capturing ranks,
/// the target lies on a neighbouring file, and the capture opens no
/// discovered check along the rank.
pub open spec fn spec_pawn_ep_targets(
    b: Seq<Option<Piece>>,
    me: Piece,
    en_passant: Option<Position>,
    king_pos: Position,
) -> Seq<Position> {
    match en_passant {
        None => Seq::empty(),
        Some(ep) => {
            let ep_capture_rank: int = if me.color == Color::WHITE {
                6
            } else {
                3
            };
            let ep_capturer_rank: int = if me.color == Color::WHITE {
                5
            } else {
                4
            };
            if ep.1 == ep_capture_rank && me.position.1 == ep_capturer_rank && (ep.0 == me.position.0
                - 1 || ep.0 == me.position.0 + 1) && 1 <= ep.0 <= 8
                && !spec_cannot_ep_discovered(b, me, king_pos, ep) {
                seq![ep]
            } else {
                Seq::empty()
            }
        },
    }
}

/// The destination squares of the pawn `me`, pin-unaware: ordinary
/// captures, then forward advances, then the en passant target.
pub open spec fn spec_pawn_targets(
    b: Seq<Option<Piece>>,
    me: Piece,
    en_passant: Option<Position>,
    king_pos: Position,
) -> Seq<Position> {
    spec_pawn_capture_targets(b, me) + spec_pawn_forward(b, me) + spec_pawn_ep_targets(
        b,
        me,
        en_passant,
        king_pos,
    )
}

/// Destinations turned into moves: one landing on the far rank becomes
/// four moves, promoting to rook, knight, bishop and queen in that
/// order.
pub open spec fn spec_expand_promotions(from: Position, targets: Seq<Position>) -> Seq<ChessMove>
    decreases targets.len(),
{
    if targets.len() == 0 {
        Seq::empty()
    } else {
        let t = targets[0];
        (if t.1 == 1 || t.1 == 8 {
            seq![
                ChessMove { from, to: t, promotion: Some(PromotionPiece::Rook) },
                ChessMove { from, to: t, promotion: Some(PromotionPiece::Knight) },
                ChessMove { from, to: t, promotion: Some(PromotionPiece::Bishop) },
                ChessMove { from, to: t, promotion: Some(PromotionPiece::Queen) },
            ]
        } else {
            seq![ChessMove { from, to: t, promotion: None }]
        }) + spec_expand_promotions(from, targets.drop_first())
    }
}

/// The pseudo-legal moves of the pawn `me`: its destinations in order,
/// far-rank ones expanded into the four promotions.
pub open spec fn spec_pawn_moves(
    b: Seq<Option<Piece>>,
    me: Piece,
    en_passant: Option<Position>,
    king_pos: Position,
) -> Seq<ChessMove> {
    spec_expand_promotions(me.position, spec_pawn_targets(b, me, en_passant, king_pos))
}

/// Turns collected destinations into moves, expanding promotions.
fn transform_targets_to_chessmoves(from: Position, targets: &Vec<Position>) -> (r: Vec<ChessMove>)
    ensures
        r@ == spec_expand_promotions(from, targets@),
{
    let mut acc: Vec<ChessMove> = Vec::new();
    let mut i: usize = 0;
    proof {
        assert(targets@.skip(0) =~= targets@);
    }
    while i < targets.len()
        invariant
            i <= targets@.len(),
            spec_expand_promotions(from, targets@) == acc@ + spec_expand_promotions(
                from,
                targets@.skip(i as int),
            ),
        decreases targets@.len() - i,
    {
        let ghost before = acc@;
        let ghost tail = targets@.skip(i as int);
        let t = targets[i];
        if t.1 == 1 || t.1 == 8 {
            acc.push(ChessMove { from, to: t, promotion: Some(PromotionPiece::Rook) });
            acc.push(ChessMove { from, to: t, promotion: Some(PromotionPiece::Knight) });
            acc.push(ChessMove { from, to: t, promotion: Some(PromotionPiece::Bishop) });
            acc.push(ChessMove { from, to: t, promotion: Some(PromotionPiece::Queen) });
        } else {
            acc.push(ChessMove { from, to: t, promotion: None });
        }
        proof {
            assert(tail[0] == t);
            assert(tail.drop_first() =~= targets@.skip(i + 1));
            if t.1 == 1 || t.1 == 8 {
                assert(before + seq![
                    ChessMove { from, to: t, promotion: Some(PromotionPiece::Rook) },
                    ChessMove { from, to: t, promotion: Some(PromotionPiece::Knight) },
                    ChessMove { from, to: t, promotion: Some(PromotionPiece::Bishop) },
                    ChessMove { from, to: t, promotion: Some(PromotionPiece::Queen) },
                ] =~= acc@);
            } else {
                assert(before + seq![ChessMove { from, to: t, promotion: None }] =~= acc@);
            }
        }
        i += 1;
    }
    proof {
        assert(targets@.skip(targets@.len() as int) =~= Seq::<Position>::empty());
        assert(acc@ + Seq::<ChessMove>::empty() =~= acc@);
    }
    acc
}

/// The pseudo-legal moves of the pawn `me`: ordinary captures, forward
/// advances, and the en passant capture, with promotion expansion. A
/// king square off the board must not share the pawn's rank.
pub fn pawn_moves_ignoring_pins(
    me: &Piece,
    board: &Board,
    en_passant: &Option<Position>,
    king_pos: Position,
) -> (r: Vec<ChessMove>)
    requires
        board.dim_ok(),
        on_board(me.position),
        king_pos.1 == me.position.1 ==> 1 <= king_pos.0 <= 8,
    ensures
        r@ == spec_pawn_moves(board@, *me, *en_passant, king_pos),
{
    let mut targets: Vec<Position> = Vec::new();
    let ghost pred = capture_pred(board@, *me);

    // ordinary captures
    let attacks = pawn_attacks(me.position, me.color);
    let mut i: usize = 0;
    proof {
        reveal(Seq::filter);
        assert(attacks@.take(0).filter(pred) =~= Seq::<Position>::empty());
    }
    while i < attacks.len()
        invariant
            i <= attacks@.len(),
            board.dim_ok(),
            attacks@ == spec_pawn_attacks(me.position, me.color),
            forall|j: int| 0 <= j < attacks@.len() ==> on_board(#[trigger] attacks@[j]),
            pred == capture_pred(board@, *me),
            targets@ == attacks@.take(i as int).filter(pred),
        decreases attacks@.len() - i,
    {
        let pos = attacks[i];
        let keep = match board.get_square(pos) {
            Some(q) => q.color != me.color,
            None => false,
        };
        if keep {
            targets.push(pos);
        }
        proof {
            reveal(Seq::filter);
            assert(attacks@.take(i + 1).drop_last() =~= attacks@.take(i as int));
            assert(attacks@.take(i + 1).last() == attacks@[i as int]);
        }
        i += 1;
    }
    proof {
        assert(attacks@.take(attacks@.len() as int) =~= attacks@);
        assert(targets@ == spec_pawn_capture_targets(board@, *me));
    }

    // forward advances
    let (initial, initial_one, initial_two, last, moving): (u8, u8, u8, u8, i8) = match me.color {
        Color::WHITE => (2, 3, 4, 8, 1),
        Color::BLACK => (7, 6, 5, 1, -1),
    };
    if me.position.1 == initial && board.is_empty(Position(me.position.0, initial_one))
        && board.is_empty(Position(me.position.0, initial_two)) {
        targets.push(Position(me.position.0, initial_two));
    }
    if me.position.1 != last {
        let nr = (me.position.1 as i16 + moving as i16) as u8;
        if board.is_empty(Position(me.position.0, nr)) {
            targets.push(Position(me.position.0, nr));
        }
    }
    proof {
        assert(targets@ =~= spec_pawn_capture_targets(board@, *me) + spec_pawn_forward(
            board@,
            *me,
        ));
    }

    // en passant
    match en_passant {
        None => {},
        Some(ep) => {
            let (ep_capture_rank, ep_capturer_rank): (u8, u8) = match me.color {
                Color::WHITE => (6, 5),
                Color::BLACK => (3, 4),
            };
            if ep.1 == ep_capture_rank && me.position.1 == ep_capturer_rank && (ep.0
                == me.position.0 - 1 || ep.0 == me.position.0 + 1) && 1 <= ep.0 && ep.0 <= 8 {
                if !cannot_en_passant_due_to_discovered_check(me, king_pos, *ep, board) {
                    targets.push(*ep);
                }
            }
        },
    }
    proof {
        assert(targets@ =~= spec_pawn_targets(board@, *me, *en_passant, king_pos));
    }

    transform_targets_to_chessmoves(me.position, &targets)
}

/// Every square a pawn threatens lies on the board.
pub proof fn lemma_pawn_attacks_on_board(p: Position, c: Color)
    requires
        on_board(p),
    ensures
        forall|i: int|
            0 <= i < spec_pawn_attacks(p, c).len() ==> on_board(#[trigger] spec_pawn_attacks(p, c)[i]),
{
}

/// Every destination square of a pawn lies on the board.
pub proof fn lemma_pawn_targets_on_board(
    b: Seq<Option<Piece>>,
    me: Piece,
    en_passant: Option<Position>,
    king_pos: Position,
)
    requires
        on_board(me.position),
    ensures
        forall|i: int|
            0 <= i < spec_pawn_targets(b, me, en_passant, king_pos).len() ==> on_board(
                #[trigger] spec_pawn_targets(b, me, en_passant, king_pos)[i],
            ),
{
    let atk = spec_pawn_attacks(me.position, me.color);
    let caps = spec_pawn_capture_targets(b, me);
    let fwd = spec_pawn_forward(b, me);
    let eps = spec_pawn_ep_targets(b, me, en_passant, king_pos);
    lemma_pawn_attacks_on_board(me.position, me.color);
    crate::pieces::piece::lemma_filter_subset(atk, capture_pred(b, me));
    assert forall|i: int| 0 <= i < caps.len() implies on_board(#[trigger] caps[i]) by {
        assert(atk.contains(caps[i]));
        let j = choose|j: int| 0 <= j < atk.len() && atk[j] == caps[i];
        assert(on_board(atk[j]));
    }
    assert forall|i: int| 0 <= i < fwd.len() implies on_board(#[trigger] fwd[i]) by {}
    assert forall|i: int| 0 <= i < eps.len() implies on_board(#[trigger] eps[i]) by {}
    let whole = spec_pawn_targets(b, me, en_passant, king_pos);
    assert forall|i: int| 0 <= i < whole.len() implies on_board(#[trigger] whole[i]) by {
        if i < caps.len() {
            assert(whole[i] == caps[i]);
        } else if i < caps.len() + fwd.len() {
            assert(whole[i] == fwd[i - caps.len()]);
        } else {
            assert(whole[i] == eps[i - caps.len() - fwd.len()]);
        }
    }
}

/// Every expanded move starts at `from` and lands on one of the
/// destinations it was made from.
pub proof fn lemma_expand_shape(from: Position, targets: Seq<Position>)
    requires
        forall|i: int| 0 <= i < targets.len() ==> on_board(#[trigger] targets[i]),
    ensures
        moves_shape_ok(spec_expand_promotions(from, targets), from),
    decreases targets.len(),
{
    if targets.len() > 0 {
        let rest = targets.drop_first();
        assert(forall|i: int| 0 <= i < rest.len() ==> on_board(#[trigger] rest[i]));
        lemma_expand_shape(from, rest);
        let t = targets[0];
        let chunk = if t.1 == 1 || t.1 == 8 {
            seq![
                ChessMove { from, to: t, promotion: Some(PromotionPiece::Rook) },
                ChessMove { from, to: t, promotion: Some(PromotionPiece::Knight) },
                ChessMove { from, to: t, promotion: Some(PromotionPiece::Bishop) },
                ChessMove { from, to: t, promotion: Some(PromotionPiece::Queen) },
            ]
        } else {
            seq![ChessMove { from, to: t, promotion: None }]
        };
        assert(on_board(t));
        assert(moves_shape_ok(chunk, from));
        lemma_concat_moves_shape(chunk, spec_expand_promotions(from, rest), from);
    }
}

/// Every pawn move starts at the pawn's square and lands on the board.
pub proof fn lemma_pawn_moves_shape(
    b: Seq<Option<Piece>>,
    me: Piece,
    en_passant: Option<Position>,
    king_pos: Position,
)
    requires
        on_board(me.position),
    ensures
        moves_shape_ok(spec_pawn_moves(b, me, en_passant, king_pos), me.position),
{
    lemma_pawn_targets_on_board(b, me, en_passant, king_pos);
    lemma_expand_shape(me.position, spec_pawn_targets(b, me, en_passant, king_pos));
}

} // verus!
