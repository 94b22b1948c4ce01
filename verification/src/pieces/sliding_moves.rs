use vstd::prelude::*;

use crate::board::Board;
use crate::chessmove::ChessMove;
use crate::pieces::piece::Piece;
use crate::pieces::position::{on_board, on_board_xy, sq, Position};
use crate::pieces::sliding_attacks::ray_fuel;

verus! {

/// The moves a slider standing at `from` may make in direction
/// (df, dr), starting the walk at (f, r): every empty square, and the
/// first occupied one when an enemy stands there.
pub open spec fn ray_moves(
    b: Seq<Option<Piece>>,
    from: Position,
    f: int,
    r: int,
    df: int,
    dr: int,
    color: crate::color::Color,
) -> Seq<ChessMove>
    decreases ray_fuel(f, r, df, dr),
    when -1 <= df <= 1 && -1 <= dr <= 1 && !(df == 0 && dr == 0) && on_board_xy(f, r)
{
    let nf = f + df;
    let nr = r + dr;
    if !on_board_xy(nf, nr) {
        Seq::empty()
    } else {
        let mv = ChessMove { from, to: Position(nf as u8, nr as u8), promotion: None };
        match b[sq(nf, nr)] {
            Some(q) => if q.color != color {
                seq![mv]
            } else {
                Seq::empty()
            },
            None => seq![mv] + ray_moves(b, from, nf, nr, df, dr, color),
        }
    }
}

/// The moves of a rook or queen at `p`: the four orthogonal rays,
/// rightward, leftward, upward, downward, in that order.
pub open spec fn spec_straight_sliding(b: Seq<Option<Piece>>, p: Piece) -> Seq<ChessMove> {
    ray_moves(b, p.position, p.position.0 as int, p.position.1 as int, 1, 0, p.color) + ray_moves(
        b,
        p.position,
        p.position.0 as int,
        p.position.1 as int,
        -1,
        0,
        p.color,
    ) + ray_moves(b, p.position, p.position.0 as int, p.position.1 as int, 0, 1, p.color)
        + ray_moves(b, p.position, p.position.0 as int, p.position.1 as int, 0, -1, p.color)
}

/// The moves of a bishop or queen at `p`: the four diagonal rays,
/// up-right, down-right, up-left, down-left, in that order.
pub open spec fn spec_diagonal_sliding(b: Seq<Option<Piece>>, p: Piece) -> Seq<ChessMove> {
    ray_moves(b, p.position, p.position.0 as int, p.position.1 as int, 1, 1, p.color) + ray_moves(
        b,
        p.position,
        p.position.0 as int,
        p.position.1 as int,
        1,
        -1,
        p.color,
    ) + ray_moves(b, p.position, p.position.0 as int, p.position.1 as int, -1, 1, p.color)
        + ray_moves(b, p.position, p.position.0 as int, p.position.1 as int, -1, -1, p.color)
}

/// Every move of a slider ray starts at the slider's square, ends on
/// the board, and carries no promotion.
pub proof fn lemma_ray_moves_shape(
    b: Seq<Option<Piece>>,
    from: Position,
    f: int,
    r: int,
    df: int,
    dr: int,
    color: crate::color::Color,
)
    requires
        -1 <= df <= 1,
        -1 <= dr <= 1,
        !(df == 0 && dr == 0),
        on_board_xy(f, r),
    ensures
        forall|i: int|
            0 <= i < ray_moves(b, from, f, r, df, dr, color).len() ==> {
                let mv = #[trigger] ray_moves(b, from, f, r, df, dr, color)[i];
                mv.from == from && on_board(mv.to) && mv.promotion is None
            },
    decreases ray_fuel(f, r, df, dr),
{
    let nf = f + df;
    let nr = r + dr;
    if on_board_xy(nf, nr) {
        lemma_ray_moves_shape(b, from, nf, nr, df, dr, color);
        let whole = ray_moves(b, from, f, r, df, dr, color);
        let rest = ray_moves(b, from, nf, nr, df, dr, color);
        assert forall|i: int| 0 <= i < whole.len() implies {
            let mv = #[trigger] whole[i];
            mv.from == from && on_board(mv.to) && mv.promotion is None
        } by {
            if b[sq(nf, nr)] is None && i > 0 {
                assert(whole[i] == rest[i - 1]);
            }
        }
    }
}

/// Walks one ray of slider moves for the piece `piece`.
fn ray_moves_walk(board: &Board, piece: &Piece, df: i8, dr: i8) -> (r: Vec<ChessMove>)
    requires
        board.dim_ok(),
        on_board(piece.position),
        -1 <= df <= 1,
        -1 <= dr <= 1,
        !(df == 0 && dr == 0),
    ensures
        r@ == ray_moves(
            board@,
            piece.position,
            piece.position.0 as int,
            piece.position.1 as int,
            df as int,
            dr as int,
            piece.color,
        ),
{
    let from = piece.position;
    let ghost full = ray_moves(
        board@,
        from,
        from.0 as int,
        from.1 as int,
        df as int,
        dr as int,
        piece.color,
    );
    let mut acc: Vec<ChessMove> = Vec::new();
    let mut cf = from.0;
    let mut cr = from.1;
    loop
        invariant_except_break
            full == acc@ + ray_moves(
                board@,
                from,
                cf as int,
                cr as int,
                df as int,
                dr as int,
                piece.color,
            ),
        invariant
            board.dim_ok(),
            1 <= cf <= 8,
            1 <= cr <= 8,
            -1 <= df <= 1,
            -1 <= dr <= 1,
            !(df == 0 && dr == 0),
        ensures
            acc@ == full,
        decreases ray_fuel(cf as int, cr as int, df as int, dr as int),
    {
        let ghost tail = ray_moves(
            board@,
            from,
            cf as int,
            cr as int,
            df as int,
            dr as int,
            piece.color,
        );
        let nf = cf as i16 + df as i16;
        let nr = cr as i16 + dr as i16;
        if nf < 1 || nf > 8 || nr < 1 || nr > 8 {
            proof {
                assert(acc@ + tail =~= acc@);
            }
            break ;
        }
        let p = Position(nf as u8, nr as u8);
        let mv = ChessMove { from, to: p, promotion: None };
        let ghost before = acc@;
        match board.get_square(p) {
            Some(q) => {
                if q.color != piece.color {
                    acc.push(mv);
                    proof {
                        assert(before + tail =~= acc@);
                    }
                } else {
                    proof {
                        assert(before + tail =~= acc@);
                    }
                }
                break ;
            },
            None => {
                acc.push(mv);
                proof {
                    assert(before + tail =~= acc@ + ray_moves(
                        board@,
                        from,
                        nf as int,
                        nr as int,
                        df as int,
                        dr as int,
                        piece.color,
                    ));
                }
            },
        }
        cf = nf as u8;
        cr = nr as u8;
    }
    acc
}

/// The moves of a rook or queen at `piece`, rays cast rightward,
/// leftward, upward, then downward.
pub fn straight_sliding(piece: &Piece, board: &Board) -> (r: Vec<ChessMove>)
    requires
        board.dim_ok(),
        on_board(piece.position),
    ensures
        r@ == spec_straight_sliding(board@, *piece),
{
    let mut acc = ray_moves_walk(board, piece, 1, 0);
    let mut left = ray_moves_walk(board, piece, -1, 0);
    let mut up = ray_moves_walk(board, piece, 0, 1);
    let mut down = ray_moves_walk(board, piece, 0, -1);
    acc.append(&mut left);
    acc.append(&mut up);
    acc.append(&mut down);
    acc
}

/// The moves of a bishop or queen at `piece`, rays cast up-right,
/// down-right, up-left, then down-left.
pub fn diagonal_sliding(piece: &Piece, board: &Board) -> (r: Vec<ChessMove>)
    requires
        board.dim_ok(),
        on_board(piece.position),
    ensures
        r@ == spec_diagonal_sliding(board@, *piece),
{
    let mut acc = ray_moves_walk(board, piece, 1, 1);
    let mut dright = ray_moves_walk(board, piece, 1, -1);
    let mut uleft = ray_moves_walk(board, piece, -1, 1);
    let mut dleft = ray_moves_walk(board, piece, -1, -1);
    acc.append(&mut dright);
    acc.append(&mut uleft);
    acc.append(&mut dleft);
    acc
}

} // verus!
