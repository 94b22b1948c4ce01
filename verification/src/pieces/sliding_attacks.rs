use vstd::prelude::*;

use crate::board::Board;
use crate::pieces::piece::Piece;
use crate::pieces::position::{on_board, on_board_xy, sq, Position};

verus! {

/// An upper bound on how many steps a ray from (f, r) in direction
/// (df, dr) can still take before leaving the board.
pub open spec fn ray_fuel(f: int, r: int, df: int, dr: int) -> int {
    (if df > 0 {
        8 - f
    } else if df < 0 {
        f - 1
    } else {
        8
    }) + (if dr > 0 {
        8 - r
    } else if dr < 0 {
        r - 1
    } else {
        8
    })
}

/// The squares a slider at (f, r) threatens in direction (df, dr): every
/// square up to and including the first occupied one, except that the
/// ray passes through the defending king's own square.
pub open spec fn ray_attacks(
    b: Seq<Option<Piece>>,
    f: int,
    r: int,
    df: int,
    dr: int,
    enemy_king: Position,
) -> Seq<Position>
    decreases ray_fuel(f, r, df, dr),
    when -1 <= df <= 1 && -1 <= dr <= 1 && !(df == 0 && dr == 0) && on_board_xy(f, r)
{
    let nf = f + df;
    let nr = r + dr;
    if !on_board_xy(nf, nr) {
        Seq::empty()
    } else {
        let p = Position(nf as u8, nr as u8);
        if b[sq(nf, nr)] is Some && p != enemy_king {
            seq![p]
        } else {
            seq![p] + ray_attacks(b, nf, nr, df, dr, enemy_king)
        }
    }
}

/// The squares a rook or queen at `p` threatens: the four orthogonal
/// rays, rightward, leftward, upward, downward, in that order.
pub open spec fn spec_straight_attacks(b: Seq<Option<Piece>>, p: Position, enemy_king: Position) -> Seq<
    Position,
> {
    ray_attacks(b, p.0 as int, p.1 as int, 1, 0, enemy_king) + ray_attacks(
        b,
        p.0 as int,
        p.1 as int,
        -1,
        0,
        enemy_king,
    ) + ray_attacks(b, p.0 as int, p.1 as int, 0, 1, enemy_king) + ray_attacks(
        b,
        p.0 as int,
        p.1 as int,
        0,
        -1,
        enemy_king,
    )
}

/// The squares a bishop or queen at `p` threatens: the four diagonal
/// rays, up-right, down-right, up-left, down-left, in that order.
pub open spec fn spec_diagonal_attacks(b: Seq<Option<Piece>>, p: Position, enemy_king: Position) -> Seq<
    Position,
> {
    ray_attacks(b, p.0 as int, p.1 as int, 1, 1, enemy_king) + ray_attacks(
        b,
        p.0 as int,
        p.1 as int,
        1,
        -1,
        enemy_king,
    ) + ray_attacks(b, p.0 as int, p.1 as int, -1, 1, enemy_king) + ray_attacks(
        b,
        p.0 as int,
        p.1 as int,
        -1,
        -1,
        enemy_king,
    )
}

/// Every square of an attack ray lies on the board.
pub proof fn lemma_ray_attacks_on_board(
    b: Seq<Option<Piece>>,
    f: int,
    r: int,
    df: int,
    dr: int,
    enemy_king: Position,
)
    requires
        -1 <= df <= 1,
        -1 <= dr <= 1,
        !(df == 0 && dr == 0),
        on_board_xy(f, r),
    ensures
        forall|i: int|
            0 <= i < ray_attacks(b, f, r, df, dr, enemy_king).len() ==> on_board(
                #[trigger] ray_attacks(b, f, r, df, dr, enemy_king)[i],
            ),
    decreases ray_fuel(f, r, df, dr),
{
    let nf = f + df;
    let nr = r + dr;
    if on_board_xy(nf, nr) {
        lemma_ray_attacks_on_board(b, nf, nr, df, dr, enemy_king);
        let whole = ray_attacks(b, f, r, df, dr, enemy_king);
        let rest = ray_attacks(b, nf, nr, df, dr, enemy_king);
        assert forall|i: int| 0 <= i < whole.len() implies on_board(#[trigger] whole[i]) by {
            if i > 0 {
                assert(whole[i] == rest[i - 1]);
            }
        }
    }
}

/// Walks one ray from `start`, collecting every square up to and
/// including the first occupied one, passing through the square
/// `enemy_king` (a square off the board makes the walk stop at every
/// occupied square).
pub fn ray_attacks_walk(board: &Board, start: Position, df: i8, dr: i8, enemy_king: Position) -> (r:
    Vec<Position>)
    requires
        board.dim_ok(),
        on_board(start),
        -1 <= df <= 1,
        -1 <= dr <= 1,
        !(df == 0 && dr == 0),
    ensures
        r@ == ray_attacks(board@, start.0 as int, start.1 as int, df as int, dr as int, enemy_king),
{
    let ghost full = ray_attacks(
        board@,
        start.0 as int,
        start.1 as int,
        df as int,
        dr as int,
        enemy_king,
    );
    let mut acc: Vec<Position> = Vec::new();
    let mut cf = start.0;
    let mut cr = start.1;
    loop
        invariant_except_break
            full == acc@ + ray_attacks(board@, cf as int, cr as int, df as int, dr as int, enemy_king),
        invariant
            board.dim_ok(),
            1 <= cf <= 8,
            1 <= cr <= 8,
            -1 <= df <= 1,
            -1 <= dr <= 1,
            !(df == 0 && dr == 0),
        ensures
            acc@ == full,
        decreases ray_fuel(cf as int, cr as int, df as int, dr as int),
    {
        let nf = cf as i16 + df as i16;
        let nr = cr as i16 + dr as i16;
        if nf < 1 || nf > 8 || nr < 1 || nr > 8 {
            proof {
                assert(acc@ + ray_attacks(
                    board@,
                    cf as int,
                    cr as int,
                    df as int,
                    dr as int,
                    enemy_king,
                ) =~= acc@);
            }
            break ;
        }
        let p = Position(nf as u8, nr as u8);
        let ghost before = acc@;
        acc.push(p);
        let occupied = board.get_square(p).is_some();
        if occupied && !(p.0 == enemy_king.0 && p.1 == enemy_king.1) {
            proof {
                assert(before + seq![p] =~= acc@);
                assert(before + ray_attacks(
                    board@,
                    cf as int,
                    cr as int,
                    df as int,
                    dr as int,
                    enemy_king,
                ) =~= acc@);
            }
            break ;
        }
        proof {
            assert(before + ray_attacks(
                board@,
                cf as int,
                cr as int,
                df as int,
                dr as int,
                enemy_king,
            ) =~= acc@ + ray_attacks(
                board@,
                nf as int,
                nr as int,
                df as int,
                dr as int,
                enemy_king,
            ));
        }
        cf = nf as u8;
        cr = nr as u8;
    }
    acc
}

/// The squares a rook or queen at `position` threatens, rays cast
/// rightward, leftward, upward, then downward.
pub fn straight_attacks(position: Position, board: &Board, enemy_king_pos: Position) -> (r: Vec<
    Position,
>)
    requires
        board.dim_ok(),
        on_board(position),
    ensures
        r@ == spec_straight_attacks(board@, position, enemy_king_pos),
{
    let mut acc = ray_attacks_walk(board, position, 1, 0, enemy_king_pos);
    let mut left = ray_attacks_walk(board, position, -1, 0, enemy_king_pos);
    let mut up = ray_attacks_walk(board, position, 0, 1, enemy_king_pos);
    let mut down = ray_attacks_walk(board, position, 0, -1, enemy_king_pos);
    acc.append(&mut left);
    acc.append(&mut up);
    acc.append(&mut down);
    acc
}

/// The squares a bishop or queen at `position` threatens, rays cast
/// up-right, down-right, up-left, then down-left.
pub fn diagonal_attacks(position: Position, board: &Board, enemy_king_pos: Position) -> (r: Vec<
    Position,
>)
    requires
        board.dim_ok(),
        on_board(position),
    ensures
        r@ == spec_diagonal_attacks(board@, position, enemy_king_pos),
{
    let mut acc = ray_attacks_walk(board, position, 1, 1, enemy_king_pos);
    let mut dright = ray_attacks_walk(board, position, 1, -1, enemy_king_pos);
    let mut uleft = ray_attacks_walk(board, position, -1, 1, enemy_king_pos);
    let mut dleft = ray_attacks_walk(board, position, -1, -1, enemy_king_pos);
    acc.append(&mut dright);
    acc.append(&mut uleft);
    acc.append(&mut dleft);
    acc
}

} // verus!
