use vstd::prelude::*;

verus! {

/// A square as a 1-indexed (file, rank) pair; both coordinates lie in
/// [1, 8] for squares on the board.
#[derive(Clone, Copy, Debug, PartialEq, Eq, Structural, Hash)]
pub struct Position(pub u8, pub u8);

/// Whether the (file, rank) pair names a square of the 8x8 board.
pub open spec fn on_board_xy(file: int, rank: int) -> bool {
    1 <= file <= 8 && 1 <= rank <= 8
}

/// Whether `p` names a square of the 8x8 board.
pub open spec fn on_board(p: Position) -> bool {
    on_board_xy(p.0 as int, p.1 as int)
}

/// Index of the square (file, rank) in file-major, rank-ascending order.
pub open spec fn sq(file: int, rank: int) -> int {
    (file - 1) * 8 + (rank - 1)
}

/// Index of the square `p` in file-major, rank-ascending order.
pub open spec fn sq_of(p: Position) -> int {
    sq(p.0 as int, p.1 as int)
}

/// The square whose file-major index is `i`.
pub open spec fn pos_at(i: int) -> Position {
    Position((i / 8 + 1) as u8, (i % 8 + 1) as u8)
}

/// For an on-board square, `pos_at` inverts `sq_of`.
pub proof fn lemma_pos_at_sq(p: Position)
    requires
        on_board(p),
    ensures
        pos_at(sq_of(p)) == p,
        0 <= sq_of(p) < 64,
{
}

/// Every index below 64 names an on-board square.
pub proof fn lemma_sq_pos_at(i: int)
    requires
        0 <= i < 64,
    ensures
        on_board(pos_at(i)),
        sq_of(pos_at(i)) == i,
{
}

/// Runtime index of the on-board square `p`.
pub fn square_index(p: Position) -> (r: usize)
    requires
        on_board(p),
    ensures
        r == sq_of(p),
        r < 64,
{
    (p.0 as usize - 1) * 8 + (p.1 as usize - 1)
}

/// Runtime check that `p` lies on the board.
pub fn is_on_board(p: Position) -> (r: bool)
    ensures
        r == on_board(p),
{
    1 <= p.0 && p.0 <= 8 && 1 <= p.1 && p.1 <= 8
}

} // verus!
