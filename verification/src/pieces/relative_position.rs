use vstd::prelude::*;

use crate::pieces::position::Position;

verus! {

/// The compass direction one square stands in relative to another.
#[derive(Clone, Copy, Debug, PartialEq, Eq, Structural)]
pub enum RelativePosition {
    Up,
    UpRight,
    Right,
    BottomRight,
    Bottom,
    BottomLeft,
    Left,
    UpLeft,
}

/// A line between two squares: along a rank or file, or along a
/// diagonal.
#[derive(Clone, Copy, Debug, PartialEq, Eq, Structural)]
pub enum Direction {
    STRAIGHT(RelativePosition),
    DIAGONAL(RelativePosition),
}

/// The unit step and line kind leading from `a` toward `b`, or nothing
/// when the two squares share no rank, file or diagonal.
pub open spec fn spec_line(a: Position, b: Position) -> Option<((i8, i8), Direction)> {
    if a.0 == b.0 {
        if a.1 > b.1 {
            Some(((0i8, -1i8), Direction::STRAIGHT(RelativePosition::Bottom)))
        } else {
            Some(((0i8, 1i8), Direction::STRAIGHT(RelativePosition::Up)))
        }
    } else if a.1 == b.1 {
        if a.0 > b.0 {
            Some(((-1i8, 0i8), Direction::STRAIGHT(RelativePosition::Left)))
        } else {
            Some(((1i8, 0i8), Direction::STRAIGHT(RelativePosition::Right)))
        }
    } else {
        let diff_file = a.0 - b.0;
        let diff_rank = a.1 - b.1;
        let abs_file = if diff_file < 0 {
            -diff_file
        } else {
            diff_file
        };
        let abs_rank = if diff_rank < 0 {
            -diff_rank
        } else {
            diff_rank
        };
        if abs_file == abs_rank {
            if a.0 < b.0 {
                if a.1 < b.1 {
                    Some(((1i8, 1i8), Direction::DIAGONAL(RelativePosition::UpRight)))
                } else {
                    Some(((1i8, -1i8), Direction::DIAGONAL(RelativePosition::BottomRight)))
                }
            } else if a.1 < b.1 {
                Some(((-1i8, 1i8), Direction::DIAGONAL(RelativePosition::UpLeft)))
            } else {
                Some(((-1i8, -1i8), Direction::DIAGONAL(RelativePosition::BottomLeft)))
            }
        } else {
            None
        }
    }
}

/// The unit step and line kind leading from `self_position` toward
/// `other_position`, or nothing when they share no rank, file or
/// diagonal.
pub fn get_line_to_other_piece(self_position: &Position, other_position: Position) -> (r: Option<
    ((i8, i8), Direction),
>)
    ensures
        r == spec_line(*self_position, other_position),
{
    let a = *self_position;
    let b = other_position;
    if a.0 == b.0 {
        if a.1 > b.1 {
            Some(((0, -1), Direction::STRAIGHT(RelativePosition::Bottom)))
        } else {
            Some(((0, 1), Direction::STRAIGHT(RelativePosition::Up)))
        }
    } else if a.1 == b.1 {
        if a.0 > b.0 {
            Some(((-1, 0), Direction::STRAIGHT(RelativePosition::Left)))
        } else {
            Some(((1, 0), Direction::STRAIGHT(RelativePosition::Right)))
        }
    } else {
        let diff_file = a.0 as i16 - b.0 as i16;
        let diff_rank = a.1 as i16 - b.1 as i16;
        let abs_file = if diff_file < 0 {
            -diff_file
        } else {
            diff_file
        };
        let abs_rank = if diff_rank < 0 {
            -diff_rank
        } else {
            diff_rank
        };
        if abs_file == abs_rank {
            if a.0 < b.0 {
                if a.1 < b.1 {
                    Some(((1, 1), Direction::DIAGONAL(RelativePosition::UpRight)))
                } else {
                    Some(((1, -1), Direction::DIAGONAL(RelativePosition::BottomRight)))
                }
            } else if a.1 < b.1 {
                Some(((-1, 1), Direction::DIAGONAL(RelativePosition::UpLeft)))
            } else {
                Some(((-1, -1), Direction::DIAGONAL(RelativePosition::BottomLeft)))
            }
        } else {
            None
        }
    }
}

} // verus!
