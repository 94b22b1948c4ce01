use vstd::prelude::*;

verus! {

/// The two sides of a chess game.
#[derive(Clone, Copy, Debug, PartialEq, Eq, Structural, Hash)]
pub enum Color {
    WHITE,
    BLACK,
}

/// The side that is not `c`.
pub open spec fn spec_other(c: Color) -> Color {
    match c {
        Color::WHITE => Color::BLACK,
        Color::BLACK => Color::WHITE,
    }
}

/// Returns the opposing side.
pub fn other(c: Color) -> (r: Color)
    ensures
        r == spec_other(c),
{
    match c {
        Color::WHITE => Color::BLACK,
        Color::BLACK => Color::WHITE,
    }
}

} // verus!
