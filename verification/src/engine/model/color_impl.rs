use vstd::prelude::*;

use crate::engine::model::Color;

verus! {

impl Color {
    /// The position of the color in `Board::colors`.
    pub open spec fn idx(self) -> int {
        match self {
            Color::White => 0,
            Color::Black => 1,
        }
    }

    /// The other side.
    pub fn not(self) -> (r: Color)
        ensures
            r != self,
            r.idx() == 1 - self.idx(),
    {
        match self {
            Color::White => Color::Black,
            Color::Black => Color::White,
        }
    }

    pub fn index(self) -> (r: usize)
        ensures
            r == self.idx(),
    {
        match self {
            Color::White => 0,
            Color::Black => 1,
        }
    }
}

} // verus!
