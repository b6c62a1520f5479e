use vstd::prelude::*;

use crate::engine::model::{BitBoard, Square};
use crate::engine::model::bits::{is_set, lemma_single};

verus! {

impl Square {
    pub fn new(s: usize) -> (r: Square)
        ensures
            r.0 == s,
    {
        Square(s)
    }

    /// The set holding only this square.
    pub fn bitboard(&self) -> (r: BitBoard)
        requires
            self.0 < 64,
        ensures
            r.0 == 1u64 << (self.0 as u64),
            forall|i: int| #![trigger is_set(r.0, i)] is_set(r.0, i) == (i == self.0),
    {
        proof {
            assert forall|i: int| #![trigger is_set(1u64 << (self.0 as u64), i)]
                is_set(1u64 << (self.0 as u64), i) == (i == self.0) by {
                lemma_single(self.0 as int, i);
            }
        }
        BitBoard(1 << self.0)
    }

    /// The square `s` places further in index order. The index goes through
    /// an `i8`, so it must not overflow there; a negative result wraps around
    /// as a cast to `usize` does.
    pub fn shift(&self, s: i8) -> (r: Square)
        requires
            -128 <= (self.0 as i8) + s <= 127,
        ensures
            r.0 == ((self.0 as i8) + s) as usize,
    {
        Square((self.0 as i8 + s) as usize)
    }

    pub fn row(&self) -> (r: usize)
        ensures
            r == self.0 / 8,
    {
        self.0 / 8
    }

    pub fn col(&self) -> (r: usize)
        ensures
            r == self.0 % 8,
    {
        self.0 % 8
    }

    /// The square on the given row and column.
    pub fn from(row: usize, col: usize) -> (r: Square)
        requires
            row < 8,
            col < 8,
        ensures
            r.0 == row * 8 + col,
    {
        Square(row * 8 + col)
    }

    /// Whether a row and a column lie on the board.
    pub fn valid(row: i32, col: i32) -> (r: bool)
        ensures
            r == (0 <= row < 8 && 0 <= col < 8),
    {
        row >= 0 && row < 8 && col >= 0 && col < 8
    }
}

} // verus!
