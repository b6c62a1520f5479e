use vstd::prelude::*;

use crate::engine::model::{Board, BitBoard};

verus! {

impl Board {
    /// A board without pieces.
    pub fn new() -> (r: Board)
        ensures
            forall|i: int| 0 <= i < 6 ==> r.pieces[i].0 == 0,
            forall|i: int| 0 <= i < 2 ==> r.colors[i].0 == 0,
    {
        Board {
            pieces: [BitBoard(0), BitBoard(0), BitBoard(0), BitBoard(0), BitBoard(0), BitBoard(0)],
            colors: [BitBoard(0), BitBoard(0)],
        }
    }
}

} // verus!
