//! The options of a search: the clocks of both sides as the interface
//! reports them.
use vstd::prelude::*;

use crate::engine::model::{Color, Move};
use std::cmp::Ordering;
use vstd::std_specs::cmp::PartialOrdSpecImpl;

verus! {

/// The time left and the increment of each side, in milliseconds, and the
/// number of moves until the next time control.
#[derive(Clone, Copy, PartialEq, Eq, Debug, Structural)]
pub struct SearchOptions {
    pub white_time: Option<u32>,
    pub white_increment: Option<u32>,
    pub black_time: Option<u32>,
    pub black_increment: Option<u32>,
    pub moves_to_go: Option<u32>,
}

/// Options that say nothing.
pub open spec fn no_options() -> SearchOptions {
    SearchOptions {
        white_time: None,
        white_increment: None,
        black_time: None,
        black_increment: None,
        moves_to_go: None,
    }
}

impl SearchOptions {
    pub fn new() -> (r: SearchOptions)
        ensures
            r == no_options(),
    {
        SearchOptions {
            white_time: None,
            white_increment: None,
            black_time: None,
            black_increment: None,
            moves_to_go: None,
        }
    }

    /// The time to spend on the next move of `color`: its time left split
    /// evenly over the moves to go and one more.
    pub fn search_time(&self, color: Color) -> (r: u32)
        requires
            color == Color::White ==> self.white_time is Some,
            color == Color::Black ==> self.black_time is Some,
            self.moves_to_go is Some,
            self.moves_to_go->0 < u32::MAX,
        ensures
            r == (match color {
                Color::White => self.white_time->0 as int,
                Color::Black => self.black_time->0 as int,
            }) / (self.moves_to_go->0 + 1),
    {
        let (time, moves_to_go) = match color {
            Color::White => (self.white_time.unwrap(), self.moves_to_go.unwrap()),
            Color::Black => (self.black_time.unwrap(), self.moves_to_go.unwrap()),
        };
        time / (moves_to_go + 1)
    }
}

/// The rank of an optional piece code in the order of `Option`: none
/// first, then the types from pawn to king.
pub open spec fn option_rank(code: int) -> int {
    if code == 7 {
        0
    } else {
        code + 1
    }
}

/// The history count of a move: that of its origin and destination.
pub open spec fn history_of(history: Seq<Seq<u32>>, m: Move) -> int {
    history[m.origin_code()][m.destination_code()] as int
}

/// A number as an integer.
pub open spec fn num(x: u32) -> int {
    x as int
}

/// `Less`, `Equal` or `Greater` as `x` compares to `y`.
pub open spec fn order_of(x: int, y: int) -> Ordering {
    if x < y {
        Ordering::Less
    } else if x == y {
        Ordering::Equal
    } else {
        Ordering::Greater
    }
}

/// The order of two moves by what they promote to, then by what they
/// capture: the stronger piece first, no piece last; no order between moves
/// that promote to and capture the same.
pub open spec fn promotion_capture_order(a: Move, b: Move) -> Option<Ordering> {
    if a.promoted_code() != b.promoted_code() {
        Some(order_of(option_rank(b.promoted_code()), option_rank(a.promoted_code())))
    } else if a.captured_code() != b.captured_code() {
        Some(order_of(option_rank(b.captured_code()), option_rank(a.captured_code())))
    } else {
        None
    }
}

/// The order of two moves for the search: the best move found before comes
/// first; then promotions to the stronger piece, then captures of the
/// stronger piece; then the moves with more history.
pub open spec fn move_order(best_move: Option<Move>, history: Seq<Seq<u32>>, a: Move, b: Move) -> Ordering {
    if best_move matches Some(m) && m.origin_code() == a.origin_code() && m.destination_code() == a.destination_code() {
        Ordering::Less
    } else if best_move matches Some(m) && m.origin_code() == b.origin_code() && m.destination_code() == b.destination_code() {
        Ordering::Greater
    } else {
        match promotion_capture_order(a, b) {
            Some(o) => o,
            None => order_of(history_of(history, b), history_of(history, a)),
        }
    }
}

/// The rank of an optional piece code.
fn rank(code: u32) -> (r: u32)
    requires
        code < 8,
    ensures
        num(r) == option_rank(num(code)),
{
    if code == 7 {
        0
    } else {
        code + 1
    }
}

/// Compares two numbers.
fn order(x: u32, y: u32) -> (r: Ordering)
    ensures
        r == order_of(num(x), num(y)),
{
    if x < y {
        Ordering::Less
    } else if x == y {
        Ordering::Equal
    } else {
        Ordering::Greater
    }
}

impl PartialOrd for Move {
    /// Orders two moves by what they promote to, then by what they capture
    /// (see `promotion_capture_order`).
    fn partial_cmp(&self, other: &Self) -> (r: Option<Ordering>)
        ensures
            r == promotion_capture_order(*self, *other),
    {
        let a_promoted = (self.0 >> 20) & 0x7;
        let b_promoted = (other.0 >> 20) & 0x7;
        let a_captured = (self.0 >> 17) & 0x7;
        let b_captured = (other.0 >> 17) & 0x7;
        proof {
            let x = self.0;
            let y = other.0;
            assert((x >> 20u32) & 0x7 < 8 && (x >> 17u32) & 0x7 < 8) by (bit_vector);
            assert((y >> 20u32) & 0x7 < 8 && (y >> 17u32) & 0x7 < 8) by (bit_vector);
        }
        if a_promoted != b_promoted {
            return Some(order(rank(b_promoted), rank(a_promoted)));
        }
        if a_captured != b_captured {
            return Some(order(rank(b_captured), rank(a_captured)));
        }
        None
    }
}

impl PartialOrdSpecImpl for Move {
    open spec fn obeys_partial_cmp_spec() -> bool {
        true
    }

    open spec fn partial_cmp_spec(&self, other: &Self) -> Option<Ordering> {
        promotion_capture_order(*self, *other)
    }
}

/// Orders two moves for the search (see `move_order`).
pub fn compare_moves(best_move: &Option<Move>, history: &[[u32; 64]; 64], a: &Move, b: &Move) -> (r: Ordering)
    ensures
        r == move_order(*best_move, history@.map_values(|row: [u32; 64]| row@), *a, *b),
{
    let ghost h = history@.map_values(|row: [u32; 64]| row@);
    if let Some(m) = best_move {
        if m.origin().0 == a.origin().0 && m.destination().0 == a.destination().0 {
            return Ordering::Less;
        }
        if m.origin().0 == b.origin().0 && m.destination().0 == b.destination().0 {
            return Ordering::Greater;
        }
    }
    if let Some(ordering) = a.partial_cmp(b) {
        return ordering;
    }
    let a_heuristic = history[a.origin().0][a.destination().0];
    let b_heuristic = history[b.origin().0][b.destination().0];
    proof {
        assert(h[a.origin_code()][a.destination_code()] == a_heuristic);
        assert(h[b.origin_code()][b.destination_code()] == b_heuristic);
    }
    order(b_heuristic, a_heuristic)
}

/// The best move found before ranks first only as itself: a best move that
/// is neither of two moves, by origin and destination, changes nothing in
/// how they compare.
pub proof fn lemma_best_move_only_itself(best: Move, history: Seq<Seq<u32>>, a: Move, b: Move)
    requires
        !(best.origin_code() == a.origin_code() && best.destination_code() == a.destination_code()),
        !(best.origin_code() == b.origin_code() && best.destination_code() == b.destination_code()),
    ensures
        move_order(Some(best), history, a, b) == move_order(None, history, a, b),
{
}

/// The best move found before, matched by origin and destination, comes
/// before any move that it is not.
pub proof fn lemma_best_move_first(best: Move, history: Seq<Seq<u32>>, a: Move, b: Move)
    requires
        best.origin_code() == a.origin_code() && best.destination_code() == a.destination_code(),
        !(best.origin_code() == b.origin_code() && best.destination_code() == b.destination_code()),
    ensures
        move_order(Some(best), history, a, b) == Ordering::Less,
        move_order(Some(best), history, b, a) == Ordering::Greater,
{
}

/// Without a best move, a move compares equal to itself, and swapping two
/// moves swaps `Less` and `Greater`.
pub proof fn lemma_move_order_swaps(history: Seq<Seq<u32>>, a: Move, b: Move)
    ensures
        move_order(None, history, a, a) == Ordering::Equal,
        move_order(None, history, a, b) == Ordering::Less <==> move_order(None, history, b, a) == Ordering::Greater,
        move_order(None, history, a, b) == Ordering::Equal <==> move_order(None, history, b, a) == Ordering::Equal,
{
}

} // verus!
