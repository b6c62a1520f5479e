//! The clocks a search of the first engine is given, and the order in which
//! it tries moves.
use vstd::prelude::*;

use crate::chess::{Color, Move, MoveView, Piece, PieceType};
use std::cmp::Ordering;

verus! {

/// The time left and the increment of each side, in milliseconds, and the
/// number of moves until the next time control.
pub struct SearchOptions {
    pub white_time: Option<u32>,
    pub white_increment: Option<u32>,
    pub black_time: Option<u32>,
    pub black_increment: Option<u32>,
    pub moves_to_go: Option<u32>,
}

impl SearchOptions {
    pub fn new() -> (r: SearchOptions)
        ensures
            r.white_time is None,
            r.white_increment is None,
            r.black_time is None,
            r.black_increment is None,
            r.moves_to_go is None,
    {
        SearchOptions {
            white_time: None,
            white_increment: None,
            black_time: None,
            black_increment: None,
            moves_to_go: None,
        }
    }

    /// The time left to `color` and the number of moves to go.
    pub fn get_time(&self, color: Color) -> (r: (u32, u32))
        requires
            color == Color::White ==> self.white_time is Some,
            color == Color::Black ==> self.black_time is Some,
            self.moves_to_go is Some,
        ensures
            r.0 == (if color == Color::White { self.white_time->0 } else { self.black_time->0 }),
            r.1 == self.moves_to_go->0,
    {
        if color == Color::White {
            (self.white_time.unwrap(), self.moves_to_go.unwrap())
        } else {
            (self.black_time.unwrap(), self.moves_to_go.unwrap())
        }
    }
}

/// The rank of a piece type, in the order the types are declared.
pub open spec fn type_rank(t: PieceType) -> int {
    match t {
        PieceType::Pawn => 0,
        PieceType::Knight => 1,
        PieceType::Bishop => 2,
        PieceType::Rook => 3,
        PieceType::Queen => 4,
        PieceType::King => 5,
    }
}

/// The rank of an optional promotion: none first, then the types in order.
pub open spec fn promotion_rank(p: Option<PieceType>) -> int {
    match p {
        None => 0,
        Some(t) => 1 + type_rank(t),
    }
}

/// The rank of an optional captured piece: none first, then by type, and
/// white before black within a type.
pub open spec fn capture_rank(p: Option<Piece>) -> int {
    match p {
        None => 0,
        Some(x) => 1 + 2 * type_rank(x.t) + if x.color == Color::White { 0int } else { 1int },
    }
}

/// `Less`, `Equal` or `Greater` as `x` compares to `y`.
pub open spec fn rank_order(x: int, y: int) -> Ordering {
    if x < y {
        Ordering::Less
    } else if x == y {
        Ordering::Equal
    } else {
        Ordering::Greater
    }
}

/// The order in which the first engine's search tries two moves: the
/// promotion to the stronger piece first, then the capture of the stronger
/// piece; moves that promote to and capture the same compare as `Less`.
pub open spec fn first_move_order(a: MoveView, b: MoveView) -> Ordering {
    if promotion_rank(a.promotion) != promotion_rank(b.promotion) {
        rank_order(promotion_rank(b.promotion), promotion_rank(a.promotion))
    } else if capture_rank(a.captured) != capture_rank(b.captured) {
        rank_order(capture_rank(b.captured), capture_rank(a.captured))
    } else {
        Ordering::Less
    }
}

/// Moves differ in their promotion or capture exactly when their ranks do.
pub proof fn lemma_ranks_tell_apart(a: MoveView, b: MoveView)
    ensures
        (promotion_rank(a.promotion) == promotion_rank(b.promotion)) == (a.promotion == b.promotion),
        (capture_rank(a.captured) == capture_rank(b.captured)) == (a.captured == b.captured),
{
}

fn type_rank_of(t: PieceType) -> (r: u32)
    ensures
        r == type_rank(t),
{
    match t {
        PieceType::Pawn => 0,
        PieceType::Knight => 1,
        PieceType::Bishop => 2,
        PieceType::Rook => 3,
        PieceType::Queen => 4,
        PieceType::King => 5,
    }
}

fn promotion_rank_of(p: Option<PieceType>) -> (r: u32)
    ensures
        r == promotion_rank(p),
{
    match p {
        None => 0,
        Some(t) => 1 + type_rank_of(t),
    }
}

fn capture_rank_of(p: Option<Piece>) -> (r: u32)
    ensures
        r == capture_rank(p),
{
    match p {
        None => 0,
        Some(x) => 1 + 2 * type_rank_of(x.t) + if x.color == Color::White { 0 } else { 1 },
    }
}

/// A rank as an integer.
pub open spec fn rank_value(x: u32) -> int {
    x as int
}

fn compare_ranks(x: u32, y: u32) -> (r: Ordering)
    ensures
        r == rank_order(rank_value(x), rank_value(y)),
{
    if x < y {
        Ordering::Less
    } else if x == y {
        Ordering::Equal
    } else {
        Ordering::Greater
    }
}

/// Orders two moves for the first engine's search (see `first_move_order`).
pub fn compare_moves(a: &Move, b: &Move) -> (r: Ordering)
    ensures
        r == first_move_order(a@, b@),
{
    let pa = promotion_rank_of(a.promotion);
    let pb = promotion_rank_of(b.promotion);
    if pa != pb {
        return compare_ranks(pb, pa);
    }
    let ca = capture_rank_of(a.captured);
    let cb = capture_rank_of(b.captured);
    if ca != cb {
        return compare_ranks(cb, ca);
    }
    Ordering::Less
}

} // verus!
