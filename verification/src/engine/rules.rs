//! Move generation and attack detection on bitboards.
use vstd::prelude::*;

pub mod spec;
pub mod playable;

use crate::engine::model::{BitBoard, Castling, Color, GameState, Move, MoveType, PieceType, Square};
use crate::engine::model::bits::is_set;
use crate::engine::model::game_state_impl::{GameView, opponent, lemma_undo_apply, consistent, en_passant_victim, castle_destination, captures};
use crate::engine::model::move_impl::{lemma_encode_decode, optional_piece_code};
use crate::engine::rules::spec::{
    added, capture_on, col, extends, has_color, has_type, king_step, knight_step, lemma_added_grows,
    lemma_extends_trans, lemma_added_grows2, make_move, occupied, on_board, piece_attacks, pseudo_legal,
    pseudo_legal_shape, recorded_en_passant, row, type_at, wf, row_delta, col_delta, ray_square,
    ray_on_board, slides_to, diagonal_to, straight_to, attacks_some, attacked_by, set_attacked_by,
    pawn_attacks, king_in_check, promotion_fits, pawn_move, forward, castle_move, legal, leaves_king_attacked,
    tail, lemma_push_fresh, lemma_concat_fresh, lemma_tail_split, phase, lemma_phase_step,
    castles, castle_list, phase_sorted, keeps_king_safe, pseudo_listing,
};
use crate::engine::rules::playable::playable;

verus! {

/// The fields of a move built by `make_move` decode back.
pub proof fn lemma_make_move_decode(
    v: GameView,
    f: int,
    t: int,
    ty: MoveType,
    p: PieceType,
    cap: Option<PieceType>,
    promo: Option<PieceType>,
)
    requires
        0 <= f < 64,
        0 <= t < 64,
        0 <= v.castling < 16,
    ensures
        ({
            let m = make_move(v, f, t, ty, p, cap, promo);
            &&& m.wf()
            &&& m.origin_code() == f
            &&& m.destination_code() == t
            &&& m.spec_type() == ty
            &&& m.spec_piece() == p
            &&& m.spec_captured() == cap
            &&& m.spec_promoted() == promo
            &&& m.castling_code() == v.castling
            &&& m.en_passant_code() == recorded_en_passant(v.en_passant)
        }),
{
    let e = recorded_en_passant(v.en_passant);
    assert(0 <= e < 32);
    lemma_encode_decode(
        f as u32,
        t as u32,
        ty.idx() as u32,
        p.idx() as u32,
        optional_piece_code(cap) as u32,
        optional_piece_code(promo) as u32,
        e as u32,
        v.castling as u32,
    );
}

/// The squares reached from `position` by the given offsets that stay on
/// the board.
pub open spec fn offset_target(position: int, offset: (i32, i32)) -> int {
    (row(position) + offset.0) * 8 + col(position) + offset.1
}

pub open spec fn offset_fits(position: int, offset: (i32, i32)) -> bool {
    on_board(row(position) + offset.0, col(position) + offset.1)
}

/// The set of squares reached from `position` by the offsets (row, column).
pub fn offset_movements(offsets: &[(i32, i32); 8], position: usize) -> (r: BitBoard)
    requires
        position < 64,
        forall|j: int| 0 <= j < 8 ==> -8 <= #[trigger] offsets[j].0 <= 8 && -8 <= offsets[j].1 <= 8,
    ensures
        forall|b: int|
            #![trigger is_set(r.0, b)]
            is_set(r.0, b) == exists|j: int|
                0 <= j < 8 && offset_fits(position as int, #[trigger] offsets[j]) && b
                    == offset_target(position as int, offsets[j]),
{
    let row = (position / 8) as i32;
    let column = (position % 8) as i32;

    let mut result: u64 = 0;
    proof {
        assert forall|b: int| !is_set(0u64, b) by {
            crate::engine::model::bits::lemma_zero(b);
        }
    }

    let mut i: usize = 0;
    while i < 8
        invariant
            0 <= i <= 8,
            row == position / 8,
            column == position % 8,
            position < 64,
            forall|j: int| 0 <= j < 8 ==> -8 <= #[trigger] offsets[j].0 <= 8 && -8 <= offsets[j].1 <= 8,
            forall|b: int|
                #![trigger is_set(result, b)]
                is_set(result, b) == exists|j: int|
                    0 <= j < i && offset_fits(position as int, #[trigger] offsets[j]) && b
                        == offset_target(position as int, offsets[j]),
        decreases 8 - i,
    {
        let new_row = row + offsets[i].0;
        let new_column = column + offsets[i].1;
        let ghost old_result = result;
        if Square::valid(new_row, new_column) {
            let index = new_row * 8 + new_column;
            result = result | (1u64 << (index as u64));
            proof {
                assert forall|b: int| #![trigger is_set(result, b)] is_set(result, b) == (is_set(
                    old_result,
                    b,
                ) || b == index) by {
                    crate::engine::model::bits::lemma_or(old_result, 1u64 << (index as u64), b);
                    crate::engine::model::bits::lemma_single(index as int, b);
                }
            }
        }
        proof {
            assert forall|b: int|
                #![trigger is_set(result, b)]
                is_set(result, b) == exists|j: int|
                    0 <= j < i + 1 && offset_fits(position as int, #[trigger] offsets[j]) && b
                        == offset_target(position as int, offsets[j]) by {
                if is_set(result, b) && !is_set(old_result, b) {
                    assert(offset_fits(position as int, offsets[i as int]) && b == offset_target(
                        position as int,
                        offsets[i as int],
                    ));
                }
            }
        }
        i += 1;
    }

    BitBoard(result)
}

/// The knight's jumps as (row, column) offsets.
pub open spec fn knight_offsets() -> Seq<(i32, i32)> {
    seq![(-2i32, -1i32), (-2i32, 1i32), (2i32, -1i32), (2i32, 1i32), (-1i32, -2i32), (-1i32, 2i32), (1i32, -2i32), (1i32, 2i32)]
}

/// The king's steps as (row, column) offsets.
pub open spec fn king_offsets() -> Seq<(i32, i32)> {
    seq![(-1i32, -1i32), (-1i32, 0i32), (-1i32, 1i32), (0i32, -1i32), (0i32, 1i32), (1i32, -1i32), (1i32, 0i32), (1i32, 1i32)]
}

fn knight_offset_table() -> (r: [(i32, i32); 8])
    ensures
        r@ == knight_offsets(),
{
    let r = [(-2, -1), (-2, 1), (2, -1), (2, 1), (-1, -2), (-1, 2), (1, -2), (1, 2)];
    assert(r@ =~= knight_offsets());
    r
}

fn king_offset_table() -> (r: [(i32, i32); 8])
    ensures
        r@ == king_offsets(),
{
    let r = [(-1, -1), (-1, 0), (-1, 1), (0, -1), (0, 1), (1, -1), (1, 0), (1, 1)];
    assert(r@ =~= king_offsets());
    r
}

/// The knight's offsets reach exactly the knight's jumps.
pub proof fn lemma_knight_offsets(offsets: [(i32, i32); 8], a: int, b: int)
    requires
        offsets@ == knight_offsets(),
        0 <= a < 64,
    ensures
        (exists|j: int|
            0 <= j < 8 && offset_fits(a, #[trigger] offsets[j]) && b == offset_target(a, offsets[j]))
            == knight_step(a, b),
{
    let dr = row(b) - row(a);
    let dc = col(b) - col(a);
    if exists|j: int|
        0 <= j < 8 && offset_fits(a, #[trigger] offsets[j]) && b == offset_target(a, offsets[j]) {
        let j = choose|j: int|
            0 <= j < 8 && offset_fits(a, #[trigger] offsets[j]) && b == offset_target(a, offsets[j]);
        assert(offsets[j] == knight_offsets()[j]);
        assert(0 <= b < 64);
    }
    if knight_step(a, b) {
        let j = if dr == -2 && dc == -1 {
            0
        } else if dr == -2 && dc == 1 {
            1
        } else if dr == 2 && dc == -1 {
            2
        } else if dr == 2 && dc == 1 {
            3
        } else if dr == -1 && dc == -2 {
            4
        } else if dr == -1 && dc == 2 {
            5
        } else if dr == 1 && dc == -2 {
            6
        } else {
            7
        };
        assert(offsets[j] == knight_offsets()[j]);
        assert(offset_fits(a, offsets[j]) && b == offset_target(a, offsets[j]));
    }
}

/// The king's offsets reach exactly the king's steps.
pub proof fn lemma_king_offsets(offsets: [(i32, i32); 8], a: int, b: int)
    requires
        offsets@ == king_offsets(),
        0 <= a < 64,
    ensures
        (exists|j: int|
            0 <= j < 8 && offset_fits(a, #[trigger] offsets[j]) && b == offset_target(a, offsets[j]))
            == king_step(a, b),
{
    let dr = row(b) - row(a);
    let dc = col(b) - col(a);
    if exists|j: int|
        0 <= j < 8 && offset_fits(a, #[trigger] offsets[j]) && b == offset_target(a, offsets[j]) {
        let j = choose|j: int|
            0 <= j < 8 && offset_fits(a, #[trigger] offsets[j]) && b == offset_target(a, offsets[j]);
        assert(offsets[j] == king_offsets()[j]);
        assert(0 <= b < 64);
    }
    if king_step(a, b) {
        let j = if dr == -1 && dc == -1 {
            0
        } else if dr == -1 && dc == 0 {
            1
        } else if dr == -1 && dc == 1 {
            2
        } else if dr == 0 && dc == -1 {
            3
        } else if dr == 0 && dc == 1 {
            4
        } else if dr == 1 && dc == -1 {
            5
        } else if dr == 1 && dc == 0 {
            6
        } else {
            7
        };
        assert(offsets[j] == king_offsets()[j]);
        assert(offset_fits(a, offsets[j]) && b == offset_target(a, offsets[j]));
    }
}

/// Whether the square is in the set.
pub fn contains(b: BitBoard, s: Square) -> (r: bool)
    requires
        s.0 < 64,
    ensures
        r == is_set(b.0, s.0 as int),
{
    let x = b.bitand(s.bitboard());
    let r = !x.empty();
    proof {
        assert(is_set(x.0, s.0 as int) == is_set(b.0, s.0 as int));
    }
    r
}

/// The row and column step of direction `d`.
fn direction(d: usize) -> (r: (i32, i32))
    requires
        d < 8,
    ensures
        r.0 == row_delta(d as int, 1),
        r.1 == col_delta(d as int, 1),
{
    if d == 0 {
        (-1, -1)
    } else if d == 1 {
        (-1, 1)
    } else if d == 2 {
        (1, -1)
    } else if d == 3 {
        (1, 1)
    } else if d == 4 {
        (-1, 0)
    } else if d == 5 {
        (1, 0)
    } else if d == 6 {
        (0, -1)
    } else {
        (0, 1)
    }
}

/// Once a ray has left the board it does not come back.
pub proof fn lemma_ray_leaves(a: int, d: int, n: int, m: int)
    requires
        0 <= a < 64,
        0 <= d < 8,
        n >= 1,
        !ray_on_board(a, d, n),
        ray_on_board(a, d, n - 1),
        m > n,
    ensures
        !ray_on_board(a, d, m),
{
}

/// Two squares of rays from the same square that coincide on the board are
/// the same steps away along both rows and columns.
proof fn lemma_ray_coords(a: int, d1: int, k1: int, d2: int, k2: int)
    requires
        0 <= a < 64,
        ray_on_board(a, d1, k1),
        ray_on_board(a, d2, k2),
        ray_square(a, d1, k1) == ray_square(a, d2, k2),
    ensures
        row_delta(d1, k1) == row_delta(d2, k2),
        col_delta(d1, k1) == col_delta(d2, k2),
{
}

/// A piece on `a` slides to `b` in one of the directions `first..d`.
pub open spec fn slides_before(v: GameView, a: int, first: int, d: int, b: int) -> bool {
    exists|dd: int| first <= dd < d && #[trigger] slides_to(v, a, dd, b)
}

/// A ray meets each of its squares once.
proof fn lemma_ray_injective(a: int, d: int, k1: int, k2: int)
    requires
        0 <= a < 64,
        0 <= d < 8,
        1 <= k1,
        1 <= k2,
        ray_on_board(a, d, k1),
        ray_on_board(a, d, k2),
        ray_square(a, d, k1) == ray_square(a, d, k2),
    ensures
        k1 == k2,
{
    lemma_ray_coords(a, d, k1, d, k2);
}

/// The rays from a square in two directions share no square.
proof fn lemma_slides_unique(v: GameView, a: int, d1: int, d2: int, b: int)
    requires
        0 <= a < 64,
        0 <= d1 < 8,
        0 <= d2 < 8,
        slides_to(v, a, d1, b),
        slides_to(v, a, d2, b),
    ensures
        d1 == d2,
{
    let n1 = choose|n: int|
        #![trigger ray_square(a, d1, n)]
        n >= 1 && ray_on_board(a, d1, n) && ray_square(a, d1, n) == b && forall|j: int|
            #![trigger ray_square(a, d1, j)]
            1 <= j < n ==> !occupied(v, ray_square(a, d1, j));
    let n2 = choose|n: int|
        #![trigger ray_square(a, d2, n)]
        n >= 1 && ray_on_board(a, d2, n) && ray_square(a, d2, n) == b && forall|j: int|
            #![trigger ray_square(a, d2, j)]
            1 <= j < n ==> !occupied(v, ray_square(a, d2, j));
    lemma_ray_coords(a, d1, n1, d2, n2);
}

/// Whether some square of `target` is attacked is a question about the
/// pieces alone: a side attacks a square of `target` when a piece of one of
/// the six types does.
pub proof fn lemma_set_attacked_by_types(v: GameView, c: Color, target: u64)
    ensures
        set_attacked_by(v, c, target) == (attacks_some(v, c, PieceType::Pawn, target) || attacks_some(
            v,
            c,
            PieceType::Knight,
            target,
        ) || attacks_some(v, c, PieceType::Bishop, target) || attacks_some(
            v,
            c,
            PieceType::Rook,
            target,
        ) || attacks_some(v, c, PieceType::Queen, target) || attacks_some(
            v,
            c,
            PieceType::King,
            target,
        )),
{
    if set_attacked_by(v, c, target) {
        let b = choose|b: int| #[trigger] is_set(target, b) && attacked_by(v, c, b);
        let (a, p) = choose|a: int, p: PieceType|
            #![trigger piece_attacks(v, p, c, a, b)]
            0 <= a < 64 && has_color(v, c, a) && has_type(v, p, a) && piece_attacks(v, p, c, a, b);
        assert(attacks_some(v, c, p, target));
    }
    if exists|p: PieceType| #[trigger] attacks_some(v, c, p, target) {
        let p = choose|p: PieceType| #[trigger] attacks_some(v, c, p, target);
        let (a, b) = choose|a: int, b: int|
            #![trigger piece_attacks(v, p, c, a, b), is_set(target, b)]
            0 <= a < 64 && has_color(v, c, a) && has_type(v, p, a) && piece_attacks(v, p, c, a, b)
                && is_set(target, b);
        assert(attacked_by(v, c, b));
    }
}

/// What a piece attacks depends on the board only, not on whose turn it is.
pub proof fn lemma_piece_attacks_same_board(v: GameView, w: GameView)
    requires
        v.pieces == w.pieces,
        v.colors == w.colors,
    ensures
        forall|p: PieceType, c: Color, a: int, b: int|
            #[trigger] piece_attacks(v, p, c, a, b) == piece_attacks(w, p, c, a, b),
{
    assert forall|a: int, d: int, b: int| slides_to(v, a, d, b) == slides_to(w, a, d, b) by {
        if slides_to(v, a, d, b) {
            let n = choose|n: int|
                #![trigger ray_square(a, d, n)]
                n >= 1 && ray_on_board(a, d, n) && ray_square(a, d, n) == b && forall|j: int|
                    #![trigger ray_square(a, d, j)]
                    1 <= j < n ==> !occupied(v, ray_square(a, d, j));
            assert forall|j: int| #![trigger ray_square(a, d, j)] 1 <= j < n implies !occupied(w, ray_square(a, d, j)) by {
                assert(!occupied(v, ray_square(a, d, j)));
            }
        }
        if slides_to(w, a, d, b) {
            let n = choose|n: int|
                #![trigger ray_square(a, d, n)]
                n >= 1 && ray_on_board(a, d, n) && ray_square(a, d, n) == b && forall|j: int|
                    #![trigger ray_square(a, d, j)]
                    1 <= j < n ==> !occupied(w, ray_square(a, d, j));
            assert forall|j: int| #![trigger ray_square(a, d, j)] 1 <= j < n implies !occupied(v, ray_square(a, d, j)) by {
                assert(!occupied(w, ray_square(a, d, j)));
            }
        }
    }
    assert forall|p: PieceType, c: Color, a: int, b: int|
        #[trigger] piece_attacks(v, p, c, a, b) == piece_attacks(w, p, c, a, b) by {
        if diagonal_to(v, a, b) {
            let d = choose|d: int| 0 <= d < 4 && #[trigger] slides_to(v, a, d, b);
            assert(slides_to(w, a, d, b));
        }
        if diagonal_to(w, a, b) {
            let d = choose|d: int| 0 <= d < 4 && #[trigger] slides_to(w, a, d, b);
            assert(slides_to(v, a, d, b));
        }
        if straight_to(v, a, b) {
            let d = choose|d: int| 4 <= d < 8 && #[trigger] slides_to(v, a, d, b);
            assert(slides_to(w, a, d, b));
        }
        if straight_to(w, a, b) {
            let d = choose|d: int| 4 <= d < 8 && #[trigger] slides_to(w, a, d, b);
            assert(slides_to(v, a, d, b));
        }
    }
}

/// Attacks depend on the board only, not on whose turn it is.
pub proof fn lemma_attacks_same_board(v: GameView, w: GameView, c: Color, p: PieceType, target: u64)
    requires
        v.pieces == w.pieces,
        v.colors == w.colors,
    ensures
        attacks_some(v, c, p, target) == attacks_some(w, c, p, target),
{
    lemma_piece_attacks_same_board(v, w);
    if attacks_some(v, c, p, target) {
        let (a, b) = choose|a: int, b: int|
            #![trigger piece_attacks(v, p, c, a, b), is_set(target, b)]
            0 <= a < 64 && has_color(v, c, a) && has_type(v, p, a) && piece_attacks(v, p, c, a, b)
                && is_set(target, b);
        assert(piece_attacks(w, p, c, a, b));
    }
    if attacks_some(w, c, p, target) {
        let (a, b) = choose|a: int, b: int|
            #![trigger piece_attacks(w, p, c, a, b), is_set(target, b)]
            0 <= a < 64 && has_color(w, c, a) && has_type(w, p, a) && piece_attacks(w, p, c, a, b)
                && is_set(target, b);
        assert(piece_attacks(v, p, c, a, b));
    }
}

/// Whether a king is attacked depends on the board only, not on whose turn
/// it is.
pub proof fn lemma_check_same_board(v: GameView, w: GameView, c: Color)
    requires
        v.pieces == w.pieces,
        v.colors == w.colors,
    ensures
        king_in_check(v, c) == king_in_check(w, c),
{
    lemma_piece_attacks_same_board(v, w);
    if king_in_check(v, c) {
        let k = choose|k: int|
            #![trigger has_type(v, PieceType::King, k)]
            0 <= k < 64 && has_type(v, PieceType::King, k) && has_color(v, c, k) && attacked_by(v, opponent(c), k);
        let (a, p) = choose|a: int, p: PieceType|
            #![trigger piece_attacks(v, p, opponent(c), a, k)]
            0 <= a < 64 && has_color(v, opponent(c), a) && has_type(v, p, a) && piece_attacks(v, p, opponent(c), a, k);
        assert(piece_attacks(w, p, opponent(c), a, k));
        assert(has_type(w, PieceType::King, k));
    }
    if king_in_check(w, c) {
        let k = choose|k: int|
            #![trigger has_type(w, PieceType::King, k)]
            0 <= k < 64 && has_type(w, PieceType::King, k) && has_color(w, c, k) && attacked_by(w, opponent(c), k);
        let (a, p) = choose|a: int, p: PieceType|
            #![trigger piece_attacks(w, p, opponent(c), a, k)]
            0 <= a < 64 && has_color(w, opponent(c), a) && has_type(w, p, a) && piece_attacks(w, p, opponent(c), a, k);
        assert(piece_attacks(v, p, opponent(c), a, k));
        assert(has_type(v, PieceType::King, k));
    }
}

/// The piece taken on `t` by a move that captures when `capture` holds.
pub open spec fn captured_if(v: GameView, capture: bool, t: int) -> Option<PieceType> {
    if capture {
        type_at(v, t)
    } else {
        None
    }
}

/// The bits of a run of `len` squares starting at square `k`.
pub proof fn lemma_run(k: int, len: int, i: int)
    requires
        0 <= k,
        k + len <= 64,
        len == 2 || len == 3,
    ensures
        is_set((if len == 2 { 0x3u64 } else { 0x7u64 }) << (k as u64), i) == (k <= i < k + len),
{
    let x: u64 = if len == 2 { 0x3u64 } else { 0x7u64 };
    crate::engine::model::bits::lemma_shl(x, k, i);
    if 0 <= i - k < 64 {
        let j = (i - k) as u64;
        assert(j < 64 ==> (((0x3u64 >> j) & 1 == 1) <==> j < 2)) by (bit_vector);
        assert(j < 64 ==> (((0x7u64 >> j) & 1 == 1) <==> j < 3)) by (bit_vector);
    }
}

/// A square two sliding steps apart from its origin is never the origin.
proof fn lemma_slide_moves(v: GameView, a: int, d: int, b: int)
    requires
        0 <= a < 64,
        0 <= d < 8,
        slides_to(v, a, d, b),
    ensures
        a != b,
        0 <= b < 64,
{
    let n = choose|n: int|
        #![trigger ray_square(a, d, n)]
        n >= 1 && ray_on_board(a, d, n) && ray_square(a, d, n) == b && forall|j: int|
            #![trigger ray_square(a, d, j)]
            1 <= j < n ==> !occupied(v, ray_square(a, d, j));
}

/// In a well-formed position the recorded en-passant square of a move made
/// there decodes back to the position's.
proof fn lemma_en_passant_roundtrip(v: GameView, m: Move)
    requires
        wf(v),
        m.en_passant_code() == recorded_en_passant(v.en_passant),
    ensures
        m.spec_previous_en_passant() == v.en_passant,
{
}

/// Every pseudo-legal move of a well-formed position can be taken back: it
/// meets what `undo` needs to restore the position.
pub proof fn lemma_pseudo_legal_consistent(v: GameView, m: Move)
    requires
        wf(v),
        pseudo_legal(v, m),
    ensures
        consistent(v, m),
{
    let f = m.origin_code();
    let t = m.destination_code();
    let ty = m.spec_type();
    let p = m.spec_piece();
    let cap = m.spec_captured();
    let promo = m.spec_promoted();
    let me = v.player;
    let opp = opponent(v.player);
    lemma_make_move_decode(v, f, t, ty, p, cap, promo);
    lemma_en_passant_roundtrip(v, m);
    assert(!(has_color(v, me, t) && has_color(v, opp, t)));
    if ty == MoveType::Castle {
        assert(castle_destination(t));
        assert(!occupied(v, t));
    } else if p == PieceType::Pawn {
        if ty == MoveType::EnPassant {
            let sq = en_passant_victim(f, t);
            if me == Color::White {
                assert(sq == t - 8);
            } else {
                assert(sq == t + 8);
            }
        }
    } else {
        assert(piece_attacks(v, p, me, f, t));
        if p == PieceType::Bishop || p == PieceType::Queen && diagonal_to(v, f, t) {
            let d = choose|d: int| 0 <= d < 4 && #[trigger] slides_to(v, f, d, t);
            lemma_slide_moves(v, f, d, t);
        } else if p == PieceType::Rook || p == PieceType::Queen {
            let d = choose|d: int| 4 <= d < 8 && #[trigger] slides_to(v, f, d, t);
            lemma_slide_moves(v, f, d, t);
        }
    }
    if occupied(v, t) {
        let q = type_at(v, t)->0;
        assert(has_color(v, opp, t));
        assert forall|k: int| 0 <= k < 6 implies #[trigger] is_set(v.pieces[k], t) == captures(m, k) by {
            if k != q.idx() {
                assert(!(is_set(v.pieces[k], t) && is_set(v.pieces[q.idx()], t)));
            }
        }
    } else {
        assert forall|k: int| 0 <= k < 6 implies #[trigger] is_set(v.pieces[k], t) == captures(m, k) by {
            assert(type_at(v, t) is None);
            assert(!has_type(v, PieceType::of_idx(k), t));
        }
    }
}

impl GameState {
    /// The type of the piece on a square, looked up from pawns to kings.
    pub(crate) fn piece_at(&self, position: Square) -> (r: Option<PieceType>)
        requires
            position.0 < 64,
        ensures
            r == type_at(self@, position.0 as int),
    {
        if contains(self.board.pieces[PieceType::Pawn.index()], position) {
            return Some(PieceType::Pawn);
        }
        if contains(self.board.pieces[PieceType::Knight.index()], position) {
            return Some(PieceType::Knight);
        }
        if contains(self.board.pieces[PieceType::Bishop.index()], position) {
            return Some(PieceType::Bishop);
        }
        if contains(self.board.pieces[PieceType::Rook.index()], position) {
            return Some(PieceType::Rook);
        }
        if contains(self.board.pieces[PieceType::Queen.index()], position) {
            return Some(PieceType::Queen);
        }
        if contains(self.board.pieces[PieceType::King.index()], position) {
            return Some(PieceType::King);
        }
        return None;
    }

    /// Adds, for each square of `targets`, the normal move of a piece of type
    /// `t` from `origin` to it, capturing the piece there when `capture` holds.
    fn push_targets(
        &self,
        moves: &mut Vec<Move>,
        origin: Square,
        targets: BitBoard,
        t: PieceType,
        capture: bool,
    )
        requires
            origin.0 < 64,
            self.castling.0 < 16,
        ensures
            final(moves)@.len() >= old(moves)@.len(),
            final(moves)@.subrange(0, old(moves)@.len() as int) == old(moves)@,
            tail(final(moves)@, old(moves)@.len() as int).no_duplicates(),
            forall|j: int|
                old(moves)@.len() <= j < final(moves)@.len() ==> {
                    let m = #[trigger] final(moves)@[j];
                    &&& is_set(targets.0, m.destination_code())
                    &&& m == make_move(
                        self@,
                        origin.0 as int,
                        m.destination_code(),
                        MoveType::Normal,
                        t,
                        if capture {
                            type_at(self@, m.destination_code())
                        } else {
                            None
                        },
                        None,
                    )
                },
            forall|d: int|
                #![trigger is_set(targets.0, d)]
                is_set(targets.0, d) ==> exists|j: int|
                    old(moves)@.len() <= j < final(moves)@.len() && #[trigger] final(moves)@[j]
                        == make_move(
                        self@,
                        origin.0 as int,
                        d,
                        MoveType::Normal,
                        t,
                        if capture {
                            type_at(self@, d)
                        } else {
                            None
                        },
                        None,
                    ),
    {
        let ghost v = self@;
        let ghost start = moves@.len();
        let mut rest = targets;
        proof {
            assert(tail(moves@, start as int) =~= Seq::<Move>::empty());
        }
        while rest.0 != 0
            invariant
                origin.0 < 64,
                self.castling.0 < 16,
                v == self@,
                moves@.len() >= start,
                start == old(moves)@.len(),
                moves@.subrange(0, start as int) == old(moves)@,
                tail(moves@, start as int).no_duplicates(),
                forall|d: int| #[trigger] is_set(rest.0, d) ==> is_set(targets.0, d),
                forall|j: int|
                    start <= j < moves@.len() ==> {
                        let m = #[trigger] moves@[j];
                        &&& is_set(targets.0, m.destination_code())
                        &&& !is_set(rest.0, m.destination_code())
                        &&& m == make_move(
                            v,
                            origin.0 as int,
                            m.destination_code(),
                            MoveType::Normal,
                            t,
                            if capture {
                                type_at(v, m.destination_code())
                            } else {
                                None
                            },
                            None,
                        )
                    },
                forall|d: int|
                    #![trigger is_set(targets.0, d)]
                    is_set(targets.0, d) && !is_set(rest.0, d) ==> exists|j: int|
                        start <= j < moves@.len() && #[trigger] moves@[j] == make_move(
                            v,
                            origin.0 as int,
                            d,
                            MoveType::Normal,
                            t,
                            if capture {
                                type_at(v, d)
                            } else {
                                None
                            },
                            None,
                        ),
            decreases rest.0,
        {
            let ghost before = rest;
            let ghost moves_before = moves@;
            let destination = rest.next().unwrap();
            {
                {
                    let captured = if capture {
                        self.piece_at(destination)
                    } else {
                        None
                    };
                    let m = Move::new(
                        origin,
                        destination,
                        MoveType::Normal,
                        t,
                        captured,
                        None,
                        self.en_passant,
                        self.castling,
                    );
                    proof {
                        lemma_make_move_decode(
                            v,
                            origin.0 as int,
                            destination.0 as int,
                            MoveType::Normal,
                            t,
                            captured,
                            None,
                        );
                    }
                    moves.push(m);
                    proof {
                        let seg = tail(moves_before, start as int);
                        assert(tail(moves@, start as int) =~= seg.push(m));
                        assert forall|k: int| 0 <= k < seg.len() implies seg[k] != m by {
                            assert(seg[k] == moves_before[start + k]);
                            assert(!is_set(before.0, moves_before[start + k].destination_code()));
                        }
                        lemma_push_fresh(seg, m);
                        assert(moves@.subrange(0, start as int) =~= old(moves)@);
                        assert forall|d: int|
                            #![trigger is_set(targets.0, d)]
                            is_set(targets.0, d) && !is_set(rest.0, d) implies exists|j: int|
                                start <= j < moves@.len() && #[trigger] moves@[j] == make_move(
                                    v,
                                    origin.0 as int,
                                    d,
                                    MoveType::Normal,
                                    t,
                                    if capture {
                                        type_at(v, d)
                                    } else {
                                        None
                                    },
                                    None,
                                ) by {
                            if d == destination.0 {
                                assert(moves@[moves@.len() - 1] == m);
                            } else {
                                let j = choose|j: int|
                                    start <= j < moves_before.len() && #[trigger] moves_before[j]
                                        == make_move(
                                        v,
                                        origin.0 as int,
                                        d,
                                        MoveType::Normal,
                                        t,
                                        if capture {
                                            type_at(v, d)
                                        } else {
                                            None
                                        },
                                        None,
                                    );
                                assert(moves@[j] == moves_before[j]);
                            }
                        }
                    }
                }
            }
        }
        proof {
            assert forall|d: int| !is_set(rest.0, d) by {
                crate::engine::model::bits::lemma_zero(d);
            }
        }
    }

    /// Adds the moves of every piece of the mover of type `t`, a knight or a
    /// king, that reaches its destinations by the given offsets: captures of
    /// the opponent's pieces and moves to empty squares.
    #[verifier::rlimit(40)]
    fn offset_movements(&self, moves: &mut Vec<Move>, t: PieceType, offsets: &[(i32, i32); 8])
        requires
            wf(self@),
            t == PieceType::Knight || t == PieceType::King,
            t == PieceType::Knight ==> offsets@ == knight_offsets(),
            t == PieceType::King ==> offsets@ == king_offsets(),
        ensures
            extends(old(moves)@, final(moves)@),
            tail(final(moves)@, old(moves)@.len() as int).no_duplicates(),
            forall|j: int|
                old(moves)@.len() <= j < final(moves)@.len() ==> {
                    let m = #[trigger] final(moves)@[j];
                    &&& pseudo_legal(self@, m)
                    &&& m.spec_piece() == t
                    &&& m.spec_type() == MoveType::Normal
                },
            forall|f: int, d: int|
                #![trigger make_move(self@, f, d, MoveType::Normal, t, capture_on(self@, d), None)]
                pseudo_legal_shape(self@, f, d, MoveType::Normal, t, capture_on(self@, d), None)
                    ==> added(
                    final(moves)@,
                    old(moves)@.len() as int,
                    make_move(self@, f, d, MoveType::Normal, t, capture_on(self@, d), None),
                ),
    {
        let ghost v = self@;
        let ghost start = moves@.len() as int;
        let us = self.current_player.index();
        let them = self.current_player.not().index();
        let pieces = self.board.colors[us].bitand(self.board.pieces[t.index()]);
        let all = self.board.colors[0].bitor(self.board.colors[1]);
        let theirs = self.board.colors[them];

        let mut rest = pieces;
        proof {
            assert(moves@.subrange(0, start) =~= moves@);
            assert(tail(moves@, start) =~= Seq::<Move>::empty());
        }
        while rest.0 != 0
            invariant
                wf(v),
                v == self@,
                t == PieceType::Knight || t == PieceType::King,
                t == PieceType::Knight ==> offsets@ == knight_offsets(),
                t == PieceType::King ==> offsets@ == king_offsets(),
                us == v.player.idx(),
                them == opponent(v.player).idx(),
                forall|i: int| #[trigger] is_set(pieces.0, i) == (has_color(v, v.player, i) && has_type(v, t, i)),
                forall|i: int| #[trigger] is_set(all.0, i) == occupied(v, i),
                theirs.0 == v.colors[them as int],
                forall|i: int| #[trigger] is_set(rest.0, i) ==> is_set(pieces.0, i),
                start == old(moves)@.len(),
                extends(old(moves)@, moves@),
                tail(moves@, start).no_duplicates(),
                forall|j: int| start <= j < moves@.len() ==> !is_set(rest.0, #[trigger] moves@[j].origin_code()),
                forall|j: int|
                    start <= j < moves@.len() ==> {
                        let m = #[trigger] moves@[j];
                        &&& pseudo_legal(v, m)
                        &&& m.spec_piece() == t
                        &&& m.spec_type() == MoveType::Normal
                    },
                forall|f: int, d: int|
                    #![trigger make_move(v, f, d, MoveType::Normal, t, capture_on(v, d), None)]
                    pseudo_legal_shape(v, f, d, MoveType::Normal, t, capture_on(v, d), None)
                        && !is_set(rest.0, f) ==> added(
                        moves@,
                        start,
                        make_move(v, f, d, MoveType::Normal, t, capture_on(v, d), None),
                    ),
            decreases rest.0,
        {
            let ghost rest_before = rest;
            let ghost moves_before = moves@;
            let origin = rest.next().unwrap();
            let table = offset_movements(offsets, origin.0);
            proof {
                assert forall|d: int| #[trigger] is_set(table.0, d) == piece_attacks(v, t, v.player, origin.0 as int, d) by {
                    if t == PieceType::Knight {
                        lemma_knight_offsets(*offsets, origin.0 as int, d);
                    } else {
                        lemma_king_offsets(*offsets, origin.0 as int, d);
                    }
                }
            }
            let captures = table.bitand(theirs);
            let non_captures = table.bitand(all.not());
            self.push_targets(moves, origin, captures, t, true);
            let ghost moves_mid = moves@;
            self.push_targets(moves, origin, non_captures, t, false);
            proof {
                lemma_extends_trans(moves_before, moves_mid, moves@);
                lemma_extends_trans(old(moves)@, moves_before, moves@);
                assert forall|j: int| start <= j < moves@.len() implies {
                    let m = #[trigger] moves@[j];
                    &&& pseudo_legal(v, m)
                    &&& m.spec_piece() == t
                    &&& m.spec_type() == MoveType::Normal
                } by {
                    let m = moves@[j];
                    if j < moves_before.len() {
                        assert(moves@.subrange(0, moves_before.len() as int)[j] == moves@[j]);
                    } else {
                        let d = m.destination_code();
                        if j < moves_mid.len() {
                            assert(moves@.subrange(0, moves_mid.len() as int)[j] == moves@[j]);
                            assert(is_set(captures.0, d));
                            assert(capture_on(v, d) == type_at(v, d));
                        } else {
                            assert(is_set(non_captures.0, d));
                            assert(!occupied(v, d));
                        }
                        assert(0 <= d < 64);
                        lemma_make_move_decode(v, origin.0 as int, d, MoveType::Normal, t, capture_on(v, d), None);
                    }
                }
                assert forall|f: int, d: int|
                    #![trigger make_move(v, f, d, MoveType::Normal, t, capture_on(v, d), None)]
                    pseudo_legal_shape(v, f, d, MoveType::Normal, t, capture_on(v, d), None)
                        && !is_set(rest.0, f) implies added(
                        moves@,
                        start,
                        make_move(v, f, d, MoveType::Normal, t, capture_on(v, d), None),
                    ) by {
                    if f == origin.0 {
                        if has_color(v, opponent(v.player), d) {
                            assert(is_set(captures.0, d));
                            let j = choose|j: int| moves_before.len() <= j < moves_mid.len() && #[trigger] moves_mid[j] == make_move(v, origin.0 as int, d, MoveType::Normal, t, type_at(v, d), None);
                            assert(added(moves_mid, start, make_move(v, f, d, MoveType::Normal, t, capture_on(v, d), None)));
                            lemma_added_grows(moves_mid, moves@, start, make_move(v, f, d, MoveType::Normal, t, capture_on(v, d), None));
                        } else {
                            assert(is_set(non_captures.0, d));
                            let j = choose|j: int| moves_mid.len() <= j < moves@.len() && #[trigger] moves@[j] == make_move(v, origin.0 as int, d, MoveType::Normal, t, None, None);
                        }
                    } else {
                        assert(!is_set(rest_before.0, f));
                        lemma_added_grows(moves_before, moves@, start, make_move(v, f, d, MoveType::Normal, t, capture_on(v, d), None));
                    }
                }
            }
            proof {
                let seg = tail(moves_before, start);
                let part1 = tail(moves_mid, moves_before.len() as int);
                let part2 = tail(moves@, moves_mid.len() as int);
                lemma_extends_trans(old(moves)@, moves_before, moves_mid);
                lemma_tail_split(moves_before, moves_mid, moves@);
                assert forall|k: int| 0 <= k < part1.len() implies {
                    &&& (#[trigger] part1[k]).origin_code() == origin.0
                    &&& part1[k].spec_captured() is Some
                } by {
                    let m = moves_mid[moves_before.len() + k];
                    assert(part1[k] == m);
                    let d = m.destination_code();
                    assert(is_set(captures.0, d));
                    assert(0 <= d < 64);
                    assert(has_color(v, opponent(v.player), d));
                    assert(occupied(v, d));
                    lemma_make_move_decode(v, origin.0 as int, d, MoveType::Normal, t, type_at(v, d), None);
                }
                assert forall|k: int| 0 <= k < part2.len() implies {
                    &&& (#[trigger] part2[k]).origin_code() == origin.0
                    &&& part2[k].spec_captured() is None
                } by {
                    let m = moves@[moves_mid.len() + k];
                    assert(part2[k] == m);
                    let d = m.destination_code();
                    assert(is_set(non_captures.0, d));
                    assert(0 <= d < 64);
                    lemma_make_move_decode(v, origin.0 as int, d, MoveType::Normal, t, None, None);
                }
                assert forall|x: int, y: int| 0 <= x < part1.len() && 0 <= y < part2.len() implies part1[x] != part2[y] by {
                    assert(part1[x].spec_captured() is Some);
                    assert(part2[y].spec_captured() is None);
                }
                lemma_concat_fresh(part1, part2);
                assert forall|x: int, y: int| 0 <= x < seg.len() && 0 <= y < (part1 + part2).len() implies seg[x] != (part1 + part2)[y] by {
                    assert(seg[x] == moves_before[start + x]);
                    assert(!is_set(rest_before.0, moves_before[start + x].origin_code()));
                    if y < part1.len() {
                        assert((part1 + part2)[y] == part1[y]);
                    } else {
                        assert((part1 + part2)[y] == part2[y - part1.len()]);
                    }
                }
                lemma_concat_fresh(seg, part1 + part2);
                assert(tail(moves@, start) =~= seg + (part1 + part2));
                assert forall|j: int| start <= j < moves@.len() implies !is_set(rest.0, #[trigger] moves@[j].origin_code()) by {
                    if j < moves_before.len() {
                        assert(moves@.subrange(0, moves_before.len() as int)[j] == moves@[j]);
                        assert(moves_before[j] == moves@[j]);
                    } else if j < moves_mid.len() {
                        assert(part1[j - moves_before.len()] == moves@[j]) by {
                            assert(moves@.subrange(0, moves_mid.len() as int)[j] == moves@[j]);
                        }
                    } else {
                        assert(part2[j - moves_mid.len()] == moves@[j]);
                    }
                }
            }
        }
        proof {
            assert forall|f: int| !is_set(rest.0, f) by {
                crate::engine::model::bits::lemma_zero(f);
            }
        }
    }

    /// Adds the moves of a piece of type `t` on `origin` that slides in
    /// direction `d`: to each empty square of the ray, and onto the first
    /// piece on it when that piece is the opponent's.
    #[verifier::rlimit(40)]
    fn slide_ray(&self, moves: &mut Vec<Move>, origin: Square, d: usize, t: PieceType)
        requires
            wf(self@),
            origin.0 < 64,
            d < 8,
        ensures
            extends(old(moves)@, final(moves)@),
            tail(final(moves)@, old(moves)@.len() as int).no_duplicates(),
            forall|j: int|
                old(moves)@.len() <= j < final(moves)@.len() ==> {
                    let m = #[trigger] final(moves)@[j];
                    let b = m.destination_code();
                    &&& 0 <= b < 64
                    &&& slides_to(self@, origin.0 as int, d as int, b)
                    &&& !has_color(self@, self@.player, b)
                    &&& m == make_move(self@, origin.0 as int, b, MoveType::Normal, t, capture_on(self@, b), None)
                },
            forall|b: int|
                #![trigger slides_to(self@, origin.0 as int, d as int, b)]
                slides_to(self@, origin.0 as int, d as int, b) && !has_color(self@, self@.player, b)
                    ==> added(
                    final(moves)@,
                    old(moves)@.len() as int,
                    make_move(self@, origin.0 as int, b, MoveType::Normal, t, capture_on(self@, b), None),
                ),
    {
        let ghost v = self@;
        let ghost a = origin.0 as int;
        let ghost start = moves@.len() as int;
        let us = self.current_player.index();
        let them = self.current_player.not().index();
        let ours = self.board.colors[us];
        let theirs = self.board.colors[them];
        let (row_offset, column_offset) = direction(d);
        let mut current_row = origin.row() as i32 + row_offset;
        let mut current_column = origin.col() as i32 + column_offset;
        let ghost mut n: int = 1;
        let mut blocked = false;
        proof {
            assert(moves@.subrange(0, start) =~= moves@);
            assert(tail(moves@, start) =~= Seq::<Move>::empty());
        }
        while !blocked && Square::valid(current_row, current_column)
            invariant
                wf(v),
                v == self@,
                0 <= a < 64,
                a == origin.0,
                d < 8,
                us == v.player.idx(),
                them == opponent(v.player).idx(),
                ours.0 == v.colors[us as int],
                theirs.0 == v.colors[them as int],
                row_offset == row_delta(d as int, 1),
                column_offset == col_delta(d as int, 1),
                1 <= n <= 8,
                current_row == row(a) + row_delta(d as int, n),
                current_column == col(a) + col_delta(d as int, n),
                ray_on_board(a, d as int, n - 1),
                forall|j: int|
                    #![trigger ray_square(a, d as int, j)]
                    1 <= j < n ==> !occupied(v, ray_square(a, d as int, j)) && ray_on_board(a, d as int, j),
                blocked ==> ray_on_board(a, d as int, n) && occupied(v, ray_square(a, d as int, n)),
                start == old(moves)@.len(),
                extends(old(moves)@, moves@),
                tail(moves@, start).no_duplicates(),
                forall|j: int|
                    start <= j < moves@.len() ==> exists|k: int|
                        #![trigger ray_square(a, d as int, k)]
                        1 <= k && (k < n || (blocked && k == n)) && ray_on_board(a, d as int, k) && ray_square(a, d as int, k)
                            == (#[trigger] moves@[j]).destination_code(),
                forall|j: int|
                    start <= j < moves@.len() ==> {
                        let m = #[trigger] moves@[j];
                        let b = m.destination_code();
                        &&& 0 <= b < 64
                        &&& slides_to(v, a, d as int, b)
                        &&& !has_color(v, v.player, b)
                        &&& m == make_move(v, a, b, MoveType::Normal, t, capture_on(v, b), None)
                    },
                forall|j: int|
                    #![trigger ray_square(a, d as int, j)]
                    1 <= j < n ==> added(
                        moves@,
                        start,
                        make_move(v, a, ray_square(a, d as int, j), MoveType::Normal, t, None, None),
                    ),
                blocked && has_color(v, opponent(v.player), ray_square(a, d as int, n)) ==> added(
                    moves@,
                    start,
                    make_move(
                        v,
                        a,
                        ray_square(a, d as int, n),
                        MoveType::Normal,
                        t,
                        capture_on(v, ray_square(a, d as int, n)),
                        None,
                    ),
                ),
            decreases 8 - n + (if blocked { 0int } else { 1int }),
        {
            let ghost moves_before = moves@;
            let ghost n_before = n;
            let destination = Square::from(current_row as usize, current_column as usize);
            let ghost b = ray_square(a, d as int, n);
            assert(destination.0 == b);
            if contains(ours, destination) {
                blocked = true;
            } else if contains(theirs, destination) {
                let captured = self.piece_at(destination);
                let m = Move::new(origin, destination, MoveType::Normal, t, captured, None, self.en_passant, self.castling);
                moves.push(m);
                blocked = true;
                proof {
                    assert(slides_to(v, a, d as int, b));
                    assert(capture_on(v, b) == captured);
                    lemma_make_move_decode(v, a, b, MoveType::Normal, t, captured, None);
                }
            } else {
                let m = Move::new(origin, destination, MoveType::Normal, t, None, None, self.en_passant, self.castling);
                moves.push(m);
                proof {
                    assert(slides_to(v, a, d as int, b));
                    assert(!occupied(v, b));
                    assert(capture_on(v, b) == None::<PieceType>);
                    lemma_make_move_decode(v, a, b, MoveType::Normal, t, None, None);
                }
                current_row = current_row + row_offset;
                current_column = current_column + column_offset;
                proof {
                    n = n + 1;
                }
            }
            proof {
                assert(moves@.subrange(0, moves_before.len() as int) =~= moves_before);
                lemma_extends_trans(old(moves)@, moves_before, moves@);
                let seg = tail(moves_before, start);
                if moves@.len() > moves_before.len() {
                    let m = moves@[moves@.len() - 1];
                    assert(m.destination_code() == b);
                    assert(tail(moves@, start) =~= seg.push(m));
                    assert forall|k: int| 0 <= k < seg.len() implies seg[k] != m by {
                        let x = moves_before[start + k];
                        assert(seg[k] == x);
                        let kk = choose|kk: int|
                            #![trigger ray_square(a, d as int, kk)]
                            1 <= kk && kk < n_before && ray_on_board(a, d as int, kk) && ray_square(a, d as int, kk) == x.destination_code();
                        if x == m {
                            lemma_ray_injective(a, d as int, kk, n_before);
                        }
                    }
                    lemma_push_fresh(seg, m);
                } else {
                    assert(tail(moves@, start) =~= seg);
                }
                assert forall|jj: int| start <= jj < moves@.len() implies exists|k: int|
                    #![trigger ray_square(a, d as int, k)]
                    1 <= k && (k < n || (blocked && k == n)) && ray_on_board(a, d as int, k) && ray_square(a, d as int, k)
                        == (#[trigger] moves@[jj]).destination_code() by {
                    if jj < moves_before.len() {
                        assert(moves@[jj] == moves_before[jj]);
                        let kk = choose|kk: int|
                            #![trigger ray_square(a, d as int, kk)]
                            1 <= kk && kk < n_before && ray_on_board(a, d as int, kk) && ray_square(a, d as int, kk) == moves_before[jj].destination_code();
                        assert(ray_square(a, d as int, kk) == moves@[jj].destination_code());
                    } else {
                        assert(ray_square(a, d as int, n_before) == moves@[jj].destination_code());
                    }
                }
                assert forall|j: int| start <= j < moves@.len() implies {
                    let m = #[trigger] moves@[j];
                    let b = m.destination_code();
                    &&& 0 <= b < 64
                    &&& slides_to(v, a, d as int, b)
                    &&& !has_color(v, v.player, b)
                    &&& m == make_move(v, a, b, MoveType::Normal, t, capture_on(v, b), None)
                } by {
                    if j < moves_before.len() {
                        assert(moves@[j] == moves_before[j]);
                    }
                }
                assert forall|j: int|
                    #![trigger ray_square(a, d as int, j)]
                    1 <= j < n implies added(
                        moves@,
                        start,
                        make_move(v, a, ray_square(a, d as int, j), MoveType::Normal, t, None, None),
                    ) by {
                    if ray_square(a, d as int, j) == b && !blocked {
                        assert(moves@[moves@.len() - 1] == make_move(v, a, b, MoveType::Normal, t, None, None));
                    } else {
                        lemma_added_grows(moves_before, moves@, start, make_move(v, a, ray_square(a, d as int, j), MoveType::Normal, t, None, None));
                    }
                }
                if blocked && has_color(v, opponent(v.player), b) {
                    assert(moves@[moves@.len() - 1] == make_move(v, a, b, MoveType::Normal, t, capture_on(v, b), None));
                }
            }
        }
        proof {
            assert forall|b: int|
                #![trigger slides_to(v, a, d as int, b)]
                slides_to(v, a, d as int, b) && !has_color(v, v.player, b) implies added(
                    moves@,
                    start,
                    make_move(v, a, b, MoveType::Normal, t, capture_on(v, b), None),
                ) by {
                let n0 = choose|n0: int|
                    #![trigger ray_square(a, d as int, n0)]
                    n0 >= 1 && ray_on_board(a, d as int, n0) && ray_square(a, d as int, n0) == b && forall|j: int|
                        #![trigger ray_square(a, d as int, j)]
                        1 <= j < n0 ==> !occupied(v, ray_square(a, d as int, j));
                if n0 < n {
                    assert(!occupied(v, b));
                    assert(capture_on(v, b) == None::<PieceType>);
                } else if n0 == n {
                    assert(blocked);
                } else {
                    if blocked {
                        assert(!occupied(v, ray_square(a, d as int, n)));
                    } else {
                        lemma_ray_leaves(a, d as int, n, n0);
                    }
                }
            }
        }
    }

    /// Adds the moves of every piece of the mover of type `t`, a bishop, a
    /// rook or a queen, sliding in the directions `first..last`.
    #[verifier::rlimit(40)]
    fn sliding_movements(&self, moves: &mut Vec<Move>, t: PieceType, first: usize, last: usize)
        requires
            wf(self@),
            t == PieceType::Bishop ==> first == 0 && last == 4,
            t == PieceType::Rook ==> first == 4 && last == 8,
            t == PieceType::Queen ==> first == 0 && last == 8,
            t == PieceType::Bishop || t == PieceType::Rook || t == PieceType::Queen,
        ensures
            extends(old(moves)@, final(moves)@),
            tail(final(moves)@, old(moves)@.len() as int).no_duplicates(),
            forall|j: int|
                old(moves)@.len() <= j < final(moves)@.len() ==> {
                    let m = #[trigger] final(moves)@[j];
                    &&& pseudo_legal(self@, m)
                    &&& m.spec_piece() == t
                    &&& m.spec_type() == MoveType::Normal
                },
            forall|f: int, b: int|
                #![trigger make_move(self@, f, b, MoveType::Normal, t, capture_on(self@, b), None)]
                pseudo_legal_shape(self@, f, b, MoveType::Normal, t, capture_on(self@, b), None)
                    ==> added(
                    final(moves)@,
                    old(moves)@.len() as int,
                    make_move(self@, f, b, MoveType::Normal, t, capture_on(self@, b), None),
                ),
    {
        let ghost v = self@;
        let ghost start = moves@.len() as int;
        let us = self.current_player.index();
        let pieces = self.board.colors[us].bitand(self.board.pieces[t.index()]);
        let mut rest = pieces;
        proof {
            assert(moves@.subrange(0, start) =~= moves@);
            assert(tail(moves@, start) =~= Seq::<Move>::empty());
            assert forall|f: int, b: int| piece_attacks(v, t, v.player, f, b) == (exists|d: int| first <= d < last && #[trigger] slides_to(v, f, d, b)) by {
                if t == PieceType::Queen {
                    if exists|d: int| first <= d < last && #[trigger] slides_to(v, f, d, b) {
                        let d = choose|d: int| first <= d < last && #[trigger] slides_to(v, f, d, b);
                        if d < 4 {
                            assert(diagonal_to(v, f, b));
                        } else {
                            assert(straight_to(v, f, b));
                        }
                    }
                }
            }
        }
        while rest.0 != 0
            invariant
                wf(v),
                v == self@,
                t == PieceType::Bishop || t == PieceType::Rook || t == PieceType::Queen,
                first <= last <= 8,
                us == v.player.idx(),
                forall|f: int, b: int| piece_attacks(v, t, v.player, f, b) == (exists|d: int| first <= d < last && #[trigger] slides_to(v, f, d, b)),
                forall|i: int| #[trigger] is_set(pieces.0, i) == (has_color(v, v.player, i) && has_type(v, t, i)),
                forall|i: int| #[trigger] is_set(rest.0, i) ==> is_set(pieces.0, i),
                start == old(moves)@.len(),
                extends(old(moves)@, moves@),
                tail(moves@, start).no_duplicates(),
                forall|j: int| start <= j < moves@.len() ==> !is_set(rest.0, #[trigger] moves@[j].origin_code()),
                forall|j: int|
                    start <= j < moves@.len() ==> {
                        let m = #[trigger] moves@[j];
                        &&& pseudo_legal(v, m)
                        &&& m.spec_piece() == t
                        &&& m.spec_type() == MoveType::Normal
                    },
                forall|f: int, b: int|
                    #![trigger make_move(v, f, b, MoveType::Normal, t, capture_on(v, b), None)]
                    pseudo_legal_shape(v, f, b, MoveType::Normal, t, capture_on(v, b), None)
                        && !is_set(rest.0, f) ==> added(
                        moves@,
                        start,
                        make_move(v, f, b, MoveType::Normal, t, capture_on(v, b), None),
                    ),
            decreases rest.0,
        {
            let ghost rest_before = rest;
            let ghost moves_before = moves@;
            let origin = rest.next().unwrap();
            let ghost a = origin.0 as int;
            let mut d = first;
            proof {
                assert(moves@.subrange(0, moves@.len() as int) =~= moves@);
                assert forall|j: int| start <= j < moves_before.len() implies !is_set(rest_before.0, #[trigger] moves_before[j].origin_code()) by {
                    assert(moves_before[j] == moves@[j]);
                }
            }
            while d < last
                invariant
                    wf(v),
                    v == self@,
                    t == PieceType::Bishop || t == PieceType::Rook || t == PieceType::Queen,
                    first <= d <= last <= 8,
                    0 <= a < 64,
                    a == origin.0,
                    is_set(pieces.0, a),
                    forall|i: int| #[trigger] is_set(pieces.0, i) == (has_color(v, v.player, i) && has_type(v, t, i)),
                    forall|f: int, b: int| piece_attacks(v, t, v.player, f, b) == (exists|d: int| first <= d < last && #[trigger] slides_to(v, f, d, b)),
                    start == old(moves)@.len(),
                    extends(old(moves)@, moves_before),
                    extends(moves_before, moves@),
                    tail(moves@, start).no_duplicates(),
                    is_set(rest_before.0, a),
                    forall|j: int| start <= j < moves_before.len() ==> !is_set(rest_before.0, #[trigger] moves_before[j].origin_code()),
                    forall|j: int| moves_before.len() <= j < moves@.len() ==> (#[trigger] moves@[j]).origin_code() == a
                        && slides_before(v, a, first as int, d as int, moves@[j].destination_code()),
                    forall|j: int|
                        start <= j < moves@.len() ==> {
                            let m = #[trigger] moves@[j];
                            &&& pseudo_legal(v, m)
                            &&& m.spec_piece() == t
                            &&& m.spec_type() == MoveType::Normal
                        },
                    forall|dd: int, b: int|
                        #![trigger slides_to(v, a, dd, b)]
                        first <= dd < d && slides_to(v, a, dd, b) && !has_color(v, v.player, b) ==> added(
                            moves@,
                            start,
                            make_move(v, a, b, MoveType::Normal, t, capture_on(v, b), None),
                        ),
                decreases last - d,
            {
                let ghost moves_ray = moves@;
                self.slide_ray(moves, origin, d, t);
                proof {
                    lemma_extends_trans(moves_before, moves_ray, moves@);
                    lemma_extends_trans(old(moves)@, moves_before, moves_ray);
                    lemma_tail_split(old(moves)@, moves_ray, moves@);
                    let seg = tail(moves_ray, start);
                    let part = tail(moves@, moves_ray.len() as int);
                    assert forall|k: int| 0 <= k < part.len() implies {
                        &&& (#[trigger] part[k]).origin_code() == a
                        &&& slides_to(v, a, d as int, part[k].destination_code())
                    } by {
                        let m = moves@[moves_ray.len() + k];
                        assert(part[k] == m);
                        let b = m.destination_code();
                        lemma_make_move_decode(v, a, b, MoveType::Normal, t, capture_on(v, b), None);
                    }
                    assert forall|x: int, y: int| 0 <= x < seg.len() && 0 <= y < part.len() implies seg[x] != part[y] by {
                        let m = moves_ray[start + x];
                        assert(seg[x] == m);
                        if start + x < moves_before.len() {
                            assert(moves_before[start + x] == m) by {
                                assert(moves_ray.subrange(0, moves_before.len() as int)[start + x] == moves_ray[start + x]);
                            }
                            assert(!is_set(rest_before.0, m.origin_code()));
                        } else {
                            assert(slides_before(v, a, first as int, d as int, moves_ray[start + x].destination_code()));
                            let dd = choose|dd: int| first <= dd < d && #[trigger] slides_to(v, a, dd, moves_ray[start + x].destination_code());
                            if m == part[y] {
                                lemma_slides_unique(v, a, dd, d as int, m.destination_code());
                            }
                        }
                    }
                    lemma_concat_fresh(seg, part);
                    assert forall|jj: int| moves_before.len() <= jj < moves@.len() implies ((#[trigger] moves@[jj]).origin_code() == a
                        && slides_before(v, a, first as int, d + 1, moves@[jj].destination_code())) by {
                        if jj < moves_ray.len() {
                            assert(moves@[jj] == moves_ray[jj]) by {
                                assert(moves@.subrange(0, moves_ray.len() as int)[jj] == moves@[jj]);
                            }
                            assert(slides_before(v, a, first as int, d as int, moves_ray[jj].destination_code()));
                            let dd = choose|dd: int| first <= dd < d && #[trigger] slides_to(v, a, dd, moves_ray[jj].destination_code());
                            assert(slides_to(v, a, dd, moves@[jj].destination_code()));
                        } else {
                            assert(part[jj - moves_ray.len()] == moves@[jj]);
                            assert(slides_to(v, a, d as int, moves@[jj].destination_code()));
                        }
                    }
                    assert forall|j: int| start <= j < moves@.len() implies {
                        let m = #[trigger] moves@[j];
                        &&& pseudo_legal(v, m)
                        &&& m.spec_piece() == t
                        &&& m.spec_type() == MoveType::Normal
                    } by {
                        let m = moves@[j];
                        if j < moves_ray.len() {
                            assert(moves@.subrange(0, moves_ray.len() as int)[j] == moves@[j]);
                            assert(moves_ray[j] == moves@[j]);
                        } else {
                            let b = m.destination_code();
                            assert(has_color(v, v.player, a) && has_type(v, t, a));
                            assert(slides_to(v, a, d as int, b));
                            assert(piece_attacks(v, t, v.player, a, b));
                            lemma_make_move_decode(v, a, b, MoveType::Normal, t, capture_on(v, b), None);

                        }
                    }
                    assert forall|dd: int, b: int|
                        #![trigger slides_to(v, a, dd, b)]
                        first <= dd < d + 1 && slides_to(v, a, dd, b) && !has_color(v, v.player, b) implies added(
                            moves@,
                            start,
                            make_move(v, a, b, MoveType::Normal, t, capture_on(v, b), None),
                        ) by {
                        if dd < d {
                            lemma_added_grows(moves_ray, moves@, start, make_move(v, a, b, MoveType::Normal, t, capture_on(v, b), None));
                        } else {
                            lemma_added_grows2(moves@, moves_ray.len() as int, start, make_move(v, a, b, MoveType::Normal, t, capture_on(v, b), None));
                        }
                    }
                }
                d += 1;
            }
            proof {
                lemma_extends_trans(old(moves)@, moves_before, moves@);
                assert forall|j: int| start <= j < moves@.len() implies !is_set(rest.0, #[trigger] moves@[j].origin_code()) by {
                    if j < moves_before.len() {
                        assert(moves@[j] == moves_before[j]) by {
                            assert(moves@.subrange(0, moves_before.len() as int)[j] == moves@[j]);
                        }
                    }
                }
                assert forall|f: int, b: int|
                    #![trigger make_move(v, f, b, MoveType::Normal, t, capture_on(v, b), None)]
                    pseudo_legal_shape(v, f, b, MoveType::Normal, t, capture_on(v, b), None)
                        && !is_set(rest.0, f) implies added(
                        moves@,
                        start,
                        make_move(v, f, b, MoveType::Normal, t, capture_on(v, b), None),
                    ) by {
                    if f == a {
                        let dd = choose|dd: int| first <= dd < last && #[trigger] slides_to(v, f, dd, b);
                    } else {
                        assert(!is_set(rest_before.0, f));
                        lemma_added_grows(moves_before, moves@, start, make_move(v, f, b, MoveType::Normal, t, capture_on(v, b), None));
                    }
                }
            }
        }
        proof {
            assert forall|f: int| !is_set(rest.0, f) by {
                crate::engine::model::bits::lemma_zero(f);
            }
        }
    }

    /// Whether a piece on `origin` sliding in direction `d` reaches a square
    /// of `target`.
    fn ray_hits(&self, origin: Square, d: usize, target: BitBoard) -> (r: bool)
        requires
            origin.0 < 64,
            d < 8,
            self@.colors.len() == 2,
        ensures
            r == exists|b: int| #[trigger] slides_to(self@, origin.0 as int, d as int, b) && is_set(target.0, b),
    {
        let ghost v = self@;
        let ghost a = origin.0 as int;
        let all = self.board.colors[0].bitor(self.board.colors[1]);
        let (row_offset, column_offset) = direction(d);
        let mut current_row = origin.row() as i32 + row_offset;
        let mut current_column = origin.col() as i32 + column_offset;
        let ghost mut n: int = 1;
        let mut blocked = false;
        while !blocked && Square::valid(current_row, current_column)
            invariant
                v == self@,
                0 <= a < 64,
                a == origin.0,
                d < 8,
                forall|i: int| #[trigger] is_set(all.0, i) == occupied(v, i),
                row_offset == row_delta(d as int, 1),
                column_offset == col_delta(d as int, 1),
                1 <= n <= 8,
                current_row == row(a) + row_delta(d as int, n),
                current_column == col(a) + col_delta(d as int, n),
                ray_on_board(a, d as int, n - 1),
                forall|j: int|
                    #![trigger ray_square(a, d as int, j)]
                    1 <= j < n ==> !occupied(v, ray_square(a, d as int, j)) && ray_on_board(a, d as int, j)
                        && !is_set(target.0, ray_square(a, d as int, j)),
                blocked ==> ray_on_board(a, d as int, n) && occupied(v, ray_square(a, d as int, n))
                    && !is_set(target.0, ray_square(a, d as int, n)),
            decreases 8 - n + (if blocked { 0int } else { 1int }),
        {
            let destination = Square::from(current_row as usize, current_column as usize);
            let ghost b = ray_square(a, d as int, n);
            assert(destination.0 == b);
            if contains(target, destination) {
                proof {
                    assert(slides_to(v, a, d as int, b));
                }
                return true;
            }
            if contains(all, destination) {
                blocked = true;
            } else {
                current_row = current_row + row_offset;
                current_column = current_column + column_offset;
                proof {
                    n = n + 1;
                }
            }
        }
        proof {
            assert forall|b: int| #[trigger] slides_to(v, a, d as int, b) implies !is_set(target.0, b) by {
                let n0 = choose|n0: int|
                    #![trigger ray_square(a, d as int, n0)]
                    n0 >= 1 && ray_on_board(a, d as int, n0) && ray_square(a, d as int, n0) == b && forall|j: int|
                        #![trigger ray_square(a, d as int, j)]
                        1 <= j < n0 ==> !occupied(v, ray_square(a, d as int, j));
                if n0 > n {
                    if blocked {
                        assert(!occupied(v, ray_square(a, d as int, n)));
                    } else {
                        lemma_ray_leaves(a, d as int, n, n0);
                    }
                } else if n0 == n && !blocked {
                    assert(ray_on_board(a, d as int, n0));
                }
            }
        }
        false
    }

    /// Whether a piece of the side to move of type `t`, a bishop, a rook or a
    /// queen, sliding in the directions `first..last`, reaches a square of
    /// `target`.
    fn sliding_attack(&self, t: PieceType, first: usize, last: usize, target: BitBoard) -> (r: bool)
        requires
            self@.colors.len() == 2,
            self@.pieces.len() == 6,
            t == PieceType::Bishop ==> first == 0 && last == 4,
            t == PieceType::Rook ==> first == 4 && last == 8,
            t == PieceType::Queen ==> first == 0 && last == 8,
            t == PieceType::Bishop || t == PieceType::Rook || t == PieceType::Queen,
        ensures
            r == attacks_some(self@, self@.player, t, target.0),
    {
        let ghost v = self@;
        let us = self.current_player.index();
        let pieces = self.board.colors[us].bitand(self.board.pieces[t.index()]);
        let mut rest = pieces;
        proof {
            assert forall|f: int, b: int| piece_attacks(v, t, v.player, f, b) == (exists|d: int| first <= d < last && #[trigger] slides_to(v, f, d, b)) by {
                if t == PieceType::Queen {
                    if exists|d: int| first <= d < last && #[trigger] slides_to(v, f, d, b) {
                        let d = choose|d: int| first <= d < last && #[trigger] slides_to(v, f, d, b);
                        if d < 4 {
                            assert(diagonal_to(v, f, b));
                        } else {
                            assert(straight_to(v, f, b));
                        }
                    }
                }
            }
        }
        while rest.0 != 0
            invariant
                v == self@,
                v.colors.len() == 2,
                first <= last <= 8,
                us == v.player.idx(),
                forall|f: int, b: int| piece_attacks(v, t, v.player, f, b) == (exists|d: int| first <= d < last && #[trigger] slides_to(v, f, d, b)),
                forall|i: int| #[trigger] is_set(pieces.0, i) == (has_color(v, v.player, i) && has_type(v, t, i)),
                forall|i: int| #[trigger] is_set(rest.0, i) ==> is_set(pieces.0, i),
                forall|a: int, b: int|
                    #![trigger piece_attacks(v, t, v.player, a, b), is_set(target.0, b)]
                    0 <= a < 64 && is_set(pieces.0, a) && !is_set(rest.0, a) && piece_attacks(v, t, v.player, a, b) ==> !is_set(target.0, b),
            decreases rest.0,
        {
            let ghost rest_before = rest;
            let origin = rest.next().unwrap();
            let mut d = first;
            while d < last
                invariant
                    v == self@,
                    v.colors.len() == 2,
                    first <= d <= last <= 8,
                    origin.0 < 64,
                    is_set(pieces.0, origin.0 as int),
                    forall|i: int| #[trigger] is_set(pieces.0, i) == (has_color(v, v.player, i) && has_type(v, t, i)),
                    forall|f: int, b: int| piece_attacks(v, t, v.player, f, b) == (exists|d: int| first <= d < last && #[trigger] slides_to(v, f, d, b)),
                    forall|dd: int, b: int| #![trigger slides_to(v, origin.0 as int, dd, b)] first <= dd < d && slides_to(v, origin.0 as int, dd, b) ==> !is_set(target.0, b),
                decreases last - d,
            {
                if self.ray_hits(origin, d, target) {
                    proof {
                        let b = choose|b: int| #[trigger] slides_to(v, origin.0 as int, d as int, b) && is_set(target.0, b);
                        assert(piece_attacks(v, t, v.player, origin.0 as int, b));
                    }
                    return true;
                }
                d += 1;
            }
            proof {
                assert forall|a: int, b: int|
                    #![trigger piece_attacks(v, t, v.player, a, b), is_set(target.0, b)]
                    0 <= a < 64 && is_set(pieces.0, a) && !is_set(rest.0, a) && piece_attacks(v, t, v.player, a, b) implies !is_set(target.0, b) by {
                    if a == origin.0 {
                        let dd = choose|dd: int| first <= dd < last && #[trigger] slides_to(v, a, dd, b);
                    } else {
                        assert(!is_set(rest_before.0, a));
                    }
                }
            }
        }
        proof {
            assert forall|f: int| !is_set(rest.0, f) by {
                crate::engine::model::bits::lemma_zero(f);
            }
        }
        false
    }

    /// Whether a piece of the side to move of type `t`, a knight or a king,
    /// reaches a square of `target` by the given offsets.
    fn offset_attack(&self, t: PieceType, offsets: &[(i32, i32); 8], target: BitBoard) -> (r: bool)
        requires
            self@.colors.len() == 2,
            self@.pieces.len() == 6,
            t == PieceType::Knight || t == PieceType::King,
            t == PieceType::Knight ==> offsets@ == knight_offsets(),
            t == PieceType::King ==> offsets@ == king_offsets(),
        ensures
            r == attacks_some(self@, self@.player, t, target.0),
    {
        let ghost v = self@;
        let us = self.current_player.index();
        let pieces = self.board.colors[us].bitand(self.board.pieces[t.index()]);
        let mut rest = pieces;
        while rest.0 != 0
            invariant
                v == self@,
                t == PieceType::Knight || t == PieceType::King,
                t == PieceType::Knight ==> offsets@ == knight_offsets(),
                t == PieceType::King ==> offsets@ == king_offsets(),
                us == v.player.idx(),
                forall|i: int| #[trigger] is_set(pieces.0, i) == (has_color(v, v.player, i) && has_type(v, t, i)),
                forall|i: int| #[trigger] is_set(rest.0, i) ==> is_set(pieces.0, i),
                forall|a: int, b: int|
                    #![trigger piece_attacks(v, t, v.player, a, b), is_set(target.0, b)]
                    0 <= a < 64 && is_set(pieces.0, a) && !is_set(rest.0, a) && piece_attacks(v, t, v.player, a, b) ==> !is_set(target.0, b),
            decreases rest.0,
        {
            let ghost rest_before = rest;
            let origin = rest.next().unwrap();
            let table = offset_movements(offsets, origin.0);
            proof {
                assert forall|d: int| #[trigger] is_set(table.0, d) == piece_attacks(v, t, v.player, origin.0 as int, d) by {
                    if t == PieceType::Knight {
                        lemma_knight_offsets(*offsets, origin.0 as int, d);
                    } else {
                        lemma_king_offsets(*offsets, origin.0 as int, d);
                    }
                }
            }
            let captures = table.bitand(target);
            if !captures.empty() {
                proof {
                    let b = choose|b: int| is_set(captures.0, b);
                    assert(is_set(table.0, b));
                }
                return true;
            }
            proof {
                assert forall|a: int, b: int|
                    #![trigger piece_attacks(v, t, v.player, a, b), is_set(target.0, b)]
                    0 <= a < 64 && is_set(pieces.0, a) && !is_set(rest.0, a) && piece_attacks(v, t, v.player, a, b) implies !is_set(target.0, b) by {
                    if a == origin.0 {
                        assert(is_set(table.0, b));
                        assert(!is_set(captures.0, b));
                    } else {
                        assert(!is_set(rest_before.0, a));
                    }
                }
            }
        }
        proof {
            assert forall|f: int| !is_set(rest.0, f) by {
                crate::engine::model::bits::lemma_zero(f);
            }
        }
        false
    }

    /// Whether a pawn of the side to move attacks a square of `target`.
    fn pawn_attack(&self, target: BitBoard) -> (r: bool)
        requires
            self@.colors.len() == 2,
            self@.pieces.len() == 6,
        ensures
            r == attacks_some(self@, self@.player, PieceType::Pawn, target.0),
    {
        let ghost v = self@;
        let pawns = self.board.colors[self.current_player.index()].bitand(
            self.board.pieces[PieceType::Pawn.index()],
        );
        let first_col = BitBoard::col(0);
        let last_col = BitBoard::col(7);
        let not_first = first_col.not();
        let not_last = last_col.not();
        let row_shifted = match self.current_player {
            Color::White => target.shift_row_backward(1),
            Color::Black => target.shift_row_forward(1),
        };
        proof {
            assert forall|a: int| 0 <= a < 64 implies #[trigger] is_set(row_shifted.0, a) == is_set(target.0, if v.player == Color::White { a + 8 } else { a - 8 }) by {
            }
        }

        // Captures to the left
        let left = pawns.bitand(row_shifted.shift_column_forward(1).bitand(not_first));
        proof {
            assert forall|a: int| 0 <= a < 64 implies #[trigger] is_set(left.0, a) == (has_color(v, v.player, a) && has_type(v, PieceType::Pawn, a) && col(a) > 0 && is_set(target.0, if v.player == Color::White { a + 7 } else { a - 9 })) by {
                assert(is_set(first_col.0, a) == (col(a) == 0));
                assert(is_set(not_first.0, a) == (col(a) != 0));
                if a >= 1 {
                    assert(is_set(row_shifted.0, a - 1) == is_set(target.0, if v.player == Color::White { a + 7 } else { a - 9 }));
                }
            }
        }
        if !left.empty() {
            proof {
                let a = choose|a: int| is_set(left.0, a);
                let b = if v.player == Color::White { a + 7 } else { a - 9 };
                assert(piece_attacks(v, PieceType::Pawn, v.player, a, b));
            }
            return true;
        }

        // Captures to the right
        let right = pawns.bitand(row_shifted.shift_column_backward(1).bitand(not_last));
        proof {
            assert forall|a: int| 0 <= a < 64 implies #[trigger] is_set(right.0, a) == (has_color(v, v.player, a) && has_type(v, PieceType::Pawn, a) && col(a) < 7 && is_set(target.0, if v.player == Color::White { a + 9 } else { a - 7 })) by {
                assert(is_set(last_col.0, a) == (col(a) == 7));
                assert(is_set(not_last.0, a) == (col(a) != 7));
                if a < 63 {
                    assert(is_set(row_shifted.0, a + 1) == is_set(target.0, if v.player == Color::White { a + 9 } else { a - 7 }));
                }
            }
        }
        if !right.empty() {
            proof {
                let a = choose|a: int| is_set(right.0, a);
                let b = if v.player == Color::White { a + 9 } else { a - 7 };
                assert(piece_attacks(v, PieceType::Pawn, v.player, a, b));
            }
            return true;
        }
        proof {
            assert forall|a: int, b: int|
                #![trigger piece_attacks(v, PieceType::Pawn, v.player, a, b), is_set(target.0, b)]
                0 <= a < 64 && has_color(v, v.player, a) && has_type(v, PieceType::Pawn, a) && piece_attacks(v, PieceType::Pawn, v.player, a, b) implies !is_set(target.0, b) by {
                assert(!is_set(left.0, a));
                assert(!is_set(right.0, a));
            }
        }
        false
    }

    fn knight_attack(&self, target: BitBoard) -> (r: bool)
        requires
            self@.colors.len() == 2,
            self@.pieces.len() == 6,
        ensures
            r == attacks_some(self@, self@.player, PieceType::Knight, target.0),
    {
        self.offset_attack(PieceType::Knight, &knight_offset_table(), target)
    }

    fn bishop_attack(&self, target: BitBoard) -> (r: bool)
        requires
            self@.colors.len() == 2,
            self@.pieces.len() == 6,
        ensures
            r == attacks_some(self@, self@.player, PieceType::Bishop, target.0),
    {
        self.sliding_attack(PieceType::Bishop, 0, 4, target)
    }

    fn rook_attack(&self, target: BitBoard) -> (r: bool)
        requires
            self@.colors.len() == 2,
            self@.pieces.len() == 6,
        ensures
            r == attacks_some(self@, self@.player, PieceType::Rook, target.0),
    {
        self.sliding_attack(PieceType::Rook, 4, 8, target)
    }

    fn queen_attack(&self, target: BitBoard) -> (r: bool)
        requires
            self@.colors.len() == 2,
            self@.pieces.len() == 6,
        ensures
            r == attacks_some(self@, self@.player, PieceType::Queen, target.0),
    {
        self.sliding_attack(PieceType::Queen, 0, 8, target)
    }

    fn king_attack(&self, target: BitBoard) -> (r: bool)
        requires
            self@.colors.len() == 2,
            self@.pieces.len() == 6,
        ensures
            r == attacks_some(self@, self@.player, PieceType::King, target.0),
    {
        self.offset_attack(PieceType::King, &king_offset_table(), target)
    }

    /// Whether the opponent of the side to move attacks a square of
    /// `target`. The turn is handed over while the attackers are looked for,
    /// and handed back after.
    fn attacked(&mut self, target: BitBoard) -> (r: bool)
        requires
            old(self)@.colors.len() == 2,
            old(self)@.pieces.len() == 6,
        ensures
            final(self)@ == old(self)@,
            r == set_attacked_by(old(self)@, opponent(old(self)@.player), target.0),
    {
        let ghost v = self@;
        self.current_player = self.current_player.not();
        let ghost w = self@;
        let result = self.pawn_attack(target) || self.knight_attack(target) || self.bishop_attack(target)
            || self.rook_attack(target) || self.queen_attack(target) || self.king_attack(target);
        self.current_player = self.current_player.not();
        proof {
            let c = opponent(v.player);
            lemma_set_attacked_by_types(v, c, target.0);
            lemma_attacks_same_board(v, w, c, PieceType::Pawn, target.0);
            lemma_attacks_same_board(v, w, c, PieceType::Knight, target.0);
            lemma_attacks_same_board(v, w, c, PieceType::Bishop, target.0);
            lemma_attacks_same_board(v, w, c, PieceType::Rook, target.0);
            lemma_attacks_same_board(v, w, c, PieceType::Queen, target.0);
            lemma_attacks_same_board(v, w, c, PieceType::King, target.0);
        }
        result
    }

    /// Whether the king of the side to move is attacked.
    pub fn in_check(&mut self) -> (r: bool)
        requires
            old(self)@.colors.len() == 2,
            old(self)@.pieces.len() == 6,
        ensures
            final(self)@ == old(self)@,
            r == king_in_check(old(self)@, old(self)@.player),
    {
        let ghost v = self@;
        let king = self.board.pieces[PieceType::King.index()].bitand(
            self.board.colors[self.current_player.index()],
        );
        let r = self.attacked(king);
        proof {
            if r {
                let b = choose|b: int| #[trigger] is_set(king.0, b) && attacked_by(v, opponent(v.player), b);
                assert(has_type(v, PieceType::King, b));
            } else {
                assert forall|k: int| 0 <= k < 64 && #[trigger] has_type(v, PieceType::King, k) && has_color(v, v.player, k) implies !attacked_by(v, opponent(v.player), k) by {
                    assert(is_set(king.0, k));
                }
            }
        }
        r
    }

    /// Adds the moves of a pawn from `from` to `to`, capturing `captured`:
    /// one move, or one per promotion (knight, bishop, rook, queen) when `to`
    /// lies on the last row.
    fn push_pawn(&self, moves: &mut Vec<Move>, from: Square, to: Square, captured: Option<PieceType>)
        requires
            from.0 < 64,
            to.0 < 64,
            self.castling.0 < 16,
        ensures
            extends(old(moves)@, final(moves)@),
            tail(final(moves)@, old(moves)@.len() as int).no_duplicates(),
            forall|j: int|
                old(moves)@.len() <= j < final(moves)@.len() ==> {
                    let m = #[trigger] final(moves)@[j];
                    &&& promotion_fits(self@.player, to.0 as int, m.spec_promoted())
                    &&& m == make_move(self@, from.0 as int, to.0 as int, MoveType::Normal, PieceType::Pawn, captured, m.spec_promoted())
                },
            forall|promo: Option<PieceType>|
                #![trigger make_move(self@, from.0 as int, to.0 as int, MoveType::Normal, PieceType::Pawn, captured, promo)]
                promotion_fits(self@.player, to.0 as int, promo) ==> added(
                    final(moves)@,
                    old(moves)@.len() as int,
                    make_move(self@, from.0 as int, to.0 as int, MoveType::Normal, PieceType::Pawn, captured, promo),
                ),
    {
        let ghost v = self@;
        let ghost start = moves@.len() as int;
        let last_row = match self.current_player {
            Color::White => 7,
            Color::Black => 0,
        };
        if to.row() == last_row {
            let m1 = Move::new(from, to, MoveType::Normal, PieceType::Pawn, captured, Some(PieceType::Knight), self.en_passant, self.castling);
            moves.push(m1);
            let m2 = Move::new(from, to, MoveType::Normal, PieceType::Pawn, captured, Some(PieceType::Bishop), self.en_passant, self.castling);
            moves.push(m2);
            let m3 = Move::new(from, to, MoveType::Normal, PieceType::Pawn, captured, Some(PieceType::Rook), self.en_passant, self.castling);
            moves.push(m3);
            let m4 = Move::new(from, to, MoveType::Normal, PieceType::Pawn, captured, Some(PieceType::Queen), self.en_passant, self.castling);
            moves.push(m4);
            proof {
                assert(moves@.subrange(0, start) =~= old(moves)@);
                assert(moves@[start] == m1 && moves@[start + 1] == m2 && moves@[start + 2] == m3 && moves@[start + 3] == m4);
                let seg = tail(moves@, start);
                assert(seg =~= seq![m1, m2, m3, m4]);
                assert(m1.spec_promoted() == Some(PieceType::Knight));
                assert(m2.spec_promoted() == Some(PieceType::Bishop));
                assert(m3.spec_promoted() == Some(PieceType::Rook));
                assert(m4.spec_promoted() == Some(PieceType::Queen));
                assert forall|a: int, b: int| 0 <= a < b < seg.len() implies seg[a] != seg[b] by {
                    assert(seg[a].spec_promoted() != seg[b].spec_promoted());
                }
            }
        } else {
            let m = Move::new(from, to, MoveType::Normal, PieceType::Pawn, captured, None, self.en_passant, self.castling);
            moves.push(m);
            proof {
                assert(moves@.subrange(0, start) =~= old(moves)@);
                assert(moves@[start] == m);
                assert(tail(moves@, start) =~= seq![m]);
            }
        }
    }

    /// Adds, for each square `a` of `origins`, the moves of the pawn on `a`
    /// to `a + delta`, capturing the piece there when `capture` holds.
    fn pawn_steps(&self, moves: &mut Vec<Move>, origins: BitBoard, delta: i8, capture: bool)
        requires
            self.castling.0 < 16,
            -16 <= delta <= 16,
            forall|a: int| #[trigger] is_set(origins.0, a) ==> 0 <= a + delta < 64,
        ensures
            extends(old(moves)@, final(moves)@),
            tail(final(moves)@, old(moves)@.len() as int).no_duplicates(),
            forall|j: int|
                old(moves)@.len() <= j < final(moves)@.len() ==> {
                    let m = #[trigger] final(moves)@[j];
                    let a = m.origin_code();
                    let t = a + delta;
                    &&& is_set(origins.0, a)
                    &&& promotion_fits(self@.player, t, m.spec_promoted())
                    &&& m == make_move(self@, a, t, MoveType::Normal, PieceType::Pawn, captured_if(self@, capture, t), m.spec_promoted())
                },
            forall|a: int, promo: Option<PieceType>|
                #![trigger make_move(self@, a, a + delta, MoveType::Normal, PieceType::Pawn, captured_if(self@, capture, a + delta), promo)]
                is_set(origins.0, a) && promotion_fits(self@.player, a + delta, promo) ==> added(
                    final(moves)@,
                    old(moves)@.len() as int,
                    make_move(self@, a, a + delta, MoveType::Normal, PieceType::Pawn, captured_if(self@, capture, a + delta), promo),
                ),
    {
        let ghost v = self@;
        let ghost start = moves@.len() as int;
        let mut rest = origins;
        proof {
            assert(moves@.subrange(0, start) =~= moves@);
            assert(tail(moves@, start) =~= Seq::<Move>::empty());
        }
        while rest.0 != 0
            invariant
                v == self@,
                self.castling.0 < 16,
                -16 <= delta <= 16,
                forall|a: int| #[trigger] is_set(origins.0, a) ==> 0 <= a + delta < 64,
                forall|a: int| #[trigger] is_set(rest.0, a) ==> is_set(origins.0, a),
                start == old(moves)@.len(),
                extends(old(moves)@, moves@),
                tail(moves@, start).no_duplicates(),
                forall|j: int| start <= j < moves@.len() ==> !is_set(rest.0, #[trigger] moves@[j].origin_code()),
                forall|j: int|
                    start <= j < moves@.len() ==> {
                        let m = #[trigger] moves@[j];
                        let a = m.origin_code();
                        let t = a + delta;
                        &&& is_set(origins.0, a)
                        &&& promotion_fits(v.player, t, m.spec_promoted())
                        &&& m == make_move(v, a, t, MoveType::Normal, PieceType::Pawn, captured_if(v, capture, t), m.spec_promoted())
                    },
                forall|a: int, promo: Option<PieceType>|
                    #![trigger make_move(v, a, a + delta, MoveType::Normal, PieceType::Pawn, captured_if(v, capture, a + delta), promo)]
                    is_set(origins.0, a) && !is_set(rest.0, a) && promotion_fits(v.player, a + delta, promo) ==> added(
                        moves@,
                        start,
                        make_move(v, a, a + delta, MoveType::Normal, PieceType::Pawn, captured_if(v, capture, a + delta), promo),
                    ),
            decreases rest.0,
        {
            let ghost rest_before = rest;
            let ghost moves_before = moves@;
            let origin = rest.next().unwrap();
            let ghost a = origin.0 as int;
            let destination = origin.shift(delta);
            assert(destination.0 == a + delta);
            let captured = if capture {
                self.piece_at(destination)
            } else {
                None
            };
            self.push_pawn(moves, origin, destination, captured);
            proof {
                lemma_extends_trans(old(moves)@, moves_before, moves@);
                lemma_tail_split(old(moves)@, moves_before, moves@);
                let seg = tail(moves_before, start);
                let part = tail(moves@, moves_before.len() as int);
                assert forall|k: int| 0 <= k < part.len() implies (#[trigger] part[k]).origin_code() == a by {
                    let m = moves@[moves_before.len() + k];
                    assert(part[k] == m);
                    lemma_make_move_decode(v, a, a + delta, MoveType::Normal, PieceType::Pawn, captured, m.spec_promoted());
                }
                assert forall|x: int, y: int| 0 <= x < seg.len() && 0 <= y < part.len() implies seg[x] != part[y] by {
                    assert(seg[x] == moves_before[start + x]);
                    assert(!is_set(rest_before.0, moves_before[start + x].origin_code()));
                }
                lemma_concat_fresh(seg, part);
                assert forall|jj: int| start <= jj < moves@.len() implies !is_set(rest.0, #[trigger] moves@[jj].origin_code()) by {
                    if jj < moves_before.len() {
                        assert(moves@[jj] == moves_before[jj]) by {
                            assert(moves@.subrange(0, moves_before.len() as int)[jj] == moves@[jj]);
                        }
                    } else {
                        assert(part[jj - moves_before.len()] == moves@[jj]);
                    }
                }
                assert forall|j: int| start <= j < moves@.len() implies {
                    let m = #[trigger] moves@[j];
                    let a = m.origin_code();
                    let t = a + delta;
                    &&& is_set(origins.0, a)
                    &&& promotion_fits(v.player, t, m.spec_promoted())
                    &&& m == make_move(v, a, t, MoveType::Normal, PieceType::Pawn, captured_if(v, capture, t), m.spec_promoted())
                } by {
                    if j < moves_before.len() {
                        assert(moves@.subrange(0, moves_before.len() as int)[j] == moves@[j]);
                        assert(moves_before[j] == moves@[j]);
                    } else {
                        let m = moves@[j];
                        lemma_make_move_decode(v, a, a + delta, MoveType::Normal, PieceType::Pawn, captured, m.spec_promoted());
                    }
                }
                assert forall|aa: int, promo: Option<PieceType>|
                    #![trigger make_move(v, aa, aa + delta, MoveType::Normal, PieceType::Pawn, captured_if(v, capture, aa + delta), promo)]
                    is_set(origins.0, aa) && !is_set(rest.0, aa) && promotion_fits(v.player, aa + delta, promo) implies added(
                        moves@,
                        start,
                        make_move(v, aa, aa + delta, MoveType::Normal, PieceType::Pawn, captured_if(v, capture, aa + delta), promo),
                    ) by {
                    if aa == a {
                        assert(added(moves@, moves_before.len() as int, make_move(v, a, a + delta, MoveType::Normal, PieceType::Pawn, captured, promo)));
                    } else {
                        assert(!is_set(rest_before.0, aa));
                        lemma_added_grows(moves_before, moves@, start, make_move(v, aa, aa + delta, MoveType::Normal, PieceType::Pawn, captured_if(v, capture, aa + delta), promo));
                    }
                }
            }
        }
        proof {
            assert forall|f: int| !is_set(rest.0, f) by {
                crate::engine::model::bits::lemma_zero(f);
            }
        }
    }

    /// Adds, for each square `a` of `origins`, the two-square move of the
    /// pawn on `a` to `a + delta`.
    fn two_square_steps(&self, moves: &mut Vec<Move>, origins: BitBoard, delta: i8)
        requires
            self.castling.0 < 16,
            -16 <= delta <= 16,
            forall|a: int| #[trigger] is_set(origins.0, a) ==> 0 <= a + delta < 64,
        ensures
            extends(old(moves)@, final(moves)@),
            tail(final(moves)@, old(moves)@.len() as int).no_duplicates(),
            forall|j: int|
                old(moves)@.len() <= j < final(moves)@.len() ==> {
                    let m = #[trigger] final(moves)@[j];
                    let a = m.origin_code();
                    &&& is_set(origins.0, a)
                    &&& m == make_move(self@, a, a + delta, MoveType::TwoSquare, PieceType::Pawn, None, None)
                },
            forall|a: int|
                #![trigger make_move(self@, a, a + delta, MoveType::TwoSquare, PieceType::Pawn, None, None)]
                is_set(origins.0, a) ==> added(
                    final(moves)@,
                    old(moves)@.len() as int,
                    make_move(self@, a, a + delta, MoveType::TwoSquare, PieceType::Pawn, None, None),
                ),
    {
        let ghost v = self@;
        let ghost start = moves@.len() as int;
        let mut rest = origins;
        proof {
            assert(moves@.subrange(0, start) =~= moves@);
            assert(tail(moves@, start) =~= Seq::<Move>::empty());
        }
        while rest.0 != 0
            invariant
                v == self@,
                self.castling.0 < 16,
                -16 <= delta <= 16,
                forall|a: int| #[trigger] is_set(origins.0, a) ==> 0 <= a + delta < 64,
                forall|a: int| #[trigger] is_set(rest.0, a) ==> is_set(origins.0, a),
                start == old(moves)@.len(),
                extends(old(moves)@, moves@),
                tail(moves@, start).no_duplicates(),
                forall|j: int| start <= j < moves@.len() ==> !is_set(rest.0, #[trigger] moves@[j].origin_code()),
                forall|j: int|
                    start <= j < moves@.len() ==> {
                        let m = #[trigger] moves@[j];
                        let a = m.origin_code();
                        &&& is_set(origins.0, a)
                        &&& m == make_move(v, a, a + delta, MoveType::TwoSquare, PieceType::Pawn, None, None)
                    },
                forall|a: int|
                    #![trigger make_move(v, a, a + delta, MoveType::TwoSquare, PieceType::Pawn, None, None)]
                    is_set(origins.0, a) && !is_set(rest.0, a) ==> added(
                        moves@,
                        start,
                        make_move(v, a, a + delta, MoveType::TwoSquare, PieceType::Pawn, None, None),
                    ),
            decreases rest.0,
        {
            let ghost rest_before = rest;
            let ghost moves_before = moves@;
            let origin = rest.next().unwrap();
            let ghost a = origin.0 as int;
            let destination = origin.shift(delta);
            let m = Move::new(origin, destination, MoveType::TwoSquare, PieceType::Pawn, None, None, self.en_passant, self.castling);
            moves.push(m);
            proof {
                lemma_make_move_decode(v, a, a + delta, MoveType::TwoSquare, PieceType::Pawn, None, None);
                assert(moves@.subrange(0, moves_before.len() as int) =~= moves_before);
                lemma_extends_trans(old(moves)@, moves_before, moves@);
                let seg = tail(moves_before, start);
                assert(tail(moves@, start) =~= seg.push(m));
                assert forall|k: int| 0 <= k < seg.len() implies seg[k] != m by {
                    assert(seg[k] == moves_before[start + k]);
                    assert(!is_set(rest_before.0, moves_before[start + k].origin_code()));
                }
                lemma_push_fresh(seg, m);
                assert forall|jj: int| start <= jj < moves@.len() implies !is_set(rest.0, #[trigger] moves@[jj].origin_code()) by {
                    if jj < moves_before.len() {
                        assert(moves_before[jj] == moves@[jj]);
                    }
                }
                assert forall|j: int| start <= j < moves@.len() implies {
                    let m = #[trigger] moves@[j];
                    let a = m.origin_code();
                    &&& is_set(origins.0, a)
                    &&& m == make_move(v, a, a + delta, MoveType::TwoSquare, PieceType::Pawn, None, None)
                } by {
                    if j < moves_before.len() {
                        assert(moves_before[j] == moves@[j]);
                    }
                }
                assert forall|aa: int|
                    #![trigger make_move(v, aa, aa + delta, MoveType::TwoSquare, PieceType::Pawn, None, None)]
                    is_set(origins.0, aa) && !is_set(rest.0, aa) implies added(
                        moves@,
                        start,
                        make_move(v, aa, aa + delta, MoveType::TwoSquare, PieceType::Pawn, None, None),
                    ) by {
                    if aa == a {
                        assert(moves@[moves@.len() - 1] == m);
                    } else {
                        assert(!is_set(rest_before.0, aa));
                        lemma_added_grows(moves_before, moves@, start, make_move(v, aa, aa + delta, MoveType::TwoSquare, PieceType::Pawn, None, None));
                    }
                }
            }
        }
        proof {
            assert forall|f: int| !is_set(rest.0, f) by {
                crate::engine::model::bits::lemma_zero(f);
            }
        }
    }

    /// Adds the pawn pushes: one square forward onto an empty square, with
    /// promotions on the last row, and two squares forward from the starting
    /// row over two empty squares.
    fn pawn_pushes(&self, moves: &mut Vec<Move>)
        requires
            wf(self@),
        ensures
            extends(old(moves)@, final(moves)@),
            tail(final(moves)@, old(moves)@.len() as int).no_duplicates(),
            forall|j: int|
                old(moves)@.len() <= j < final(moves)@.len() ==> {
                    let m = #[trigger] final(moves)@[j];
                    &&& pseudo_legal(self@, m)
                    &&& m.spec_piece() == PieceType::Pawn
                    &&& m.spec_captured() is None
                    &&& (m.spec_type() == MoveType::Normal || m.spec_type() == MoveType::TwoSquare)
                },
            forall|f: int, t: int, promo: Option<PieceType>|
                #![trigger make_move(self@, f, t, MoveType::Normal, PieceType::Pawn, None, promo)]
                pseudo_legal_shape(self@, f, t, MoveType::Normal, PieceType::Pawn, None, promo) ==> added(
                    final(moves)@,
                    old(moves)@.len() as int,
                    make_move(self@, f, t, MoveType::Normal, PieceType::Pawn, None, promo),
                ),
            forall|f: int, t: int|
                #![trigger make_move(self@, f, t, MoveType::TwoSquare, PieceType::Pawn, None, None)]
                pseudo_legal_shape(self@, f, t, MoveType::TwoSquare, PieceType::Pawn, None, None) ==> added(
                    final(moves)@,
                    old(moves)@.len() as int,
                    make_move(self@, f, t, MoveType::TwoSquare, PieceType::Pawn, None, None),
                ),
    {
        let ghost v = self@;
        let ghost start = moves@.len() as int;
        let all = self.board.colors[0].bitor(self.board.colors[1]);
        let pawns = self.board.colors[self.current_player.index()].bitand(self.board.pieces[PieceType::Pawn.index()]);
        let (ahead, two_ahead, start_row, delta): (BitBoard, BitBoard, usize, i8) = match self.current_player {
            Color::White => (all.shift_row_backward(1), all.shift_row_backward(2), 1, 8),
            Color::Black => (all.shift_row_forward(1), all.shift_row_forward(2), 6, -8),
        };
        proof {
            assert forall|a: int| 0 <= a < 64 implies #[trigger] is_set(ahead.0, a) == (0 <= a + delta < 64 && occupied(v, a + delta)) by {}
            assert forall|a: int| 0 <= a < 64 implies #[trigger] is_set(two_ahead.0, a) == (0 <= a + 2 * delta < 64 && occupied(v, a + 2 * delta)) by {}
            assert(forward(v.player, 0, 1) == delta);
        }

        // Single pushes
        let pushable = pawns.bitand(ahead.not());
        proof {
            assert forall|a: int| #[trigger] is_set(pushable.0, a) == (has_color(v, v.player, a) && has_type(v, PieceType::Pawn, a) && !occupied(v, a + delta)) by {
                if has_type(v, PieceType::Pawn, a) {
                    assert(8 <= a < 56);
                }
            }
        }
        self.pawn_steps(moves, pushable, delta, false);
        let ghost moves_mid = moves@;

        // Double pushes
        let first_row = BitBoard::row(start_row);
        let double_pushable = pushable.bitand(first_row).bitand(two_ahead.not());
        proof {
            assert forall|a: int| #[trigger] is_set(double_pushable.0, a) == (is_set(pushable.0, a) && row(a) == start_row && !occupied(v, a + 2 * delta)) by {
                if is_set(pushable.0, a) {
                    assert(0 <= a < 64);
                }
            }
        }
        self.two_square_steps(moves, double_pushable, 2 * delta);
        proof {
            lemma_extends_trans(old(moves)@, moves_mid, moves@);
            lemma_tail_split(old(moves)@, moves_mid, moves@);
            let part1 = tail(moves_mid, start);
            let part2 = tail(moves@, moves_mid.len() as int);
            assert forall|x: int, y: int| 0 <= x < part1.len() && 0 <= y < part2.len() implies part1[x] != part2[y] by {
                let m1 = moves_mid[start + x];
                let m2 = moves@[moves_mid.len() + y];
                assert(part1[x] == m1);
                assert(part2[y] == m2);
                let a1 = m1.origin_code();
                let a2 = m2.origin_code();
                assert(is_set(pushable.0, a1));
                assert(is_set(double_pushable.0, a2));
                lemma_make_move_decode(v, a1, a1 + delta, MoveType::Normal, PieceType::Pawn, None, m1.spec_promoted());
                lemma_make_move_decode(v, a2, a2 + 2 * delta, MoveType::TwoSquare, PieceType::Pawn, None, None);
            }
            lemma_concat_fresh(part1, part2);
            assert forall|j: int| start <= j < moves@.len() implies {
                let m = #[trigger] moves@[j];
                &&& pseudo_legal(v, m)
                &&& m.spec_piece() == PieceType::Pawn
                &&& m.spec_captured() is None
                &&& (m.spec_type() == MoveType::Normal || m.spec_type() == MoveType::TwoSquare)
            } by {
                let m = moves@[j];
                let a = m.origin_code();
                if j < moves_mid.len() {
                    assert(moves_mid[j] == moves@[j]);
                    assert(is_set(pushable.0, a));
                    lemma_make_move_decode(v, a, a + delta, MoveType::Normal, PieceType::Pawn, None, m.spec_promoted());
                    assert(pawn_move(v, a, a + delta, MoveType::Normal, None, m.spec_promoted()));
                } else {
                    assert(is_set(double_pushable.0, a));
                    lemma_make_move_decode(v, a, a + 2 * delta, MoveType::TwoSquare, PieceType::Pawn, None, None);
                    assert(pawn_move(v, a, a + 2 * delta, MoveType::TwoSquare, None, None));
                }
            }
            assert forall|f: int, t: int, promo: Option<PieceType>|
                #![trigger make_move(v, f, t, MoveType::Normal, PieceType::Pawn, None, promo)]
                pseudo_legal_shape(v, f, t, MoveType::Normal, PieceType::Pawn, None, promo) implies added(
                    moves@,
                    start,
                    make_move(v, f, t, MoveType::Normal, PieceType::Pawn, None, promo),
                ) by {
                if has_color(v, opponent(v.player), t) {
                    assert(occupied(v, t));
                    assert(false);
                }
                assert(is_set(pushable.0, f));
                assert(t == f + delta);
                assert(added(moves_mid, start, make_move(v, f, f + delta, MoveType::Normal, PieceType::Pawn, captured_if(v, false, f + delta), promo)));
                lemma_added_grows(moves_mid, moves@, start, make_move(v, f, t, MoveType::Normal, PieceType::Pawn, None, promo));
            }
            assert forall|f: int, t: int|
                #![trigger make_move(v, f, t, MoveType::TwoSquare, PieceType::Pawn, None, None)]
                pseudo_legal_shape(v, f, t, MoveType::TwoSquare, PieceType::Pawn, None, None) implies added(
                    moves@,
                    start,
                    make_move(v, f, t, MoveType::TwoSquare, PieceType::Pawn, None, None),
                ) by {
                assert(is_set(pushable.0, f));
                assert(is_set(double_pushable.0, f));
                assert(t == f + 2 * delta);
                lemma_added_grows2(moves@, moves_mid.len() as int, start, make_move(v, f, f + 2 * delta, MoveType::TwoSquare, PieceType::Pawn, None, None));
            }
        }
    }

    /// Adds the pawn captures: diagonally forward onto a piece of the
    /// opponent, with promotions on the last row, and en passant onto the
    /// recorded square.
    #[verifier::rlimit(40)]
    fn pawn_captures(&self, moves: &mut Vec<Move>)
        requires
            wf(self@),
        ensures
            extends(old(moves)@, final(moves)@),
            tail(final(moves)@, old(moves)@.len() as int).no_duplicates(),
            forall|j: int|
                old(moves)@.len() <= j < final(moves)@.len() ==> {
                    let m = #[trigger] final(moves)@[j];
                    &&& pseudo_legal(self@, m)
                    &&& m.spec_piece() == PieceType::Pawn
                    &&& (m.spec_type() == MoveType::EnPassant || (m.spec_type() == MoveType::Normal
                        && m.spec_captured() is Some))
                },
            forall|f: int, t: int, cap: Option<PieceType>, promo: Option<PieceType>|
                #![trigger make_move(self@, f, t, MoveType::Normal, PieceType::Pawn, cap, promo)]
                cap is Some && pseudo_legal_shape(self@, f, t, MoveType::Normal, PieceType::Pawn, cap, promo) ==> added(
                    final(moves)@,
                    old(moves)@.len() as int,
                    make_move(self@, f, t, MoveType::Normal, PieceType::Pawn, cap, promo),
                ),
            forall|f: int, t: int|
                #![trigger make_move(self@, f, t, MoveType::EnPassant, PieceType::Pawn, None, None)]
                pseudo_legal_shape(self@, f, t, MoveType::EnPassant, PieceType::Pawn, None, None) ==> added(
                    final(moves)@,
                    old(moves)@.len() as int,
                    make_move(self@, f, t, MoveType::EnPassant, PieceType::Pawn, None, None),
                ),
    {
        let ghost v = self@;
        let ghost start = moves@.len() as int;
        let pawns = self.board.colors[self.current_player.index()].bitand(self.board.pieces[PieceType::Pawn.index()]);
        let theirs = self.board.colors[self.current_player.not().index()];
        let first_col = BitBoard::col(0);
        let last_col = BitBoard::col(7);
        let not_first = first_col.not();
        let not_last = last_col.not();
        let (ahead, left_delta, right_delta): (BitBoard, i8, i8) = match self.current_player {
            Color::White => (theirs.shift_row_backward(1), 7, 9),
            Color::Black => (theirs.shift_row_forward(1), -9, -7),
        };
        let ghost d = forward(v.player, 0, 1);
        proof {
            assert forall|a: int| 0 <= a < 64 implies #[trigger] is_set(ahead.0, a) == (0 <= a + d < 64 && has_color(v, opponent(v.player), a + d)) by {}
        }

        // Captures to the left
        let left = pawns.bitand(ahead.shift_column_forward(1).bitand(not_first));
        proof {
            assert forall|a: int| #[trigger] is_set(left.0, a) == (0 <= a < 64 && has_color(v, v.player, a) && has_type(v, PieceType::Pawn, a) && col(a) > 0 && has_color(v, opponent(v.player), a + left_delta)) by {
                if 0 <= a < 64 {
                    assert(is_set(first_col.0, a) == (col(a) == 0));
                    assert(is_set(not_first.0, a) == (col(a) != 0));
                    if a >= 1 {
                        assert(is_set(ahead.0, a - 1) == (0 <= a - 1 + d < 64 && has_color(v, opponent(v.player), a - 1 + d)));
                    }
                }
            }
        }
        self.pawn_steps(moves, left, left_delta, true);
        let ghost moves_left = moves@;

        // Captures to the right
        let right = pawns.bitand(ahead.shift_column_backward(1).bitand(not_last));
        proof {
            assert forall|a: int| #[trigger] is_set(right.0, a) == (0 <= a < 64 && has_color(v, v.player, a) && has_type(v, PieceType::Pawn, a) && col(a) < 7 && has_color(v, opponent(v.player), a + right_delta)) by {
                if 0 <= a < 64 {
                    assert(is_set(last_col.0, a) == (col(a) == 7));
                    assert(is_set(not_last.0, a) == (col(a) != 7));
                    if a < 63 {
                        assert(is_set(ahead.0, a + 1) == (0 <= a + 1 + d < 64 && has_color(v, opponent(v.player), a + 1 + d)));
                    }
                }
            }
        }
        self.pawn_steps(moves, right, right_delta, true);
        let ghost moves_right = moves@;

        // En passant
        if let Some(en_passant) = self.en_passant {
            let ghost e = en_passant.0 as int;
            let target = en_passant.bitboard();
            let behind = match self.current_player {
                Color::White => target.shift_row_backward(1),
                Color::Black => target.shift_row_forward(1),
            };
            let capturers = pawns.bitand(behind.shift_column_forward(1).bitand(not_first).bitor(
                behind.shift_column_backward(1).bitand(not_last),
            ));
            proof {
                assert forall|a: int| #[trigger] is_set(capturers.0, a) == (0 <= a < 64 && has_color(v, v.player, a) && has_type(v, PieceType::Pawn, a) && pawn_attacks(v.player, a, e)) by {
                    if 0 <= a < 64 {
                        assert(is_set(first_col.0, a) == (col(a) == 0));
                        assert(is_set(last_col.0, a) == (col(a) == 7));
                        assert(is_set(not_first.0, a) == (col(a) != 0));
                        assert(is_set(not_last.0, a) == (col(a) != 7));
                        if a >= 1 {
                            assert(is_set(behind.0, a - 1) == (0 <= a - 1 + d < 64 && a - 1 + d == e));
                        }
                        if a < 63 {
                            assert(is_set(behind.0, a + 1) == (0 <= a + 1 + d < 64 && a + 1 + d == e));
                        }
                    }
                }
            }
            self.en_passant_steps(moves, capturers, en_passant);
        }
        proof {
            if v.en_passant is None {
                assert(moves@.subrange(0, moves@.len() as int) =~= moves@);
            }
            lemma_extends_trans(old(moves)@, moves_left, moves_right);
            lemma_extends_trans(old(moves)@, moves_right, moves@);
            lemma_extends_trans(moves_left, moves_right, moves@);
            lemma_tail_split(old(moves)@, moves_left, moves_right);
            lemma_tail_split(old(moves)@, moves_right, moves@);
            let part1 = tail(moves_left, start);
            let part2 = tail(moves_right, moves_left.len() as int);
            let part3 = tail(moves@, moves_right.len() as int);
            assert forall|x: int, y: int| 0 <= x < part1.len() && 0 <= y < part2.len() implies part1[x] != part2[y] by {
                let m1 = moves_left[start + x];
                let m2 = moves_right[moves_left.len() + y];
                assert(part1[x] == m1);
                assert(part2[y] == m2);
                let a1 = m1.origin_code();
                let a2 = m2.origin_code();
                assert(is_set(left.0, a1));
                assert(is_set(right.0, a2));
                lemma_make_move_decode(v, a1, a1 + left_delta, MoveType::Normal, PieceType::Pawn, type_at(v, a1 + left_delta), m1.spec_promoted());
                lemma_make_move_decode(v, a2, a2 + right_delta, MoveType::Normal, PieceType::Pawn, type_at(v, a2 + right_delta), m2.spec_promoted());
            }
            lemma_concat_fresh(part1, part2);
            assert forall|x: int, y: int| 0 <= x < (part1 + part2).len() && 0 <= y < part3.len() implies (part1 + part2)[x] != part3[y] by {
                let m2 = moves@[moves_right.len() + y];
                assert(part3[y] == m2);
                let a2 = m2.origin_code();
                let e = v.en_passant->0;
                lemma_make_move_decode(v, a2, e, MoveType::EnPassant, PieceType::Pawn, None, None);
                let m1 = (part1 + part2)[x];
                if x < part1.len() {
                    let a1 = moves_left[start + x].origin_code();
                    assert(m1 == moves_left[start + x]);
                    assert(is_set(left.0, a1));
                    lemma_make_move_decode(v, a1, a1 + left_delta, MoveType::Normal, PieceType::Pawn, type_at(v, a1 + left_delta), m1.spec_promoted());
                } else {
                    let a1 = moves_right[moves_left.len() + x - part1.len()].origin_code();
                    assert(m1 == moves_right[moves_left.len() + x - part1.len()]);
                    assert(is_set(right.0, a1));
                    lemma_make_move_decode(v, a1, a1 + right_delta, MoveType::Normal, PieceType::Pawn, type_at(v, a1 + right_delta), m1.spec_promoted());
                }
            }
            lemma_concat_fresh(part1 + part2, part3);
            assert(tail(moves@, start) =~= (part1 + part2) + part3);
            assert forall|j: int| start <= j < moves@.len() implies {
                let m = #[trigger] moves@[j];
                &&& pseudo_legal(v, m)
                &&& m.spec_piece() == PieceType::Pawn
                &&& (m.spec_type() == MoveType::EnPassant || (m.spec_type() == MoveType::Normal
                    && m.spec_captured() is Some))
            } by {
                let m = moves@[j];
                let a = m.origin_code();
                if j < moves_left.len() {
                    assert(moves_left[j] == moves@[j]);
                    assert(is_set(left.0, a));
                    lemma_make_move_decode(v, a, a + left_delta, MoveType::Normal, PieceType::Pawn, type_at(v, a + left_delta), m.spec_promoted());
                    assert(occupied(v, a + left_delta));
                    assert(pawn_attacks(v.player, a, a + left_delta));
                    assert(pawn_move(v, a, a + left_delta, MoveType::Normal, type_at(v, a + left_delta), m.spec_promoted()));
                } else if j < moves_right.len() {
                    assert(moves_right[j] == moves@[j]);
                    assert(is_set(right.0, a));
                    lemma_make_move_decode(v, a, a + right_delta, MoveType::Normal, PieceType::Pawn, type_at(v, a + right_delta), m.spec_promoted());
                    assert(occupied(v, a + right_delta));
                    assert(pawn_attacks(v.player, a, a + right_delta));
                    assert(pawn_move(v, a, a + right_delta, MoveType::Normal, type_at(v, a + right_delta), m.spec_promoted()));
                } else {
                    let e = v.en_passant->0;
                    lemma_make_move_decode(v, a, e, MoveType::EnPassant, PieceType::Pawn, None, None);
                }
            }
            assert forall|f: int, t: int, cap: Option<PieceType>, promo: Option<PieceType>|
                #![trigger make_move(v, f, t, MoveType::Normal, PieceType::Pawn, cap, promo)]
                cap is Some && pseudo_legal_shape(v, f, t, MoveType::Normal, PieceType::Pawn, cap, promo) implies added(
                    moves@,
                    start,
                    make_move(v, f, t, MoveType::Normal, PieceType::Pawn, cap, promo),
                ) by {
                assert(pawn_attacks(v.player, f, t));
                if t == f + left_delta && col(f) > 0 {
                    assert(is_set(left.0, f));
                    assert(added(moves_left, start, make_move(v, f, f + left_delta, MoveType::Normal, PieceType::Pawn, captured_if(v, true, f + left_delta), promo)));
                    lemma_added_grows(moves_left, moves@, start, make_move(v, f, t, MoveType::Normal, PieceType::Pawn, cap, promo));
                } else {
                    assert(is_set(right.0, f));
                    assert(added(moves_right, moves_left.len() as int, make_move(v, f, f + right_delta, MoveType::Normal, PieceType::Pawn, captured_if(v, true, f + right_delta), promo)));
                    lemma_added_grows2(moves_right, moves_left.len() as int, start, make_move(v, f, t, MoveType::Normal, PieceType::Pawn, cap, promo));
                    lemma_added_grows(moves_right, moves@, start, make_move(v, f, t, MoveType::Normal, PieceType::Pawn, cap, promo));
                }
            }
            assert forall|f: int, t: int|
                #![trigger make_move(v, f, t, MoveType::EnPassant, PieceType::Pawn, None, None)]
                pseudo_legal_shape(v, f, t, MoveType::EnPassant, PieceType::Pawn, None, None) implies added(
                    moves@,
                    start,
                    make_move(v, f, t, MoveType::EnPassant, PieceType::Pawn, None, None),
                ) by {
                lemma_added_grows2(moves@, moves_right.len() as int, start, make_move(v, f, t, MoveType::EnPassant, PieceType::Pawn, None, None));
            }
        }
    }

    /// Adds, for each square of `capturers`, the en-passant capture by the
    /// pawn there onto `en_passant`.
    fn en_passant_steps(&self, moves: &mut Vec<Move>, capturers: BitBoard, en_passant: Square)
        requires
            self.castling.0 < 16,
            en_passant.0 < 64,
        ensures
            extends(old(moves)@, final(moves)@),
            tail(final(moves)@, old(moves)@.len() as int).no_duplicates(),
            forall|j: int|
                old(moves)@.len() <= j < final(moves)@.len() ==> {
                    let m = #[trigger] final(moves)@[j];
                    let a = m.origin_code();
                    &&& is_set(capturers.0, a)
                    &&& m == make_move(self@, a, en_passant.0 as int, MoveType::EnPassant, PieceType::Pawn, None, None)
                },
            forall|a: int|
                #![trigger make_move(self@, a, en_passant.0 as int, MoveType::EnPassant, PieceType::Pawn, None, None)]
                is_set(capturers.0, a) ==> added(
                    final(moves)@,
                    old(moves)@.len() as int,
                    make_move(self@, a, en_passant.0 as int, MoveType::EnPassant, PieceType::Pawn, None, None),
                ),
    {
        let ghost v = self@;
        let ghost e = en_passant.0 as int;
        let ghost start = moves@.len() as int;
        let mut rest = capturers;
        proof {
            assert(moves@.subrange(0, start) =~= moves@);
            assert(tail(moves@, start) =~= Seq::<Move>::empty());
        }
        while rest.0 != 0
            invariant
                v == self@,
                self.castling.0 < 16,
                e == en_passant.0,
                e < 64,
                forall|a: int| #[trigger] is_set(rest.0, a) ==> is_set(capturers.0, a),
                start == old(moves)@.len(),
                extends(old(moves)@, moves@),
                tail(moves@, start).no_duplicates(),
                forall|j: int| start <= j < moves@.len() ==> !is_set(rest.0, #[trigger] moves@[j].origin_code()),
                forall|j: int|
                    start <= j < moves@.len() ==> {
                        let m = #[trigger] moves@[j];
                        let a = m.origin_code();
                        &&& is_set(capturers.0, a)
                        &&& m == make_move(v, a, e, MoveType::EnPassant, PieceType::Pawn, None, None)
                    },
                forall|a: int|
                    #![trigger make_move(v, a, e, MoveType::EnPassant, PieceType::Pawn, None, None)]
                    is_set(capturers.0, a) && !is_set(rest.0, a) ==> added(
                        moves@,
                        start,
                        make_move(v, a, e, MoveType::EnPassant, PieceType::Pawn, None, None),
                    ),
            decreases rest.0,
        {
            let ghost rest_before = rest;
            let ghost moves_before = moves@;
            let capturer = rest.next().unwrap();
            let ghost a = capturer.0 as int;
            let m = Move::new(capturer, en_passant, MoveType::EnPassant, PieceType::Pawn, None, None, self.en_passant, self.castling);
            moves.push(m);
            proof {
                lemma_make_move_decode(v, a, e, MoveType::EnPassant, PieceType::Pawn, None, None);
                assert(moves@.subrange(0, moves_before.len() as int) =~= moves_before);
                lemma_extends_trans(old(moves)@, moves_before, moves@);
                let seg = tail(moves_before, start);
                assert(tail(moves@, start) =~= seg.push(m));
                assert forall|k: int| 0 <= k < seg.len() implies seg[k] != m by {
                    assert(seg[k] == moves_before[start + k]);
                    assert(!is_set(rest_before.0, moves_before[start + k].origin_code()));
                }
                lemma_push_fresh(seg, m);
                assert forall|jj: int| start <= jj < moves@.len() implies !is_set(rest.0, #[trigger] moves@[jj].origin_code()) by {
                    if jj < moves_before.len() {
                        assert(moves_before[jj] == moves@[jj]);
                    }
                }
                assert forall|j: int| start <= j < moves@.len() implies {
                    let m = #[trigger] moves@[j];
                    let a = m.origin_code();
                    &&& is_set(capturers.0, a)
                    &&& m == make_move(v, a, e, MoveType::EnPassant, PieceType::Pawn, None, None)
                } by {
                    if j < moves_before.len() {
                        assert(moves_before[j] == moves@[j]);
                    }
                }
                assert forall|aa: int|
                    #![trigger make_move(v, aa, e, MoveType::EnPassant, PieceType::Pawn, None, None)]
                    is_set(capturers.0, aa) && !is_set(rest.0, aa) implies added(
                        moves@,
                        start,
                        make_move(v, aa, e, MoveType::EnPassant, PieceType::Pawn, None, None),
                    ) by {
                    if aa == a {
                        assert(moves@[moves@.len() - 1] == m);
                    } else {
                        assert(!is_set(rest_before.0, aa));
                        lemma_added_grows(moves_before, moves@, start, make_move(v, aa, e, MoveType::EnPassant, PieceType::Pawn, None, None));
                    }
                }
            }
        }
        proof {
            assert forall|f: int| !is_set(rest.0, f) by {
                crate::engine::model::bits::lemma_zero(f);
            }
        }
    }

    /// Adds the castle of the king from `from` to `to` when the castling flag
    /// `flag` is set, the `empty_len` squares from `empty_from` are empty and
    /// none of the three squares from `check_from` is attacked.
    fn castle_if(
        &mut self,
        moves: &mut Vec<Move>,
        flag: u8,
        empty_from: usize,
        empty_len: usize,
        check_from: usize,
        from: usize,
        to: usize,
    )
        requires
            wf(old(self)@),
            flag == 1 || flag == 2 || flag == 4 || flag == 8,
            empty_len == 2 || empty_len == 3,
            empty_from + empty_len <= 64,
            check_from + 3 <= 64,
            from < 64,
            to < 64,
        ensures
            final(self)@ == old(self)@,
            extends(old(moves)@, final(moves)@),
            tail(final(moves)@, old(moves)@.len() as int).no_duplicates(),
            ({
                let v = old(self)@;
                let c = opponent(v.player);
                let allowed = v.castling & flag != 0 && (forall|i: int|
                    empty_from <= i < empty_from + empty_len ==> !#[trigger] occupied(v, i)) && (forall|i: int|
                    check_from <= i < check_from + 3 ==> !#[trigger] attacked_by(v, c, i));
                &&& allowed ==> final(moves)@ == old(moves)@.push(make_move(v, from as int, to as int, MoveType::Castle, PieceType::King, None, None))
                &&& !allowed ==> final(moves)@ == old(moves)@
            }),
    {
        let ghost v = self@;
        let ghost c = opponent(v.player);
        let castling = Castling(flag);
        let mut allowed = self.castling.contains(castling);
        proof {
            let cc = v.castling;
            assert((flag == 1 || flag == 2 || flag == 4 || flag == 8) ==> (((cc & flag) == flag) <==> (cc & flag != 0))) by (bit_vector);
        }
        if allowed {
            let required_empty = BitBoard(if empty_len == 2 { 0x3u64 } else { 0x7u64 } << empty_from);
            let not_in_check = BitBoard(0x7u64 << check_from);
            let all = self.board.colors[0].bitor(self.board.colors[1]);
            proof {
                assert forall|i: int| #[trigger] is_set(required_empty.0, i) == (empty_from <= i < empty_from + empty_len) by {
                    lemma_run(empty_from as int, empty_len as int, i);
                }
                assert forall|i: int| #[trigger] is_set(not_in_check.0, i) == (check_from <= i < check_from + 3) by {
                    lemma_run(check_from as int, 3, i);
                }
            }
            let overlap = required_empty.bitand(all);
            let blocked = !overlap.empty();
            proof {
                if !blocked {
                    assert forall|i: int| empty_from <= i < empty_from + empty_len implies !#[trigger] occupied(v, i) by {
                        assert(is_set(required_empty.0, i));
                        assert(!is_set(overlap.0, i));
                        assert(is_set(all.0, i) == occupied(v, i));
                    }
                } else {
                    let i = choose|i: int| is_set(overlap.0, i);
                    assert(is_set(required_empty.0, i) && occupied(v, i));
                }
            }
            if blocked {
                allowed = false;
            } else if self.attacked(not_in_check) {
                proof {
                    let i = choose|i: int| #[trigger] is_set(not_in_check.0, i) && attacked_by(v, c, i);
                }
                allowed = false;
            } else {
                proof {
                    assert forall|i: int| check_from <= i < check_from + 3 implies !#[trigger] attacked_by(v, c, i) by {
                        assert(is_set(not_in_check.0, i));
                    }
                }
            }
        }
        if allowed {
            let m = Move::new(Square(from), Square(to), MoveType::Castle, PieceType::King, None, None, self.en_passant, self.castling);
            proof {
                lemma_make_move_decode(v, from as int, to as int, MoveType::Castle, PieceType::King, None, None);
            }
            moves.push(m);
        }
        proof {
            assert(moves@.subrange(0, old(moves)@.len() as int) =~= old(moves)@);
            let t = tail(moves@, old(moves)@.len() as int);
            assert(t.len() <= 1);
            assert forall|a: int, b: int| 0 <= a < b < t.len() implies t[a] != t[b] by {}
        }
    }

    /// Adds the castles that the flags allow, over empty squares, with the
    /// king's square and the squares it crosses and reaches unattacked: the
    /// queen side first, then the king side.
    fn king_castling(&mut self, moves: &mut Vec<Move>)
        requires
            wf(old(self)@),
        ensures
            final(self)@ == old(self)@,
            final(moves)@ == old(moves)@ + castles(old(self)@),
            extends(old(moves)@, final(moves)@),
            tail(final(moves)@, old(moves)@.len() as int).no_duplicates(),
            forall|j: int|
                old(moves)@.len() <= j < final(moves)@.len() ==> {
                    let m = #[trigger] final(moves)@[j];
                    &&& pseudo_legal(old(self)@, m)
                    &&& m.spec_type() == MoveType::Castle
                },
            forall|f: int, t: int|
                #![trigger make_move(old(self)@, f, t, MoveType::Castle, PieceType::King, None, None)]
                pseudo_legal_shape(old(self)@, f, t, MoveType::Castle, PieceType::King, None, None) ==> added(
                    final(moves)@,
                    old(moves)@.len() as int,
                    make_move(old(self)@, f, t, MoveType::Castle, PieceType::King, None, None),
                ),
    {
        let ghost v = self@;
        let ghost start = moves@.len() as int;
        let ghost c = opponent(v.player);
        if self.current_player == Color::White {
            self.castle_if(moves, 1, 1, 3, 2, 4, 2);
            let ghost mid = moves@;
            self.castle_if(moves, 2, 5, 2, 4, 4, 6);
            proof {
                lemma_extends_trans(old(moves)@, mid, moves@);
                lemma_make_move_decode(v, 4, 2, MoveType::Castle, PieceType::King, None, None);
                lemma_make_move_decode(v, 4, 6, MoveType::Castle, PieceType::King, None, None);
                lemma_tail_split(old(moves)@, mid, moves@);
                let first = tail(mid, start);
                let second = tail(moves@, mid.len() as int);
                assert forall|x: int, y: int| 0 <= x < first.len() && 0 <= y < second.len() implies first[x] != second[y] by {
                    assert(first[x] == make_move(v, 4, 2, MoveType::Castle, PieceType::King, None, None));
                    assert(second[y] == make_move(v, 4, 6, MoveType::Castle, PieceType::King, None, None));
                }
                lemma_concat_fresh(first, second);
                assert(castle_move(v, 4, 2) == (v.castling & 1 != 0 && (forall|i: int| 1 <= i < 4 ==> !#[trigger] occupied(v, i)) && (forall|i: int| 2 <= i < 5 ==> !#[trigger] attacked_by(v, c, i))));
                assert(castle_move(v, 4, 6) == (v.castling & 2 != 0 && (forall|i: int| 5 <= i < 7 ==> !#[trigger] occupied(v, i)) && (forall|i: int| 4 <= i < 7 ==> !#[trigger] attacked_by(v, c, i))));
                assert(mid =~= old(moves)@ + castle_list(v, 4, 2));
                assert(moves@ =~= old(moves)@ + castles(v));
                assert forall|j: int| start <= j < moves@.len() implies {
                    let m = #[trigger] moves@[j];
                    &&& pseudo_legal(v, m)
                    &&& m.spec_type() == MoveType::Castle
                } by {
                    if j < mid.len() {
                        assert(mid[j] == moves@[j]);
                    }
                }
                assert forall|f: int, t: int|
                    #![trigger make_move(v, f, t, MoveType::Castle, PieceType::King, None, None)]
                    pseudo_legal_shape(v, f, t, MoveType::Castle, PieceType::King, None, None) implies added(
                        moves@,
                        start,
                        make_move(v, f, t, MoveType::Castle, PieceType::King, None, None),
                    ) by {
                    if t == 2 {
                        assert(mid[start] == moves@[start]);
                    } else {
                        assert(moves@[moves@.len() - 1] == make_move(v, 4, 6, MoveType::Castle, PieceType::King, None, None));
                    }
                }
            }
        } else {
            self.castle_if(moves, 4, 57, 3, 58, 60, 58);
            let ghost mid = moves@;
            self.castle_if(moves, 8, 61, 2, 60, 60, 62);
            proof {
                lemma_extends_trans(old(moves)@, mid, moves@);
                lemma_make_move_decode(v, 60, 58, MoveType::Castle, PieceType::King, None, None);
                lemma_make_move_decode(v, 60, 62, MoveType::Castle, PieceType::King, None, None);
                lemma_tail_split(old(moves)@, mid, moves@);
                let first = tail(mid, start);
                let second = tail(moves@, mid.len() as int);
                assert forall|x: int, y: int| 0 <= x < first.len() && 0 <= y < second.len() implies first[x] != second[y] by {
                    assert(first[x] == make_move(v, 60, 58, MoveType::Castle, PieceType::King, None, None));
                    assert(second[y] == make_move(v, 60, 62, MoveType::Castle, PieceType::King, None, None));
                }
                lemma_concat_fresh(first, second);
                assert(castle_move(v, 60, 58) == (v.castling & 4 != 0 && (forall|i: int| 57 <= i < 60 ==> !#[trigger] occupied(v, i)) && (forall|i: int| 58 <= i < 61 ==> !#[trigger] attacked_by(v, c, i))));
                assert(castle_move(v, 60, 62) == (v.castling & 8 != 0 && (forall|i: int| 61 <= i < 63 ==> !#[trigger] occupied(v, i)) && (forall|i: int| 60 <= i < 63 ==> !#[trigger] attacked_by(v, c, i))));
                assert(mid =~= old(moves)@ + castle_list(v, 60, 58));
                assert(moves@ =~= old(moves)@ + castles(v));
                assert forall|j: int| start <= j < moves@.len() implies {
                    let m = #[trigger] moves@[j];
                    &&& pseudo_legal(v, m)
                    &&& m.spec_type() == MoveType::Castle
                } by {
                    if j < mid.len() {
                        assert(mid[j] == moves@[j]);
                    }
                }
                assert forall|f: int, t: int|
                    #![trigger make_move(v, f, t, MoveType::Castle, PieceType::King, None, None)]
                    pseudo_legal_shape(v, f, t, MoveType::Castle, PieceType::King, None, None) implies added(
                        moves@,
                        start,
                        make_move(v, f, t, MoveType::Castle, PieceType::King, None, None),
                    ) by {
                    if t == 58 {
                        assert(mid[start] == moves@[start]);
                    } else {
                        assert(moves@[moves@.len() - 1] == make_move(v, 60, 62, MoveType::Castle, PieceType::King, None, None));
                    }
                }
            }
        }
    }

    fn knight_movements(&self, moves: &mut Vec<Move>)
        requires
            wf(self@),
        ensures
            extends(old(moves)@, final(moves)@),
            tail(final(moves)@, old(moves)@.len() as int).no_duplicates(),
            forall|j: int|
                old(moves)@.len() <= j < final(moves)@.len() ==> {
                    let m = #[trigger] final(moves)@[j];
                    &&& pseudo_legal(self@, m)
                    &&& m.spec_piece() == PieceType::Knight
                    &&& m.spec_type() == MoveType::Normal
                },
            forall|f: int, d: int|
                #![trigger make_move(self@, f, d, MoveType::Normal, PieceType::Knight, capture_on(self@, d), None)]
                pseudo_legal_shape(self@, f, d, MoveType::Normal, PieceType::Knight, capture_on(self@, d), None)
                    ==> added(
                    final(moves)@,
                    old(moves)@.len() as int,
                    make_move(self@, f, d, MoveType::Normal, PieceType::Knight, capture_on(self@, d), None),
                ),
    {
        self.offset_movements(moves, PieceType::Knight, &knight_offset_table());
    }

    fn bishop_movements(&self, moves: &mut Vec<Move>)
        requires
            wf(self@),
        ensures
            extends(old(moves)@, final(moves)@),
            tail(final(moves)@, old(moves)@.len() as int).no_duplicates(),
            forall|j: int|
                old(moves)@.len() <= j < final(moves)@.len() ==> {
                    let m = #[trigger] final(moves)@[j];
                    &&& pseudo_legal(self@, m)
                    &&& m.spec_piece() == PieceType::Bishop
                    &&& m.spec_type() == MoveType::Normal
                },
            forall|f: int, d: int|
                #![trigger make_move(self@, f, d, MoveType::Normal, PieceType::Bishop, capture_on(self@, d), None)]
                pseudo_legal_shape(self@, f, d, MoveType::Normal, PieceType::Bishop, capture_on(self@, d), None)
                    ==> added(
                    final(moves)@,
                    old(moves)@.len() as int,
                    make_move(self@, f, d, MoveType::Normal, PieceType::Bishop, capture_on(self@, d), None),
                ),
    {
        self.sliding_movements(moves, PieceType::Bishop, 0, 4);
    }

    fn rook_movements(&self, moves: &mut Vec<Move>)
        requires
            wf(self@),
        ensures
            extends(old(moves)@, final(moves)@),
            tail(final(moves)@, old(moves)@.len() as int).no_duplicates(),
            forall|j: int|
                old(moves)@.len() <= j < final(moves)@.len() ==> {
                    let m = #[trigger] final(moves)@[j];
                    &&& pseudo_legal(self@, m)
                    &&& m.spec_piece() == PieceType::Rook
                    &&& m.spec_type() == MoveType::Normal
                },
            forall|f: int, d: int|
                #![trigger make_move(self@, f, d, MoveType::Normal, PieceType::Rook, capture_on(self@, d), None)]
                pseudo_legal_shape(self@, f, d, MoveType::Normal, PieceType::Rook, capture_on(self@, d), None)
                    ==> added(
                    final(moves)@,
                    old(moves)@.len() as int,
                    make_move(self@, f, d, MoveType::Normal, PieceType::Rook, capture_on(self@, d), None),
                ),
    {
        self.sliding_movements(moves, PieceType::Rook, 4, 8);
    }

    fn queen_movements(&self, moves: &mut Vec<Move>)
        requires
            wf(self@),
        ensures
            extends(old(moves)@, final(moves)@),
            tail(final(moves)@, old(moves)@.len() as int).no_duplicates(),
            forall|j: int|
                old(moves)@.len() <= j < final(moves)@.len() ==> {
                    let m = #[trigger] final(moves)@[j];
                    &&& pseudo_legal(self@, m)
                    &&& m.spec_piece() == PieceType::Queen
                    &&& m.spec_type() == MoveType::Normal
                },
            forall|f: int, d: int|
                #![trigger make_move(self@, f, d, MoveType::Normal, PieceType::Queen, capture_on(self@, d), None)]
                pseudo_legal_shape(self@, f, d, MoveType::Normal, PieceType::Queen, capture_on(self@, d), None)
                    ==> added(
                    final(moves)@,
                    old(moves)@.len() as int,
                    make_move(self@, f, d, MoveType::Normal, PieceType::Queen, capture_on(self@, d), None),
                ),
    {
        self.sliding_movements(moves, PieceType::Queen, 0, 8);
    }

    fn king_movements(&self, moves: &mut Vec<Move>)
        requires
            wf(self@),
        ensures
            extends(old(moves)@, final(moves)@),
            tail(final(moves)@, old(moves)@.len() as int).no_duplicates(),
            forall|j: int|
                old(moves)@.len() <= j < final(moves)@.len() ==> {
                    let m = #[trigger] final(moves)@[j];
                    &&& pseudo_legal(self@, m)
                    &&& m.spec_piece() == PieceType::King
                    &&& m.spec_type() == MoveType::Normal
                },
            forall|f: int, d: int|
                #![trigger make_move(self@, f, d, MoveType::Normal, PieceType::King, capture_on(self@, d), None)]
                pseudo_legal_shape(self@, f, d, MoveType::Normal, PieceType::King, capture_on(self@, d), None)
                    ==> added(
                    final(moves)@,
                    old(moves)@.len() as int,
                    make_move(self@, f, d, MoveType::Normal, PieceType::King, capture_on(self@, d), None),
                ),
    {
        self.offset_movements(moves, PieceType::King, &king_offset_table());
    }

    /// All the moves of the side to move that the rules allow, without
    /// looking at whether they leave its king attacked: the next move would
    /// then capture the king, which search scores badly anyway, and skipping
    /// that test makes generation much faster. A finished game has no moves.
    /// Each pseudo-legal move is in the list once, and nothing else.
    #[verifier::rlimit(40)]
    pub fn pseudo_legal_moves(&mut self) -> (r: Vec<Move>)
        requires
            wf(old(self)@),
        ensures
            final(self)@ == old(self)@,
            old(self)@.ended ==> r@.len() == 0,
            !old(self)@.ended ==> forall|m: Move| #[trigger] r@.contains(m) == pseudo_legal(old(self)@, m),
            r@.no_duplicates(),
            phase_sorted(r@),
    {
        if self.ended {
            return Vec::new();
        }
        let ghost v = self@;

        let mut moves: Vec<Move> = Vec::with_capacity(220);
        let ghost s0 = moves@;
        self.pawn_pushes(&mut moves);
        let ghost s1 = moves@;
        self.pawn_captures(&mut moves);
        let ghost s2 = moves@;
        self.knight_movements(&mut moves);
        let ghost s3 = moves@;
        self.bishop_movements(&mut moves);
        let ghost s4 = moves@;
        self.rook_movements(&mut moves);
        let ghost s5 = moves@;
        self.queen_movements(&mut moves);
        let ghost s6 = moves@;
        self.king_movements(&mut moves);
        let ghost s7 = moves@;
        self.king_castling(&mut moves);
        proof {
            lemma_phase_step(s0, s1, 0);
            lemma_phase_step(s1, s2, 1);
            lemma_phase_step(s2, s3, 2);
            lemma_phase_step(s3, s4, 3);
            lemma_phase_step(s4, s5, 4);
            lemma_phase_step(s5, s6, 5);
            lemma_phase_step(s6, s7, 6);
            lemma_phase_step(s7, moves@, 7);
        }
        proof {
            lemma_extends_trans(s6, s7, moves@);
            lemma_extends_trans(s5, s6, moves@);
            lemma_extends_trans(s4, s5, moves@);
            lemma_extends_trans(s3, s4, moves@);
            lemma_extends_trans(s2, s3, moves@);
            lemma_extends_trans(s1, s2, moves@);
            assert forall|m: Move| #[trigger] moves@.contains(m) implies pseudo_legal(v, m) by {
                let j = choose|j: int| 0 <= j < moves@.len() && moves@[j] == m;
                if j < s1.len() {
                    assert(s1[j] == moves@[j]);
                } else if j < s2.len() {
                    assert(s2[j] == moves@[j]);
                } else if j < s3.len() {
                    assert(s3[j] == moves@[j]);
                } else if j < s4.len() {
                    assert(s4[j] == moves@[j]);
                } else if j < s5.len() {
                    assert(s5[j] == moves@[j]);
                } else if j < s6.len() {
                    assert(s6[j] == moves@[j]);
                } else if j < s7.len() {
                    assert(s7[j] == moves@[j]);
                }
            }
            assert forall|m: Move| pseudo_legal(v, m) implies #[trigger] moves@.contains(m) by {
                let f = m.origin_code();
                let t = m.destination_code();
                let ty = m.spec_type();
                let p = m.spec_piece();
                let cap = m.spec_captured();
                let promo = m.spec_promoted();
                let (seg, from): (Seq<Move>, int) = if ty == MoveType::Castle {
                    (moves@, s7.len() as int)
                } else if p == PieceType::Pawn {
                    if ty == MoveType::EnPassant || cap is Some {
                        (s2, s1.len() as int)
                    } else {
                        if ty == MoveType::Normal && has_color(v, opponent(v.player), t) {
                            assert(occupied(v, t));
                        }
                        (s1, 0int)
                    }
                } else if p == PieceType::Knight {
                    (s3, s2.len() as int)
                } else if p == PieceType::Bishop {
                    (s4, s3.len() as int)
                } else if p == PieceType::Rook {
                    (s5, s4.len() as int)
                } else if p == PieceType::Queen {
                    (s6, s5.len() as int)
                } else {
                    (s7, s6.len() as int)
                };
                assert(added(seg, from, m));
                lemma_added_grows2(seg, from, 0, m);
                if seg != moves@ {
                    lemma_added_grows(seg, moves@, 0, m);
                }
                let j = choose|j: int| 0 <= j < moves@.len() && moves@[j] == m;
                assert(moves@.contains(m));
            }
        }
        moves
    }

    /// The legal moves of the side to move, each once: the pseudo-legal
    /// moves, in the same order, that do not leave its king attacked. Each is
    /// tried by playing it, looking for an attack on the mover's king and
    /// taking it back.
    pub fn legal_moves(&mut self) -> (r: Vec<Move>)
        requires
            wf(old(self)@),
        ensures
            final(self)@ == old(self)@,
            forall|m: Move| #[trigger] r@.contains(m) == (!old(self)@.ended && legal(old(self)@, m)),
            r@.no_duplicates(),
            phase_sorted(r@),
            exists|p: Seq<Move>| #[trigger] pseudo_listing(old(self)@, p) && r@ == p.filter(keeps_king_safe(old(self)@)),
    {
        let ghost v = self@;
        let pseudo = self.pseudo_legal_moves();
        let mut result: Vec<Move> = Vec::new();
        let mut i: usize = 0;
        while i < pseudo.len()
            invariant
                v == self@,
                wf(v),
                0 <= i <= pseudo.len(),
                v.ended ==> pseudo@.len() == 0,
                !v.ended ==> forall|m: Move| #[trigger] pseudo@.contains(m) == pseudo_legal(v, m),
                pseudo@.no_duplicates(),
                phase_sorted(pseudo@),
                result@ == pseudo@.take(i as int).filter(keeps_king_safe(v)),
                phase_sorted(result@),
                forall|m: Move| #[trigger] result@.contains(m) == (exists|j: int| 0 <= j < i && pseudo@[j] == m && !leaves_king_attacked(v, m)),
                result@.no_duplicates(),
            decreases pseudo.len() - i,
        {
            let m = pseudo[i];
            proof {
                assert(pseudo@.contains(m));
                lemma_pseudo_legal_consistent(v, m);
                lemma_undo_apply(v, m);
            }
            self.apply(&m);
            self.current_player = self.current_player.not();
            let valid = !self.in_check();
            self.current_player = self.current_player.not();
            self.undo(&m);
            let ghost old_result = result@;
            let ghost pushed = valid;
            proof {
                if old_result.contains(m) {
                    let j = choose|j: int| 0 <= j < i && pseudo@[j] == m && !leaves_king_attacked(v, m);
                    assert(pseudo@[j] == pseudo@[i as int]);
                }
            }
            if valid {
                result.push(m);
            }
            proof {
                reveal(Seq::filter);
                assert(pseudo@.take(i + 1).drop_last() =~= pseudo@.take(i as int));
                assert(pseudo@.take(i + 1).last() == m);
                assert(valid == keeps_king_safe(v)(m));
                if valid {
                    assert forall|x: int, y: int| 0 <= x < y < result@.len() implies
                        phase(#[trigger] result@[x]) <= phase(#[trigger] result@[y]) by {
                        if y == result@.len() - 1 {
                            assert(old_result.contains(result@[x])) by {
                                assert(old_result[x] == result@[x]);
                            }
                            let j = choose|j: int| 0 <= j < i && pseudo@[j] == result@[x] && !leaves_king_attacked(v, result@[x]);
                            assert(phase(pseudo@[j]) <= phase(pseudo@[i as int]));
                        } else {
                            assert(old_result[x] == result@[x] && old_result[y] == result@[y]);
                        }
                    }
                }
            }
            proof {
                assert forall|mm: Move| #[trigger] result@.contains(mm) == (exists|j: int| 0 <= j < i + 1 && pseudo@[j] == mm && !leaves_king_attacked(v, mm)) by {
                    if result@.contains(mm) {
                        if pushed && mm == m {
                            assert(pseudo@[i as int] == mm);
                        } else {
                            let k = choose|k: int| 0 <= k < result@.len() && result@[k] == mm;
                            if pushed {
                                assert(k < old_result.len() || mm == m);
                                if k < old_result.len() {
                                    assert(old_result[k] == mm);
                                }
                            }
                            assert(old_result.contains(mm));
                        }
                    }
                    if exists|j: int| 0 <= j < i + 1 && pseudo@[j] == mm && !leaves_king_attacked(v, mm) {
                        let j = choose|j: int| 0 <= j < i + 1 && pseudo@[j] == mm && !leaves_king_attacked(v, mm);
                        if j == i && pushed {
                            assert(result@[result@.len() - 1] == mm);
                        } else if j == i && old_result.contains(mm) {
                            let k = choose|k: int| 0 <= k < old_result.len() && old_result[k] == mm;
                            assert(result@[k] == mm);
                        } else {
                            assert(old_result.contains(mm));
                            let k = choose|k: int| 0 <= k < old_result.len() && old_result[k] == mm;
                            assert(result@[k] == mm);
                        }
                    }
                }
                if pushed {
                    assert forall|a: int, b: int| 0 <= a < b < result@.len() implies result@[a] != result@[b] by {
                        if b == result@.len() - 1 {
                            assert(old_result[a] == result@[a]);
                        } else {
                            assert(old_result[a] == result@[a] && old_result[b] == result@[b]);
                        }
                    }
                }
            }
            i += 1;
        }
        proof {
            assert(pseudo@.take(i as int) =~= pseudo@);
            assert(pseudo_listing(v, pseudo@));
            assert forall|m: Move| #[trigger] result@.contains(m) == (!v.ended && legal(v, m)) by {
                if !v.ended && legal(v, m) {
                    assert(pseudo@.contains(m));
                    let j = choose|j: int| 0 <= j < pseudo@.len() && pseudo@[j] == m;
                }
                if result@.contains(m) {
                    let j = choose|j: int| 0 <= j < i && pseudo@[j] == m && !leaves_king_attacked(v, m);
                    assert(pseudo@.contains(m));
                }
            }
        }
        result
    }

    /// Whether play can go on from the position (see `playable`): it is
    /// well-formed and the side that has just moved has not left its king
    /// attacked.
    pub fn is_playable(&mut self) -> (r: bool)
        ensures
            final(self)@ == old(self)@,
            r == playable(old(self)@),
    {
        let ghost v = self@;
        if !self.is_valid() {
            return false;
        }
        self.current_player = self.current_player.not();
        let ghost w = self@;
        let attacked = self.in_check();
        self.current_player = self.current_player.not();
        proof {
            lemma_check_same_board(v, w, opponent(v.player));
        }
        !attacked
    }

    /// Whether the position is well-formed (see `wf`): the moves of a
    /// well-formed position can be generated, and taken back.
    pub fn is_valid(&self) -> (r: bool)
        ensures
            r == wf(self@),
    {
        let ghost v = self@;
        let white = self.board.colors[0];
        let black = self.board.colors[1];
        let both = white.bitand(black);
        if !both.empty() {
            proof {
                let i = choose|i: int| is_set(both.0, i);
                assert(is_set(v.colors[0], i) && is_set(v.colors[1], i));
            }
            return false;
        }
        proof {
            assert forall|i: int| !(#[trigger] is_set(v.colors[0], i) && is_set(v.colors[1], i)) by {
                assert(!is_set(both.0, i));
            }
        }
        let mut k1: usize = 0;
        while k1 < 6
            invariant
                v == self@,
                k1 <= 6,
                forall|i: int, a: int, b: int|
                    0 <= a < k1 && a < b < 6 ==> !(#[trigger] is_set(v.pieces[a], i) && #[trigger] is_set(v.pieces[b], i)),
            decreases 6 - k1,
        {
            let mut k2: usize = k1 + 1;
            while k2 < 6
                invariant
                    v == self@,
                    k1 < k2 <= 6,
                    k1 < 6,
                    forall|i: int, a: int, b: int|
                        0 <= a < k1 && a < b < 6 ==> !(#[trigger] is_set(v.pieces[a], i) && #[trigger] is_set(v.pieces[b], i)),
                    forall|i: int, b: int|
                        k1 < b < k2 ==> !(#[trigger] is_set(v.pieces[k1 as int], i) && #[trigger] is_set(v.pieces[b], i)),
                decreases 6 - k2,
            {
                let overlap = self.board.pieces[k1].bitand(self.board.pieces[k2]);
                if !overlap.empty() {
                    proof {
                        let i = choose|i: int| is_set(overlap.0, i);
                        assert(is_set(v.pieces[k1 as int], i) && is_set(v.pieces[k2 as int], i));
                    }
                    return false;
                }
                proof {
                    assert forall|i: int, b: int|
                        k1 < b < k2 + 1 implies !(#[trigger] is_set(v.pieces[k1 as int], i) && #[trigger] is_set(v.pieces[b], i)) by {
                        if b == k2 {
                            assert(!is_set(overlap.0, i));
                        }
                    }
                }
                k2 += 1;
            }
            k1 += 1;
        }
        proof {
            assert forall|i: int, k1: int, k2: int|
                0 <= k1 < 6 && 0 <= k2 < 6 && k1 != k2 implies !(#[trigger] is_set(v.pieces[k1], i)
                    && #[trigger] is_set(v.pieces[k2], i)) by {
                if k1 < k2 {
                } else {
                    assert(!(is_set(v.pieces[k2], i) && is_set(v.pieces[k1], i)));
                }
            }
        }
        let all = white.bitor(black);
        let typed = self.board.pieces[0].bitor(self.board.pieces[1]).bitor(self.board.pieces[2]).bitor(
            self.board.pieces[3],
        ).bitor(self.board.pieces[4]).bitor(self.board.pieces[5]);
        proof {
            assert forall|i: int| #[trigger] is_set(typed.0, i) == (type_at(v, i) is Some) by {
                crate::engine::model::bits::lemma_or(v.pieces[0], v.pieces[1], i);
                crate::engine::model::bits::lemma_or(v.pieces[0] | v.pieces[1], v.pieces[2], i);
                crate::engine::model::bits::lemma_or(v.pieces[0] | v.pieces[1] | v.pieces[2], v.pieces[3], i);
                crate::engine::model::bits::lemma_or(v.pieces[0] | v.pieces[1] | v.pieces[2] | v.pieces[3], v.pieces[4], i);
                crate::engine::model::bits::lemma_or(v.pieces[0] | v.pieces[1] | v.pieces[2] | v.pieces[3] | v.pieces[4], v.pieces[5], i);
            }
        }
        if all.0 != typed.0 {
            proof {
                if forall|i: int| #![trigger occupied(v, i)] occupied(v, i) == (type_at(v, i) is Some) {
                    assert forall|i: int| 0 <= i < 64 implies is_set(all.0, i) == is_set(typed.0, i) by {
                        assert(occupied(v, i) == (type_at(v, i) is Some));
                    }
                    crate::engine::model::bits::lemma_ext(all.0, typed.0);
                }
            }
            return false;
        }
        let edges: u64 = 0xFF000000000000FF;
        let stray = self.board.pieces[0].0 & edges;
        if stray != 0 {
            proof {
                if forall|i: int| #[trigger] is_set(v.pieces[0], i) ==> 8 <= i < 56 {
                    assert forall|i: int| 0 <= i < 64 implies is_set(stray, i) == is_set(0, i) by {
                        crate::engine::model::bits::lemma_and(v.pieces[0], edges, i);
                        crate::engine::model::bits::lemma_zero(i);
                        let k = i as u64;
                        assert(k < 64 ==> (((0xFF000000000000FFu64 >> k) & 1 == 1) <==> (k < 8 || k >= 56))) by (bit_vector);
                    }
                    crate::engine::model::bits::lemma_ext(stray, 0);
                }
            }
            return false;
        }
        proof {
            assert forall|i: int| #[trigger] is_set(v.pieces[0], i) implies 8 <= i < 56 by {
                crate::engine::model::bits::lemma_and(v.pieces[0], edges, i);
                crate::engine::model::bits::lemma_zero(i);
                let k = i as u64;
                assert(k < 64 ==> (((0xFF000000000000FFu64 >> k) & 1 == 1) <==> (k < 8 || k >= 56))) by (bit_vector);
            }
            assert forall|i: int| #![trigger occupied(v, i)] occupied(v, i) == (type_at(v, i) is Some) by {
                assert(is_set(all.0, i) == is_set(typed.0, i));
            }
        }
        let c = self.castling.0;
        if c >= 16 {
            return false;
        }
        let king = self.board.pieces[5];
        let rook = self.board.pieces[3];
        if c & 1 != 0 && !(contains(white, Square(4)) && contains(king, Square(4)) && contains(white, Square(0)) && contains(rook, Square(0))) {
            return false;
        }
        if c & 2 != 0 && !(contains(white, Square(4)) && contains(king, Square(4)) && contains(white, Square(7)) && contains(rook, Square(7))) {
            return false;
        }
        if c & 4 != 0 && !(contains(black, Square(60)) && contains(king, Square(60)) && contains(black, Square(56)) && contains(rook, Square(56))) {
            return false;
        }
        if c & 8 != 0 && !(contains(black, Square(60)) && contains(king, Square(60)) && contains(black, Square(63)) && contains(rook, Square(63))) {
            return false;
        }
        match self.en_passant {
            None => true,
            Some(e) => {
                let pawns = self.board.pieces[0];
                if e.0 >= 64 || contains(all, e) {
                    proof {
                        if e.0 < 64 {
                            assert(occupied(v, e.0 as int));
                        }
                    }
                    return false;
                }
                match self.current_player {
                    Color::White => 40 <= e.0 && e.0 < 48 && contains(black, Square(e.0 - 8)) && contains(pawns, Square(e.0 - 8)),
                    Color::Black => 16 <= e.0 && e.0 < 24 && contains(white, Square(e.0 + 8)) && contains(pawns, Square(e.0 + 8)),
                }
            },
        }
    }
}

} // verus!
