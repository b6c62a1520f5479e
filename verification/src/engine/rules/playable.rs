//! What play keeps: a legal move made in a position that play can go on
//! from leads to another such position.
use vstd::prelude::*;

use crate::engine::model::{Color, Move, MoveType, PieceType};
use crate::engine::model::bits::{is_set, lemma_clear_bit, lemma_set_bit};
use crate::engine::model::game_state_impl::{
    GameView, apply_view, opponent, consistent, en_passant_victim, castle_rook_from,
    castle_rook_to, captures, lemma_codes_in_range, capture_flag, origin_flags,
    castling_after_apply, };
use crate::engine::rules::spec::{
    king_in_check, legal, attacked_by, piece_attacks, piece_move,
    castle_move, has_color, has_type, occupied, pawn_move, pseudo_legal,
    row, type_at, wf, forward, };
use crate::engine::rules::{lemma_make_move_decode, lemma_pseudo_legal_consistent, lemma_check_same_board};

verus! {

/// Every square that the move touches: its origin and destination, the
/// square of a pawn taken en passant and the two squares of a castling rook.
pub open spec fn touched(m: Move, i: int) -> bool {
    let f = m.origin_code();
    let t = m.destination_code();
    ||| i == f
    ||| i == t
    ||| m.spec_type() == MoveType::EnPassant && i == en_passant_victim(f, t)
    ||| m.spec_type() == MoveType::Castle && (i == castle_rook_from(t) || i == castle_rook_to(t))
}

/// A square the move does not touch keeps what stands on it.
proof fn lemma_untouched(v: GameView, m: Move, i: int)
    requires
        consistent(v, m),
        !touched(m, i),
    ensures
        forall|k: int| 0 <= k < 6 ==> #[trigger] is_set(apply_view(v, m).pieces[k], i) == is_set(v.pieces[k], i),
        forall|k: int| 0 <= k < 2 ==> #[trigger] is_set(apply_view(v, m).colors[k], i) == is_set(v.colors[k], i),
{
    broadcast use {lemma_clear_bit, lemma_set_bit};

    lemma_codes_in_range(m);
}


/// What a well-formed square is: at most one color, at most one piece type,
/// a color exactly when a type, and no pawn on the first or last row.
pub open spec fn square_ok(v: GameView, i: int) -> bool {
    &&& !(is_set(v.colors[0], i) && is_set(v.colors[1], i))
    &&& forall|k1: int, k2: int|
        0 <= k1 < 6 && 0 <= k2 < 6 && k1 != k2 ==> !(#[trigger] is_set(v.pieces[k1], i)
            && #[trigger] is_set(v.pieces[k2], i))
    &&& occupied(v, i) == (type_at(v, i) is Some)
    &&& (is_set(v.pieces[0], i) ==> 8 <= i < 56)
}

/// An empty square of a well-formed position has no type and no color.
proof fn lemma_empty_square(v: GameView, i: int)
    requires
        wf(v),
        !occupied(v, i),
    ensures
        forall|k: int| 0 <= k < 6 ==> !#[trigger] is_set(v.pieces[k], i),
        !is_set(v.colors[0], i),
        !is_set(v.colors[1], i),
{
    assert(type_at(v, i) is None);
    assert forall|k: int| 0 <= k < 6 implies !#[trigger] is_set(v.pieces[k], i) by {
        assert(!has_type(v, PieceType::of_idx(k), i));
    }
}

/// A square of a well-formed position holding a piece of type index `q`
/// holds no other type.
proof fn lemma_only_type(v: GameView, i: int, q: int)
    requires
        wf(v),
        0 <= q < 6,
        is_set(v.pieces[q], i),
    ensures
        forall|k: int| 0 <= k < 6 ==> #[trigger] is_set(v.pieces[k], i) == (k == q),
{
    assert forall|k: int| 0 <= k < 6 implies #[trigger] is_set(v.pieces[k], i) == (k == q) by {
        if k != q {
            assert(!(is_set(v.pieces[k], i) && is_set(v.pieces[q], i)));
        }
    }
}

/// Each square stays well-formed when a pseudo-legal move is made.
proof fn lemma_square_after(v: GameView, m: Move, i: int)
    requires
        wf(v),
        pseudo_legal(v, m),
        0 <= i < 64,
    ensures
        square_ok(apply_view(v, m), i),
{
    broadcast use {lemma_clear_bit, lemma_set_bit};

    lemma_pseudo_legal_consistent(v, m);
    lemma_codes_in_range(m);
    let w = apply_view(v, m);
    let f = m.origin_code();
    let t = m.destination_code();
    let ty = m.spec_type();
    let p = m.spec_piece();
    let cap = m.spec_captured();
    let promo = m.spec_promoted();
    let c = v.player.idx();
    let o = opponent(v.player).idx();
    lemma_make_move_decode(v, f, t, ty, p, cap, promo);
    assert(c != o && 0 <= c < 2 && 0 <= o < 2);
    if !touched(m, i) {
        lemma_untouched(v, m, i);
        assert(occupied(v, i) == (type_at(v, i) is Some));
        assert(!(is_set(v.colors[0], i) && is_set(v.colors[1], i)));
        assert(is_set(v.pieces[0], i) ==> 8 <= i < 56);
        assert(occupied(w, i) == occupied(v, i));
        assert(type_at(w, i) == type_at(v, i));
    } else if i == f {
        lemma_origin_after(v, m);
    } else if i == t {
        lemma_destination_after(v, m);
    } else if ty == MoveType::EnPassant && i == en_passant_victim(f, t) {
        lemma_victim_after(v, m);
    } else if i == castle_rook_from(t) {
        lemma_rook_from_after(v, m);
    } else {
        lemma_rook_to_after(v, m);
    }
}

/// The origin is left empty.
proof fn lemma_origin_after(v: GameView, m: Move)
    requires
        wf(v),
        pseudo_legal(v, m),
    ensures
        square_ok(apply_view(v, m), m.origin_code()),
        type_at(apply_view(v, m), m.origin_code()) is None,
{
    broadcast use {lemma_clear_bit, lemma_set_bit};

    lemma_pseudo_legal_consistent(v, m);
    lemma_codes_in_range(m);
    let w = apply_view(v, m);
    let f = m.origin_code();
    let c = v.player.idx();
    lemma_only_type(v, f, m.spec_piece().idx());
    assert(!(is_set(v.colors[0], f) && is_set(v.colors[1], f)));
    assert forall|k: int| 0 <= k < 6 implies !#[trigger] is_set(w.pieces[k], f) by {}
    assert(!is_set(w.colors[0], f));
    assert(!is_set(w.colors[1], f));
    assert(type_at(w, f) is None);
}

/// The destination ends up holding the mover's piece, or the piece a pawn
/// promotes to.
proof fn lemma_destination_after(v: GameView, m: Move)
    requires
        wf(v),
        pseudo_legal(v, m),
    ensures
        square_ok(apply_view(v, m), m.destination_code()),
        type_at(apply_view(v, m), m.destination_code()) == Some(
            if m.spec_promoted() is Some { m.spec_promoted()->0 } else { m.spec_piece() },
        ),
        is_set(apply_view(v, m).colors[v.player.idx()], m.destination_code()),
{
    broadcast use {lemma_clear_bit, lemma_set_bit};

    lemma_pseudo_legal_consistent(v, m);
    lemma_codes_in_range(m);
    let w = apply_view(v, m);
    let f = m.origin_code();
    let t = m.destination_code();
    let ty = m.spec_type();
    let p = m.spec_piece();
    let cap = m.spec_captured();
    let promo = m.spec_promoted();
    let c = v.player.idx();
    let o = opponent(v.player).idx();
    lemma_make_move_decode(v, f, t, ty, p, cap, promo);
    assert(c != o && 0 <= c < 2 && 0 <= o < 2);
    if cap is None {
        assert forall|k: int| 0 <= k < 6 implies !#[trigger] is_set(v.pieces[k], t) by {
            assert(is_set(v.pieces[k], t) == captures(m, k));
        }
        assert(type_at(v, t) is None);
        assert(!occupied(v, t));
    }
    let q = match promo {
        Some(x) => x.idx(),
        None => p.idx(),
    };
    assert forall|k: int| 0 <= k < 6 implies #[trigger] is_set(w.pieces[k], t) == (k == q) by {
        assert(is_set(v.pieces[k], t) == captures(m, k));
    }
    assert(is_set(w.colors[c], t));
    assert(!is_set(w.colors[o], t));
    if q == 0 {
        assert(p == PieceType::Pawn && promo is None);
        assert(is_set(v.pieces[0], f));
        assert(8 <= f < 56);
        if v.player == Color::White {
            assert(t >= f + 7);
        } else {
            assert(t <= f - 7);
        }
    }
}

/// The square of a pawn taken en passant is left empty.
proof fn lemma_victim_after(v: GameView, m: Move)
    requires
        wf(v),
        pseudo_legal(v, m),
        m.spec_type() == MoveType::EnPassant,
    ensures
        square_ok(apply_view(v, m), en_passant_victim(m.origin_code(), m.destination_code())),
{
    broadcast use {lemma_clear_bit, lemma_set_bit};

    lemma_pseudo_legal_consistent(v, m);
    lemma_codes_in_range(m);
    let w = apply_view(v, m);
    let sq = en_passant_victim(m.origin_code(), m.destination_code());
    let c = v.player.idx();
    let o = opponent(v.player).idx();
    assert(c != o && 0 <= c < 2 && 0 <= o < 2);
    lemma_only_type(v, sq, 0);
    assert(!(is_set(v.colors[0], sq) && is_set(v.colors[1], sq)));
    assert forall|k: int| 0 <= k < 6 implies !#[trigger] is_set(w.pieces[k], sq) by {}
    assert(!is_set(w.colors[c], sq));
    assert(!is_set(w.colors[o], sq));
    assert(type_at(w, sq) is None);
}

/// The square a castling rook leaves is left empty.
proof fn lemma_rook_from_after(v: GameView, m: Move)
    requires
        wf(v),
        pseudo_legal(v, m),
        m.spec_type() == MoveType::Castle,
    ensures
        square_ok(apply_view(v, m), castle_rook_from(m.destination_code())),
{
    broadcast use {lemma_clear_bit, lemma_set_bit};

    lemma_pseudo_legal_consistent(v, m);
    lemma_codes_in_range(m);
    let w = apply_view(v, m);
    let f = m.origin_code();
    let t = m.destination_code();
    let r0 = castle_rook_from(t);
    let c = v.player.idx();
    let o = opponent(v.player).idx();
    lemma_make_move_decode(v, f, t, m.spec_type(), m.spec_piece(), m.spec_captured(), m.spec_promoted());
    assert(c != o && 0 <= c < 2 && 0 <= o < 2);
    lemma_only_type(v, r0, 3);
    assert(!(is_set(v.colors[0], r0) && is_set(v.colors[1], r0)));
    assert forall|k: int| 0 <= k < 6 implies !#[trigger] is_set(w.pieces[k], r0) by {}
    assert(!is_set(w.colors[c], r0));
    assert(!is_set(w.colors[o], r0));
    assert(type_at(w, r0) is None);
}

/// The square a castling rook goes to ends up holding it.
proof fn lemma_rook_to_after(v: GameView, m: Move)
    requires
        wf(v),
        pseudo_legal(v, m),
        m.spec_type() == MoveType::Castle,
    ensures
        square_ok(apply_view(v, m), castle_rook_to(m.destination_code())),
{
    broadcast use {lemma_clear_bit, lemma_set_bit};

    lemma_pseudo_legal_consistent(v, m);
    lemma_codes_in_range(m);
    let w = apply_view(v, m);
    let f = m.origin_code();
    let t = m.destination_code();
    let r1 = castle_rook_to(t);
    let c = v.player.idx();
    let o = opponent(v.player).idx();
    lemma_make_move_decode(v, f, t, m.spec_type(), m.spec_piece(), m.spec_captured(), m.spec_promoted());
    assert(c != o && 0 <= c < 2 && 0 <= o < 2);
    assert(castle_move(v, f, t));
    assert(!occupied(v, r1));
    lemma_empty_square(v, r1);
    assert forall|k: int| 0 <= k < 6 implies #[trigger] is_set(w.pieces[k], r1) == (k == 3) by {}
    assert(is_set(w.colors[c], r1));
    assert(!is_set(w.colors[o], r1));
}

/// A castling flag that survives the move was set before it, and neither
/// the origin nor a captured piece's square ends it.
proof fn lemma_flag_survives(v: GameView, m: Move, q: u8)
    requires
        q == 1 || q == 2 || q == 4 || q == 8,
        castling_after_apply(v.castling, m) & q != 0,
    ensures
        v.castling & q != 0,
        origin_flags(m.origin_code()) & q == 0,
        m.spec_captured() is Some ==> capture_flag(m.destination_code()) & q == 0,
{
    let cc = v.castling;
    let x = capture_flag(m.destination_code());
    let y = origin_flags(m.origin_code());
    assert(((cc & !x) & !y) & q != 0 && (q == 1 || q == 2 || q == 4 || q == 8) ==> cc & q != 0 && x & q == 0 && y & q == 0) by (bit_vector);
    assert((cc & !y) & q != 0 && (q == 1 || q == 2 || q == 4 || q == 8) ==> cc & q != 0 && y & q == 0) by (bit_vector);
}

/// The flags a square ends when a piece leaves it or is taken there.
proof fn lemma_flag_values()
    ensures
        origin_flags(4) & 1 != 0,
        origin_flags(4) & 2 != 0,
        origin_flags(60) & 4 != 0,
        origin_flags(60) & 8 != 0,
        origin_flags(0) & 1 != 0,
        origin_flags(7) & 2 != 0,
        origin_flags(56) & 4 != 0,
        origin_flags(63) & 8 != 0,
        capture_flag(0) & 1 != 0,
        capture_flag(7) & 2 != 0,
        capture_flag(56) & 4 != 0,
        capture_flag(63) & 8 != 0,
{
    assert(3u8 & 1 != 0 && 3u8 & 2 != 0 && 12u8 & 4 != 0 && 12u8 & 8 != 0) by (bit_vector);
    assert(1u8 & 1 != 0 && 2u8 & 2 != 0 && 4u8 & 4 != 0 && 8u8 & 8 != 0) by (bit_vector);
}

/// A castling flag that survives the move still has its king and its rook
/// on their starting squares.
proof fn lemma_flag_kept(v: GameView, m: Move, q: u8, cq: int, kq: int, rq: int)
    requires
        wf(v),
        pseudo_legal(v, m),
        m.spec_captured() != Some(PieceType::King),
        (q, cq, kq, rq) == (1u8, 0int, 4int, 0int) || (q, cq, kq, rq) == (2u8, 0int, 4int, 7int)
            || (q, cq, kq, rq) == (4u8, 1int, 60int, 56int) || (q, cq, kq, rq) == (8u8, 1int, 60int, 63int),
        castling_after_apply(v.castling, m) & q != 0,
    ensures
        is_set(apply_view(v, m).colors[cq], kq),
        is_set(apply_view(v, m).pieces[5], kq),
        is_set(apply_view(v, m).colors[cq], rq),
        is_set(apply_view(v, m).pieces[3], rq),
{
    lemma_pseudo_legal_consistent(v, m);
    lemma_codes_in_range(m);
    lemma_flag_survives(v, m, q);
    lemma_flag_values();
    let f = m.origin_code();
    let t = m.destination_code();
    let ty = m.spec_type();
    let c = v.player.idx();
    lemma_make_move_decode(v, f, t, ty, m.spec_piece(), m.spec_captured(), m.spec_promoted());
    assert(is_set(v.colors[cq], kq) && is_set(v.pieces[5], kq));
    assert(is_set(v.colors[cq], rq) && is_set(v.pieces[3], rq));
    assert(kq != f);
    assert(rq != f);
    if t == kq {
        assert(is_set(v.pieces[5], t) == captures(m, 5));
    }
    if t == rq {
        assert(is_set(v.pieces[3], t) == captures(m, 3));
    }
    if ty == MoveType::EnPassant {
        let sq = en_passant_victim(f, t);
        assert(!(is_set(v.pieces[0], kq) && is_set(v.pieces[5], kq)));
        assert(!(is_set(v.pieces[0], rq) && is_set(v.pieces[3], rq)));
    }
    if ty == MoveType::Castle {
        assert(castle_move(v, f, t));
    }
    assert(!touched(m, kq));
    assert(!touched(m, rq));
    lemma_untouched(v, m, kq);
    lemma_untouched(v, m, rq);
}

/// A pseudo-legal move keeps a position well-formed, unless it takes a
/// king.
pub proof fn lemma_wf_apply(v: GameView, m: Move)
    requires
        wf(v),
        pseudo_legal(v, m),
        m.spec_captured() != Some(PieceType::King),
    ensures
        wf(apply_view(v, m)),
{
    let w = apply_view(v, m);
    assert forall|i: int| 0 <= i < 64 implies #[trigger] square_ok(w, i) by {
        lemma_square_after(v, m, i);
    }
    assert forall|i: int| !(#[trigger] is_set(w.colors[0], i) && is_set(w.colors[1], i)) by {
        if 0 <= i < 64 {
            assert(square_ok(w, i));
        }
    }
    assert forall|i: int, k1: int, k2: int|
        0 <= k1 < 6 && 0 <= k2 < 6 && k1 != k2 implies !(#[trigger] is_set(w.pieces[k1], i)
            && #[trigger] is_set(w.pieces[k2], i)) by {
        if 0 <= i < 64 {
            assert(square_ok(w, i));
        }
    }
    assert forall|i: int| #![trigger occupied(w, i)] occupied(w, i) == (type_at(w, i) is Some) by {
        if 0 <= i < 64 {
            assert(square_ok(w, i));
        }
    }
    assert forall|i: int| #[trigger] is_set(w.pieces[0], i) implies 8 <= i < 56 by {
        if 0 <= i < 64 {
            assert(square_ok(w, i));
        }
    }
    let cc = v.castling;
    let x = capture_flag(m.destination_code());
    let y = origin_flags(m.origin_code());
    assert(cc < 16 ==> (cc & !x) & !y < 16 && cc & !y < 16) by (bit_vector);
    if w.castling & 1 != 0 {
        lemma_flag_kept(v, m, 1, 0, 4, 0);
    }
    if w.castling & 2 != 0 {
        lemma_flag_kept(v, m, 2, 0, 4, 7);
    }
    if w.castling & 4 != 0 {
        lemma_flag_kept(v, m, 4, 1, 60, 56);
    }
    if w.castling & 8 != 0 {
        lemma_flag_kept(v, m, 8, 1, 60, 63);
    }
    lemma_en_passant_after(v, m);
}

/// The en-passant square a two-square pawn move records is the empty square
/// it passed over.
proof fn lemma_en_passant_after(v: GameView, m: Move)
    requires
        wf(v),
        pseudo_legal(v, m),
    ensures
        ({
            let w = apply_view(v, m);
            w.en_passant matches Some(e) ==> !occupied(w, e) && match w.player {
                Color::White => 40 <= e < 48 && is_set(w.colors[1], e - 8) && is_set(w.pieces[0], e - 8),
                Color::Black => 16 <= e < 24 && is_set(w.colors[0], e + 8) && is_set(w.pieces[0], e + 8),
            }
        }),
{
    broadcast use {lemma_clear_bit, lemma_set_bit};

    lemma_pseudo_legal_consistent(v, m);
    lemma_codes_in_range(m);
    let w = apply_view(v, m);
    let f = m.origin_code();
    let t = m.destination_code();
    let ty = m.spec_type();
    let c = v.player.idx();
    lemma_make_move_decode(v, f, t, ty, m.spec_piece(), m.spec_captured(), m.spec_promoted());
    if ty == MoveType::TwoSquare {
        let e = forward(v.player, f, 1);
        assert(!occupied(v, e));
        lemma_empty_square(v, e);
        assert(!touched(m, e));
        lemma_untouched(v, m, e);
        if v.player == Color::White {
            assert(w.en_passant == Some(f + 8));
        } else {
            assert(w.en_passant == Some(f - 8));
        }
    }
}

/// In a position where the side not to move is not in check, no
/// pseudo-legal move takes a king.
pub proof fn lemma_no_king_capture(v: GameView, m: Move)
    requires
        wf(v),
        pseudo_legal(v, m),
        !king_in_check(v, opponent(v.player)),
    ensures
        m.spec_captured() != Some(PieceType::King),
{
    lemma_pseudo_legal_consistent(v, m);
    let f = m.origin_code();
    let t = m.destination_code();
    let p = m.spec_piece();
    let c = v.player;
    lemma_make_move_decode(v, f, t, m.spec_type(), p, m.spec_captured(), m.spec_promoted());
    if m.spec_captured() == Some(PieceType::King) {
        assert(is_set(v.pieces[5], t) == captures(m, 5));
        assert(has_type(v, PieceType::King, t));
        assert(has_color(v, opponent(c), t));
        assert(piece_attacks(v, p, c, f, t));
        assert(opponent(opponent(c)) == c);
        assert(attacked_by(v, c, t));
        assert(king_in_check(v, opponent(c)));
    }
}

/// A position play can go on from: well-formed, and the side that has just
/// moved has not left its king attacked.
pub open spec fn playable(v: GameView) -> bool {
    wf(v) && !king_in_check(v, opponent(v.player))
}

/// Legal moves keep play going: a legal move made in a position play can go
/// on from leads to another such position.
pub proof fn lemma_playable_apply(v: GameView, m: Move)
    requires
        playable(v),
        legal(v, m),
    ensures
        playable(apply_view(v, m)),
{
    lemma_no_king_capture(v, m);
    lemma_wf_apply(v, m);
    let w = apply_view(v, m);
    lemma_check_same_board(w, GameView { player: v.player, ..w }, v.player);
    assert(opponent(w.player) == v.player);
}

/// A pseudo-legal move is fixed by its origin, its destination and the
/// piece it promotes to: the position decides the rest.
pub proof fn lemma_pseudo_legal_unique(v: GameView, m1: Move, m2: Move)
    requires
        wf(v),
        pseudo_legal(v, m1),
        pseudo_legal(v, m2),
        m1.origin_code() == m2.origin_code(),
        m1.destination_code() == m2.destination_code(),
        m1.spec_promoted() == m2.spec_promoted(),
    ensures
        m1 == m2,
{
    let f = m1.origin_code();
    let t = m1.destination_code();
    let c = v.player;
    lemma_make_move_decode(v, f, t, m1.spec_type(), m1.spec_piece(), m1.spec_captured(), m1.spec_promoted());
    lemma_make_move_decode(v, f, t, m2.spec_type(), m2.spec_piece(), m2.spec_captured(), m2.spec_promoted());
    if m1.spec_type() == MoveType::Castle || m2.spec_type() == MoveType::Castle {
        let (a, b) = if m1.spec_type() == MoveType::Castle { (m1, m2) } else { (m2, m1) };
        assert(castle_move(v, f, t));
        assert(is_set(v.pieces[5], f));
        if b.spec_type() != MoveType::Castle {
            assert(has_type(v, b.spec_piece(), f));
            assert(!(is_set(v.pieces[b.spec_piece().idx()], f) && is_set(v.pieces[5], f)) || b.spec_piece() == PieceType::King);
            assert(b.spec_piece() == PieceType::King);
            assert(piece_attacks(v, PieceType::King, c, f, t));
            assert(false);
        }
    } else {
        let p1 = m1.spec_piece();
        let p2 = m2.spec_piece();
        assert(has_type(v, p1, f) && has_type(v, p2, f));
        if p1 != p2 {
            assert(!(is_set(v.pieces[p1.idx()], f) && is_set(v.pieces[p2.idx()], f)));
        }
        if p1 == PieceType::Pawn {
            if v.en_passant == Some(t) {
                assert(!occupied(v, t));
            }
            assert(pawn_move(v, f, t, m1.spec_type(), m1.spec_captured(), m1.spec_promoted()));
            assert(pawn_move(v, f, t, m2.spec_type(), m2.spec_captured(), m2.spec_promoted()));
        } else {
            assert(piece_move(v, p1, f, t, m1.spec_captured()));
            assert(piece_move(v, p1, f, t, m2.spec_captured()));
        }
    }
}

/// After a pseudo-legal move the destination holds a piece of the mover's
/// color: of the type the move promotes to when it promotes, else of the
/// moving piece's type; the origin is left empty.
pub proof fn lemma_apply_places_piece(v: GameView, m: Move)
    requires
        wf(v),
        pseudo_legal(v, m),
    ensures
        m.spec_promoted() matches Some(q) ==> type_at(apply_view(v, m), m.destination_code()) == Some(q),
        m.spec_promoted() is None ==> type_at(apply_view(v, m), m.destination_code()) == Some(m.spec_piece()),
        is_set(apply_view(v, m).colors[v.player.idx()], m.destination_code()),
        type_at(apply_view(v, m), m.origin_code()) is None,
{
    lemma_destination_after(v, m);
    lemma_origin_after(v, m);
}

/// A pawn move onto the last row is allowed with each of the four pieces a
/// pawn may become as soon as it is allowed with one of them, and never
/// without a promotion or with a pawn or a king.
pub proof fn lemma_promotion_choices(
    v: GameView,
    f: int,
    t: int,
    cap: Option<PieceType>,
    q1: PieceType,
    q2: PieceType,
)
    requires
        row(t) == (if v.player == Color::White { 7int } else { 0int }),
        q1 != PieceType::Pawn && q1 != PieceType::King,
        q2 != PieceType::Pawn && q2 != PieceType::King,
    ensures
        pawn_move(v, f, t, MoveType::Normal, cap, Some(q1)) == pawn_move(v, f, t, MoveType::Normal, cap, Some(q2)),
        !pawn_move(v, f, t, MoveType::Normal, cap, None),
        !pawn_move(v, f, t, MoveType::Normal, cap, Some(PieceType::Queen)) ==> !pawn_move(v, f, t, MoveType::Normal, cap, Some(q1)),
        !pawn_move(v, f, t, MoveType::Normal, cap, Some(PieceType::King)),
        !pawn_move(v, f, t, MoveType::Normal, cap, Some(PieceType::Pawn)),
{
}

} // verus!
