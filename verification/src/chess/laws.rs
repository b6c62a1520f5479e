//! What the moves the first engine generates are like, and the law that
//! taking back a move restores the state it was made in.
use vstd::prelude::*;

use crate::chess::{Color, MoveType, MoveView, Piece, PieceType, Position, StateView, index, opposite, pos, valid};
use crate::chess::spec::{
    all_moves, apply_spec, basic_moves, castle, castle_moves, direction, get, occupied,
    offset_moves, pawn_capture, pawn_moves, pawn_pushes, pawn_to, playable, ray, slide_moves, step, undo_spec, knight_offsets, bishop_slides, rook_slides, all_directions,
    own_pawn_on, own_king_on, rook_ready, castles_ready, takes_king, castle_rook_origin, castle_rook_target, apply_spec_castle_board,
    undo_spec_castle_board, cleared, placed, rook_moved, keep_safe, moves_upto, piece_moves,
    attacks_king, threatens_king, moves_spec, promotion_row,
};
use crate::chess::at;

verus! {

/// What every move of the piece on `p` is like: it leaves `p` for another
/// square of the board, records the castlings and en-passant square of the
/// state, captures what stands on its destination, and
/// - a promotion is a plain pawn move,
/// - an en-passant capture is a pawn's diagonal step onto the en-passant
///   square,
/// - a castle is a king's, allowed by its castling, onto an empty square with
///   the squares up to the rook empty.
pub open spec fn move_shape(s: StateView, p: Position, piece: Piece, m: MoveView) -> bool {
    &&& m.origin == p
    &&& valid(m.destination)
    &&& m.destination != p
    &&& m.previous_castlings == s.castlings
    &&& m.previous_en_passant == s.en_passant
    &&& m.captured == get(s, m.destination)
    &&& (m.promotion is Some ==> piece.t == PieceType::Pawn && m.t == MoveType::Normal)
    &&& (m.t == MoveType::TwoSquare ==> piece.t == PieceType::Pawn)
    &&& (m.t == MoveType::EnPassant ==> {
        &&& piece.t == PieceType::Pawn
        &&& s.en_passant == Some(m.destination)
        &&& m.origin.row == m.destination.row - direction(piece.color)
        &&& (m.origin.column == m.destination.column - 1 || m.origin.column == m.destination.column + 1)
    })
    &&& (m.t == MoveType::Castle ==> {
        &&& piece.t == PieceType::King
        &&& m.captured is None
        &&& rook_ready(s, m)
        &&& ((s.active == Color::White && m.destination == pos(7, 2) && s.castlings.contains(
            Piece { t: PieceType::Queen, color: Color::White },
        ) && !occupied(s, pos(7, 1)) && !occupied(s, pos(7, 3))) || (s.active == Color::White
            && m.destination == pos(7, 6) && s.castlings.contains(Piece { t: PieceType::King, color: Color::White })
            && !occupied(s, pos(7, 5))) || (s.active == Color::Black && m.destination == pos(0, 2)
            && s.castlings.contains(Piece { t: PieceType::Queen, color: Color::Black }) && !occupied(
            s,
            pos(0, 1),
        ) && !occupied(s, pos(0, 3))) || (s.active == Color::Black && m.destination == pos(0, 6)
            && s.castlings.contains(Piece { t: PieceType::King, color: Color::Black }) && !occupied(
            s,
            pos(0, 5),
        )))
    })
}

/// A normal move by a nonzero offset has the shape of a move of `piece`.
proof fn lemma_offset_moves_shape(s: StateView, p: Position, piece: Piece, offs: Seq<Position>, j: int)
    requires
        valid(p),
        forall|k: int| 0 <= k < offs.len() ==> (#[trigger] offs[k]).row != 0 || offs[k].column != 0,
        forall|k: int| 0 <= k < offs.len() ==> -2 <= (#[trigger] offs[k]).row <= 2 && -2 <= offs[k].column <= 2,
        0 <= j < offset_moves(s, p, offs).len(),
    ensures
        move_shape(s, p, piece, offset_moves(s, p, offs)[j]),
        offset_moves(s, p, offs)[j].t == MoveType::Normal,
        offset_moves(s, p, offs)[j].promotion is None,
    decreases offs.len(),
{
    let rest = offset_moves(s, p, offs.drop_last());
    if j < rest.len() {
        lemma_offset_moves_shape(s, p, piece, offs.drop_last(), j);
    } else {
        let off = offs.last();
        assert(off == offs[offs.len() - 1]);
    }
}

/// The moves of a slide have the shape of a move of `piece`.
proof fn lemma_ray_shape(s: StateView, p: Position, piece: Piece, d: Position, k: nat, j: int)
    requires
        valid(p),
        -1 <= d.row <= 1 && -1 <= d.column <= 1 && (d.row != 0 || d.column != 0),
        k >= 1,
        0 <= j < ray(s, p, d, k).len(),
    ensures
        move_shape(s, p, piece, ray(s, p, d, k)[j]),
        ray(s, p, d, k)[j].t == MoveType::Normal,
        ray(s, p, d, k)[j].promotion is None,
    decreases 9 - k,
{
    if k < 9 {
        let c = step(p, d, k as int);
        assert(-9 <= k * d.row <= 9 && -9 <= k * d.column <= 9) by (nonlinear_arith)
            requires
                -1 <= d.row <= 1,
                -1 <= d.column <= 1,
                1 <= k <= 8,
        ;
        if d.row != 0 {
            assert(k * d.row != 0) by (nonlinear_arith)
                requires
                    d.row != 0,
                    k >= 1,
            ;
        } else {
            assert(k * d.column != 0) by (nonlinear_arith)
                requires
                    d.column != 0,
                    k >= 1,
            ;
        }
        assert(c != p);
        if valid(c) && !occupied(s, c) {
            if j > 0 {
                lemma_ray_shape(s, p, piece, d, k + 1, j - 1);
            }
        }
    }
}

/// The moves of slides have the shape of a move of `piece`.
proof fn lemma_slide_moves_shape(s: StateView, p: Position, piece: Piece, slides: Seq<Position>, j: int)
    requires
        valid(p),
        forall|k: int| 0 <= k < slides.len() ==> -1 <= (#[trigger] slides[k]).row <= 1 && -1 <= slides[k].column <= 1
            && (slides[k].row != 0 || slides[k].column != 0),
        0 <= j < slide_moves(s, p, slides).len(),
    ensures
        move_shape(s, p, piece, slide_moves(s, p, slides)[j]),
        slide_moves(s, p, slides)[j].t == MoveType::Normal,
        slide_moves(s, p, slides)[j].promotion is None,
    decreases slides.len(),
{
    let rest = slide_moves(s, p, slides.drop_last());
    if j < rest.len() {
        lemma_slide_moves_shape(s, p, piece, slides.drop_last(), j);
    } else {
        let d = slides.last();
        assert(d == slides[slides.len() - 1]);
        lemma_ray_shape(s, p, piece, d, 1, j - rest.len());
    }
}

/// A pawn of the side to move in a playable state has the square ahead of it
/// on the board.
proof fn lemma_pawn_rows(s: StateView, p: Position, piece: Piece)
    requires
        playable(s),
        valid(p),
        get(s, p) == Some(piece),
        piece.t == PieceType::Pawn,
        piece.color == s.active,
    ensures
        0 <= p.row + direction(piece.color) <= 7,
{
    if p.row == 0 && piece.color == Color::White {
        assert(own_pawn_on(s, index(p)));
    }
    if p.row == 7 && piece.color == Color::Black {
        assert(own_pawn_on(s, index(p)));
    }
}

/// The moves of a pawn have the shape of a pawn's moves.
proof fn lemma_pawn_shape(s: StateView, p: Position, piece: Piece, j: int)
    requires
        playable(s),
        valid(p),
        get(s, p) == Some(piece),
        piece.t == PieceType::Pawn,
        piece.color == s.active,
        0 <= j < pawn_moves(s, p, piece.color).len(),
    ensures
        move_shape(s, p, piece, pawn_moves(s, p, piece.color)[j]),
{
    lemma_pawn_rows(s, p, piece);
    let c = piece.color;
    let pushes = pawn_pushes(s, p, c);
    let left = pawn_capture(s, p, c, -1);
    let right = pawn_capture(s, p, c, 1);
    assert(pawn_moves(s, p, c) == pushes + left + right);
    let m = pawn_moves(s, p, c)[j];
    if j < pushes.len() {
        assert(m == pushes[j]);
        let f = pos(p.row + direction(c), p.column as int);
        assert(valid(f));
        let first = pawn_to(s, c, p, f, None);
        if j < first.len() {
            assert(m == first[j]);
        } else {
            let f2 = pos(p.row + 2 * direction(c), p.column as int);
            assert(valid(f2));
        }
    } else if j < pushes.len() + left.len() {
        assert(m == left[j - pushes.len()]);
    } else {
        assert(m == right[j - pushes.len() - left.len()]);
    }
}

/// A castle of the king on `p` has the shape of a king's castle.
proof fn lemma_castle_shape(s: StateView, p: Position, piece: Piece, j: int)
    requires
        playable(s),
        valid(p),
        get(s, p) == Some(piece),
        piece.t == PieceType::King,
        piece.color == s.active,
        0 <= j < castle_moves(s, p).len(),
    ensures
        move_shape(s, p, piece, castle_moves(s, p)[j]),
        !takes_king(castle_moves(s, p)[j]),
{
    let a = castle(s, p, Color::White, PieceType::Queen, seq![pos(7, 1), pos(7, 2), pos(7, 3)], pos(7, 3), pos(7, 2));
    let b = castle(s, p, Color::White, PieceType::King, seq![pos(7, 5), pos(7, 6)], pos(7, 5), pos(7, 6));
    let c = castle(s, p, Color::Black, PieceType::Queen, seq![pos(0, 1), pos(0, 2), pos(0, 3)], pos(0, 3), pos(0, 2));
    let d = castle(s, p, Color::Black, PieceType::King, seq![pos(0, 5), pos(0, 6)], pos(0, 5), pos(0, 6));
    assert(castle_moves(s, p) == a + b + c + d);
    let m = castle_moves(s, p)[j];
    assert(at(index(p)) == p);
    assert(own_king_on(s, index(p)));
    assert(castles_ready(s, at(index(p))));
    assert(rook_ready(s, m));
    if j < a.len() {
        assert(m == a[j]);
        assert(!occupied(s, seq![pos(7, 1), pos(7, 2), pos(7, 3)][0]));
        assert(!occupied(s, seq![pos(7, 1), pos(7, 2), pos(7, 3)][1]));
        assert(!occupied(s, seq![pos(7, 1), pos(7, 2), pos(7, 3)][2]));
    } else if j < a.len() + b.len() {
        assert(m == b[j - a.len()]);
        assert(!occupied(s, seq![pos(7, 5), pos(7, 6)][0]));
        assert(!occupied(s, seq![pos(7, 5), pos(7, 6)][1]));
    } else if j < a.len() + b.len() + c.len() {
        assert(m == c[j - a.len() - b.len()]);
        assert(!occupied(s, seq![pos(0, 1), pos(0, 2), pos(0, 3)][0]));
        assert(!occupied(s, seq![pos(0, 1), pos(0, 2), pos(0, 3)][1]));
        assert(!occupied(s, seq![pos(0, 1), pos(0, 2), pos(0, 3)][2]));
    } else {
        assert(m == d[j - a.len() - b.len() - c.len()]);
        assert(!occupied(s, seq![pos(0, 5), pos(0, 6)][0]));
        assert(!occupied(s, seq![pos(0, 5), pos(0, 6)][1]));
    }
}

/// No castle takes a king.
pub proof fn lemma_castle_no_king(s: StateView, p: Position, piece: Piece, j: int)
    requires
        0 <= j < castle_moves(s, p).len(),
    ensures
        !takes_king(castle_moves(s, p)[j]),
{
    let a = castle(s, p, Color::White, PieceType::Queen, seq![pos(7, 1), pos(7, 2), pos(7, 3)], pos(7, 3), pos(7, 2));
    let b = castle(s, p, Color::White, PieceType::King, seq![pos(7, 5), pos(7, 6)], pos(7, 5), pos(7, 6));
    let c = castle(s, p, Color::Black, PieceType::Queen, seq![pos(0, 1), pos(0, 2), pos(0, 3)], pos(0, 3), pos(0, 2));
    let d = castle(s, p, Color::Black, PieceType::King, seq![pos(0, 5), pos(0, 6)], pos(0, 5), pos(0, 6));
    assert(castle_moves(s, p) == a + b + c + d);
    let m = castle_moves(s, p)[j];
    if j < a.len() {
        assert(m == a[j]);
    } else if j < a.len() + b.len() {
        assert(m == b[j - a.len()]);
    } else if j < a.len() + b.len() + c.len() {
        assert(m == c[j - a.len() - b.len()]);
    } else {
        assert(m == d[j - a.len() - b.len() - c.len()]);
    }
}

/// Among the moves of a king, the castles are exactly those after its steps.
pub proof fn lemma_king_castles(s: StateView, p: Position, piece: Piece)
    requires
        valid(p),
        piece.t == PieceType::King,
    ensures
        forall|k: int| 0 <= k < all_moves(s, p, piece).len() ==>
            ((#[trigger] all_moves(s, p, piece)[k]).t == MoveType::Castle <==> k >= basic_moves(s, p, piece).len()),
        forall|j: int| 0 <= j < castle_moves(s, p).len() ==>
            all_moves(s, p, piece)[basic_moves(s, p, piece).len() + j] == #[trigger] castle_moves(s, p)[j],
        all_moves(s, p, piece).len() == basic_moves(s, p, piece).len() + castle_moves(s, p).len(),
{
    let basic = basic_moves(s, p, piece);
    let cs = castle_moves(s, p);
    assert(all_moves(s, p, piece) == basic + cs);
    assert forall|k: int| 0 <= k < all_moves(s, p, piece).len() implies
        ((#[trigger] all_moves(s, p, piece)[k]).t == MoveType::Castle <==> k >= basic.len()) by {
        if k < basic.len() {
            lemma_offset_moves_shape(s, p, piece, all_directions(), k);
        } else {
            lemma_castle_type(s, p, k - basic.len());
        }
    }
}

/// A castle goes between squares of the board.
pub proof fn lemma_castle_valid(s: StateView, p: Position, j: int)
    requires
        valid(p),
        0 <= j < castle_moves(s, p).len(),
    ensures
        castle_moves(s, p)[j].origin == p,
        valid(castle_moves(s, p)[j].destination),
{
    let a = castle(s, p, Color::White, PieceType::Queen, seq![pos(7, 1), pos(7, 2), pos(7, 3)], pos(7, 3), pos(7, 2));
    let b = castle(s, p, Color::White, PieceType::King, seq![pos(7, 5), pos(7, 6)], pos(7, 5), pos(7, 6));
    let c = castle(s, p, Color::Black, PieceType::Queen, seq![pos(0, 1), pos(0, 2), pos(0, 3)], pos(0, 3), pos(0, 2));
    let d = castle(s, p, Color::Black, PieceType::King, seq![pos(0, 5), pos(0, 6)], pos(0, 5), pos(0, 6));
    assert(castle_moves(s, p) == a + b + c + d);
    let m = castle_moves(s, p)[j];
    if j < a.len() {
        assert(m == a[j]);
    } else if j < a.len() + b.len() {
        assert(m == b[j - a.len()]);
    } else if j < a.len() + b.len() + c.len() {
        assert(m == c[j - a.len() - b.len()]);
    } else {
        assert(m == d[j - a.len() - b.len() - c.len()]);
    }
}

/// A castle of the king on `p` is a move of type `Castle`.
proof fn lemma_castle_type(s: StateView, p: Position, j: int)
    requires
        0 <= j < castle_moves(s, p).len(),
    ensures
        castle_moves(s, p)[j].t == MoveType::Castle,
{
    let a = castle(s, p, Color::White, PieceType::Queen, seq![pos(7, 1), pos(7, 2), pos(7, 3)], pos(7, 3), pos(7, 2));
    let b = castle(s, p, Color::White, PieceType::King, seq![pos(7, 5), pos(7, 6)], pos(7, 5), pos(7, 6));
    let c = castle(s, p, Color::Black, PieceType::Queen, seq![pos(0, 1), pos(0, 2), pos(0, 3)], pos(0, 3), pos(0, 2));
    let d = castle(s, p, Color::Black, PieceType::King, seq![pos(0, 5), pos(0, 6)], pos(0, 5), pos(0, 6));
    assert(castle_moves(s, p) == a + b + c + d);
    let m = castle_moves(s, p)[j];
    if j < a.len() {
        assert(m == a[j]);
    } else if j < a.len() + b.len() {
        assert(m == b[j - a.len()]);
    } else if j < a.len() + b.len() + c.len() {
        assert(m == c[j - a.len() - b.len()]);
    } else {
        assert(m == d[j - a.len() - b.len() - c.len()]);
    }
}

/// Every move of a piece of the side to move has the shape of its moves.
pub proof fn lemma_all_moves_shape(s: StateView, p: Position, piece: Piece, j: int)
    requires
        playable(s),
        valid(p),
        get(s, p) == Some(piece),
        piece.color == s.active,
        0 <= j < all_moves(s, p, piece).len(),
    ensures
        move_shape(s, p, piece, all_moves(s, p, piece)[j]),
{
    let basic = basic_moves(s, p, piece);
    if j < basic.len() {
        assert(all_moves(s, p, piece)[j] == basic[j]);
        match piece.t {
            PieceType::Pawn => lemma_pawn_shape(s, p, piece, j),
            PieceType::Knight => lemma_offset_moves_shape(s, p, piece, knight_offsets(), j),
            PieceType::Bishop => lemma_slide_moves_shape(s, p, piece, bishop_slides(), j),
            PieceType::Rook => lemma_slide_moves_shape(s, p, piece, rook_slides(), j),
            PieceType::Queen => lemma_slide_moves_shape(s, p, piece, all_directions(), j),
            PieceType::King => lemma_offset_moves_shape(s, p, piece, all_directions(), j),
        }
    } else {
        assert(all_moves(s, p, piece)[j] == castle_moves(s, p)[j - basic.len()]);
        lemma_castle_shape(s, p, piece, j - basic.len());
    }
}

/// What `apply` and then `undo` need of a move: those of its squares that
/// must hold a piece do.
pub open spec fn can_apply_and_undo(s: StateView, m: MoveView) -> bool {
    let t = apply_spec(s, m);
    &&& valid(m.origin)
    &&& valid(m.destination)
    &&& occupied(s, m.origin)
    &&& (m.t == MoveType::Castle ==> occupied(apply_spec_castle_board(s, m), castle_rook_origin(s.active, m.destination)))
    &&& occupied(t, m.destination)
    &&& (m.t == MoveType::EnPassant ==> valid(pos(m.origin.row as int, m.destination.column as int)))
    &&& (m.t == MoveType::Castle ==> occupied(undo_spec_castle_board(t, m), castle_rook_target(opposite(t.active), m.destination)))
}

/// Taking back a move of a piece of the side to move restores the state it
/// was made in.
pub proof fn lemma_undo_apply(s: StateView, p: Position, piece: Piece, m: MoveView)
    requires
        playable(s),
        valid(p),
        get(s, p) == Some(piece),
        piece.color == s.active,
        move_shape(s, p, piece, m),
    ensures
        can_apply_and_undo(s, m),
        undo_spec(apply_spec(s, m), m) == s,
{
    let t = apply_spec(s, m);
    let o = m.origin;
    let d = m.destination;
    let b = s.board;
    assert(index(o) != index(d));
    assert(0 <= index(o) < 64 && 0 <= index(d) < 64);
    let b1 = placed(cleared(b, o), d, piece);
    if m.t == MoveType::Castle {
        let r0 = castle_rook_origin(s.active, d);
        let r1 = castle_rook_target(s.active, d);
        assert(rook_ready(s, m));
        assert(r0 != d);
        assert(index(r0) != index(d));
        assert(index(r0) != index(o));
        assert(occupied(s, r0));
        assert(index(r1) != index(o));
        assert(!occupied(s, r1));
        assert(!occupied(s, d));
        assert(b1[index(r0)] == b[index(r0)]);
        let b2 = rook_moved(b1, r0, r1);
        assert(t.board == b2);
        let u = undo_spec(t, m);
        assert(u.board =~= b);
    } else if m.t == MoveType::EnPassant {
        let v = pos(o.row as int, d.column as int);
        let e = d;
        assert(s.en_passant == Some(e));
        assert(v == pos(e.row - direction(s.active), e.column as int));
        assert(valid(v));
        assert(index(v) != index(o) && index(v) != index(d));
        let u = undo_spec(t, m);
        assert(u.board =~= b);
    } else {
        let u = undo_spec(t, m);
        assert(u.board =~= b);
    }
    assert(undo_spec(t, m) == s);
}

/// A move kept as safe is one of the moves it was picked from.
proof fn lemma_keep_safe_from(s: StateView, ms: Seq<MoveView>, j: int) -> (k: int)
    requires
        0 <= j < keep_safe(s, ms).len(),
    ensures
        0 <= k < ms.len(),
        keep_safe(s, ms)[j] == ms[k],
    decreases ms.len(),
{
    let rest = keep_safe(s, ms.drop_last());
    if j < rest.len() {
        let k = lemma_keep_safe_from(s, ms.drop_last(), j);
        k
    } else {
        (ms.len() - 1) as int
    }
}

/// A move of the side to move is a move of one of its pieces.
pub proof fn lemma_move_of_piece(s: StateView, n: nat, j: int) -> (r: (int, Piece, int))
    requires
        s.board.len() == 64,
        n <= 64,
        0 <= j < moves_upto(s, n).len(),
    ensures
        0 <= r.0 < n,
        s.board[r.0] == Some(r.1),
        r.1.color == s.active,
        valid(at(r.0)),
        index(at(r.0)) == r.0,
        get(s, at(r.0)) == Some(r.1),
        0 <= r.2 < all_moves(s, at(r.0), r.1).len(),
        moves_upto(s, n)[j] == all_moves(s, at(r.0), r.1)[r.2],
    decreases n,
{
    let rest = moves_upto(s, (n - 1) as nat);
    if j < rest.len() {
        lemma_move_of_piece(s, (n - 1) as nat, j)
    } else {
        let i = n - 1;
        let piece = s.board[i]->0;
        assert(s.board[i] matches Some(p) && p.color == s.active);
        let ms = piece_moves(s, at(i), piece, false);
        assert(moves_upto(s, n)[j] == ms[j - rest.len()]);
        let k = lemma_keep_safe_from(s, all_moves(s, at(i), piece), j - rest.len());
        (i, piece, k)
    }
}

/// The piece of the side to move on square `i` has, among the moves
/// `piece_move` gives when only threats are asked for (castles included, no
/// safety filter), one that takes a king.
pub open spec fn threat_takes_king(s: StateView, i: int) -> bool {
    match s.board[i] {
        Some(piece) => piece.color == s.active && exists|j: int|
            0 <= j < piece_moves(s, at(i), piece, true).len() && #[trigger] takes_king(piece_moves(s, at(i), piece, true)[j]),
        None => false,
    }
}

/// What `in_check` answers is whether some piece of the side to move has a
/// threat, as `piece_move` lists threats, that takes a king.
pub proof fn lemma_attacks_king_threats(s: StateView)
    ensures
        attacks_king(s) == exists|i: int| 0 <= i < 64 && #[trigger] threat_takes_king(s, i),
{
    assert forall|i: int| 0 <= i < 64 implies #[trigger] threatens_king(s, i) == threat_takes_king(s, i) by {
        match s.board[i] {
            Some(piece) => {
                let p = at(i);
                let basic = basic_moves(s, p, piece);
                let all = piece_moves(s, p, piece, true);
                assert(all == basic + if piece.t == PieceType::King { castle_moves(s, p) } else { seq![] });
                if threatens_king(s, i) {
                    let j = choose|j: int| 0 <= j < basic.len() && #[trigger] takes_king(basic[j]);
                    assert(all[j] == basic[j]);
                }
                if threat_takes_king(s, i) {
                    let j = choose|j: int| 0 <= j < all.len() && #[trigger] takes_king(all[j]);
                    if j < basic.len() {
                        assert(all[j] == basic[j]);
                    } else {
                        assert(all[j] == castle_moves(s, p)[j - basic.len()]);
                        lemma_castle_no_king(s, p, piece, j - basic.len());
                    }
                }
            },
            None => {},
        }
    }
    if attacks_king(s) {
        let i = choose|i: int| 0 <= i < 64 && #[trigger] threatens_king(s, i);
        assert(threat_takes_king(s, i));
    }
    if exists|i: int| 0 <= i < 64 && #[trigger] threat_takes_king(s, i) {
        let i = choose|i: int| 0 <= i < 64 && #[trigger] threat_takes_king(s, i);
        assert(threatens_king(s, i));
    }
}

/// Every move `moves` lists starts from a square holding a piece of the
/// side to move.
pub proof fn lemma_moves_own_pieces(s: StateView)
    requires
        playable(s),
    ensures
        forall|j: int| 0 <= j < moves_spec(s).len() ==>
            (get(s, (#[trigger] moves_spec(s)[j]).origin) matches Some(p) && p.color == s.active),
{
    assert forall|j: int| 0 <= j < moves_spec(s).len() implies
        (get(s, (#[trigger] moves_spec(s)[j]).origin) matches Some(p) && p.color == s.active) by {
        let (k, piece, jj) = lemma_move_of_piece(s, 64, j);
        lemma_all_moves_shape(s, at(k), piece, jj);
    }
}

/// A pawn move onto the last row comes once for each piece a pawn may
/// become (knight, bishop, rook and queen), each a normal move between the
/// same squares taking the same piece; any other pawn move comes once, and
/// promotes to nothing.
pub proof fn lemma_pawn_to_promotions(s: StateView, c: Color, p: Position, q: Position, captured: Option<Piece>)
    ensures
        promotion_row(c, q) ==> pawn_to(s, c, p, q, captured).len() == 4,
        promotion_row(c, q) ==> exists|j: int| 0 <= j < 4 && (#[trigger] pawn_to(s, c, p, q, captured)[j]).promotion == Some(PieceType::Knight),
        promotion_row(c, q) ==> exists|j: int| 0 <= j < 4 && (#[trigger] pawn_to(s, c, p, q, captured)[j]).promotion == Some(PieceType::Bishop),
        promotion_row(c, q) ==> exists|j: int| 0 <= j < 4 && (#[trigger] pawn_to(s, c, p, q, captured)[j]).promotion == Some(PieceType::Rook),
        promotion_row(c, q) ==> exists|j: int| 0 <= j < 4 && (#[trigger] pawn_to(s, c, p, q, captured)[j]).promotion == Some(PieceType::Queen),
        forall|i: int, j: int| 0 <= i < j < pawn_to(s, c, p, q, captured).len() ==>
            (#[trigger] pawn_to(s, c, p, q, captured)[i]).promotion != (#[trigger] pawn_to(s, c, p, q, captured)[j]).promotion,
        forall|j: int| 0 <= j < pawn_to(s, c, p, q, captured).len() ==> {
            let m = #[trigger] pawn_to(s, c, p, q, captured)[j];
            &&& m.t == MoveType::Normal
            &&& m.origin == p
            &&& m.destination == q
            &&& m.captured == captured
            &&& (m.promotion is Some <==> promotion_row(c, q))
        },
        !promotion_row(c, q) ==> pawn_to(s, c, p, q, captured).len() == 1,
{
    let ms = pawn_to(s, c, p, q, captured);
    if promotion_row(c, q) {
        assert(ms[0].promotion == Some(PieceType::Knight));
        assert(ms[1].promotion == Some(PieceType::Bishop));
        assert(ms[2].promotion == Some(PieceType::Rook));
        assert(ms[3].promotion == Some(PieceType::Queen));
    }
}

/// Playing a normal move that promotes to `t` leaves a piece of type `t`, of
/// the moving piece's color, on the destination; a normal move that does not
/// promote leaves the moving piece there; either way the origin is empty.
pub proof fn lemma_apply_places(s: StateView, m: MoveView)
    requires
        s.board.len() == 64,
        valid(m.origin),
        valid(m.destination),
        m.origin != m.destination,
        occupied(s, m.origin),
        m.t == MoveType::Normal,
    ensures
        m.promotion matches Some(t) ==> get(apply_spec(s, m), m.destination) == Some(Piece { t, color: get(s, m.origin)->0.color }),
        m.promotion is None ==> get(apply_spec(s, m), m.destination) == get(s, m.origin),
        !occupied(apply_spec(s, m), m.origin),
{
    assert(index(m.origin) != index(m.destination));
    assert(0 <= index(m.origin) < 64 && 0 <= index(m.destination) < 64);
}

} // verus!
