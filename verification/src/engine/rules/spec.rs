//! The rules of chess over the bitboard view: which squares a piece reaches,
//! which squares a side attacks and which moves a position allows.
use vstd::prelude::*;

use crate::engine::model::{Color, Move, MoveType, PieceType};
use crate::engine::model::bits::is_set;
use crate::engine::model::game_state_impl::{GameView, opponent, apply_view};
use crate::engine::model::move_impl::{encode, optional_piece_code};

verus! {

pub open spec fn row(i: int) -> int {
    i / 8
}

pub open spec fn col(i: int) -> int {
    i % 8
}

pub open spec fn on_board(r: int, c: int) -> bool {
    0 <= r < 8 && 0 <= c < 8
}

pub open spec fn abs(x: int) -> int {
    if x < 0 {
        -x
    } else {
        x
    }
}

/// A knight jumps from `a` to `b`.
pub open spec fn knight_step(a: int, b: int) -> bool {
    let dr = abs(row(b) - row(a));
    let dc = abs(col(b) - col(a));
    &&& 0 <= a < 64
    &&& 0 <= b < 64
    &&& ((dr == 1 && dc == 2) || (dr == 2 && dc == 1))
}

/// A king steps from `a` to `b`.
pub open spec fn king_step(a: int, b: int) -> bool {
    let dr = abs(row(b) - row(a));
    let dc = abs(col(b) - col(a));
    &&& 0 <= a < 64
    &&& 0 <= b < 64
    &&& dr <= 1
    &&& dc <= 1
    &&& a != b
}

/// Whether any piece stands on square `i`.
pub open spec fn occupied(v: GameView, i: int) -> bool {
    is_set(v.colors[0], i) || is_set(v.colors[1], i)
}

/// Whether a piece of color `c` stands on square `i`.
pub open spec fn has_color(v: GameView, c: Color, i: int) -> bool {
    is_set(v.colors[c.idx()], i)
}

/// Whether a piece of type `p` stands on square `i`.
pub open spec fn has_type(v: GameView, p: PieceType, i: int) -> bool {
    is_set(v.pieces[p.idx()], i)
}

/// The type of the piece on square `i`, looked up from pawns to kings.
pub open spec fn type_at(v: GameView, i: int) -> Option<PieceType> {
    if has_type(v, PieceType::Pawn, i) {
        Some(PieceType::Pawn)
    } else if has_type(v, PieceType::Knight, i) {
        Some(PieceType::Knight)
    } else if has_type(v, PieceType::Bishop, i) {
        Some(PieceType::Bishop)
    } else if has_type(v, PieceType::Rook, i) {
        Some(PieceType::Rook)
    } else if has_type(v, PieceType::Queen, i) {
        Some(PieceType::Queen)
    } else if has_type(v, PieceType::King, i) {
        Some(PieceType::King)
    } else {
        None
    }
}

/// The row step of direction `d`. The eight directions are, in order: the
/// four diagonals (down-left, down-right, up-left, up-right), then down, up,
/// left and right.
pub open spec fn row_delta(d: int, n: int) -> int {
    if d == 0 || d == 1 || d == 4 {
        -n
    } else if d == 2 || d == 3 || d == 5 {
        n
    } else {
        0
    }
}

/// The column step of direction `d`.
pub open spec fn col_delta(d: int, n: int) -> int {
    if d == 0 || d == 2 || d == 6 {
        -n
    } else if d == 1 || d == 3 || d == 7 {
        n
    } else {
        0
    }
}

/// The square `n` steps from `a` in direction `d`.
pub open spec fn ray_square(a: int, d: int, n: int) -> int {
    (row(a) + row_delta(d, n)) * 8 + col(a) + col_delta(d, n)
}

/// The square `n` steps from `a` in direction `d` lies on the board.
pub open spec fn ray_on_board(a: int, d: int, n: int) -> bool {
    on_board(row(a) + row_delta(d, n), col(a) + col_delta(d, n))
}

/// A piece on `a` sliding in direction `d` reaches `b`: `b` lies on the ray
/// and every square between them is empty.
pub open spec fn slides_to(v: GameView, a: int, d: int, b: int) -> bool {
    exists|n: int|
        #![trigger ray_square(a, d, n)]
        n >= 1 && ray_on_board(a, d, n) && ray_square(a, d, n) == b && forall|j: int|
            #![trigger ray_square(a, d, j)]
            1 <= j < n ==> !occupied(v, ray_square(a, d, j))
}

/// A bishop on `a` reaches `b`.
pub open spec fn diagonal_to(v: GameView, a: int, b: int) -> bool {
    exists|d: int| 0 <= d < 4 && #[trigger] slides_to(v, a, d, b)
}

/// A rook on `a` reaches `b`.
pub open spec fn straight_to(v: GameView, a: int, b: int) -> bool {
    exists|d: int| 4 <= d < 8 && #[trigger] slides_to(v, a, d, b)
}

/// The squares a pawn of color `c` on `a` attacks: one row forward and one
/// column to either side.
pub open spec fn pawn_attacks(c: Color, a: int, b: int) -> bool {
    &&& 0 <= a < 64
    &&& match c {
        Color::White => (b == a + 7 && col(a) > 0) || (b == a + 9 && col(a) < 7),
        Color::Black => (b == a - 9 && col(a) > 0) || (b == a - 7 && col(a) < 7),
    }
}

/// The piece of type `p` and color `c` on `a` attacks square `b`.
pub open spec fn piece_attacks(v: GameView, p: PieceType, c: Color, a: int, b: int) -> bool {
    match p {
        PieceType::Pawn => pawn_attacks(c, a, b),
        PieceType::Knight => knight_step(a, b),
        PieceType::Bishop => diagonal_to(v, a, b),
        PieceType::Rook => straight_to(v, a, b),
        PieceType::Queen => diagonal_to(v, a, b) || straight_to(v, a, b),
        PieceType::King => king_step(a, b),
    }
}

/// Some piece of color `c` attacks square `b`.
pub open spec fn attacked_by(v: GameView, c: Color, b: int) -> bool {
    exists|a: int, p: PieceType|
        #![trigger piece_attacks(v, p, c, a, b)]
        0 <= a < 64 && has_color(v, c, a) && has_type(v, p, a) && piece_attacks(v, p, c, a, b)
}

/// Some piece of type `p` and color `c` attacks some square of `target`.
pub open spec fn attacks_some(v: GameView, c: Color, p: PieceType, target: u64) -> bool {
    exists|a: int, b: int|
        #![trigger piece_attacks(v, p, c, a, b), is_set(target, b)]
        0 <= a < 64 && has_color(v, c, a) && has_type(v, p, a) && piece_attacks(v, p, c, a, b)
            && is_set(target, b)
}

/// Some square of `target` is attacked by color `c`.
pub open spec fn set_attacked_by(v: GameView, c: Color, target: u64) -> bool {
    exists|b: int| #![trigger is_set(target, b)] is_set(target, b) && attacked_by(v, c, b)
}

/// The king of color `c` stands on an attacked square.
pub open spec fn king_in_check(v: GameView, c: Color) -> bool {
    exists|k: int|
        #![trigger has_type(v, PieceType::King, k)]
        0 <= k < 64 && has_type(v, PieceType::King, k) && has_color(v, c, k) && attacked_by(
            v,
            opponent(c),
            k,
        )
}

/// The code of the en-passant square that a move records.
pub open spec fn recorded_en_passant(ep: Option<int>) -> int {
    match ep {
        Some(e) => if e / 8 == 2 {
            e % 8
        } else {
            8 + e % 8
        },
        None => 31,
    }
}

/// The move with the given fields, made in state `v`.
pub open spec fn make_move(
    v: GameView,
    f: int,
    t: int,
    ty: MoveType,
    p: PieceType,
    cap: Option<PieceType>,
    promo: Option<PieceType>,
) -> Move {
    Move(
        encode(
            f as u32,
            t as u32,
            ty.idx() as u32,
            p.idx() as u32,
            optional_piece_code(cap) as u32,
            optional_piece_code(promo) as u32,
            recorded_en_passant(v.en_passant) as u32,
            v.castling as u32,
        ),
    )
}

/// The piece that a pawn reaching square `t` becomes: a knight, bishop, rook
/// or queen on the last row, nothing before it.
pub open spec fn promotion_fits(c: Color, t: int, promo: Option<PieceType>) -> bool {
    let last = match c {
        Color::White => 7int,
        Color::Black => 0int,
    };
    if row(t) == last {
        promo matches Some(q) && (q == PieceType::Knight || q == PieceType::Bishop || q
            == PieceType::Rook || q == PieceType::Queen)
    } else {
        promo is None
    }
}

/// The square one row forward for color `c`.
pub open spec fn forward(c: Color, a: int, n: int) -> int {
    match c {
        Color::White => a + 8 * n,
        Color::Black => a - 8 * n,
    }
}

/// The row pawns of color `c` start on.
pub open spec fn pawn_row(c: Color) -> int {
    match c {
        Color::White => 1,
        Color::Black => 6,
    }
}

/// The capture made by landing on `t`: the type of the piece of the
/// opponent there, or nothing on an empty square.
pub open spec fn capture_on(v: GameView, t: int) -> Option<PieceType> {
    if has_color(v, opponent(v.player), t) {
        type_at(v, t)
    } else {
        None
    }
}

/// The pawn moves: a push to the empty square ahead, a double push from the
/// starting row over two empty squares, a diagonal capture and an en-passant
/// capture onto the recorded square; pushes and captures that reach the last
/// row promote.
pub open spec fn pawn_move(
    v: GameView,
    f: int,
    t: int,
    ty: MoveType,
    cap: Option<PieceType>,
    promo: Option<PieceType>,
) -> bool {
    let c = v.player;
    ||| ty == MoveType::Normal && t == forward(c, f, 1) && !occupied(v, t) && cap is None
        && promotion_fits(c, t, promo)
    ||| ty == MoveType::TwoSquare && row(f) == pawn_row(c) && !occupied(v, forward(c, f, 1))
        && t == forward(c, f, 2) && !occupied(v, t) && cap is None && promo is None
    ||| ty == MoveType::Normal && pawn_attacks(c, f, t) && has_color(v, opponent(c), t) && cap
        == type_at(v, t) && promotion_fits(c, t, promo)
    ||| ty == MoveType::EnPassant && pawn_attacks(c, f, t) && v.en_passant == Some(t) && cap is None
        && promo is None
}

/// The moves of a knight, bishop, rook, queen or king that go to a square
/// not held by the mover, capturing what the opponent has there.
pub open spec fn piece_move(v: GameView, p: PieceType, f: int, t: int, cap: Option<PieceType>) -> bool {
    &&& p != PieceType::Pawn
    &&& piece_attacks(v, p, v.player, f, t)
    &&& !has_color(v, v.player, t)
    &&& cap == capture_on(v, t)
}

/// The castling flag, the king's squares and the squares that must be empty
/// and unattacked for a castle that takes the king to `t`.
pub open spec fn castle_move(v: GameView, f: int, t: int) -> bool {
    let opp = opponent(v.player);
    match v.player {
        Color::White => (f == 4 && t == 2 && v.castling & 1 != 0 && !occupied(v, 1) && !occupied(v, 2)
            && !occupied(v, 3) && !attacked_by(v, opp, 2) && !attacked_by(v, opp, 3)
            && !attacked_by(v, opp, 4)) || (f == 4 && t == 6 && v.castling & 2 != 0 && !occupied(v, 5)
            && !occupied(v, 6) && !attacked_by(v, opp, 4) && !attacked_by(v, opp, 5)
            && !attacked_by(v, opp, 6)),
        Color::Black => (f == 60 && t == 58 && v.castling & 4 != 0 && !occupied(v, 57) && !occupied(
            v,
            58,
        ) && !occupied(v, 59) && !attacked_by(v, opp, 58) && !attacked_by(v, opp, 59)
            && !attacked_by(v, opp, 60)) || (f == 60 && t == 62 && v.castling & 8 != 0 && !occupied(
            v,
            61,
        ) && !occupied(v, 62) && !attacked_by(v, opp, 60) && !attacked_by(v, opp, 61)
            && !attacked_by(v, opp, 62)),
    }
}

/// The castle of the king from `f` to `t`, as a list of one move when it is
/// allowed, else an empty list.
pub open spec fn castle_list(v: GameView, f: int, t: int) -> Seq<Move> {
    if castle_move(v, f, t) {
        seq![make_move(v, f, t, MoveType::Castle, PieceType::King, None, None)]
    } else {
        Seq::empty()
    }
}

/// The castles of the side to move, in the order they are generated: the
/// queen side, then the king side.
pub open spec fn castles(v: GameView) -> Seq<Move> {
    match v.player {
        Color::White => castle_list(v, 4, 2) + castle_list(v, 4, 6),
        Color::Black => castle_list(v, 60, 58) + castle_list(v, 60, 62),
    }
}

/// The moves the rules allow in `v`, not looking at whether they leave the
/// mover's king attacked. A castle is allowed by its flag and its squares
/// alone; every other move needs a piece of the mover of the moving type on
/// its origin.
pub open spec fn pseudo_legal_shape(
    v: GameView,
    f: int,
    t: int,
    ty: MoveType,
    p: PieceType,
    cap: Option<PieceType>,
    promo: Option<PieceType>,
) -> bool {
    &&& 0 <= f < 64
    &&& 0 <= t < 64
    &&& if ty == MoveType::Castle {
        p == PieceType::King && cap is None && promo is None && castle_move(v, f, t)
    } else {
        &&& has_color(v, v.player, f)
        &&& has_type(v, p, f)
        &&& if p == PieceType::Pawn {
            pawn_move(v, f, t, ty, cap, promo)
        } else {
            ty == MoveType::Normal && promo is None && piece_move(v, p, f, t, cap)
        }
    }
}

/// A move is pseudo-legal in `v` when its fields have a pseudo-legal shape
/// and it records the castling flags and the en-passant square of `v`.
pub open spec fn pseudo_legal(v: GameView, m: Move) -> bool {
    let f = m.origin_code();
    let t = m.destination_code();
    let ty = m.spec_type();
    let p = m.spec_piece();
    let cap = m.spec_captured();
    let promo = m.spec_promoted();
    &&& m.wf()
    &&& pseudo_legal_shape(v, f, t, ty, p, cap, promo)
    &&& m == make_move(v, f, t, ty, p, cap, promo)
}

/// A well-formed position: the two colors share no square, no square holds
/// two piece types, a square holds a color exactly when it holds a type, no
/// pawn stands on the first or last row, the castling flags are the four
/// known ones and each still set flag has its king and rook on their
/// starting squares, and the en-passant square is the empty square that an
/// opponent's pawn has just passed over.
pub open spec fn wf(v: GameView) -> bool {
    &&& v.pieces.len() == 6
    &&& v.colors.len() == 2
    &&& forall|i: int| !(#[trigger] is_set(v.colors[0], i) && is_set(v.colors[1], i))
    &&& forall|i: int, k1: int, k2: int|
        0 <= k1 < 6 && 0 <= k2 < 6 && k1 != k2 ==> !(#[trigger] is_set(v.pieces[k1], i)
            && #[trigger] is_set(v.pieces[k2], i))
    &&& forall|i: int|
        #![trigger occupied(v, i)]
        occupied(v, i) == (type_at(v, i) is Some)
    &&& forall|i: int| #[trigger] is_set(v.pieces[0], i) ==> 8 <= i < 56
    &&& v.castling < 16
    &&& (v.castling & 1 != 0 ==> is_set(v.colors[0], 4) && is_set(v.pieces[5], 4) && is_set(
        v.colors[0],
        0,
    ) && is_set(v.pieces[3], 0))
    &&& (v.castling & 2 != 0 ==> is_set(v.colors[0], 4) && is_set(v.pieces[5], 4) && is_set(
        v.colors[0],
        7,
    ) && is_set(v.pieces[3], 7))
    &&& (v.castling & 4 != 0 ==> is_set(v.colors[1], 60) && is_set(v.pieces[5], 60) && is_set(
        v.colors[1],
        56,
    ) && is_set(v.pieces[3], 56))
    &&& (v.castling & 8 != 0 ==> is_set(v.colors[1], 60) && is_set(v.pieces[5], 60) && is_set(
        v.colors[1],
        63,
    ) && is_set(v.pieces[3], 63))
    &&& (v.en_passant matches Some(e) ==> !occupied(v, e) && match v.player {
        Color::White => 40 <= e < 48 && is_set(v.colors[1], e - 8) && is_set(v.pieces[0], e - 8),
        Color::Black => 16 <= e < 24 && is_set(v.colors[0], e + 8) && is_set(v.pieces[0], e + 8),
    })
}

/// After the move, with the turn given back to the mover, the mover's king
/// stands on an attacked square.
pub open spec fn leaves_king_attacked(v: GameView, m: Move) -> bool {
    king_in_check(GameView { player: v.player, ..apply_view(v, m) }, v.player)
}

/// A legal move: pseudo-legal, and it does not leave the mover's king
/// attacked.
pub open spec fn legal(v: GameView, m: Move) -> bool {
    pseudo_legal(v, m) && !leaves_king_attacked(v, m)
}

/// The move `m` stands in `moves` at or after index `start`.
pub open spec fn added(moves: Seq<Move>, start: int, m: Move) -> bool {
    exists|j: int| start <= j < moves.len() && moves[j] == m
}

/// `new` is `old` followed by more moves.
pub open spec fn extends(old: Seq<Move>, new: Seq<Move>) -> bool {
    new.len() >= old.len() && new.subrange(0, old.len() as int) == old
}

/// A move found in a list stays there when the list grows.
pub proof fn lemma_added_grows(a: Seq<Move>, b: Seq<Move>, start: int, m: Move)
    requires
        0 <= start,
        extends(a, b),
        added(a, start, m),
    ensures
        added(b, start, m),
{
    let j = choose|j: int| start <= j < a.len() && a[j] == m;
    assert(b.subrange(0, a.len() as int)[j] == b[j]);
}

/// A move found in a list at or after index `mid` is found at or after any
/// earlier index.
pub proof fn lemma_added_grows2(a: Seq<Move>, mid: int, start: int, m: Move)
    requires
        start <= mid,
        added(a, mid, m),
    ensures
        added(a, start, m),
{
}

/// Growing lists keep their prefixes.
pub proof fn lemma_extends_trans(a: Seq<Move>, b: Seq<Move>, c: Seq<Move>)
    requires
        extends(a, b),
        extends(b, c),
    ensures
        extends(a, c),
{
    assert(c.subrange(0, a.len() as int) =~= b.subrange(0, a.len() as int));
}

/// The moves a list gained past its first `start` moves.
pub open spec fn tail(s: Seq<Move>, start: int) -> Seq<Move> {
    s.subrange(start, s.len() as int)
}

/// A list without repeats stays so when a move it lacks is added.
pub proof fn lemma_push_fresh(s: Seq<Move>, m: Move)
    requires
        s.no_duplicates(),
        forall|k: int| 0 <= k < s.len() ==> s[k] != m,
    ensures
        s.push(m).no_duplicates(),
{
    assert forall|a: int, b: int| 0 <= a < b < s.push(m).len() implies s.push(m)[a] != s.push(m)[b] by {
        if b == s.len() {
            assert(s.push(m)[a] == s[a]);
        } else {
            assert(s.push(m)[a] == s[a] && s.push(m)[b] == s[b]);
        }
    }
}

/// Two lists without repeats and without a common move make a list without
/// repeats.
pub proof fn lemma_concat_fresh(a: Seq<Move>, b: Seq<Move>)
    requires
        a.no_duplicates(),
        b.no_duplicates(),
        forall|i: int, j: int| 0 <= i < a.len() && 0 <= j < b.len() ==> a[i] != b[j],
    ensures
        (a + b).no_duplicates(),
{
    assert forall|x: int, y: int| 0 <= x < y < (a + b).len() implies (a + b)[x] != (a + b)[y] by {
        if y < a.len() {
        } else if x < a.len() {
            assert((a + b)[y] == b[y - a.len()]);
        } else {
            assert((a + b)[x] == b[x - a.len()] && (a + b)[y] == b[y - a.len()]);
        }
    }
}

/// The moves gained over two growths are those of the first then those of
/// the second.
pub proof fn lemma_tail_split(a: Seq<Move>, b: Seq<Move>, c: Seq<Move>)
    requires
        extends(a, b),
        extends(b, c),
    ensures
        tail(c, a.len() as int) == tail(b, a.len() as int) + tail(c, b.len() as int),
{
    assert(tail(c, a.len() as int) =~= tail(b, a.len() as int) + tail(c, b.len() as int)) by {
        assert forall|k: int| 0 <= k < tail(b, a.len() as int).len() implies tail(c, a.len() as int)[k] == tail(b, a.len() as int)[k] by {
            assert(c.subrange(0, b.len() as int)[a.len() + k] == c[a.len() + k]);
        }
    }
}

/// The generator phase that produces a move: pawn pushes, pawn captures,
/// then the moves of knights, bishops, rooks, queens and the king, then
/// castles.
pub open spec fn phase(m: Move) -> int {
    if m.spec_type() == MoveType::Castle {
        7
    } else if m.spec_piece() == PieceType::Pawn {
        if m.spec_type() == MoveType::EnPassant || m.spec_captured() is Some {
            1
        } else {
            0
        }
    } else if m.spec_piece() == PieceType::Knight {
        2
    } else if m.spec_piece() == PieceType::Bishop {
        3
    } else if m.spec_piece() == PieceType::Rook {
        4
    } else if m.spec_piece() == PieceType::Queen {
        5
    } else {
        6
    }
}

/// The moves of a list come phase after phase: pawn pushes, pawn captures,
/// the moves of knights, bishops, rooks, queens and kings, then castles.
pub open spec fn phase_sorted(s: Seq<Move>) -> bool {
    forall|x: int, y: int| 0 <= x < y < s.len() ==> phase(#[trigger] s[x]) <= phase(#[trigger] s[y])
}

/// A list without repeats whose moves come from phases before `k`, in phase
/// order, grown by moves of phase `k` without repeats among them, has no
/// repeats, is in phase order, and its moves come from phases up to `k`.
pub proof fn lemma_phase_step(a: Seq<Move>, b: Seq<Move>, k: int)
    requires
        extends(a, b),
        a.no_duplicates(),
        phase_sorted(a),
        tail(b, a.len() as int).no_duplicates(),
        forall|j: int| 0 <= j < a.len() ==> phase(#[trigger] a[j]) < k,
        forall|j: int| a.len() <= j < b.len() ==> phase(#[trigger] b[j]) == k,
    ensures
        b.no_duplicates(),
        phase_sorted(b),
        forall|j: int| 0 <= j < b.len() ==> phase(#[trigger] b[j]) <= k,
{
    let t = tail(b, a.len() as int);
    assert(b =~= a + t) by {
        assert forall|j: int| 0 <= j < a.len() implies b[j] == a[j] by {
            assert(b.subrange(0, a.len() as int)[j] == b[j]);
        }
    }
    assert forall|x: int, y: int| 0 <= x < a.len() && 0 <= y < t.len() implies a[x] != t[y] by {
        assert(t[y] == b[a.len() + y]);
    }
    lemma_concat_fresh(a, t);
    assert forall|j: int| 0 <= j < b.len() implies phase(#[trigger] b[j]) <= k by {
        if j < a.len() {
            assert(b.subrange(0, a.len() as int)[j] == b[j]);
        }
    }
    assert forall|x: int, y: int| 0 <= x < y < b.len() implies phase(#[trigger] b[x]) <= phase(#[trigger] b[y]) by {
        if y < a.len() {
            assert(b[x] == a[x] && b[y] == a[y]);
        } else if x < a.len() {
            assert(b[x] == a[x]);
        }
    }
}

/// A move that does not leave the mover's king attacked.
pub open spec fn keeps_king_safe(v: GameView) -> spec_fn(Move) -> bool {
    |m: Move| !leaves_king_attacked(v, m)
}

/// A list that meets all that the pseudo-legal moves of `v` are said to be:
/// no move twice, in phase order, and exactly the pseudo-legal moves (none
/// once the game has ended).
pub open spec fn pseudo_listing(v: GameView, p: Seq<Move>) -> bool {
    &&& p.no_duplicates()
    &&& phase_sorted(p)
    &&& v.ended ==> p.len() == 0
    &&& !v.ended ==> forall|m: Move| #[trigger] p.contains(m) == pseudo_legal(v, m)
}

} // verus!
