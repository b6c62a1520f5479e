use vstd::prelude::*;

use crate::engine::model::{Castling, Color, GameState, Move, MoveType, PieceType, Square};
use crate::engine::model::bits::{without_bit, is_set, lemma_clear_bit, lemma_ext, lemma_set_bit, with_bit};

verus! {

/// The mathematical view of a game state: the bitboards as words, the
/// castling flags and the en-passant square as an index.
pub struct GameView {
    pub pieces: Seq<u64>,
    pub colors: Seq<u64>,
    pub player: Color,
    pub castling: u8,
    pub en_passant: Option<int>,
    pub halfmoves: u8,
    pub ended: bool,
}

impl View for GameState {
    type V = GameView;

    open spec fn view(&self) -> GameView {
        GameView {
            pieces: Seq::new(6, |k: int| self.board.pieces[k].0),
            colors: Seq::new(2, |k: int| self.board.colors[k].0),
            player: self.current_player,
            castling: self.castling.0,
            en_passant: match self.en_passant {
                Some(s) => Some(s.0 as int),
                None => None,
            },
            halfmoves: self.halfmoves,
            ended: self.ended,
        }
    }
}

impl GameView {
    pub open spec fn clear_piece(self, k: int, s: int) -> GameView {
        GameView { pieces: self.pieces.update(k, without_bit(self.pieces[k], s)), ..self }
    }

    pub open spec fn set_piece(self, k: int, s: int) -> GameView {
        GameView { pieces: self.pieces.update(k, with_bit(self.pieces[k], s)), ..self }
    }

    pub open spec fn clear_color(self, k: int, s: int) -> GameView {
        GameView { colors: self.colors.update(k, without_bit(self.colors[k], s)), ..self }
    }

    pub open spec fn set_color(self, k: int, s: int) -> GameView {
        GameView { colors: self.colors.update(k, with_bit(self.colors[k], s)), ..self }
    }
}

/// The opponent of a color.
pub open spec fn opponent(c: Color) -> Color {
    match c {
        Color::White => Color::Black,
        Color::Black => Color::White,
    }
}

/// The castling flag lost when a piece is captured on square `s`: the flag of
/// the rook that starts there.
pub open spec fn capture_flag(s: int) -> u8 {
    if s == 0 {
        1
    } else if s == 7 {
        2
    } else if s == 56 {
        4
    } else if s == 63 {
        8
    } else {
        0
    }
}

/// The castling flags lost when a piece leaves square `s`: those of the rook
/// or the king that starts there.
pub open spec fn origin_flags(s: int) -> u8 {
    if s == 0 {
        1
    } else if s == 7 {
        2
    } else if s == 56 {
        4
    } else if s == 63 {
        8
    } else if s == 4 {
        3
    } else if s == 60 {
        12
    } else {
        0
    }
}

/// The squares a king may castle to.
pub open spec fn castle_destination(t: int) -> bool {
    t == 2 || t == 6 || t == 58 || t == 62
}

/// Where the rook starts for a castle that takes the king to `t`.
pub open spec fn castle_rook_from(t: int) -> int {
    if t == 2 {
        0
    } else if t == 6 {
        7
    } else if t == 58 {
        56
    } else {
        63
    }
}

/// Where the rook ends for a castle that takes the king to `t`.
pub open spec fn castle_rook_to(t: int) -> int {
    if t == 2 {
        3
    } else if t == 6 {
        5
    } else if t == 58 {
        59
    } else {
        61
    }
}

/// The square of the pawn taken en passant by a pawn going from `f` to `t`:
/// the row of the origin and the column of the destination.
pub open spec fn en_passant_victim(f: int, t: int) -> int {
    (f / 8) * 8 + t % 8
}

/// Whether the move captures a piece of type index `k` on its destination.
pub open spec fn captures(m: Move, k: int) -> bool {
    m.spec_captured() matches Some(q) && q.idx() == k
}

/// Whether the move promotes to the piece of type index `k`.
pub open spec fn promotes_to(m: Move, k: int) -> bool {
    m.spec_promoted() matches Some(q) && q.idx() == k
}

/// The captured piece leaves the destination.
pub open spec fn piece_step_capture(x: u64, k: int, m: Move) -> u64 {
    if captures(m, k) { without_bit(x, m.destination_code()) } else { x }
}

/// The moving piece goes from the origin to the destination.
pub open spec fn piece_step_move(x: u64, k: int, m: Move) -> u64 {
    if k == m.spec_piece().idx() {
        with_bit(without_bit(x, m.origin_code()), m.destination_code())
    } else {
        x
    }
}

/// A promoted pawn is replaced by its new type.
pub open spec fn piece_step_promote(x: u64, k: int, m: Move) -> u64 {
    let t = m.destination_code();
    let x1 = if m.spec_promoted() is Some && k == m.spec_piece().idx() { without_bit(x, t) } else { x };
    if promotes_to(m, k) { with_bit(x1, t) } else { x1 }
}

/// A pawn taken en passant leaves its square.
pub open spec fn piece_step_en_passant(x: u64, k: int, m: Move) -> u64 {
    if m.spec_type() == MoveType::EnPassant && k == 0 {
        without_bit(x, en_passant_victim(m.origin_code(), m.destination_code()))
    } else {
        x
    }
}

/// The rook of a castle moves.
pub open spec fn piece_step_castle(x: u64, k: int, m: Move) -> u64 {
    let t = m.destination_code();
    if m.spec_type() == MoveType::Castle && k == 3 {
        with_bit(without_bit(x, castle_rook_from(t)), castle_rook_to(t))
    } else {
        x
    }
}

/// What `apply` does to the bitboard of piece type `k`: the captured piece
/// leaves the destination, the moving piece goes from the origin to the
/// destination, a promoted pawn is replaced by its new type, a pawn taken en
/// passant leaves its square and a castling rook moves.
pub open spec fn piece_after_apply(x: u64, k: int, m: Move) -> u64 {
    piece_step_castle(
        piece_step_en_passant(
            piece_step_promote(piece_step_move(piece_step_capture(x, k, m), k, m), k, m),
            k,
            m,
        ),
        k,
        m,
    )
}

/// The captured piece, of the side other than `c`, leaves the destination.
pub open spec fn color_step_capture(x: u64, k: int, m: Move, c: int) -> u64 {
    if m.spec_captured() is Some && k != c { without_bit(x, m.destination_code()) } else { x }
}

/// The moving piece, of the side `c`, goes from the origin to the destination.
pub open spec fn color_step_move(x: u64, k: int, m: Move, c: int) -> u64 {
    if k == c { with_bit(without_bit(x, m.origin_code()), m.destination_code()) } else { x }
}

/// A pawn taken en passant leaves its square.
pub open spec fn color_step_en_passant(x: u64, k: int, m: Move, c: int) -> u64 {
    if m.spec_type() == MoveType::EnPassant && k != c {
        without_bit(x, en_passant_victim(m.origin_code(), m.destination_code()))
    } else {
        x
    }
}

/// The rook of a castle moves.
pub open spec fn color_step_castle(x: u64, k: int, m: Move, c: int) -> u64 {
    let t = m.destination_code();
    if m.spec_type() == MoveType::Castle && k == c {
        with_bit(without_bit(x, castle_rook_from(t)), castle_rook_to(t))
    } else {
        x
    }
}

/// What `apply` does to the bitboard of color index `k` when the side of
/// index `c` moves.
pub open spec fn color_after_apply(x: u64, k: int, m: Move, c: int) -> u64 {
    color_step_castle(
        color_step_en_passant(color_step_move(color_step_capture(x, k, m, c), k, m, c), k, m, c),
        k,
        m,
        c,
    )
}

/// The castling flags after the move: a capture on a rook's starting square
/// and a move from a rook's or a king's starting square end castlings.
pub open spec fn castling_after_apply(cc: u8, m: Move) -> u8 {
    let c1 = if m.spec_captured() is Some {
        cc & !capture_flag(m.destination_code())
    } else {
        cc
    };
    c1 & !origin_flags(m.origin_code())
}

/// The en-passant square after the move: the square a two-square pawn move
/// passes over, none otherwise.
pub open spec fn en_passant_after_apply(m: Move, mover: Color) -> Option<int> {
    let f = m.origin_code();
    if m.spec_type() == MoveType::TwoSquare {
        if mover == Color::White {
            Some(f + 8)
        } else {
            Some(((f - 8) as usize) as int)
        }
    } else {
        None
    }
}

/// The state after the move, as `GameState::apply` computes it.
pub open spec fn apply_view(v: GameView, m: Move) -> GameView {
    GameView {
        pieces: Seq::new(6, |k: int| piece_after_apply(v.pieces[k], k, m)),
        colors: Seq::new(2, |k: int| color_after_apply(v.colors[k], k, m, v.player.idx())),
        player: opponent(v.player),
        castling: castling_after_apply(v.castling, m),
        en_passant: en_passant_after_apply(m, v.player),
        ..v
    }
}

/// The rook of a castle goes back.
pub open spec fn piece_unstep_castle(y: u64, k: int, m: Move) -> u64 {
    let t = m.destination_code();
    if m.spec_type() == MoveType::Castle && k == 3 {
        without_bit(with_bit(y, castle_rook_from(t)), castle_rook_to(t))
    } else {
        y
    }
}

/// A pawn taken en passant comes back.
pub open spec fn piece_unstep_en_passant(y: u64, k: int, m: Move) -> u64 {
    if m.spec_type() == MoveType::EnPassant && k == 0 {
        with_bit(y, en_passant_victim(m.origin_code(), m.destination_code()))
    } else {
        y
    }
}

/// The promoted piece leaves the destination.
pub open spec fn piece_unstep_promote(y: u64, k: int, m: Move) -> u64 {
    if promotes_to(m, k) { without_bit(y, m.destination_code()) } else { y }
}

/// The moving piece goes back from the destination to the origin.
pub open spec fn piece_unstep_move(y: u64, k: int, m: Move) -> u64 {
    if k == m.spec_piece().idx() {
        with_bit(without_bit(y, m.destination_code()), m.origin_code())
    } else {
        y
    }
}

/// The captured piece comes back.
pub open spec fn piece_unstep_capture(y: u64, k: int, m: Move) -> u64 {
    if captures(m, k) { with_bit(y, m.destination_code()) } else { y }
}

/// What `undo` does to the bitboard of piece type `k`: the steps of `apply`
/// taken back in reverse order.
pub open spec fn piece_after_undo(y: u64, k: int, m: Move) -> u64 {
    piece_unstep_capture(
        piece_unstep_move(
            piece_unstep_promote(piece_unstep_en_passant(piece_unstep_castle(y, k, m), k, m), k, m),
            k,
            m,
        ),
        k,
        m,
    )
}

/// The rook of a castle goes back.
pub open spec fn color_unstep_castle(y: u64, k: int, m: Move, c: int) -> u64 {
    let t = m.destination_code();
    if m.spec_type() == MoveType::Castle && k == c {
        without_bit(with_bit(y, castle_rook_from(t)), castle_rook_to(t))
    } else {
        y
    }
}

/// A pawn taken en passant comes back.
pub open spec fn color_unstep_en_passant(y: u64, k: int, m: Move, c: int) -> u64 {
    if m.spec_type() == MoveType::EnPassant && k != c {
        with_bit(y, en_passant_victim(m.origin_code(), m.destination_code()))
    } else {
        y
    }
}

/// The moving piece goes back from the destination to the origin.
pub open spec fn color_unstep_move(y: u64, k: int, m: Move, c: int) -> u64 {
    if k == c { with_bit(without_bit(y, m.destination_code()), m.origin_code()) } else { y }
}

/// The captured piece comes back.
pub open spec fn color_unstep_capture(y: u64, k: int, m: Move, c: int) -> u64 {
    if m.spec_captured() is Some && k != c { with_bit(y, m.destination_code()) } else { y }
}

/// What `undo` does to the bitboard of color index `k` when the move was
/// made by the side of index `c`.
pub open spec fn color_after_undo(y: u64, k: int, m: Move, c: int) -> u64 {
    color_unstep_capture(
        color_unstep_move(color_unstep_en_passant(color_unstep_castle(y, k, m, c), k, m, c), k, m, c),
        k,
        m,
        c,
    )
}

/// The state after taking the move back, as `GameState::undo` computes it:
/// the turn goes back to the side that moved and the castling flags and the
/// en-passant square are those recorded in the move.
pub open spec fn undo_view(w: GameView, m: Move) -> GameView {
    let mover = opponent(w.player);
    GameView {
        pieces: Seq::new(6, |k: int| piece_after_undo(w.pieces[k], k, m)),
        colors: Seq::new(2, |k: int| color_after_undo(w.colors[k], k, m, mover.idx())),
        player: mover,
        castling: m.castling_code() as u8,
        en_passant: m.spec_previous_en_passant(),
        ..w
    }
}

/// What a move needs of the state so that taking it back restores the state:
/// the move was made for this state (its recorded castling flags and
/// en-passant square are those of the state), the moving piece stands on the
/// origin, the destination holds exactly the captured piece (of the
/// opponent) or nothing, and the squares that en passant and castling touch
/// hold what those moves expect.
pub open spec fn consistent(v: GameView, m: Move) -> bool {
    let f = m.origin_code();
    let t = m.destination_code();
    let p = m.spec_piece().idx();
    let ty = m.spec_type();
    let c = v.player.idx();
    let o = opponent(v.player).idx();
    let sq = en_passant_victim(f, t);
    let r0 = castle_rook_from(t);
    let r1 = castle_rook_to(t);
    &&& v.pieces.len() == 6
    &&& v.colors.len() == 2
    &&& m.wf()
    &&& (ty == MoveType::Castle ==> castle_destination(t))
    &&& m.castling_code() == v.castling
    &&& m.spec_previous_en_passant() == v.en_passant
    &&& f != t
    &&& is_set(v.colors[c], f)
    &&& is_set(v.pieces[p], f)
    &&& !is_set(v.colors[c], t)
    &&& forall|k: int| 0 <= k < 6 ==> #[trigger] is_set(v.pieces[k], t) == captures(m, k)
    &&& (m.spec_captured() is Some ==> is_set(v.colors[o], t))
    &&& (ty == MoveType::EnPassant ==> {
        &&& sq != f
        &&& sq != t
        &&& is_set(v.colors[o], sq)
        &&& is_set(v.pieces[0], sq)
    })
    &&& (ty == MoveType::Castle ==> {
        &&& r0 != f
        &&& r0 != t
        &&& r1 != f
        &&& r1 != t
        &&& is_set(v.colors[c], r0)
        &&& is_set(v.pieces[3], r0)
        &&& !is_set(v.colors[c], r1)
        &&& !is_set(v.pieces[3], r1)
    })
}

pub proof fn lemma_codes_in_range(m: Move)
    ensures
        0 <= m.origin_code() < 64,
        0 <= m.destination_code() < 64,
        0 <= en_passant_victim(m.origin_code(), m.destination_code()) < 64,
{
    let x = m.0;
    assert(x & 0x3F < 64 && (x >> 6u32) & 0x3F < 64) by (bit_vector);
}

proof fn lemma_undo_apply_piece(v: GameView, m: Move, k: int)
    requires
        consistent(v, m),
        0 <= k < 6,
    ensures
        piece_after_undo(piece_after_apply(v.pieces[k], k, m), k, m) == v.pieces[k],
{
    broadcast use {lemma_clear_bit, lemma_set_bit};

    lemma_codes_in_range(m);
    let x = v.pieces[k];
    let y = piece_after_undo(piece_after_apply(x, k, m), k, m);
    assert forall|i: int| 0 <= i < 64 implies is_set(y, i) == is_set(x, i) by {
        assert(is_set(v.pieces[k], m.destination_code()) == captures(m, k));
    }
    lemma_ext(y, x);
}

proof fn lemma_undo_apply_color(v: GameView, m: Move, k: int)
    requires
        consistent(v, m),
        0 <= k < 2,
    ensures
        color_after_undo(color_after_apply(v.colors[k], k, m, v.player.idx()), k, m, v.player.idx())
            == v.colors[k],
{
    broadcast use {lemma_clear_bit, lemma_set_bit};

    lemma_codes_in_range(m);
    let c = v.player.idx();
    let x = v.colors[k];
    let y = color_after_undo(color_after_apply(x, k, m, c), k, m, c);
    assert(k != c ==> k == opponent(v.player).idx());
    assert forall|i: int| 0 <= i < 64 implies is_set(y, i) == is_set(x, i) by {
    }
    lemma_ext(y, x);
}

/// Taking back a move restores the state it was made in.
pub proof fn lemma_undo_apply(v: GameView, m: Move)
    requires
        consistent(v, m),
    ensures
        undo_view(apply_view(v, m), m) == v,
{
    let w = undo_view(apply_view(v, m), m);
    assert forall|k: int| 0 <= k < 6 implies w.pieces[k] == v.pieces[k] by {
        lemma_undo_apply_piece(v, m, k);
    }
    assert forall|k: int| 0 <= k < 2 implies w.colors[k] == v.colors[k] by {
        lemma_undo_apply_color(v, m, k);
    }
    assert(w.pieces =~= v.pieces);
    assert(w.colors =~= v.colors);
}

impl GameState {
    fn clear_piece(&mut self, k: usize, s: Square)
        requires
            k < 6,
            s.0 < 64,
        ensures
            final(self)@ == old(self)@.clear_piece(k as int, s.0 as int),
    {
        self.board.pieces[k] = self.board.pieces[k].bitand(s.bitboard().not());
        assert(self@.pieces =~= old(self)@.clear_piece(k as int, s.0 as int).pieces);
    }

    fn set_piece(&mut self, k: usize, s: Square)
        requires
            k < 6,
            s.0 < 64,
        ensures
            final(self)@ == old(self)@.set_piece(k as int, s.0 as int),
    {
        self.board.pieces[k] = self.board.pieces[k].bitor(s.bitboard());
        assert(self@.pieces =~= old(self)@.set_piece(k as int, s.0 as int).pieces);
    }

    fn clear_color(&mut self, k: usize, s: Square)
        requires
            k < 2,
            s.0 < 64,
        ensures
            final(self)@ == old(self)@.clear_color(k as int, s.0 as int),
    {
        self.board.colors[k] = self.board.colors[k].bitand(s.bitboard().not());
        assert(self@.colors =~= old(self)@.clear_color(k as int, s.0 as int).colors);
    }

    fn set_color(&mut self, k: usize, s: Square)
        requires
            k < 2,
            s.0 < 64,
        ensures
            final(self)@ == old(self)@.set_color(k as int, s.0 as int),
    {
        self.board.colors[k] = self.board.colors[k].bitor(s.bitboard());
        assert(self@.colors =~= old(self)@.set_color(k as int, s.0 as int).colors);
    }

    fn step_capture(&mut self, m: &Move, us: usize)
        requires
            m.wf(),
            us < 2,
        ensures
            final(self)@ == (GameView {
                pieces: Seq::new(6, |k: int| piece_step_capture(old(self)@.pieces[k], k, *m)),
                colors: Seq::new(
                    2,
                    |k: int| color_step_capture(old(self)@.colors[k], k, *m, us as int),
                ),
                castling: if m.spec_captured() is Some {
                    old(self)@.castling & !capture_flag(m.destination_code())
                } else {
                    old(self)@.castling
                },
                ..old(self)@
            }),
    {
        let to = m.destination();
        if let Some(captured) = m.captured() {
            self.clear_color(1 - us, to);
            self.clear_piece(captured.index(), to);

            // A capture on a rook's starting square ends that castling.
            if to.0 == 0 {
                self.castling.remove(Castling::white_queen());
            } else if to.0 == 7 {
                self.castling.remove(Castling::white_king());
            } else if to.0 == 56 {
                self.castling.remove(Castling::black_queen());
            } else if to.0 == 63 {
                self.castling.remove(Castling::black_king());
            }
            proof {
                let cc = old(self).castling.0;
                assert(cc & !0u8 == cc) by (bit_vector);
            }
        }
        assert(self@.pieces =~= Seq::new(6, |k: int| piece_step_capture(old(self)@.pieces[k], k, *m)));
        assert(self@.colors =~= Seq::new(
            2,
            |k: int| color_step_capture(old(self)@.colors[k], k, *m, us as int),
        ));
    }

    fn step_move(&mut self, m: &Move, us: usize)
        requires
            m.wf(),
            us < 2,
        ensures
            final(self)@ == (GameView {
                pieces: Seq::new(6, |k: int| piece_step_move(old(self)@.pieces[k], k, *m)),
                colors: Seq::new(2, |k: int| color_step_move(old(self)@.colors[k], k, *m, us as int)),
                ..old(self)@
            }),
    {
        let from = m.origin();
        let to = m.destination();
        let piece = m.piece().index();
        self.clear_color(us, from);
        self.clear_piece(piece, from);
        self.set_color(us, to);
        self.set_piece(piece, to);
        assert(self@.pieces =~= Seq::new(6, |k: int| piece_step_move(old(self)@.pieces[k], k, *m)));
        assert(self@.colors =~= Seq::new(
            2,
            |k: int| color_step_move(old(self)@.colors[k], k, *m, us as int),
        ));
    }

    fn step_promote(&mut self, m: &Move)
        requires
            m.wf(),
        ensures
            final(self)@ == (GameView {
                pieces: Seq::new(6, |k: int| piece_step_promote(old(self)@.pieces[k], k, *m)),
                ..old(self)@
            }),
    {
        let to = m.destination();
        if let Some(promoted) = m.promoted() {
            self.clear_piece(m.piece().index(), to);
            self.set_piece(promoted.index(), to);
        }
        assert(self@.pieces =~= Seq::new(6, |k: int| piece_step_promote(old(self)@.pieces[k], k, *m)));
        assert(self@.colors =~= old(self)@.colors);
    }

    fn step_en_passant(&mut self, m: &Move, us: usize)
        requires
            m.wf(),
            us < 2,
        ensures
            final(self)@ == (GameView {
                pieces: Seq::new(6, |k: int| piece_step_en_passant(old(self)@.pieces[k], k, *m)),
                colors: Seq::new(
                    2,
                    |k: int| color_step_en_passant(old(self)@.colors[k], k, *m, us as int),
                ),
                ..old(self)@
            }),
    {
        if m.t() == MoveType::EnPassant {
            let square = Square::from(m.origin().row(), m.destination().col());
            self.clear_color(1 - us, square);
            self.clear_piece(PieceType::Pawn.index(), square);
        }
        assert(self@.pieces =~= Seq::new(
            6,
            |k: int| piece_step_en_passant(old(self)@.pieces[k], k, *m),
        ));
        assert(self@.colors =~= Seq::new(
            2,
            |k: int| color_step_en_passant(old(self)@.colors[k], k, *m, us as int),
        ));
    }

    /// The rook squares of the castle that takes the king to `to`.
    fn castle_rook_squares(to: Square) -> (r: (Square, Square))
        requires
            castle_destination(to.0 as int),
        ensures
            r.0.0 == castle_rook_from(to.0 as int),
            r.1.0 == castle_rook_to(to.0 as int),
    {
        if to.0 == 2 {
            (Square(0), Square(3))
        } else if to.0 == 6 {
            (Square(7), Square(5))
        } else if to.0 == 58 {
            (Square(56), Square(59))
        } else {
            (Square(63), Square(61))
        }
    }

    fn step_castle(&mut self, m: &Move, us: usize)
        requires
            m.wf(),
            us < 2,
            m.spec_type() == MoveType::Castle ==> castle_destination(m.destination_code()),
        ensures
            final(self)@ == (GameView {
                pieces: Seq::new(6, |k: int| piece_step_castle(old(self)@.pieces[k], k, *m)),
                colors: Seq::new(2, |k: int| color_step_castle(old(self)@.colors[k], k, *m, us as int)),
                ..old(self)@
            }),
    {
        if m.t() == MoveType::Castle {
            let (rook_from, rook_to) = Self::castle_rook_squares(m.destination());
            self.clear_color(us, rook_from);
            self.clear_piece(PieceType::Rook.index(), rook_from);
            self.set_color(us, rook_to);
            self.set_piece(PieceType::Rook.index(), rook_to);
        }
        assert(self@.pieces =~= Seq::new(6, |k: int| piece_step_castle(old(self)@.pieces[k], k, *m)));
        assert(self@.colors =~= Seq::new(
            2,
            |k: int| color_step_castle(old(self)@.colors[k], k, *m, us as int),
        ));
    }

    /// Plays a move: removes what it captures, moves the piece, replaces a
    /// promoted pawn, removes a pawn taken en passant, records the en-passant
    /// square of a two-square pawn move, moves the rook of a castle, drops the
    /// castling rights that the move ends and hands the turn to the other
    /// side.
    pub fn apply(&mut self, m: &Move)
        requires
            m.wf(),
            m.spec_type() == MoveType::Castle ==> castle_destination(m.destination_code()),
        ensures
            final(self)@ == apply_view(old(self)@, *m),
    {
        let ghost v = self@;
        let from = m.origin();
        let us = self.current_player.index();

        // The captured piece goes first: if the types of the pieces coincide,
        // doing it after the move would remove the moving piece instead.
        self.step_capture(m, us);
        self.step_move(m, us);
        self.step_promote(m);
        self.step_en_passant(m, us);

        // Update the en-passant square
        if m.t() == MoveType::TwoSquare {
            if self.current_player == Color::White {
                self.en_passant = Some(from.shift(8));
            } else {
                self.en_passant = Some(from.shift(-8));
            }
        } else {
            self.en_passant = None;
        }

        self.step_castle(m, us);

        // A piece leaving a rook's or a king's starting square ends the
        // castlings that need it.
        let ghost c1 = self.castling.0;
        if from.0 == 0 {
            self.castling.remove(Castling::white_queen());
        } else if from.0 == 7 {
            self.castling.remove(Castling::white_king());
        } else if from.0 == 56 {
            self.castling.remove(Castling::black_queen());
        } else if from.0 == 63 {
            self.castling.remove(Castling::black_king());
        } else if from.0 == 4 {
            self.castling.remove(Castling::white_queen().union(Castling::white_king()));
        } else if from.0 == 60 {
            self.castling.remove(Castling::black_queen().union(Castling::black_king()));
        }
        proof {
            assert(c1 & !0u8 == c1) by (bit_vector);
            assert(1u8 | 2u8 == 3u8 && 4u8 | 8u8 == 12u8) by (bit_vector);
        }

        self.current_player = self.current_player.not();
        proof {
            assert(self@.pieces =~= apply_view(v, *m).pieces);
            assert(self@.colors =~= apply_view(v, *m).colors);
        }
    }

    fn unstep_castle(&mut self, m: &Move, us: usize)
        requires
            m.wf(),
            us < 2,
            m.spec_type() == MoveType::Castle ==> castle_destination(m.destination_code()),
        ensures
            final(self)@ == (GameView {
                pieces: Seq::new(6, |k: int| piece_unstep_castle(old(self)@.pieces[k], k, *m)),
                colors: Seq::new(
                    2,
                    |k: int| color_unstep_castle(old(self)@.colors[k], k, *m, us as int),
                ),
                ..old(self)@
            }),
    {
        if m.t() == MoveType::Castle {
            let (rook_from, rook_to) = Self::castle_rook_squares(m.destination());
            self.set_color(us, rook_from);
            self.set_piece(PieceType::Rook.index(), rook_from);
            self.clear_color(us, rook_to);
            self.clear_piece(PieceType::Rook.index(), rook_to);
        }
        assert(self@.pieces =~= Seq::new(6, |k: int| piece_unstep_castle(old(self)@.pieces[k], k, *m)));
        assert(self@.colors =~= Seq::new(
            2,
            |k: int| color_unstep_castle(old(self)@.colors[k], k, *m, us as int),
        ));
    }

    fn unstep_en_passant(&mut self, m: &Move, us: usize)
        requires
            m.wf(),
            us < 2,
        ensures
            final(self)@ == (GameView {
                pieces: Seq::new(6, |k: int| piece_unstep_en_passant(old(self)@.pieces[k], k, *m)),
                colors: Seq::new(
                    2,
                    |k: int| color_unstep_en_passant(old(self)@.colors[k], k, *m, us as int),
                ),
                ..old(self)@
            }),
    {
        if m.t() == MoveType::EnPassant {
            let square = Square::from(m.origin().row(), m.destination().col());
            self.set_color(1 - us, square);
            self.set_piece(PieceType::Pawn.index(), square);
        }
        assert(self@.pieces =~= Seq::new(
            6,
            |k: int| piece_unstep_en_passant(old(self)@.pieces[k], k, *m),
        ));
        assert(self@.colors =~= Seq::new(
            2,
            |k: int| color_unstep_en_passant(old(self)@.colors[k], k, *m, us as int),
        ));
    }

    fn unstep_promote(&mut self, m: &Move)
        requires
            m.wf(),
        ensures
            final(self)@ == (GameView {
                pieces: Seq::new(6, |k: int| piece_unstep_promote(old(self)@.pieces[k], k, *m)),
                ..old(self)@
            }),
    {
        if let Some(promoted) = m.promoted() {
            self.clear_piece(promoted.index(), m.destination());
        }
        assert(self@.pieces =~= Seq::new(6, |k: int| piece_unstep_promote(old(self)@.pieces[k], k, *m)));
        assert(self@.colors =~= old(self)@.colors);
    }

    fn unstep_move(&mut self, m: &Move, us: usize)
        requires
            m.wf(),
            us < 2,
        ensures
            final(self)@ == (GameView {
                pieces: Seq::new(6, |k: int| piece_unstep_move(old(self)@.pieces[k], k, *m)),
                colors: Seq::new(2, |k: int| color_unstep_move(old(self)@.colors[k], k, *m, us as int)),
                ..old(self)@
            }),
    {
        let from = m.origin();
        let to = m.destination();
        let piece = m.piece().index();
        self.clear_color(us, to);
        self.clear_piece(piece, to);
        self.set_color(us, from);
        self.set_piece(piece, from);
        assert(self@.pieces =~= Seq::new(6, |k: int| piece_unstep_move(old(self)@.pieces[k], k, *m)));
        assert(self@.colors =~= Seq::new(
            2,
            |k: int| color_unstep_move(old(self)@.colors[k], k, *m, us as int),
        ));
    }

    fn unstep_capture(&mut self, m: &Move, us: usize)
        requires
            m.wf(),
            us < 2,
        ensures
            final(self)@ == (GameView {
                pieces: Seq::new(6, |k: int| piece_unstep_capture(old(self)@.pieces[k], k, *m)),
                colors: Seq::new(
                    2,
                    |k: int| color_unstep_capture(old(self)@.colors[k], k, *m, us as int),
                ),
                ..old(self)@
            }),
    {
        let to = m.destination();
        if let Some(captured) = m.captured() {
            self.set_color(1 - us, to);
            self.set_piece(captured.index(), to);
        }
        assert(self@.pieces =~= Seq::new(6, |k: int| piece_unstep_capture(old(self)@.pieces[k], k, *m)));
        assert(self@.colors =~= Seq::new(
            2,
            |k: int| color_unstep_capture(old(self)@.colors[k], k, *m, us as int),
        ));
    }

    /// Takes back a move made with `apply`, in reverse order: the turn goes
    /// back, the castling flags and the en-passant square come from the move.
    pub fn undo(&mut self, m: &Move)
        requires
            m.wf(),
            m.spec_type() == MoveType::Castle ==> castle_destination(m.destination_code()),
        ensures
            final(self)@ == undo_view(old(self)@, *m),
    {
        let ghost w = self@;
        self.current_player = self.current_player.not();
        let us = self.current_player.index();

        // Restore castling
        self.castling = m.previous_castling();

        self.unstep_castle(m, us);

        // Restore en-passant
        self.en_passant = m.previous_en_passant();

        self.unstep_en_passant(m, us);
        self.unstep_promote(m);
        self.unstep_move(m, us);
        self.unstep_capture(m, us);
        proof {
            assert(self@.pieces =~= undo_view(w, *m).pieces);
            assert(self@.colors =~= undo_view(w, *m).colors);
        }
    }
}

} // verus!
