//! Move generation, check detection, and playing and taking back moves in
//! the first engine.
use vstd::prelude::*;

use crate::chess::{
    Color, GameState, Move, MoveType, MoveView, Piece, PieceType, Position, at, copy_pieces, index,
    opposite, pos, valid, views, fits, StateView,
};
use crate::chess::spec::{
    apply_spec, drop_castling, drop_color, get, new_move, occupied, offset_move, offset_moves, ray,
    slide_moves, step, undo_spec, direction, pawn_to, pawn_pushes, pawn_capture, pawn_moves,
    promotions, castle_rook_origin, castle_rook_target, apply_spec_castle_board,
    undo_spec_castle_board, all_moves, attacks_king, castle, castle_moves, castle_probe, keep_safe,
    passed_empty, piece_moves, playable, takes_king, threatens_king, basic_moves, knight_offsets,
    bishop_slides, rook_slides, all_directions, moves_upto, moves_spec, own_pawn_on, own_king_on, rook_ready,
    castles_ready,
};
use crate::chess::laws::{lemma_all_moves_shape, lemma_undo_apply, lemma_king_castles, lemma_castle_valid};

verus! {

/// Whether the castlings hold the given one.
fn has_castling(cs: &Vec<Piece>, c: Piece) -> (r: bool)
    ensures
        r == cs@.contains(c),
{
    let mut i: usize = 0;
    while i < cs.len()
        invariant
            0 <= i <= cs.len(),
            forall|k: int| 0 <= k < i ==> cs@[k] != c,
        decreases cs.len() - i,
    {
        if cs[i] == c {
            assert(cs@[i as int] == c);
            return true;
        }
        i += 1;
    }
    false
}

/// Whether a move of the list takes a king.
fn any_takes_king(moves: &Vec<Move>) -> (r: bool)
    ensures
        r == exists|j: int| 0 <= j < moves@.len() && #[trigger] takes_king(views(moves@)[j]),
{
    let mut i: usize = 0;
    while i < moves.len()
        invariant
            0 <= i <= moves.len(),
            forall|k: int| 0 <= k < i ==> !#[trigger] takes_king(views(moves@)[k]),
        decreases moves.len() - i,
    {
        let takes = match moves[i].captured {
            Some(c) => c.t == PieceType::King,
            None => false,
        };
        assert(views(moves@)[i as int] == moves@[i as int]@);
        if takes {
            assert(takes_king(views(moves@)[i as int]));
            return true;
        }
        i += 1;
    }
    false
}

/// A slide that can be made: its first step fits in an `i32`, and a
/// slide that stays in place starts on an occupied square, so that it ends.
pub open spec fn slide_fits(s: StateView, p: Position, d: Position) -> bool {
    fits(p, d) && (d.row != 0 || d.column != 0 || occupied(s, p))
}

/// The `k`-th square of a slide is the origin plus `k` times the
/// direction, when that fits in an `i32`.
proof fn lemma_slide_step(p: Position, d: Position, k: int)
    requires
        i32::MIN <= p.row + k * d.row <= i32::MAX,
        i32::MIN <= p.column + k * d.column <= i32::MAX,
    ensures
        step(p, d, k).row == p.row + k * d.row,
        step(p, d, k).column == p.column + k * d.column,
{
}

/// A slide that has reached an empty square of the board after `k` steps
/// moves by at most seven squares a step and has made at most seven steps;
/// the next square follows by one more step.
proof fn lemma_slide_bounds(s: StateView, p: Position, d: Position, k: int)
    requires
        valid(p),
        slide_fits(s, p, d),
        1 <= k,
        0 <= p.row + k * d.row < 8,
        0 <= p.column + k * d.column < 8,
        !occupied(s, step(p, d, k)),
    ensures
        -7 <= d.row <= 7,
        -7 <= d.column <= 7,
        k <= 7,
        p.row + (k + 1) * d.row == p.row + k * d.row + d.row,
        p.column + (k + 1) * d.column == p.column + k * d.column + d.column,
{
    assert((k + 1) * d.row == k * d.row + d.row) by (nonlinear_arith);
    assert((k + 1) * d.column == k * d.column + d.column) by (nonlinear_arith);
    let a = k * d.row;
    let b = k * d.column;
    assert(-7 <= a <= 7 && -7 <= b <= 7);
    if d.row == 0 && d.column == 0 {
        assert(a == 0 && b == 0) by (nonlinear_arith) requires a == k * d.row, b == k * d.column, d.row == 0, d.column == 0;
        assert(step(p, d, k) == p);
    }
    assert(-7 <= d.row <= 7 && -7 <= d.column <= 7 && k <= 7) by (nonlinear_arith)
        requires
            a == k * d.row,
            b == k * d.column,
            -7 <= a <= 7,
            -7 <= b <= 7,
            1 <= k,
            d.row != 0 || d.column != 0,
    ;
}

/// Adding a move to a list adds its view to the views.
proof fn lemma_views_push(s: Seq<Move>, m: Move)
    ensures
        views(s.push(m)) == views(s).push(m@),
{
    assert(views(s.push(m)) =~= views(s).push(m@));
}

/// The castlings without those of color `c`.
fn without_color(cs: &Vec<Piece>, c: Color) -> (r: Vec<Piece>)
    ensures
        r@ == drop_color(cs@, c),
{
    let mut r: Vec<Piece> = Vec::new();
    let mut i: usize = 0;
    while i < cs.len()
        invariant
            0 <= i <= cs.len(),
            r@ == drop_color(cs@.take(i as int), c),
        decreases cs.len() - i,
    {
        proof {
            assert(cs@.take(i + 1).drop_last() =~= cs@.take(i as int));
        }
        if cs[i].color != c {
            r.push(cs[i]);
        }
        i += 1;
    }
    proof {
        assert(cs@.take(i as int) =~= cs@);
    }
    r
}

/// The castlings without the castling of side `t` of color `c`.
fn without_castling(cs: &Vec<Piece>, c: Color, t: PieceType) -> (r: Vec<Piece>)
    ensures
        r@ == drop_castling(cs@, c, t),
{
    let mut r: Vec<Piece> = Vec::new();
    let mut i: usize = 0;
    while i < cs.len()
        invariant
            0 <= i <= cs.len(),
            r@ == drop_castling(cs@.take(i as int), c, t),
        decreases cs.len() - i,
    {
        proof {
            assert(cs@.take(i + 1).drop_last() =~= cs@.take(i as int));
        }
        if cs[i].color != c || cs[i].t != t {
            r.push(cs[i]);
        }
        i += 1;
    }
    proof {
        assert(cs@.take(i as int) =~= cs@);
    }
    r
}

impl GameState {
    /// The move from `origin` to `destination` made in this state.
    fn make_move(
        &self,
        t: MoveType,
        origin: Position,
        destination: Position,
        captured: Option<Piece>,
        promotion: Option<PieceType>,
    ) -> (r: Move)
        ensures
            r@ == new_move(self@, t, origin, destination, captured, promotion),
    {
        Move {
            t,
            origin,
            destination,
            captured,
            promotion,
            previous_castlings: copy_pieces(&self.castlings),
            previous_en_passant: self.en_passant,
        }
    }

    /// The moves by each offset that land on the board on a square not held
    /// by the side to move, capturing what stands there.
    pub fn offsets_move(&self, position: Position, offsets: Vec<Position>) -> (r: Vec<Move>)
        requires
            valid(position),
            forall|k: int| 0 <= k < offsets.len() ==> fits(position, #[trigger] offsets@[k]),
        ensures
            views(r@) == offset_moves(self@, position, offsets@),
    {
        let mut result: Vec<Move> = Vec::new();
        let mut i: usize = 0;
        while i < offsets.len()
            invariant
                valid(position),
                forall|k: int| 0 <= k < offsets.len() ==> fits(position, #[trigger] offsets@[k]),
                0 <= i <= offsets.len(),
                views(result@) == offset_moves(self@, position, offsets@.take(i as int)),
            decreases offsets.len() - i,
        {
            proof {
                assert(offsets@.take(i + 1).drop_last() =~= offsets@.take(i as int));
                assert(offsets@.take(i + 1).last() == offsets@[i as int]);
                assert(fits(position, offsets@[i as int]));
            }
            let destination = position.offset(offsets[i]);
            let keep = if !destination.is_valid() {
                false
            } else {
                match self.board.get(destination) {
                    Some(other) => self.active_color != other.color,
                    None => true,
                }
            };
            if keep {
                let m = self.make_move(MoveType::Normal, position, destination, self.board.get(destination), None);
                proof {
                    lemma_views_push(result@, m);
                }
                result.push(m);
            } else {
                proof {
                    assert(offset_move(self@, position, offsets@[i as int]) =~= seq![]);
                }
            }
            i += 1;
        }
        proof {
            assert(offsets@.take(i as int) =~= offsets@);
        }
        result
    }

    /// The moves of a slide in direction `offset`, added to `moves`: to each
    /// empty square, and onto the first square held by the opponent.
    fn slide(&self, position: Position, offset: Position, moves: &mut Vec<Move>)
        requires
            valid(position),
            slide_fits(self@, position, offset),
        ensures
            views(final(moves)@) == views(old(moves)@) + ray(self@, position, offset, 1),
    {
        let ghost start = views(moves@);
        let mut current = position.offset(offset);
        let ghost mut k: int = 1;
        proof {
            lemma_slide_step(position, offset, 1);
        }
        while current.is_valid() && !self.board.contains_key(current)
            invariant
                valid(position),
                slide_fits(self@, position, offset),
                1 <= k <= 8,
                current.row == position.row + k * offset.row,
                current.column == position.column + k * offset.column,
                current == step(position, offset, k),
                start + ray(self@, position, offset, 1) == views(moves@) + ray(self@, position, offset, k as nat),
            decreases 9 - k,
        {
            proof {
                lemma_slide_bounds(self@, position, offset, k);
            }
            let m = self.make_move(MoveType::Normal, position, current, None, None);
            proof {
                lemma_views_push(moves@, m);
                assert(ray(self@, position, offset, k as nat) == seq![m@] + ray(self@, position, offset, (k + 1) as nat));
                assert(views(moves@) + (seq![m@] + ray(self@, position, offset, (k + 1) as nat)) =~= views(moves@).push(m@) + ray(self@, position, offset, (k + 1) as nat));
            }
            moves.push(m);
            current = current.offset(offset);
            proof {
                lemma_slide_step(position, offset, k + 1);
                k = k + 1;
            }
        }
        match self.board.get(current) {
            Some(captured) => {
                if captured.color != self.active_color {
                    let m = self.make_move(MoveType::Normal, position, current, Some(captured), None);
                    proof {
                        lemma_views_push(moves@, m);
                        assert(ray(self@, position, offset, k as nat) == seq![m@]);
                    }
                    moves.push(m);
                } else {
                    proof {
                        assert(ray(self@, position, offset, k as nat) =~= seq![]);
                    }
                }
            },
            None => {
                proof {
                    assert(ray(self@, position, offset, k as nat) =~= seq![]);
                }
            },
        }
        proof {
            assert(start + ray(self@, position, offset, 1) =~= views(moves@));
        }
    }

    /// Plays a move: the piece goes from the origin to the destination; a
    /// castle moves its rook and ends the castlings of the side; a two-square
    /// move sets the en-passant square; an en-passant capture takes the pawn
    /// passed; a move from a king's or a rook's starting square ends
    /// castlings; a promoted pawn becomes its new piece; the turn passes.
    pub fn apply(&mut self, m: &Move)
        requires
            valid(m.origin),
            valid(m.destination),
            occupied(old(self)@, m.origin),
            m.t == MoveType::Castle ==> occupied(
                apply_spec_castle_board(old(self)@, m@),
                castle_rook_origin(old(self)@.active, m.destination),
            ),
        ensures
            final(self)@ == apply_spec(old(self)@, m@),
    {
        let piece = self.board.remove(m.origin).unwrap();
        self.board.insert(m.destination, piece);
        self.en_passant = None;

        // If this is a castle, move the rook too
        if m.t == MoveType::Castle {
            if self.active_color == Color::White {
                // White queen-side
                if m.destination == Position::new(7, 2) {
                    let rook = self.board.remove(Position::new(7, 0)).unwrap();
                    self.board.insert(Position::new(7, 3), rook);
                }
                // White king-side
                else {
                    let rook = self.board.remove(Position::new(7, 7)).unwrap();
                    self.board.insert(Position::new(7, 5), rook);
                }
                self.castlings = without_color(&self.castlings, Color::White);
            } else {
                // Black queen-side
                if m.destination == Position::new(0, 2) {
                    let rook = self.board.remove(Position::new(0, 0)).unwrap();
                    self.board.insert(Position::new(0, 3), rook);
                }
                // Black king-side
                else {
                    let rook = self.board.remove(Position::new(0, 7)).unwrap();
                    self.board.insert(Position::new(0, 5), rook);
                }
                self.castlings = without_color(&self.castlings, Color::Black);
            }
        }
        // The en-passant square has to be set if this is a two-square move
        else if m.t == MoveType::TwoSquare {
            self.en_passant = Some(Position::new((m.origin.row + m.destination.row) / 2, m.origin.column));
        }
        else if m.t == MoveType::EnPassant {
            self.board.remove(Position::new(m.origin.row, m.destination.column));
        }
        // Remove castling abilities if king or rook are moving
        else {
            // White king movement
            if m.origin == Position::new(7, 4) {
                self.castlings = without_color(&self.castlings, Color::White);
            }
            // Black king movement
            else if m.origin == Position::new(0, 4) {
                self.castlings = without_color(&self.castlings, Color::Black);
            }
            // White queen-side rook movement
            else if m.origin == Position::new(7, 0) {
                self.castlings = without_castling(&self.castlings, Color::White, PieceType::Queen);
            }
            // White king-side rook movement
            else if m.origin == Position::new(7, 7) {
                self.castlings = without_castling(&self.castlings, Color::White, PieceType::King);
            }
            // Black queen-side rook movement
            else if m.origin == Position::new(0, 0) {
                self.castlings = without_castling(&self.castlings, Color::Black, PieceType::Queen);
            }
            // Black king-side rook movement
            else if m.origin == Position::new(0, 7) {
                self.castlings = without_castling(&self.castlings, Color::Black, PieceType::King);
            }
        }

        if let Some(promoted_type) = m.promotion {
            self.board.insert(m.destination, Piece::new(promoted_type, piece.color));
        }

        self.active_color = self.active_color.not();
        proof {
            assert(self@.board =~= apply_spec(old(self)@, m@).board);
        }
    }

    /// Takes a move back: the piece goes back, the captured piece comes
    /// back, a castling rook goes back, a pawn taken en passant comes back, a
    /// promoted piece is a pawn again, and the castlings and en-passant
    /// square are those the move recorded.
    pub fn undo(&mut self, m: &Move)
        requires
            valid(m.origin),
            valid(m.destination),
            occupied(old(self)@, m.destination),
            m.t == MoveType::EnPassant ==> valid(pos(m.origin.row as int, m.destination.column as int)),
            m.t == MoveType::Castle ==> occupied(
                undo_spec_castle_board(old(self)@, m@),
                castle_rook_target(opposite(old(self)@.active), m.destination),
            ),
        ensures
            final(self)@ == undo_spec(old(self)@, m@),
    {
        let piece = self.board.remove(m.destination).unwrap();
        self.board.insert(m.origin, piece);

        if let Some(captured) = m.captured {
            self.board.insert(m.destination, captured);
        }

        self.active_color = self.active_color.not();

        // If this is a castle, move the rook too
        if m.t == MoveType::Castle {
            if self.active_color == Color::White {
                // White queen-side
                if m.destination == Position::new(7, 2) {
                    let rook = self.board.remove(Position::new(7, 3)).unwrap();
                    self.board.insert(Position::new(7, 0), rook);
                }
                // White king-side
                else {
                    let rook = self.board.remove(Position::new(7, 5)).unwrap();
                    self.board.insert(Position::new(7, 7), rook);
                }
            } else {
                // Black queen-side
                if m.destination == Position::new(0, 2) {
                    let rook = self.board.remove(Position::new(0, 3)).unwrap();
                    self.board.insert(Position::new(0, 0), rook);
                }
                // Black king-side
                else {
                    let rook = self.board.remove(Position::new(0, 5)).unwrap();
                    self.board.insert(Position::new(0, 7), rook);
                }
            }
        }
        // A pawn taken en passant comes back
        else if m.t == MoveType::EnPassant {
            self.board.insert(Position::new(m.origin.row, m.destination.column), Piece::new(PieceType::Pawn, piece.color.not()));
        }

        if m.promotion.is_some() {
            self.board.insert(m.origin, Piece::new(PieceType::Pawn, piece.color));
        }

        self.castlings = copy_pieces(&m.previous_castlings);
        self.en_passant = m.previous_en_passant;
        proof {
            assert(self@.board =~= undo_spec(old(self)@, m@).board);
        }
    }

    /// Adds the moves of a pawn of color `c` from `position` to `to`: the
    /// four promotions on the last row, a plain move before it.
    fn pawn_to(&self, c: Color, position: Position, to: Position, captured: Option<Piece>, moves: &mut Vec<Move>)
        ensures
            views(final(moves)@) == views(old(moves)@) + pawn_to(self@, c, position, to, captured),
    {
        let ghost start = views(moves@);
        if c == Color::White && to.row == 0 || c == Color::Black && to.row == 7 {
            let a = self.make_move(MoveType::Normal, position, to, captured, Some(PieceType::Knight));
            proof { lemma_views_push(moves@, a); }
            moves.push(a);
            let b = self.make_move(MoveType::Normal, position, to, captured, Some(PieceType::Bishop));
            proof { lemma_views_push(moves@, b); }
            moves.push(b);
            let r = self.make_move(MoveType::Normal, position, to, captured, Some(PieceType::Rook));
            proof { lemma_views_push(moves@, r); }
            moves.push(r);
            let q = self.make_move(MoveType::Normal, position, to, captured, Some(PieceType::Queen));
            proof { lemma_views_push(moves@, q); }
            moves.push(q);
            proof {
                assert(views(moves@) =~= start + promotions(self@, position, to, captured));
            }
        } else {
            let m = self.make_move(MoveType::Normal, position, to, captured, None);
            proof { lemma_views_push(moves@, m); }
            moves.push(m);
        }
    }

    /// Adds the capture of a pawn of color `c` towards column offset `dc`,
    /// or else its capture en passant onto the en-passant square.
    fn pawn_capture(&self, position: Position, c: Color, dc: i32, moves: &mut Vec<Move>)
        requires
            valid(position),
            dc == -1 || dc == 1,
        ensures
            views(final(moves)@) == views(old(moves)@) + pawn_capture(self@, position, c, dc as int),
    {
        let direction: i32 = if c == Color::White { -1 } else { 1 };
        let new_position = position.offset(Position::new(direction, dc));
        let capture = match self.board.get(new_position) {
            Some(captured) => if captured.color != self.active_color { Some(captured) } else { None },
            None => None,
        };
        if let Some(captured) = capture {
            self.pawn_to(c, position, new_position, Some(captured), moves);
        } else {
            if self.en_passant == Some(new_position) {
                let m = self.make_move(MoveType::EnPassant, position, new_position, None, None);
                proof { lemma_views_push(moves@, m); }
                moves.push(m);
            } else {
                proof {
                    assert(views(moves@) + pawn_capture(self@, position, c, dc as int) =~= views(moves@));
                }
            }
        }
    }

    /// The moves of a pawn: its pushes, then its captures to either side.
    fn pawn_move(&self, position: Position, c: Color) -> (r: Vec<Move>)
        requires
            valid(position),
        ensures
            views(r@) == pawn_moves(self@, position, c),
    {
        let mut moves: Vec<Move> = Vec::new();
        let direction: i32 = if c == Color::White { -1 } else { 1 };
        let offset = Position::new(direction, 0);
        let new_position = position.offset(offset);

        // Forward and double-square move
        if !self.board.contains_key(new_position) {
            self.pawn_to(c, position, new_position, None, &mut moves);

            // Two-square move is allowed
            if c == Color::White && position.row == 6 || c == Color::Black && position.row == 1 {
                let new_position = new_position.offset(offset);
                if !self.board.contains_key(new_position) {
                    let m = self.make_move(MoveType::TwoSquare, position, new_position, None, None);
                    proof { lemma_views_push(moves@, m); }
                    moves.push(m);
                }
            }
        }
        proof {
            assert(views(moves@) =~= pawn_pushes(self@, position, c));
        }

        // Capture
        self.pawn_capture(position, c, -1, &mut moves);
        self.pawn_capture(position, c, 1, &mut moves);
        moves
    }

    /// Adds one castle of the king on `position`: allowed when the side to
    /// move is `c`, has the castling of side `side`, the squares between king
    /// and rook are empty and neither the king nor the square it passes is
    /// attacked. The square passed is tried by putting a copy of the king on
    /// it and looking for an attack on a king by the opponent.
    fn try_castle(
        &mut self,
        position: Position,
        c: Color,
        side: PieceType,
        empty: Vec<Position>,
        passed: Position,
        to: Position,
        moves: &mut Vec<Move>,
    )
        requires
            valid(position),
            occupied(old(self)@, position),
            valid(passed),
            empty@.contains(passed),
            passed == pos(7, 3) || passed == pos(7, 5) || passed == pos(0, 3) || passed == pos(0, 5),
        ensures
            final(self)@ == old(self)@,
            views(final(moves)@) == views(old(moves)@) + castle(old(self)@, position, c, side, empty@, passed, to),
        decreases 0int, passed_empty(old(self)@), 1int,
    {
        let ghost v = self@;
        if self.active_color == c && has_castling(&self.castlings, Piece::new(side, c)) {
            let mut all_empty = true;
            let mut i: usize = 0;
            while i < empty.len()
                invariant
                    0 <= i <= empty.len(),
                    self@ == v,
                    all_empty == forall|k: int| 0 <= k < i ==> !occupied(v, #[trigger] empty@[k]),
                decreases empty.len() - i,
            {
                if self.board.contains_key(empty[i]) {
                    all_empty = false;
                }
                i += 1;
            }
            if all_empty {
                // To prevent castling while the passing square is in
                // check, we insert the king into the intermediate
                // square and check if it is in check. The king is not
                // taken off its own square, to also ensure
                // that the king itself is not in check when the move
                // initiates.
                let king = self.board.get(position).unwrap();
                proof {
                    let j = choose|j: int| 0 <= j < empty@.len() && empty@[j] == passed;
                    assert(!occupied(v, empty@[j]));
                }
                self.board.insert(passed, king);
                self.active_color = self.active_color.not();
                proof {
                    assert(self@ == castle_probe(v, position, passed));
                    assert(passed_empty(self@) < passed_empty(v));
                }
                let in_check = self.in_check();
                self.active_color = self.active_color.not();
                self.board.remove(passed);
                proof {
                    assert(self@.board =~= v.board);
                }
                if !in_check {
                    let m = self.make_move(MoveType::Castle, position, to, None, None);
                    proof {
                        lemma_views_push(moves@, m);
                    }
                    moves.push(m);
                    return;
                }
            }
        }
        proof {
            assert(castle(v, position, c, side, empty@, passed, to) =~= seq![]);
            assert(views(moves@) + seq![] =~= views(moves@));
        }
    }

    /// The moves of the piece on `position`. Unless only the threats are
    /// asked for, the moves that would let the opponent take a king are left
    /// out: each is tried by playing it, looking for such a capture and
    /// taking it back.
    pub fn piece_move(&mut self, position: Position, piece: Piece, in_check_test: bool) -> (r: Vec<Move>)
        requires
            valid(position),
            get(old(self)@, position) == Some(piece),
            piece.color == old(self)@.active,
            !in_check_test ==> playable(old(self)@),
        ensures
            final(self)@ == old(self)@,
            views(r@) == piece_moves(old(self)@, position, piece, in_check_test),
        decreases (if in_check_test { 0int } else { 1int }), passed_empty(old(self)@), 2int,
    {
        let ghost v = self@;
        let mut moves = match piece.t {
            PieceType::Pawn => self.pawn_move(position, piece.color),
            PieceType::Knight => {
                let offsets = vec![
                    Position::new(2, -1),
                    Position::new(2, 1),
                    Position::new(-2, -1),
                    Position::new(-2, 1),
                    Position::new(1, -2),
                    Position::new(1, 2),
                    Position::new(-1, -2),
                    Position::new(-1, 2),
                ];
                proof {
                    assert(offsets@ =~= knight_offsets());
                }
                self.offsets_move(position, offsets)
            },
            PieceType::Bishop => {
                let slides = vec![
                    Position::new(1, -1),
                    Position::new(1, 1),
                    Position::new(-1, -1),
                    Position::new(-1, 1),
                ];
                proof {
                    assert(slides@ =~= bishop_slides());
                }
                self.sliding_move(position, slides)
            },
            PieceType::Rook => {
                let slides = vec![
                    Position::new(1, 0),
                    Position::new(-1, 0),
                    Position::new(0, 1),
                    Position::new(0, -1),
                ];
                proof {
                    assert(slides@ =~= rook_slides());
                }
                self.sliding_move(position, slides)
            },
            PieceType::Queen => {
                let slides = vec![
                    Position::new(1, -1),
                    Position::new(1, 0),
                    Position::new(1, 1),
                    Position::new(0, -1),
                    Position::new(0, 1),
                    Position::new(-1, -1),
                    Position::new(-1, 0),
                    Position::new(-1, 1),
                ];
                proof {
                    assert(slides@ =~= all_directions());
                }
                self.sliding_move(position, slides)
            },
            PieceType::King => {
                let offsets = vec![
                    Position::new(1, -1),
                    Position::new(1, 0),
                    Position::new(1, 1),
                    Position::new(0, -1),
                    Position::new(0, 1),
                    Position::new(-1, -1),
                    Position::new(-1, 0),
                    Position::new(-1, 1),
                ];
                proof {
                    assert(offsets@ =~= all_directions());
                }
                let mut moves = self.offsets_move(position, offsets);
                let ghost base = views(moves@);
                // White castling queen-side
                self.try_castle(position, Color::White, PieceType::Queen,
                    vec![Position::new(7, 1), Position::new(7, 2), Position::new(7, 3)],
                    Position::new(7, 3), Position::new(7, 2), &mut moves);
                // White castling king-side
                self.try_castle(position, Color::White, PieceType::King,
                    vec![Position::new(7, 5), Position::new(7, 6)],
                    Position::new(7, 5), Position::new(7, 6), &mut moves);
                // Black castling queen-side
                self.try_castle(position, Color::Black, PieceType::Queen,
                    vec![Position::new(0, 1), Position::new(0, 2), Position::new(0, 3)],
                    Position::new(0, 3), Position::new(0, 2), &mut moves);
                // Black castling king-side
                self.try_castle(position, Color::Black, PieceType::King,
                    vec![Position::new(0, 5), Position::new(0, 6)],
                    Position::new(0, 5), Position::new(0, 6), &mut moves);
                proof {
                    assert(views(moves@) =~= base + castle_moves(v, position));
                }
                moves
            },
        };
        proof {
            assert(views(moves@) == all_moves(v, position, piece));
        }

        // If any of the subsequent moves may lead to a king capture, we are
        // placing the king in check, which is not allowed. To prevent an
        // infinite recursion (since the moves needed inside the in_check call
        // are also calling in_check) we do not perform that check in the
        // recursive case.
        if !in_check_test {
            let ghost all = views(moves@);
            let mut kept: Vec<Move> = Vec::new();
            let ghost mut done: int = 0;
            proof {
                assert(all.skip(0) =~= all);
                assert(all.take(0) =~= Seq::<MoveView>::empty());
            }
            while moves.len() > 0
                invariant
                    self@ == v,
                    !in_check_test,
                    playable(v),
                    valid(position),
                    get(v, position) == Some(piece),
                    piece.color == v.active,
                    all == all_moves(v, position, piece),
                    0 <= done <= all.len(),
                    views(moves@) == all.skip(done),
                    views(kept@) == keep_safe(v, all.take(done)),
                decreases moves.len(),
            {
                let ghost before = moves@;
                proof {
                    assert(views(before).len() == before.len());
                }
                let m = moves.remove(0);
                proof {
                    assert(views(before)[0] == m@);
                    assert(all.skip(done)[0] == all[done]);
                    assert(all[done] == m@);
                    assert(moves@ =~= before.subrange(1, before.len() as int));
                    assert forall|k: int| 0 <= k < views(moves@).len() implies views(moves@)[k] == all.skip(done + 1)[k] by {
                        assert(views(moves@)[k] == moves@[k]@);
                        assert(moves@[k] == before[k + 1]);
                        assert(views(before)[k + 1] == all.skip(done)[k + 1]);
                    }
                    assert(views(moves@) =~= all.skip(done + 1));
                    lemma_all_moves_shape(v, position, piece, done);
                    lemma_undo_apply(v, position, piece, m@);
                    assert(all.take(done + 1).drop_last() =~= all.take(done));
                    assert(all.take(done + 1).last() == m@);
                }
                self.apply(&m);
                let in_check = self.in_check();
                self.undo(&m);
                if !in_check {
                    proof {
                        lemma_views_push(kept@, m);
                    }
                    kept.push(m);
                }
                proof {
                    done = done + 1;
                }
            }
            proof {
                assert(all.take(done) =~= all);
            }
            kept
        } else {
            moves
        }
    }

    /// Whether some piece of the side to move can take a king.
    pub fn in_check(&mut self) -> (r: bool)
        ensures
            final(self)@ == old(self)@,
            r == attacks_king(old(self)@),
        decreases 0int, passed_empty(old(self)@), 3int,
    {
        let ghost v = self@;
        let mut found = false;
        let mut i: usize = 0;
        while i < 64
            invariant
                0 <= i <= 64,
                self@ == v,
                v == old(self)@,
                found == exists|j: int| 0 <= j < i && #[trigger] threatens_king(v, j),
            decreases 64 - i,
        {
            if let Some(piece) = self.board.squares[i] {
                if piece.color == self.active_color {
                    let position = Position::new((i / 8) as i32, (i % 8) as i32);
                    proof {
                        assert(position == at(i as int));
                        assert(index(position) == i);
                    }
                    assert(passed_empty(self@) == passed_empty(v));
                    let moves = self.piece_move(position, piece, true);
                    let takes = any_takes_king(&moves);
                    proof {
                        let basic = basic_moves(v, position, piece);
                        let all = all_moves(v, position, piece);
                        assert(views(moves@) == all);
                        if takes {
                            let j = choose|j: int| 0 <= j < moves@.len() && #[trigger] takes_king(views(moves@)[j]);
                            if j >= basic.len() {
                                assert(piece.t == PieceType::King);
                                assert(all[j] == castle_moves(v, position)[j - basic.len()]);
                                crate::chess::laws::lemma_castle_no_king(v, position, piece, j - basic.len());
                            }
                            assert(all[j] == basic[j]);
                            assert(takes_king(basic[j]));
                        }
                        if threatens_king(v, i as int) {
                            let j = choose|j: int| 0 <= j < basic.len() && #[trigger] takes_king(basic[j]);
                            assert(all[j] == basic[j]);
                            assert(takes_king(views(moves@)[j]));
                        }
                    }
                    if takes {
                        found = true;
                    }
                }
            }
            proof {
                assert(found == exists|j: int| 0 <= j < i + 1 && #[trigger] threatens_king(v, j));
            }
            i += 1;
        }
        found
    }

    /// The legal moves of the side to move, piece by piece in the order of
    /// the squares.
    pub fn moves(&mut self) -> (r: Vec<Move>)
        requires
            playable(old(self)@),
        ensures
            final(self)@ == old(self)@,
            views(r@) == moves_spec(old(self)@),
    {
        let ghost v = self@;
        let mut result: Vec<Move> = Vec::new();
        let mut i: usize = 0;
        while i < 64
            invariant
                0 <= i <= 64,
                self@ == v,
                playable(v),
                views(result@) == moves_upto(v, i as nat),
            decreases 64 - i,
        {
            if let Some(piece) = self.board.squares[i] {
                if piece.color == self.active_color {
                    let position = Position::new((i / 8) as i32, (i % 8) as i32);
                    proof {
                        assert(position == at(i as int));
                        assert(index(position) == i);
                    }
                    let mut more = self.piece_move(position, piece, false);
                    let ghost before = views(result@);
                    result.append(&mut more);
                    proof {
                        assert(views(result@) =~= before + piece_moves(v, position, piece, false));
                    }
                } else {
                    proof {
                        assert(moves_upto(v, (i + 1) as nat) =~= moves_upto(v, i as nat));
                    }
                }
            } else {
                proof {
                    assert(moves_upto(v, (i + 1) as nat) =~= moves_upto(v, i as nat));
                }
            }
            i += 1;
        }
        result
    }

    /// Whether the castle `m`, of a king of the side to move, finds a piece
    /// on its rook's corner once the king has moved (see `rook_ready`).
    fn castle_finds_rook(&self, m: &Move) -> (r: bool)
        requires
            valid(m.origin),
            valid(m.destination),
        ensures
            r == rook_ready(self@, m@),
    {
        let corner = if self.active_color == Color::White {
            if m.destination == Position::new(7, 2) { Position::new(7, 0) } else { Position::new(7, 7) }
        } else {
            if m.destination == Position::new(0, 2) { Position::new(0, 0) } else { Position::new(0, 7) }
        };
        proof {
            assert(corner == castle_rook_origin(self@.active, m.destination));
            assert(index(corner) == index(m.destination) <==> corner == m.destination);
            assert(index(corner) == index(m.origin) <==> corner == m.origin);
        }
        if corner == m.destination {
            true
        } else if corner == m.origin {
            false
        } else {
            self.board.contains_key(corner)
        }
    }

    /// Whether each castle the king on `position` can make finds its rook.
    fn king_castles_ready(&mut self, position: Position, king: Piece) -> (r: bool)
        requires
            valid(position),
            get(old(self)@, position) == Some(king),
            king.t == PieceType::King,
            king.color == old(self)@.active,
        ensures
            final(self)@ == old(self)@,
            r == castles_ready(old(self)@, position),
    {
        let ghost s = self@;
        let moves = self.piece_move(position, king, true);
        let ghost all = views(moves@);
        proof {
            lemma_king_castles(s, position, king);
            assert(all == all_moves(s, position, king));
        }
        let ghost basic = basic_moves(s, position, king).len();
        let mut i: usize = 0;
        while i < moves.len()
            invariant
                self@ == s,
                old(self)@ == s,
                all == views(moves@),
                all == all_moves(s, position, king),
                valid(position),
                king.t == PieceType::King,
                basic == basic_moves(s, position, king).len(),
                all.len() == basic + castle_moves(s, position).len(),
                forall|k: int| 0 <= k < all.len() ==> ((#[trigger] all[k]).t == MoveType::Castle <==> k >= basic),
                forall|j: int| 0 <= j < castle_moves(s, position).len() ==> all[basic + j] == #[trigger] castle_moves(s, position)[j],
                0 <= i <= moves.len(),
                forall|k: int| 0 <= k < i && all[k].t == MoveType::Castle ==> rook_ready(s, #[trigger] all[k]),
            decreases moves.len() - i,
        {
            let m = &moves[i];
            proof {
                assert(all[i as int] == m@);
            }
            if m.t == MoveType::Castle {
                proof {
                    let j = i - basic;
                    assert(castle_moves(s, position)[j] == m@);
                    lemma_castle_valid(s, position, j);
                }
                if !self.castle_finds_rook(m) {
                    proof {
                        let j = i - basic;
                        assert(castle_moves(s, position)[j] == m@);
                        assert(!rook_ready(s, castle_moves(s, position)[j]));
                    }
                    return false;
                }
            }
            i += 1;
        }
        proof {
            assert forall|j: int| 0 <= j < castle_moves(s, position).len() implies #[trigger] rook_ready(s, castle_moves(s, position)[j]) by {
                assert(all[basic + j] == castle_moves(s, position)[j]);
                assert(all[basic + j].t == MoveType::Castle);
            }
        }
        true
    }

    /// Whether moves can be generated, played and taken back in the state
    /// (see `playable`).
    pub fn is_playable(&mut self) -> (r: bool)
        ensures
            final(self)@ == old(self)@,
            r == playable(old(self)@),
    {
        let ghost s = self@;
        let mut i: usize = 0;
        while i < 8
            invariant
                0 <= i <= 8,
                s == self@,
                s.board.len() == 64,
                s.active == Color::White ==> forall|k: int| 0 <= k < i ==> !#[trigger] own_pawn_on(s, k),
                s.active == Color::Black ==> forall|k: int| 56 <= k < 56 + i ==> !#[trigger] own_pawn_on(s, k),
            decreases 8 - i,
        {
            let k = if self.active_color == Color::White { i } else { 56 + i };
            let own = match self.board.squares[k] {
                Some(p) => p.t == PieceType::Pawn && p.color == self.active_color,
                None => false,
            };
            if own {
                proof {
                    assert(own_pawn_on(s, k as int));
                }
                return false;
            }
            i += 1;
        }
        let mut i: usize = 0;
        while i < 64
            invariant
                0 <= i <= 64,
                s == self@,
                s == old(self)@,
                s.board.len() == 64,
                forall|k: int| 0 <= k < i && #[trigger] own_king_on(s, k) ==> castles_ready(s, at(k)),
            decreases 64 - i,
        {
            if let Some(piece) = self.board.squares[i] {
                if piece.t == PieceType::King && piece.color == self.active_color {
                    let position = Position::new((i / 8) as i32, (i % 8) as i32);
                    proof {
                        assert(position == at(i as int));
                        assert(index(position) == i);
                    }
                    if !self.king_castles_ready(position, piece) {
                        proof {
                            assert(own_king_on(s, i as int));
                        }
                        return false;
                    }
                }
            }
            i += 1;
        }
        match self.en_passant {
            Some(e) => {
                if !e.is_valid() || self.board.contains_key(e) {
                    return false;
                }
                let row = match self.active_color {
                    Color::White => e.row + 1,
                    Color::Black => e.row - 1,
                };
                let passed = Position::new(row, e.column);
                match self.board.get(passed) {
                    Some(p) => p.t == PieceType::Pawn && p.color != self.active_color,
                    None => false,
                }
            },
            None => true,
        }
    }

    /// The moves of slides in each direction, in order.
    pub fn sliding_move(&self, position: Position, slides: Vec<Position>) -> (r: Vec<Move>)
        requires
            valid(position),
            forall|k: int| 0 <= k < slides.len() ==> slide_fits(self@, position, #[trigger] slides@[k]),
        ensures
            views(r@) == slide_moves(self@, position, slides@),
    {
        let mut result: Vec<Move> = Vec::new();
        let mut i: usize = 0;
        while i < slides.len()
            invariant
                valid(position),
                forall|k: int| 0 <= k < slides.len() ==> slide_fits(self@, position, #[trigger] slides@[k]),
                0 <= i <= slides.len(),
                views(result@) == slide_moves(self@, position, slides@.take(i as int)),
            decreases slides.len() - i,
        {
            proof {
                assert(slides@.take(i + 1).drop_last() =~= slides@.take(i as int));
                assert(slides@.take(i + 1).last() == slides@[i as int]);
                assert(slide_fits(self@, position, slides@[i as int]));
            }
            self.slide(position, slides[i], &mut result);
            i += 1;
        }
        proof {
            assert(slides@.take(i as int) =~= slides@);
        }
        result
    }
}

} // verus!
