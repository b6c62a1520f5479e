//! The rules of the first engine as sequences of moves: which moves each
//! piece has, in the order they are generated, and what playing a move and
//! taking it back do to a state.
use vstd::prelude::*;

use crate::chess::{
    Color, MoveType, MoveView, Piece, PieceType, Position, StateView, at, index, opposite, pos,
    shifted, valid,
};

verus! {

/// The piece on a position; none off the board.
pub open spec fn get(s: StateView, p: Position) -> Option<Piece> {
    if valid(p) {
        s.board[index(p)]
    } else {
        None
    }
}

/// Whether a piece stands on the position.
pub open spec fn occupied(s: StateView, p: Position) -> bool {
    get(s, p) is Some
}

/// A move made in `s`: it records the castlings and the en-passant square of
/// `s`.
pub open spec fn new_move(
    s: StateView,
    t: MoveType,
    origin: Position,
    destination: Position,
    captured: Option<Piece>,
    promotion: Option<PieceType>,
) -> MoveView {
    MoveView {
        t,
        origin,
        destination,
        captured,
        promotion,
        previous_castlings: s.castlings,
        previous_en_passant: s.en_passant,
    }
}

/// The move by an offset, when it lands on the board on a square not held
/// by the side to move.
pub open spec fn offset_move(s: StateView, p: Position, off: Position) -> Seq<MoveView> {
    let d = shifted(p, off);
    if valid(d) && (match get(s, d) {
        Some(o) => o.color != s.active,
        None => true,
    }) {
        seq![new_move(s, MoveType::Normal, p, d, get(s, d), None)]
    } else {
        seq![]
    }
}

/// The moves by each of the offsets, in order.
pub open spec fn offset_moves(s: StateView, p: Position, offs: Seq<Position>) -> Seq<MoveView>
    decreases offs.len(),
{
    if offs.len() == 0 {
        seq![]
    } else {
        offset_moves(s, p, offs.drop_last()) + offset_move(s, p, offs.last())
    }
}

/// The position `k` steps from `p` in direction `d`.
pub open spec fn step(p: Position, d: Position, k: int) -> Position {
    Position { row: (p.row + k * d.row) as i32, column: (p.column + k * d.column) as i32 }
}

/// The moves of a slide in direction `d` from step `k` on: to each empty
/// square, and onto the first square held by the opponent.
pub open spec fn ray(s: StateView, p: Position, d: Position, k: nat) -> Seq<MoveView>
    decreases 9 - k,
{
    if k >= 9 {
        seq![]
    } else {
        let c = step(p, d, k as int);
        if valid(c) && !occupied(s, c) {
            seq![new_move(s, MoveType::Normal, p, c, None, None)] + ray(s, p, d, k + 1)
        } else {
            match get(s, c) {
                Some(o) => if o.color != s.active {
                    seq![new_move(s, MoveType::Normal, p, c, Some(o), None)]
                } else {
                    seq![]
                },
                None => seq![],
            }
        }
    }
}

/// The moves of the slides in each direction, in order.
pub open spec fn slide_moves(s: StateView, p: Position, slides: Seq<Position>) -> Seq<MoveView>
    decreases slides.len(),
{
    if slides.len() == 0 {
        seq![]
    } else {
        slide_moves(s, p, slides.drop_last()) + ray(s, p, slides.last(), 1)
    }
}

/// The direction a pawn of color `c` moves in.
pub open spec fn direction(c: Color) -> int {
    match c {
        Color::White => -1,
        Color::Black => 1,
    }
}

/// The row where a pawn of color `c` promotes.
pub open spec fn promotion_row(c: Color, q: Position) -> bool {
    (c == Color::White && q.row == 0) || (c == Color::Black && q.row == 7)
}

/// The four promotions of a pawn going from `p` to `q`.
pub open spec fn promotions(s: StateView, p: Position, q: Position, captured: Option<Piece>) -> Seq<MoveView> {
    seq![
        new_move(s, MoveType::Normal, p, q, captured, Some(PieceType::Knight)),
        new_move(s, MoveType::Normal, p, q, captured, Some(PieceType::Bishop)),
        new_move(s, MoveType::Normal, p, q, captured, Some(PieceType::Rook)),
        new_move(s, MoveType::Normal, p, q, captured, Some(PieceType::Queen)),
    ]
}

/// The moves of a pawn of color `c` from `p` to `q`, promoting on the last
/// row.
pub open spec fn pawn_to(s: StateView, c: Color, p: Position, q: Position, captured: Option<Piece>) -> Seq<MoveView> {
    if promotion_row(c, q) {
        promotions(s, p, q, captured)
    } else {
        seq![new_move(s, MoveType::Normal, p, q, captured, None)]
    }
}

/// The pushes of a pawn: one square forward when it is empty, and then two
/// from the starting row when that square is empty too.
pub open spec fn pawn_pushes(s: StateView, p: Position, c: Color) -> Seq<MoveView> {
    let f = pos(p.row + direction(c), p.column as int);
    if !occupied(s, f) {
        pawn_to(s, c, p, f, None) + if (c == Color::White && p.row == 6) || (c == Color::Black && p.row == 1) {
            let f2 = pos(p.row + 2 * direction(c), p.column as int);
            if !occupied(s, f2) {
                seq![new_move(s, MoveType::TwoSquare, p, f2, None, None)]
            } else {
                seq![]
            }
        } else {
            seq![]
        }
    } else {
        seq![]
    }
}

/// The capture of a pawn towards column offset `dc`, or else its capture en
/// passant onto the en-passant square.
pub open spec fn pawn_capture(s: StateView, p: Position, c: Color, dc: int) -> Seq<MoveView> {
    let q = pos(p.row + direction(c), p.column + dc);
    match get(s, q) {
        Some(o) if o.color != s.active => pawn_to(s, c, p, q, Some(o)),
        _ => if s.en_passant == Some(q) {
            seq![new_move(s, MoveType::EnPassant, p, q, None, None)]
        } else {
            seq![]
        },
    }
}

/// The moves of a pawn.
pub open spec fn pawn_moves(s: StateView, p: Position, c: Color) -> Seq<MoveView> {
    pawn_pushes(s, p, c) + pawn_capture(s, p, c, -1) + pawn_capture(s, p, c, 1)
}

pub open spec fn knight_offsets() -> Seq<Position> {
    seq![pos(2, -1), pos(2, 1), pos(-2, -1), pos(-2, 1), pos(1, -2), pos(1, 2), pos(-1, -2), pos(-1, 2)]
}

pub open spec fn bishop_slides() -> Seq<Position> {
    seq![pos(1, -1), pos(1, 1), pos(-1, -1), pos(-1, 1)]
}

pub open spec fn rook_slides() -> Seq<Position> {
    seq![pos(1, 0), pos(-1, 0), pos(0, 1), pos(0, -1)]
}

/// The eight directions, used by the queen's slides and the king's steps.
pub open spec fn all_directions() -> Seq<Position> {
    seq![pos(1, -1), pos(1, 0), pos(1, 1), pos(0, -1), pos(0, 1), pos(-1, -1), pos(-1, 0), pos(-1, 1)]
}

/// The moves of a piece, castles left aside.
pub open spec fn basic_moves(s: StateView, p: Position, piece: Piece) -> Seq<MoveView> {
    match piece.t {
        PieceType::Pawn => pawn_moves(s, p, piece.color),
        PieceType::Knight => offset_moves(s, p, knight_offsets()),
        PieceType::Bishop => slide_moves(s, p, bishop_slides()),
        PieceType::Rook => slide_moves(s, p, rook_slides()),
        PieceType::Queen => slide_moves(s, p, all_directions()),
        PieceType::King => offset_moves(s, p, all_directions()),
    }
}

/// Whether a move takes a king.
pub open spec fn takes_king(m: MoveView) -> bool {
    m.captured matches Some(c) && c.t == PieceType::King
}

/// The piece of the side to move on square `i` can take a king.
pub open spec fn threatens_king(s: StateView, i: int) -> bool {
    match s.board[i] {
        Some(piece) => piece.color == s.active && exists|j: int|
            0 <= j < basic_moves(s, at(i), piece).len() && #[trigger] takes_king(basic_moves(s, at(i), piece)[j]),
        None => false,
    }
}

/// Some piece of the side to move can take a king.
pub open spec fn attacks_king(s: StateView) -> bool {
    exists|i: int| 0 <= i < 64 && #[trigger] threatens_king(s, i)
}

/// The state looked at to allow a castle: a copy of the king put on the
/// square it passes, and the turn given to the opponent.
pub open spec fn castle_probe(s: StateView, p: Position, passed: Position) -> StateView {
    StateView { board: s.board.update(index(passed), get(s, p)), active: opposite(s.active), ..s }
}

/// One castle of the king on `p`: allowed when the side to move is `c`, has
/// the castling of that side, the squares between king and rook are empty
/// and neither the king nor the square it passes is attacked.
pub open spec fn castle(
    s: StateView,
    p: Position,
    c: Color,
    side: PieceType,
    empty: Seq<Position>,
    passed: Position,
    to: Position,
) -> Seq<MoveView> {
    if s.active == c && s.castlings.contains(Piece { t: side, color: c }) && (forall|k: int|
        0 <= k < empty.len() ==> !occupied(s, #[trigger] empty[k])) && !attacks_king(
        castle_probe(s, p, passed),
    ) {
        seq![new_move(s, MoveType::Castle, p, to, None, None)]
    } else {
        seq![]
    }
}

/// The castles of the king on `p`: white queen side, white king side, black
/// queen side, black king side.
pub open spec fn castle_moves(s: StateView, p: Position) -> Seq<MoveView> {
    castle(s, p, Color::White, PieceType::Queen, seq![pos(7, 1), pos(7, 2), pos(7, 3)], pos(7, 3), pos(7, 2))
        + castle(s, p, Color::White, PieceType::King, seq![pos(7, 5), pos(7, 6)], pos(7, 5), pos(7, 6))
        + castle(s, p, Color::Black, PieceType::Queen, seq![pos(0, 1), pos(0, 2), pos(0, 3)], pos(0, 3), pos(0, 2))
        + castle(s, p, Color::Black, PieceType::King, seq![pos(0, 5), pos(0, 6)], pos(0, 5), pos(0, 6))
}

/// The moves of a piece, castles included.
pub open spec fn all_moves(s: StateView, p: Position, piece: Piece) -> Seq<MoveView> {
    basic_moves(s, p, piece) + if piece.t == PieceType::King {
        castle_moves(s, p)
    } else {
        seq![]
    }
}

/// The castlings left once those of `c` are gone.
pub open spec fn drop_color(cs: Seq<Piece>, c: Color) -> Seq<Piece>
    decreases cs.len(),
{
    if cs.len() == 0 {
        cs
    } else {
        let rest = drop_color(cs.drop_last(), c);
        if cs.last().color != c {
            rest.push(cs.last())
        } else {
            rest
        }
    }
}

/// The castlings left once the castling of side `t` of color `c` is gone.
pub open spec fn drop_castling(cs: Seq<Piece>, c: Color, t: PieceType) -> Seq<Piece>
    decreases cs.len(),
{
    if cs.len() == 0 {
        cs
    } else {
        let rest = drop_castling(cs.drop_last(), c, t);
        if cs.last().color != c || cs.last().t != t {
            rest.push(cs.last())
        } else {
            rest
        }
    }
}

/// What a board looks like after taking the piece off `p`.
pub open spec fn cleared(b: Seq<Option<Piece>>, p: Position) -> Seq<Option<Piece>> {
    if valid(p) {
        b.update(index(p), None)
    } else {
        b
    }
}

/// What a board looks like after putting `piece` on `p`.
pub open spec fn placed(b: Seq<Option<Piece>>, p: Position, piece: Piece) -> Seq<Option<Piece>> {
    b.update(index(p), Some(piece))
}

/// A rook moved from `from` to `to`.
pub open spec fn rook_moved(b: Seq<Option<Piece>>, from: Position, to: Position) -> Seq<Option<Piece>> {
    placed(cleared(b, from), to, b[index(from)]->0)
}

/// The state after `apply`: the piece goes from the origin to the
/// destination; a castle moves its rook and ends the castlings of the side;
/// a two-square move sets the en-passant square; an en-passant capture takes
/// the pawn passed; a move from a king's or a rook's starting square ends
/// castlings; a promoted pawn becomes its new piece; the turn passes.
pub open spec fn apply_spec(s: StateView, m: MoveView) -> StateView {
    let piece = get(s, m.origin)->0;
    let b1 = placed(cleared(s.board, m.origin), m.destination, piece);
    let (b2, cs, ep) = if m.t == MoveType::Castle {
        if s.active == Color::White {
            if m.destination == pos(7, 2) {
                (rook_moved(b1, pos(7, 0), pos(7, 3)), drop_color(s.castlings, Color::White), None)
            } else {
                (rook_moved(b1, pos(7, 7), pos(7, 5)), drop_color(s.castlings, Color::White), None)
            }
        } else {
            if m.destination == pos(0, 2) {
                (rook_moved(b1, pos(0, 0), pos(0, 3)), drop_color(s.castlings, Color::Black), None)
            } else {
                (rook_moved(b1, pos(0, 7), pos(0, 5)), drop_color(s.castlings, Color::Black), None)
            }
        }
    } else if m.t == MoveType::TwoSquare {
        (b1, s.castlings, Some(pos((m.origin.row + m.destination.row) / 2, m.origin.column as int)))
    } else if m.t == MoveType::EnPassant {
        (cleared(b1, pos(m.origin.row as int, m.destination.column as int)), s.castlings, None)
    } else if m.origin == pos(7, 4) {
        (b1, drop_color(s.castlings, Color::White), None)
    } else if m.origin == pos(0, 4) {
        (b1, drop_color(s.castlings, Color::Black), None)
    } else if m.origin == pos(7, 0) {
        (b1, drop_castling(s.castlings, Color::White, PieceType::Queen), None)
    } else if m.origin == pos(7, 7) {
        (b1, drop_castling(s.castlings, Color::White, PieceType::King), None)
    } else if m.origin == pos(0, 0) {
        (b1, drop_castling(s.castlings, Color::Black, PieceType::Queen), None)
    } else if m.origin == pos(0, 7) {
        (b1, drop_castling(s.castlings, Color::Black, PieceType::King), None)
    } else {
        (b1, s.castlings, None)
    };
    let b3 = match m.promotion {
        Some(t) => placed(b2, m.destination, Piece { t, color: piece.color }),
        None => b2,
    };
    StateView { board: b3, active: opposite(s.active), castlings: cs, en_passant: ep, ..s }
}

/// The state after `undo`: the piece goes back, the captured piece comes
/// back, a castling rook goes back, a pawn taken en passant comes back, a
/// promoted piece is a pawn again, and the castlings and en-passant square
/// are those the move recorded.
pub open spec fn undo_spec(s: StateView, m: MoveView) -> StateView {
    let piece = get(s, m.destination)->0;
    let b1 = placed(cleared(s.board, m.destination), m.origin, piece);
    let b2 = match m.captured {
        Some(c) => placed(b1, m.destination, c),
        None => b1,
    };
    let mover = opposite(s.active);
    let b3 = if m.t == MoveType::Castle {
        if mover == Color::White {
            if m.destination == pos(7, 2) {
                rook_moved(b2, pos(7, 3), pos(7, 0))
            } else {
                rook_moved(b2, pos(7, 5), pos(7, 7))
            }
        } else {
            if m.destination == pos(0, 2) {
                rook_moved(b2, pos(0, 3), pos(0, 0))
            } else {
                rook_moved(b2, pos(0, 5), pos(0, 7))
            }
        }
    } else if m.t == MoveType::EnPassant {
        placed(b2, pos(m.origin.row as int, m.destination.column as int), Piece { t: PieceType::Pawn, color: opposite(piece.color) })
    } else {
        b2
    };
    let b4 = if m.promotion is Some {
        placed(b3, m.origin, Piece { t: PieceType::Pawn, color: piece.color })
    } else {
        b3
    };
    StateView {
        board: b4,
        active: mover,
        castlings: m.previous_castlings,
        en_passant: m.previous_en_passant,
        ..s
    }
}

/// The corner a castling rook starts from, for a castle of `c` to `to`.
pub open spec fn castle_rook_origin(c: Color, to: Position) -> Position {
    if c == Color::White {
        if to == pos(7, 2) { pos(7, 0) } else { pos(7, 7) }
    } else {
        if to == pos(0, 2) { pos(0, 0) } else { pos(0, 7) }
    }
}

/// The square a castling rook ends on, for a castle of `c` to `to`.
pub open spec fn castle_rook_target(c: Color, to: Position) -> Position {
    if c == Color::White {
        if to == pos(7, 2) { pos(7, 3) } else { pos(7, 5) }
    } else {
        if to == pos(0, 2) { pos(0, 3) } else { pos(0, 5) }
    }
}

/// The state once the moving piece is on the destination, before a castling
/// rook moves.
pub open spec fn apply_spec_castle_board(s: StateView, m: MoveView) -> StateView {
    let piece = get(s, m.origin)->0;
    StateView { board: placed(cleared(s.board, m.origin), m.destination, piece), ..s }
}

/// The state once the piece is back on the origin and the captured piece
/// back on the destination, before a castling rook goes back.
pub open spec fn undo_spec_castle_board(s: StateView, m: MoveView) -> StateView {
    let piece = get(s, m.destination)->0;
    let b1 = placed(cleared(s.board, m.destination), m.origin, piece);
    let b2 = match m.captured {
        Some(c) => placed(b1, m.destination, c),
        None => b1,
    };
    StateView { board: b2, ..s }
}

/// The moves of a list that do not let the opponent take a king once played.
pub open spec fn keep_safe(s: StateView, ms: Seq<MoveView>) -> Seq<MoveView>
    decreases ms.len(),
{
    if ms.len() == 0 {
        ms
    } else {
        let rest = keep_safe(s, ms.drop_last());
        if !attacks_king(apply_spec(s, ms.last())) {
            rest.push(ms.last())
        } else {
            rest
        }
    }
}

/// The moves `piece_move` gives: all the moves of the piece, and unless only
/// the threats are asked for, just those that do not let a king be taken.
pub open spec fn piece_moves(s: StateView, p: Position, piece: Piece, threats_only: bool) -> Seq<MoveView> {
    if threats_only {
        all_moves(s, p, piece)
    } else {
        keep_safe(s, all_moves(s, p, piece))
    }
}

/// The legal moves of the pieces of the side to move on the first `n`
/// squares, square by square.
pub open spec fn moves_upto(s: StateView, n: nat) -> Seq<MoveView>
    decreases n,
{
    if n == 0 {
        seq![]
    } else {
        moves_upto(s, (n - 1) as nat) + match s.board[n - 1] {
            Some(piece) => if piece.color == s.active {
                piece_moves(s, at(n - 1), piece, false)
            } else {
                seq![]
            },
            None => seq![],
        }
    }
}

/// The legal moves of the side to move.
pub open spec fn moves_spec(s: StateView) -> Seq<MoveView> {
    moves_upto(s, 64)
}

/// The number of empty squares among those a king passes when castling:
/// every castle check fills one for as long as it looks.
pub open spec fn passed_empty(s: StateView) -> nat {
    (if occupied(s, pos(7, 3)) { 0nat } else { 1nat }) + (if occupied(s, pos(7, 5)) { 0nat } else { 1nat })
        + (if occupied(s, pos(0, 3)) { 0nat } else { 1nat }) + (if occupied(s, pos(0, 5)) { 0nat } else { 1nat })
}

/// Whether a pawn of the side to move stands on square `i`.
pub open spec fn own_pawn_on(s: StateView, i: int) -> bool {
    s.board[i] matches Some(p) && p.t == PieceType::Pawn && p.color == s.active
}

/// Whether a king of the side to move stands on square `i`.
pub open spec fn own_king_on(s: StateView, i: int) -> bool {
    s.board[i] matches Some(p) && p.t == PieceType::King && p.color == s.active
}

/// The castle `m` finds a piece on its rook's corner once the king has
/// moved: the piece that castling moves beside the king.
pub open spec fn rook_ready(s: StateView, m: MoveView) -> bool {
    occupied(apply_spec_castle_board(s, m), castle_rook_origin(s.active, m.destination))
}

/// Each castle the king on `p` can make finds its rook.
pub open spec fn castles_ready(s: StateView, p: Position) -> bool {
    forall|j: int| 0 <= j < castle_moves(s, p).len() ==> #[trigger] rook_ready(s, castle_moves(s, p)[j])
}

/// What moves can be generated, played and taken back in: every pawn of the
/// side to move has the square ahead of it on the board, each castle a king
/// of the side to move can make finds a piece on its rook's corner, and the
/// en-passant square is empty with the pawn that passed it next to it.
pub open spec fn playable(s: StateView) -> bool {
    &&& s.board.len() == 64
    &&& (s.active == Color::White ==> forall|i: int| 0 <= i < 8 ==> !#[trigger] own_pawn_on(s, i))
    &&& (s.active == Color::Black ==> forall|i: int| 56 <= i < 64 ==> !#[trigger] own_pawn_on(s, i))
    &&& forall|i: int| 0 <= i < 64 && #[trigger] own_king_on(s, i) ==> castles_ready(s, at(i))
    &&& (s.en_passant matches Some(e) ==> valid(e) && !occupied(s, e) && get(
        s,
        pos(e.row - direction(s.active), e.column as int),
    ) == Some(Piece { t: PieceType::Pawn, color: opposite(s.active) }))
}

} // verus!
