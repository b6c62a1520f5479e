//! The first engine: a board of squares holding pieces, and moves that carry
//! what is needed to take them back.
use vstd::prelude::*;

pub mod spec;
pub mod laws;
pub mod moves;

verus! {

/// The state of a game: the board, the side to move, the castlings still
/// allowed (a king for the king side, a queen for the queen side, of the
/// color that may castle), the en-passant square and the halfmove clock.
#[derive(PartialEq, Eq, Clone, Debug)]
pub struct GameState {
    pub board: Board,
    pub active_color: Color,
    pub castlings: Vec<Piece>,
    pub en_passant: Option<Position>,
    pub halfmoves: u32,
}

/// A square of the board, or an offset between squares. Row 0 is the eighth
/// rank, where black starts; column 0 is the a-file.
#[derive(PartialEq, Eq, Clone, Copy, Debug, Structural)]
pub struct Position {
    pub row: i32,
    pub column: i32,
}

/// The pieces on the board: square `row * 8 + column` holds the piece there,
/// if any.
#[derive(PartialEq, Eq, Clone, Copy, Debug)]
pub struct Board {
    pub squares: [Option<Piece>; 64],
}

#[derive(PartialEq, Eq, Clone, Copy, Debug, Structural)]
pub struct Piece {
    pub t: PieceType,
    pub color: Color,
}

#[derive(PartialEq, Eq, Clone, Copy, Debug, Structural)]
pub enum PieceType {
    Pawn,
    Knight,
    Bishop,
    Rook,
    Queen,
    King,
}

#[derive(PartialEq, Eq, Clone, Copy, Debug, Structural)]
pub enum Color {
    White,
    Black,
}

pub struct Castling {
    pub t: CastlingType,
    pub color: Color,
}

pub enum CastlingType {
    KingSide,
    QueenSide,
}

/// A move, with the castlings and the en-passant square of the state it was
/// made in, so that it can be taken back.
pub struct Move {
    pub t: MoveType,
    pub origin: Position,
    pub destination: Position,
    pub captured: Option<Piece>,
    pub promotion: Option<PieceType>,
    pub previous_castlings: Vec<Piece>,
    pub previous_en_passant: Option<Position>,
}

#[derive(PartialEq, Eq, Clone, Copy, Debug, Structural)]
pub enum MoveType {
    Normal,
    EnPassant,
    Castle,
    TwoSquare,
}

/// The view of a state: the board as a sequence of squares.
pub struct StateView {
    pub board: Seq<Option<Piece>>,
    pub active: Color,
    pub castlings: Seq<Piece>,
    pub en_passant: Option<Position>,
    pub halfmoves: u32,
}

impl View for GameState {
    type V = StateView;

    open spec fn view(&self) -> StateView {
        StateView {
            board: self.board.squares@,
            active: self.active_color,
            castlings: self.castlings@,
            en_passant: self.en_passant,
            halfmoves: self.halfmoves,
        }
    }
}

/// The view of a move: its recorded castlings as a sequence.
pub struct MoveView {
    pub t: MoveType,
    pub origin: Position,
    pub destination: Position,
    pub captured: Option<Piece>,
    pub promotion: Option<PieceType>,
    pub previous_castlings: Seq<Piece>,
    pub previous_en_passant: Option<Position>,
}

impl View for Move {
    type V = MoveView;

    open spec fn view(&self) -> MoveView {
        MoveView {
            t: self.t,
            origin: self.origin,
            destination: self.destination,
            captured: self.captured,
            promotion: self.promotion,
            previous_castlings: self.previous_castlings@,
            previous_en_passant: self.previous_en_passant,
        }
    }
}

/// The views of a list of moves.
pub open spec fn views(s: Seq<Move>) -> Seq<MoveView> {
    s.map_values(|m: Move| m@)
}

/// The other color.
pub open spec fn opposite(c: Color) -> Color {
    match c {
        Color::White => Color::Black,
        Color::Black => Color::White,
    }
}

impl Color {
    /// The other color.
    pub fn not(self) -> (r: Color)
        ensures
            r == opposite(self),
    {
        match self {
            Color::White => Color::Black,
            Color::Black => Color::White,
        }
    }
}

/// A position on the board.
pub open spec fn valid(p: Position) -> bool {
    0 <= p.row < 8 && 0 <= p.column < 8
}

/// The index of a position's square.
pub open spec fn index(p: Position) -> int {
    p.row * 8 + p.column
}

/// The position of the square of index `i`.
pub open spec fn at(i: int) -> Position {
    Position { row: (i / 8) as i32, column: (i % 8) as i32 }
}

/// The position on row `r` and column `c`.
pub open spec fn pos(r: int, c: int) -> Position {
    Position { row: r as i32, column: c as i32 }
}

/// A position moved by an offset.
pub open spec fn shifted(p: Position, d: Position) -> Position {
    Position { row: (p.row + d.row) as i32, column: (p.column + d.column) as i32 }
}

/// Whether `p` moved by `d` still has coordinates that fit in an `i32`.
pub open spec fn fits(p: Position, d: Position) -> bool {
    i32::MIN <= p.row + d.row <= i32::MAX && i32::MIN <= p.column + d.column <= i32::MAX
}

impl Position {
    pub fn new(row: i32, column: i32) -> (r: Position)
        ensures
            r == pos(row as int, column as int),
    {
        Position { row, column }
    }

    /// Whether the position lies on the board.
    pub fn is_valid(&self) -> (r: bool)
        ensures
            r == valid(*self),
    {
        self.row >= 0 && self.row < 8 && self.column >= 0 && self.column < 8
    }

    /// The position moved by `other`.
    pub fn offset(self, other: Position) -> (r: Position)
        requires
            fits(self, other),
        ensures
            r == shifted(self, other),
    {
        Position { row: self.row + other.row, column: self.column + other.column }
    }
}

impl Piece {
    pub fn new(t: PieceType, color: Color) -> (r: Piece)
        ensures
            r == (Piece { t, color }),
    {
        Piece { t, color }
    }
}

impl Board {
    /// An empty board.
    pub fn new() -> (r: Board)
        ensures
            forall|i: int| 0 <= i < 64 ==> r.squares@[i] is None,
    {
        Board { squares: [None; 64] }
    }

    /// The piece on a position; none off the board.
    pub fn get(&self, p: Position) -> (r: Option<Piece>)
        ensures
            r == (if valid(p) { self.squares@[index(p)] } else { None }),
    {
        if p.is_valid() {
            self.squares[(p.row * 8 + p.column) as usize]
        } else {
            None
        }
    }

    /// Whether a piece stands on the position.
    pub fn contains_key(&self, p: Position) -> (r: bool)
        ensures
            r == (valid(p) && self.squares@[index(p)] is Some),
    {
        self.get(p).is_some()
    }

    /// Puts a piece on a position of the board.
    pub fn insert(&mut self, p: Position, piece: Piece)
        requires
            valid(p),
        ensures
            final(self).squares@ == old(self).squares@.update(index(p), Some(piece)),
    {
        let i = (p.row * 8 + p.column) as usize;
        self.squares[i] = Some(piece);
    }

    /// Takes the piece off a position, returning it; nothing changes off the
    /// board.
    pub fn remove(&mut self, p: Position) -> (r: Option<Piece>)
        ensures
            r == (if valid(p) { old(self).squares@[index(p)] } else { None }),
            final(self).squares@ == (if valid(p) { old(self).squares@.update(index(p), None) } else { old(self).squares@ }),
    {
        if p.is_valid() {
            let i = (p.row * 8 + p.column) as usize;
            let r = self.squares[i];
            self.squares[i] = None;
            r
        } else {
            None
        }
    }
}

/// A copy of a list of pieces.
pub fn copy_pieces(v: &Vec<Piece>) -> (r: Vec<Piece>)
    ensures
        r@ == v@,
{
    let mut r: Vec<Piece> = Vec::new();
    let mut i: usize = 0;
    while i < v.len()
        invariant
            0 <= i <= v.len(),
            r@ == v@.take(i as int),
        decreases v.len() - i,
    {
        r.push(v[i]);
        proof {
            assert(r@ =~= v@.take(i + 1));
        }
        i += 1;
    }
    proof {
        assert(v@.take(i as int) =~= v@);
    }
    r
}

/// The name of a square: its column letter and its rank, such as `e3`.
pub open spec fn position_name(p: Position) -> Seq<char> {
    seq![(97 + p.column) as char, (56 - p.row) as char]
}

impl Position {
    /// The name of the square, such as `e3`.
    pub fn name(&self) -> (r: Vec<char>)
        requires
            valid(*self),
        ensures
            r@ == position_name(*self),
    {
        let column = (self.column as u8 + 97u8) as char;
        let rank = (56u8 - self.row as u8) as char;
        let r = vec![column, rank];
        assert(r@ =~= position_name(*self));
        r
    }
}

impl Move {
    /// The name of the move: the names of its origin and destination.
    pub fn name(&self) -> (r: Vec<char>)
        requires
            valid(self.origin),
            valid(self.destination),
        ensures
            r@ == position_name(self.origin) + position_name(self.destination),
    {
        let mut r = self.origin.name();
        let to = self.destination.name();
        r.push(to[0]);
        r.push(to[1]);
        assert(r@ =~= position_name(self.origin) + position_name(self.destination));
        r
    }
}

} // verus!
