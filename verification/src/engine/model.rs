//! The data model of the bitboard engine: squares, bitboards, boards, moves
//! and game states.
use vstd::prelude::*;

pub mod bits;
pub mod bit_board_impl;
pub mod square_impl;
pub mod piece_type_impl;
pub mod color_impl;
pub mod castling_impl;
pub mod move_impl;
pub mod board_impl;
pub mod game_state_impl;

verus! {

/// The full state of a game: the pieces on the board, whose turn it is,
/// which castlings are still allowed and the en-passant target square.
#[derive(Clone, PartialEq, Eq, Debug)]
pub struct GameState {
    pub board: Board,
    pub current_player: Color,
    pub castling: Castling,
    pub en_passant: Option<Square>,
    pub halfmoves: u8,
    pub ended: bool,
}

/// A board as a set of bitboards: one per piece type and one per color.
/// A square holds a piece of type `t` and color `c` when its bit is set in
/// both `pieces[t]` and `colors[c]`.
#[derive(Clone, PartialEq, Eq, Debug)]
pub struct Board {
    pub pieces: [BitBoard; 6],
    pub colors: [BitBoard; 2],
}

/// A set of squares: bit `i` stands for square `i`, where square `i` lies on
/// row `i / 8` and column `i % 8` (square 0 is a1, square 63 is h8).
#[derive(PartialEq, Eq, Clone, Copy, Debug, Structural)]
pub struct BitBoard(pub u64);

/// A move packed into 32 bits:
/// - bits 0..6: origin square
/// - bits 6..12: destination square
/// - bits 12..14: move type
/// - bits 14..17: moving piece
/// - bits 17..20: captured piece (7 when none)
/// - bits 20..23: promoted piece (7 when none)
/// - bits 23..28: en-passant square before the move (31 when none)
/// - bits 28..32: castling rights before the move
#[derive(PartialEq, Eq, Clone, Copy, Debug, Structural)]
pub struct Move(pub u32);

/// A square of the board, by its index `row * 8 + column`.
#[derive(PartialEq, Eq, Clone, Copy, Debug, Structural)]
pub struct Square(pub usize);

#[derive(PartialEq, Eq, Clone, Copy, Debug, Structural)]
pub enum PieceType {
    Pawn,
    Knight,
    Bishop,
    Rook,
    Queen,
    King,
}

#[derive(PartialEq, Eq, Clone, Copy, Debug, Structural)]
pub enum Color {
    White,
    Black,
}

/// The castlings that are still allowed, as four flags:
/// white queen-side (1), white king-side (2), black queen-side (4) and
/// black king-side (8).
#[derive(PartialEq, Eq, Clone, Copy, Debug, Structural)]
pub struct Castling(pub u8);

#[derive(PartialEq, Eq, Clone, Debug, Copy, Structural)]
pub enum MoveType {
    Normal,
    EnPassant,
    Castle,
    TwoSquare,
}

} // verus!
