use vstd::prelude::*;

use crate::engine::model::{Castling, Move, MoveType, PieceType, Square};

verus! {

impl MoveType {
    /// The code of the type in a packed move.
    pub open spec fn idx(self) -> int {
        match self {
            MoveType::Normal => 0,
            MoveType::EnPassant => 1,
            MoveType::Castle => 2,
            MoveType::TwoSquare => 3,
        }
    }

    pub open spec fn of_idx(i: int) -> MoveType {
        if i == 0 {
            MoveType::Normal
        } else if i == 1 {
            MoveType::EnPassant
        } else if i == 2 {
            MoveType::Castle
        } else {
            MoveType::TwoSquare
        }
    }

    pub fn index(self) -> (r: u32)
        ensures
            r == self.idx(),
    {
        match self {
            MoveType::Normal => 0,
            MoveType::EnPassant => 1,
            MoveType::Castle => 2,
            MoveType::TwoSquare => 3,
        }
    }
}

/// The code of an optional piece type in a packed move: its index, or 7.
pub open spec fn optional_piece_code(p: Option<PieceType>) -> int {
    match p {
        Some(p) => p.idx(),
        None => 7,
    }
}

/// The code of the en-passant square in a packed move: the column for a
/// square on row 2, the column plus 8 for any other square, 31 for none.
pub open spec fn en_passant_code(ep: Option<Square>) -> int {
    match ep {
        Some(e) => if e.0 / 8 == 2 {
            (e.0 % 8) as int
        } else {
            8 + e.0 % 8
        },
        None => 31,
    }
}

/// The en-passant square that a packed move gives back: a square on row 2
/// stays as it is, any other square is taken to lie on row 5.
pub open spec fn normalized_en_passant(ep: Option<Square>) -> Option<int> {
    match ep {
        Some(e) => if e.0 / 8 == 2 {
            Some(16 + e.0 % 8)
        } else {
            Some(40 + e.0 % 8)
        },
        None => None,
    }
}

/// The packed representation of a move with the given field codes.
pub open spec fn encode(
    from: u32,
    to: u32,
    t: u32,
    piece: u32,
    captured: u32,
    promoted: u32,
    ep: u32,
    castling: u32,
) -> u32 {
    from | (to << 6u32) | (t << 12u32) | (piece << 14u32) | (captured << 17u32) | (promoted << 20u32)
        | (ep << 23u32) | (castling << 28u32)
}

/// Decoding the fields of an encoded move gives back the codes it was built
/// from.
pub proof fn lemma_encode_decode(
    from: u32,
    to: u32,
    t: u32,
    piece: u32,
    captured: u32,
    promoted: u32,
    ep: u32,
    castling: u32,
)
    requires
        from < 64,
        to < 64,
        t < 4,
        piece < 8,
        captured < 8,
        promoted < 8,
        ep < 32,
        castling < 16,
    ensures
        ({
            let x = encode(from, to, t, piece, captured, promoted, ep, castling);
            &&& x & 0x3F == from
            &&& (x >> 6u32) & 0x3F == to
            &&& (x >> 12u32) & 0x3 == t
            &&& (x >> 14u32) & 0x7 == piece
            &&& (x >> 17u32) & 0x7 == captured
            &&& (x >> 20u32) & 0x7 == promoted
            &&& (x >> 23u32) & 0x1F == ep
            &&& (x >> 28u32) & 0xF == castling
        }),
{
    assert(from < 64 && to < 64 && t < 4 && piece < 8 && captured < 8 && promoted < 8 && ep < 32
        && castling < 16 ==> {
        let x = from | (to << 6u32) | (t << 12u32) | (piece << 14u32) | (captured << 17u32) | (
        promoted << 20u32) | (ep << 23u32) | (castling << 28u32);
        &&& x & 0x3F == from
        &&& (x >> 6u32) & 0x3F == to
        &&& (x >> 12u32) & 0x3 == t
        &&& (x >> 14u32) & 0x7 == piece
        &&& (x >> 17u32) & 0x7 == captured
        &&& (x >> 20u32) & 0x7 == promoted
        &&& (x >> 23u32) & 0x1F == ep
        &&& (x >> 28u32) & 0xF == castling
    }) by (bit_vector);
}

impl Move {
    pub open spec fn origin_code(self) -> int {
        (self.0 & 0x3F) as int
    }

    pub open spec fn destination_code(self) -> int {
        ((self.0 >> 6u32) & 0x3F) as int
    }

    pub open spec fn type_code(self) -> int {
        ((self.0 >> 12u32) & 0x3) as int
    }

    pub open spec fn piece_code(self) -> int {
        ((self.0 >> 14u32) & 0x7) as int
    }

    pub open spec fn captured_code(self) -> int {
        ((self.0 >> 17u32) & 0x7) as int
    }

    pub open spec fn promoted_code(self) -> int {
        ((self.0 >> 20u32) & 0x7) as int
    }

    pub open spec fn en_passant_code(self) -> int {
        ((self.0 >> 23u32) & 0x1F) as int
    }

    pub open spec fn castling_code(self) -> int {
        ((self.0 >> 28u32) & 0xF) as int
    }

    /// Every field of the move decodes: the piece codes name piece types.
    pub open spec fn wf(self) -> bool {
        &&& self.piece_code() < 6
        &&& self.captured_code() != 6
        &&& self.promoted_code() != 6
    }

    pub open spec fn spec_type(self) -> MoveType {
        MoveType::of_idx(self.type_code())
    }

    pub open spec fn spec_piece(self) -> PieceType {
        PieceType::of_idx(self.piece_code())
    }

    pub open spec fn spec_captured(self) -> Option<PieceType> {
        if self.captured_code() == 7 {
            None
        } else {
            Some(PieceType::of_idx(self.captured_code()))
        }
    }

    pub open spec fn spec_promoted(self) -> Option<PieceType> {
        if self.promoted_code() == 7 {
            None
        } else {
            Some(PieceType::of_idx(self.promoted_code()))
        }
    }

    pub open spec fn spec_previous_en_passant(self) -> Option<int> {
        let b = self.en_passant_code();
        if b == 0x1F {
            None
        } else if b < 8 || (16 <= b < 24) {
            Some(16 + b % 8)
        } else {
            Some(40 + b % 8)
        }
    }

    /// Packs a move. En-passant moves carry no captured piece: the pawn they
    /// take is not on the destination square.
    pub fn new(
        from: Square,
        to: Square,
        t: MoveType,
        piece: PieceType,
        captured: Option<PieceType>,
        promoted: Option<PieceType>,
        previous_en_passant: Option<Square>,
        previous_castling: Castling,
    ) -> (r: Move)
        requires
            from.0 < 64,
            to.0 < 64,
            previous_castling.0 < 16,
            !(t == MoveType::EnPassant && captured is Some),
        ensures
            r.0 == encode(
                from.0 as u32,
                to.0 as u32,
                t.idx() as u32,
                piece.idx() as u32,
                optional_piece_code(captured) as u32,
                optional_piece_code(promoted) as u32,
                en_passant_code(previous_en_passant) as u32,
                previous_castling.0 as u32,
            ),
            r.wf(),
            r.origin_code() == from.0,
            r.destination_code() == to.0,
            r.spec_type() == t,
            r.spec_piece() == piece,
            r.spec_captured() == captured,
            r.spec_promoted() == promoted,
            r.spec_previous_en_passant() == normalized_en_passant(previous_en_passant),
            r.castling_code() == previous_castling.0,
    {
        let captured_bits: u32 = match captured {
            Some(c) => c.index() as u32,
            None => 0x7,
        };
        let promoted_bits: u32 = match promoted {
            Some(p) => p.index() as u32,
            None => 0x7,
        };
        let en_passant_bits: u32 = match previous_en_passant {
            Some(ep) => if ep.row() == 2 {
                ep.col() as u32
            } else {
                0x8 | (ep.col() as u32)
            },
            None => 0x1F,
        };
        proof {
            let c = (previous_en_passant.unwrap().0 % 8) as u32;
            assert(c < 8 ==> 0x8 | c == 8 + c) by (bit_vector);
            assert(en_passant_bits == en_passant_code(previous_en_passant));
        }
        let bits = from.0 as u32 | (to.0 as u32) << 6 | t.index() << 12 | (piece.index() as u32) << 14
            | captured_bits << 17 | promoted_bits << 20 | en_passant_bits << 23
            | (previous_castling.bits() as u32) << 28;
        proof {
            lemma_encode_decode(
                from.0 as u32,
                to.0 as u32,
                t.idx() as u32,
                piece.idx() as u32,
                captured_bits,
                promoted_bits,
                en_passant_bits,
                previous_castling.0 as u32,
            );
        }
        Move(bits)
    }

    pub fn origin(&self) -> (r: Square)
        ensures
            r.0 == self.origin_code(),
            r.0 < 64,
    {
        proof {
            let x = self.0;
            assert(x & 0x3F < 64) by (bit_vector);
        }
        Square((self.0 & 0x3F) as usize)
    }

    pub fn destination(&self) -> (r: Square)
        ensures
            r.0 == self.destination_code(),
            r.0 < 64,
    {
        proof {
            let x = self.0;
            assert((x >> 6u32) & 0x3F < 64) by (bit_vector);
        }
        Square(((self.0 >> 6) & 0x3F) as usize)
    }

    pub fn t(&self) -> (r: MoveType)
        ensures
            r == self.spec_type(),
    {
        let bits = (self.0 >> 12) & 0x3;
        if bits == 0 {
            MoveType::Normal
        } else if bits == 1 {
            MoveType::EnPassant
        } else if bits == 2 {
            MoveType::Castle
        } else {
            MoveType::TwoSquare
        }
    }

    pub fn piece(&self) -> (r: PieceType)
        requires
            self.piece_code() < 6,
        ensures
            r == self.spec_piece(),
    {
        let bits = ((self.0 >> 14) & 0x07) as usize;
        PieceType::from_index(bits)
    }

    pub fn captured(&self) -> (r: Option<PieceType>)
        requires
            self.captured_code() != 6,
        ensures
            r == self.spec_captured(),
    {
        let bits = ((self.0 >> 17) & 0x7) as usize;
        proof {
            let x = self.0;
            assert((x >> 17u32) & 0x7 < 8) by (bit_vector);
        }
        if bits != 0x7 {
            Some(PieceType::from_index(bits))
        } else {
            None
        }
    }

    pub fn promoted(&self) -> (r: Option<PieceType>)
        requires
            self.promoted_code() != 6,
        ensures
            r == self.spec_promoted(),
    {
        let bits = ((self.0 >> 20) & 0x7) as usize;
        proof {
            let x = self.0;
            assert((x >> 20u32) & 0x7 < 8) by (bit_vector);
        }
        if bits != 0x7 {
            Some(PieceType::from_index(bits))
        } else {
            None
        }
    }

    pub fn previous_en_passant(&self) -> (r: Option<Square>)
        ensures
            r is Some <==> self.spec_previous_en_passant() is Some,
            r matches Some(s) ==> s.0 == self.spec_previous_en_passant()->0,
    {
        let bits = ((self.0 >> 23) & 0x1F) as usize;
        proof {
            let x = self.0;
            assert((x >> 23u32) & 0x1F < 32) by (bit_vector);
            assert(bits < 32 ==> ((bits & 0x8 == 0) <==> (bits < 8 || (16 <= bits < 24)))) by (bit_vector);
            assert(bits < 32 ==> bits & 0x7 == bits % 8) by (bit_vector);
        }
        if bits != 0x1F {
            if bits & 0x8 == 0 {
                Some(Square(16 + (bits & 0x7)))
            } else {
                Some(Square(40 + (bits & 0x7)))
            }
        } else {
            None
        }
    }

    pub fn previous_castling(&self) -> (r: Castling)
        ensures
            r.0 == self.castling_code(),
            r.0 < 16,
    {
        proof {
            let x = self.0;
            assert((x >> 28u32) & 0xF < 16) by (bit_vector);
        }
        Castling::from_bits(((self.0 >> 28) & 0xF) as u8).unwrap()
    }
}

} // verus!
