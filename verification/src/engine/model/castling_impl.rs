use vstd::prelude::*;

use crate::engine::model::Castling;

verus! {

impl Castling {
    /// The white queen-side castling flag.
    pub fn white_queen() -> (r: Castling)
        ensures
            r.0 == 1,
    {
        Castling(1)
    }

    /// The white king-side castling flag.
    pub fn white_king() -> (r: Castling)
        ensures
            r.0 == 2,
    {
        Castling(2)
    }

    /// The black queen-side castling flag.
    pub fn black_queen() -> (r: Castling)
        ensures
            r.0 == 4,
    {
        Castling(4)
    }

    /// The black king-side castling flag.
    pub fn black_king() -> (r: Castling)
        ensures
            r.0 == 8,
    {
        Castling(8)
    }

    /// No castling allowed.
    pub fn empty() -> (r: Castling)
        ensures
            r.0 == 0,
    {
        Castling(0)
    }

    pub fn bits(&self) -> (r: u8)
        ensures
            r == self.0,
    {
        self.0
    }

    /// The flags with the given bits, or `None` when a bit outside the four
    /// flags is set.
    pub fn from_bits(bits: u8) -> (r: Option<Castling>)
        ensures
            r is Some <==> bits < 16,
            r matches Some(c) ==> c.0 == bits,
    {
        proof {
            assert(bits & 0xF0u8 == 0 <==> bits < 16) by (bit_vector);
        }
        if bits & 0xF0 == 0 {
            Some(Castling(bits))
        } else {
            None
        }
    }

    /// Whether every flag of `other` is set.
    pub fn contains(&self, other: Castling) -> (r: bool)
        ensures
            r == (self.0 & other.0 == other.0),
    {
        self.0 & other.0 == other.0
    }

    /// Clears the flags of `other`.
    pub fn remove(&mut self, other: Castling)
        ensures
            final(self).0 == old(self).0 & !other.0,
    {
        self.0 = self.0 & !other.0;
    }

    /// The flags of both.
    pub fn union(self, other: Castling) -> (r: Castling)
        ensures
            r.0 == self.0 | other.0,
    {
        Castling(self.0 | other.0)
    }
}

} // verus!
