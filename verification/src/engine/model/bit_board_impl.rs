use vstd::prelude::*;

use crate::engine::model::{BitBoard, Square};
use crate::engine::model::bits::{is_set, lemma_and, lemma_or, lemma_not, lemma_shl, lemma_shr, lemma_zero, lemma_ext, lemma_pop_lowest};

verus! {

/// Whether bit `i` of the mask of row `n` is set: square `i` lies on row `n`.
pub open spec fn on_row(i: int, n: int) -> bool {
    0 <= i < 64 && i / 8 == n
}

/// Whether square `i` lies on column `n`.
pub open spec fn on_col(i: int, n: int) -> bool {
    0 <= i < 64 && i % 8 == n
}

pub proof fn lemma_row_mask(n: int, i: int)
    requires
        0 <= n < 8,
    ensures
        is_set(0xFFu64 << ((n * 8) as u64), i) == on_row(i, n),
{
    if 0 <= i < 64 {
        let k = i as u64;
        let t = (n * 8) as u64;
        assert(t < 64 && k < 64 && t % 8 == 0 ==> ((((0xFFu64 << t) >> k) & 1 == 1) <==> (t <= k && k
            < t + 8))) by (bit_vector);
    }
}

pub proof fn lemma_col_mask(n: int, i: int)
    requires
        0 <= n < 8,
    ensures
        is_set(0x0101010101010101u64 << (n as u64), i) == on_col(i, n),
{
    if 0 <= i < 64 {
        let k = i as u64;
        let t = n as u64;
        assert(t < 8 && k < 64 ==> ((((0x0101010101010101u64 << t) >> k) & 1 == 1) <==> (k % 8
            == t))) by (bit_vector);
    }
}

impl BitBoard {
    /// Whether no square is in the set.
    pub fn empty(&self) -> (r: bool)
        ensures
            r == (self.0 == 0),
            r == (forall|i: int| !is_set(self.0, i)),
    {
        proof {
            lemma_empty_iff(self.0);
        }
        self.0 == 0
    }

    /// The squares of row `n`.
    pub fn row(n: usize) -> (r: BitBoard)
        requires
            n < 8,
        ensures
            r.0 == 0xFFu64 << ((n * 8) as u64),
            forall|i: int| #![trigger is_set(r.0, i)] is_set(r.0, i) == on_row(i, n as int),
    {
        proof {
            assert forall|i: int| is_set(0xFFu64 << ((n * 8) as u64), i) == on_row(i, n as int) by {
                lemma_row_mask(n as int, i);
            }
        }
        BitBoard(0xFF << (n * 8))
    }

    /// The squares of column `n`.
    pub fn col(n: usize) -> (r: BitBoard)
        requires
            n < 8,
        ensures
            r.0 == 0x0101010101010101u64 << (n as u64),
            forall|i: int| #![trigger is_set(r.0, i)] is_set(r.0, i) == on_col(i, n as int),
    {
        proof {
            assert forall|i: int| is_set(0x0101010101010101u64 << (n as u64), i) == on_col(
                i,
                n as int,
            ) by {
                lemma_col_mask(n as int, i);
            }
        }
        BitBoard(0x0101010101010101 << n)
    }

    /// The set moved `amount` rows up; squares that leave the board are lost.
    pub fn shift_row_forward(&self, amount: usize) -> (r: BitBoard)
        requires
            amount < 8,
        ensures
            r.0 == self.0 << ((amount * 8) as u64),
            forall|i: int| #![trigger is_set(r.0, i)]
                is_set(r.0, i) == (0 <= i < 64 && amount * 8 <= i && is_set(self.0, i - amount * 8)),
    {
        proof {
            assert forall|i: int| #![trigger is_set(self.0 << ((amount * 8) as u64), i)]
                is_set(self.0 << ((amount * 8) as u64), i) == (0 <= i < 64 && amount * 8 <= i && is_set(
                    self.0,
                    i - amount * 8,
                )) by {
                lemma_shl(self.0, (amount * 8) as int, i);
            }
        }
        BitBoard(self.0 << (amount * 8))
    }

    /// The set moved `amount` rows down; squares that leave the board are lost.
    pub fn shift_row_backward(&self, amount: usize) -> (r: BitBoard)
        requires
            amount < 8,
        ensures
            r.0 == self.0 >> ((amount * 8) as u64),
            forall|i: int| #![trigger is_set(r.0, i)]
                is_set(r.0, i) == (0 <= i && i + amount * 8 < 64 && is_set(self.0, i + amount * 8)),
    {
        proof {
            assert forall|i: int| #![trigger is_set(self.0 >> ((amount * 8) as u64), i)]
                is_set(self.0 >> ((amount * 8) as u64), i) == (0 <= i && i + amount * 8 < 64 && is_set(
                    self.0,
                    i + amount * 8,
                )) by {
                lemma_shr(self.0, (amount * 8) as int, i);
            }
        }
        BitBoard(self.0 >> (amount * 8))
    }

    /// Every square moved `amount` places up in index order, which moves it
    /// `amount` columns to the right, wrapping onto the next row.
    pub fn shift_column_forward(&self, amount: i8) -> (r: BitBoard)
        requires
            0 <= amount < 64,
        ensures
            r.0 == self.0 << (amount as u64),
            forall|i: int| #![trigger is_set(r.0, i)]
                is_set(r.0, i) == (0 <= i < 64 && amount <= i && is_set(self.0, i - amount)),
    {
        proof {
            assert forall|i: int| #![trigger is_set(self.0 << (amount as u64), i)]
                is_set(self.0 << (amount as u64), i) == (0 <= i < 64 && amount <= i && is_set(
                    self.0,
                    i - amount,
                )) by {
                lemma_shl(self.0, amount as int, i);
            }
        }
        BitBoard(self.0 << amount)
    }

    /// Every square moved `amount` places down in index order.
    pub fn shift_column_backward(&self, amount: i8) -> (r: BitBoard)
        requires
            0 <= amount < 64,
        ensures
            r.0 == self.0 >> (amount as u64),
            forall|i: int| #![trigger is_set(r.0, i)]
                is_set(r.0, i) == (0 <= i && i + amount < 64 && is_set(self.0, i + amount)),
    {
        proof {
            assert forall|i: int| #![trigger is_set(self.0 >> (amount as u64), i)]
                is_set(self.0 >> (amount as u64), i) == (0 <= i && i + amount < 64 && is_set(
                    self.0,
                    i + amount,
                )) by {
                lemma_shr(self.0, amount as int, i);
            }
        }
        BitBoard(self.0 >> amount)
    }

    /// Removes the lowest square of the set and returns it, or returns
    /// `None` when the set is empty.
    pub fn next(&mut self) -> (r: Option<Square>)
        ensures
            old(self).0 == 0 <==> r is None,
            r is None ==> final(self).0 == old(self).0,
            r matches Some(s) ==> {
                &&& s.0 < 64
                &&& final(self).0 < old(self).0
                &&& is_set(old(self).0, s.0 as int)
                &&& forall|j: int| 0 <= j < s.0 ==> !is_set(old(self).0, j)
                &&& forall|i: int| #![trigger is_set(final(self).0, i)]
                    is_set(final(self).0, i) == (is_set(old(self).0, i) && i != s.0)
            },
    {
        if self.0 == 0 {
            return None;
        }
        let position = Square(self.0.trailing_zeros() as usize);
        proof {
            assert forall|i: int| #![trigger is_set(self.0 & ((self.0 - 1) as u64), i)]
                is_set(self.0 & ((self.0 - 1) as u64), i) == (is_set(self.0, i) && i
                    != self.0.trailing_zeros() as int) by {
                lemma_pop_lowest(self.0, i);
            }
            lemma_pop_lowest(self.0, 0);
            let x = self.0;
            assert(x != 0 ==> x & ((x - 1) as u64) < x) by (bit_vector);
        }
        self.0 = self.0 & (self.0 - 1);
        Some(position)
    }

    /// The squares in both sets.
    pub fn bitand(self, other: BitBoard) -> (r: BitBoard)
        ensures
            r.0 == self.0 & other.0,
            forall|i: int| #![trigger is_set(r.0, i)]
                is_set(r.0, i) == (is_set(self.0, i) && is_set(other.0, i)),
    {
        proof {
            assert forall|i: int| #![trigger is_set(self.0 & other.0, i)]
                is_set(self.0 & other.0, i) == (is_set(self.0, i) && is_set(other.0, i)) by {
                lemma_and(self.0, other.0, i);
            }
        }
        BitBoard(self.0 & other.0)
    }

    /// Keeps only the squares that are also in `other`.
    pub fn bitand_assign(&mut self, other: BitBoard)
        ensures
            final(self).0 == old(self).0 & other.0,
    {
        self.0 = self.0 & other.0;
    }

    /// The squares in either set.
    pub fn bitor(self, other: BitBoard) -> (r: BitBoard)
        ensures
            r.0 == self.0 | other.0,
            forall|i: int| #![trigger is_set(r.0, i)]
                is_set(r.0, i) == (is_set(self.0, i) || is_set(other.0, i)),
    {
        proof {
            assert forall|i: int| #![trigger is_set(self.0 | other.0, i)]
                is_set(self.0 | other.0, i) == (is_set(self.0, i) || is_set(other.0, i)) by {
                lemma_or(self.0, other.0, i);
            }
        }
        BitBoard(self.0 | other.0)
    }

    /// Adds the squares of `other`.
    pub fn bitor_assign(&mut self, other: BitBoard)
        ensures
            final(self).0 == old(self).0 | other.0,
    {
        self.0 = self.0 | other.0;
    }

    /// The squares not in the set.
    pub fn not(self) -> (r: BitBoard)
        ensures
            r.0 == !self.0,
            forall|i: int| #![trigger is_set(r.0, i)] 0 <= i < 64 ==> is_set(r.0, i) == !is_set(self.0, i),
    {
        proof {
            assert forall|i: int| #![trigger is_set(!self.0, i)] 0 <= i < 64 implies is_set(!self.0, i)
                == !is_set(self.0, i) by {
                lemma_not(self.0, i);
            }
        }
        BitBoard(!self.0)
    }
}

/// A word is zero exactly when none of its bits is set.
pub proof fn lemma_empty_iff(b: u64)
    ensures
        (b == 0) == (forall|i: int| !is_set(b, i)),
{
    if b == 0 {
        assert forall|i: int| !is_set(b, i) by {
            lemma_zero(i);
        }
    } else if forall|i: int| !is_set(b, i) {
        assert forall|i: int| 0 <= i < 64 implies is_set(b, i) == is_set(0, i) by {
            lemma_zero(i);
        }
        lemma_ext(b, 0);
    }
}

} // verus!
