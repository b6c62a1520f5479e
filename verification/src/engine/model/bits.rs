//! Facts about single bits of 64-bit words, the building block of every
//! bitboard proof.
use vstd::prelude::*;

verus! {

/// Whether bit `i` of `b` is set.
pub open spec fn is_set(b: u64, i: int) -> bool {
    0 <= i < 64 && (b >> (i as u64)) & 1 == 1
}

/// `b` with bit `s` cleared.
pub open spec fn without_bit(b: u64, s: int) -> u64 {
    b & !(1u64 << (s as u64))
}

/// `b` with bit `s` set.
pub open spec fn with_bit(b: u64, s: int) -> u64 {
    b | (1u64 << (s as u64))
}

pub proof fn lemma_and(a: u64, b: u64, i: int)
    ensures
        is_set(a & b, i) == (is_set(a, i) && is_set(b, i)),
{
    if 0 <= i < 64 {
        let k = i as u64;
        assert(((a & b) >> k) & 1 == 1 <==> ((a >> k) & 1 == 1 && (b >> k) & 1 == 1))
            by (bit_vector);
    }
}

pub proof fn lemma_or(a: u64, b: u64, i: int)
    ensures
        is_set(a | b, i) == (is_set(a, i) || is_set(b, i)),
{
    if 0 <= i < 64 {
        let k = i as u64;
        assert(((a | b) >> k) & 1 == 1 <==> ((a >> k) & 1 == 1 || (b >> k) & 1 == 1))
            by (bit_vector);
    }
}

pub proof fn lemma_not(a: u64, i: int)
    requires
        0 <= i < 64,
    ensures
        is_set(!a, i) == !is_set(a, i),
{
    let k = i as u64;
    assert(k < 64 ==> (((!a) >> k) & 1 == 1 <==> !((a >> k) & 1 == 1))) by (bit_vector);
}

pub proof fn lemma_single(s: int, i: int)
    requires
        0 <= s < 64,
    ensures
        is_set(1u64 << (s as u64), i) == (i == s),
{
    if 0 <= i < 64 {
        let k = i as u64;
        let t = s as u64;
        assert(k < 64 && t < 64 ==> (((1u64 << t) >> k) & 1 == 1 <==> k == t)) by (bit_vector);
    }
}

pub proof fn lemma_zero(i: int)
    ensures
        !is_set(0, i),
{
    if 0 <= i < 64 {
        let k = i as u64;
        assert((0u64 >> k) & 1 == 0) by (bit_vector);
    }
}

pub proof fn lemma_shl(a: u64, n: int, i: int)
    requires
        0 <= n < 64,
    ensures
        is_set(a << (n as u64), i) == (i < 64 && n <= i && is_set(a, i - n)),
{
    if 0 <= i < 64 {
        let k = i as u64;
        let t = n as u64;
        assert(k < 64 && t < 64 ==> ((((a << t) >> k) & 1 == 1) <==> (t <= k && (a >> (
        (k - t) as u64)) & 1 == 1))) by (bit_vector);
        assert(n <= i ==> ((i - n) as u64) == ((k - t) as u64));
    }
}

pub proof fn lemma_shr(a: u64, n: int, i: int)
    requires
        0 <= n < 64,
    ensures
        is_set(a >> (n as u64), i) == (0 <= i && i + n < 64 && is_set(a, i + n)),
{
    if 0 <= i < 64 {
        let k = i as u64;
        let t = n as u64;
        assert(k < 64 && t < 64 ==> ((((a >> t) >> k) & 1 == 1) <==> (k + t < 64 && (a >> (
        (k + t) as u64)) & 1 == 1))) by (bit_vector);
    }
}

pub proof fn lemma_clear(a: u64, s: int, i: int)
    requires
        0 <= s < 64,
    ensures
        is_set(without_bit(a, s), i) == (is_set(a, i) && i != s),
{
    lemma_single(s, i);
    lemma_and(a, !(1u64 << (s as u64)), i);
    if 0 <= i < 64 {
        lemma_not(1u64 << (s as u64), i);
    }
}

pub proof fn lemma_set(a: u64, s: int, i: int)
    requires
        0 <= s < 64,
    ensures
        is_set(with_bit(a, s), i) == (is_set(a, i) || i == s),
{
    lemma_single(s, i);
    lemma_or(a, 1u64 << (s as u64), i);
}

/// Clearing the lowest set bit: `b & (b - 1)` is `b` without the bit that
/// `trailing_zeros` names.
pub proof fn lemma_pop_lowest(b: u64, i: int)
    requires
        b != 0,
    ensures
        (b.trailing_zeros() as int) < 64,
        is_set(b, b.trailing_zeros() as int),
        forall|j: int| 0 <= j < b.trailing_zeros() ==> !is_set(b, j),
        is_set(b & ((b - 1) as u64), i) == (is_set(b, i) && i != b.trailing_zeros() as int),
{
    vstd::std_specs::bits::axiom_u64_trailing_zeros(b);
    let t = b.trailing_zeros() as u64;
    assert forall|j: int| 0 <= j < b.trailing_zeros() implies !is_set(b, j) by {
        let jj = j as u64;
        assert((b >> jj) & 1u64 == 0u64);
    }
    if 0 <= i < 64 {
        let k = i as u64;
        let low = (64 - t) as u64;
        assert(b << low == 0);
        assert(b != 0 && t < 64 && (b >> t) & 1 == 1 && b << low == 0 && low == (64 - t) as u64 && k < 64
            ==> ((((b & ((b - 1) as u64)) >> k) & 1 == 1) <==> ((b >> k) & 1 == 1 && k != t))) by (bit_vector);
    }
}

/// Two words with the same bits are equal.
pub proof fn lemma_ext(a: u64, b: u64)
    requires
        forall|i: int| 0 <= i < 64 ==> is_set(a, i) == is_set(b, i),
    ensures
        a == b,
    decreases 64nat,
{
    lemma_ext_from(a, b, 0);
    assert(a >> 0u64 == a) by (bit_vector);
    assert(b >> 0u64 == b) by (bit_vector);
}

proof fn lemma_ext_from(a: u64, b: u64, n: int)
    requires
        0 <= n <= 64,
        forall|i: int| n <= i < 64 ==> is_set(a, i) == is_set(b, i),
    ensures
        a >> (n as u64) == b >> (n as u64),
    decreases 64 - n,
{
    let k = n as u64;
    if n == 64 {
        assert(a >> 64u64 == 0 && b >> 64u64 == 0) by (bit_vector);
    } else {
        lemma_ext_from(a, b, n + 1);
        assert(is_set(a, n) == is_set(b, n));
        assert(k < 64 ==> (a >> k) == (((a >> ((k + 1) as u64)) << 1u64) | ((a >> k) & 1))) by (bit_vector);
        assert(k < 64 ==> (b >> k) == (((b >> ((k + 1) as u64)) << 1u64) | ((b >> k) & 1))) by (bit_vector);
        assert(((a >> k) & 1 == 1 || (a >> k) & 1 == 0)) by (bit_vector);
        assert(((b >> k) & 1 == 1 || (b >> k) & 1 == 0)) by (bit_vector);
    }
}

/// Reading one bit of a cleared word.
pub broadcast proof fn lemma_clear_bit(a: u64, s: int, i: int)
    requires
        0 <= s < 64,
    ensures
        #[trigger] is_set(without_bit(a, s), i) == (is_set(a, i) && i != s),
{
    lemma_clear(a, s, i);
}

/// Reading one bit of a word with a bit set.
pub broadcast proof fn lemma_set_bit(a: u64, s: int, i: int)
    requires
        0 <= s < 64,
    ensures
        #[trigger] is_set(with_bit(a, s), i) == (is_set(a, i) || i == s),
{
    lemma_set(a, s, i);
}

} // verus!
