//! The 16-bit block pattern and its bit-order contract.
//!
//! One source pixel produces a 4x4 block of binary output pixels, packed
//! into a `u16`.  Bit `i`, with `i = y_offset * 4 + x_offset` (row-major),
//! is 1 exactly when the sub-pixel at that offset is rendered bright.  The
//! runtime expansion step depends on this ordering, so it is fixed here
//! and everything else speaks in terms of [`bit16`].

use vstd::prelude::*;

verus! {

/// Bit `i` of a packed block pattern.
pub open spec fn bit16(p: u16, i: u16) -> bool
    recommends
        i < 16,
{
    (p >> i) & 1 == 1
}

/// Number of set bits among the low `n` bits of `p`.
pub open spec fn count_bits_below(p: u16, n: nat) -> nat
    decreases n,
{
    if n == 0 {
        0
    } else {
        count_bits_below(p, (n - 1) as nat) + if bit16(p, (n - 1) as u16) {
            1nat
        } else {
            0nat
        }
    }
}

/// Number of set bits in a block pattern: how many of the 16 output
/// sub-pixels are bright.
pub open spec fn count_bits16(p: u16) -> nat {
    count_bits_below(p, 16)
}

/// The all-clear pattern has no bit set.
pub proof fn lemma_bit16_zero()
    by (bit_vector)
    ensures
        forall|i: u16| i < 16 ==> !bit16(0u16, i),
{
}

/// Setting bit `i` switches it on.
pub proof fn lemma_bit16_set(p: u16, i: u16)
    by (bit_vector)
    requires
        i < 16,
    ensures
        bit16(p | (1u16 << i), i),
{
}

/// Setting bit `i` leaves any other bit unchanged.
pub proof fn lemma_bit16_set_other(p: u16, i: u16, j: u16)
    by (bit_vector)
    requires
        i < 16,
        j < 16,
        j != i,
    ensures
        bit16(p | (1u16 << i), j) == bit16(p, j),
{
}

/// Two patterns that agree on all 16 bits are the same word.
pub proof fn lemma_bit16_ext(p: u16, q: u16)
    requires
        forall|i: u16| i < 16 ==> bit16(p, i) == bit16(q, i),
    ensures
        p == q,
{
    assert(p == q) by (bit_vector)
        requires
            bit16(p, 0u16) == bit16(q, 0u16),
            bit16(p, 1u16) == bit16(q, 1u16),
            bit16(p, 2u16) == bit16(q, 2u16),
            bit16(p, 3u16) == bit16(q, 3u16),
            bit16(p, 4u16) == bit16(q, 4u16),
            bit16(p, 5u16) == bit16(q, 5u16),
            bit16(p, 6u16) == bit16(q, 6u16),
            bit16(p, 7u16) == bit16(q, 7u16),
            bit16(p, 8u16) == bit16(q, 8u16),
            bit16(p, 9u16) == bit16(q, 9u16),
            bit16(p, 10u16) == bit16(q, 10u16),
            bit16(p, 11u16) == bit16(q, 11u16),
            bit16(p, 12u16) == bit16(q, 12u16),
            bit16(p, 13u16) == bit16(q, 13u16),
            bit16(p, 14u16) == bit16(q, 14u16),
            bit16(p, 15u16) == bit16(q, 15u16),
    ;
}

proof fn lemma_count_below_monotone(p: u16, q: u16, n: nat)
    requires
        n <= 16,
        forall|i: u16| i < 16 ==> (bit16(p, i) ==> bit16(q, i)),
    ensures
        count_bits_below(p, n) <= count_bits_below(q, n),
    decreases n,
{
    if n > 0 {
        lemma_count_below_monotone(p, q, (n - 1) as nat);
        assert(bit16(p, (n - 1) as u16) ==> bit16(q, (n - 1) as u16));
    }
}

/// A pattern whose set bits all recur in another pattern has no more set
/// bits than that pattern.
pub proof fn lemma_count_bits16_monotone(p: u16, q: u16)
    requires
        forall|i: u16| i < 16 ==> (bit16(p, i) ==> bit16(q, i)),
    ensures
        count_bits16(p) <= count_bits16(q),
{
    lemma_count_below_monotone(p, q, 16);
}

} // verus!
