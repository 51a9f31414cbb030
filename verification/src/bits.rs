//! Single bits of a 64-bit mask, and the facts about shifts, `&`, `|` and `^`
//! that the rest of the crate reasons with.

use vstd::prelude::*;

verus! {

/// Whether bit `i` of `mask` is set, for an index that fits the machine word.
pub open spec fn bit_at(mask: u64, i: u64) -> bool {
    (mask >> i) & 1 == 1
}

/// Whether bit `i` of `mask` is set. No bit is set outside `0..64`.
pub open spec fn bit(mask: u64, i: int) -> bool {
    0 <= i < 64 && bit_at(mask, i as u64)
}

/// The mask with bit `i` set and no other.
pub open spec fn single(i: u64) -> u64 {
    1u64 << i
}

/// Flipping bit `k` changes bit `k` and leaves every other bit alone.
pub proof fn lemma_flip(mask: u64, k: u64, i: u64)
    by (bit_vector)
    requires
        k < 64,
        i < 64,
    ensures
        bit_at(mask ^ single(k), i) == (bit_at(mask, i) != (i == k)),
{
}

/// Flipping the same bit twice gives the mask back.
pub proof fn lemma_flip_twice(mask: u64, k: u64)
    by (bit_vector)
    requires
        k < 64,
    ensures
        (mask ^ single(k)) ^ single(k) == mask,
{
}

/// A bit of `a | b` is set exactly when it is set in `a` or in `b`.
pub proof fn lemma_bit_or(a: u64, b: u64, i: u64)
    by (bit_vector)
    requires
        i < 64,
    ensures
        bit_at(a | b, i) == (bit_at(a, i) || bit_at(b, i)),
{
}

/// A bit of `a & b` is set exactly when it is set in both.
pub proof fn lemma_bit_and(a: u64, b: u64, i: u64)
    by (bit_vector)
    requires
        i < 64,
    ensures
        bit_at(a & b, i) == (bit_at(a, i) && bit_at(b, i)),
{
}

/// The zero mask has no bit set.
pub proof fn lemma_bit_zero(i: u64)
    by (bit_vector)
    requires
        i < 64,
    ensures
        !bit_at(0, i),
{
}

/// Where `a` and `b` have no bit in common and bit `k` is unset in `b`,
/// flipping bit `k` of `a` leaves them without a bit in common.
pub proof fn lemma_flip_keeps_disjoint(a: u64, b: u64, k: u64)
    by (bit_vector)
    requires
        k < 64,
        a & b == 0,
        !bit_at(b, k),
    ensures
        (a ^ single(k)) & b == 0,
        b & (a ^ single(k)) == 0,
{
}

/// Above position `k`, a mask whose shift by `k` is nonzero has either bit
/// `k` set or a nonzero shift by `k + 1`.
proof fn lemma_shift_step(mask: u64, k: u64)
    by (bit_vector)
    requires
        k < 64,
        mask >> k != 0,
        !bit_at(mask, k),
    ensures
        k < 63,
        mask >> ((k + 1) as u64) != 0,
{
}

proof fn lemma_some_bit_from(mask: u64, k: u64)
    requires
        k < 64,
        mask >> k != 0,
    ensures
        exists|i: int| k <= i < 64 && bit(mask, i),
    decreases 64 - k,
{
    if bit_at(mask, k) {
        assert(bit(mask, k as int));
    } else {
        lemma_shift_step(mask, k);
        lemma_some_bit_from(mask, (k + 1) as u64);
    }
}

/// A nonzero mask has a bit set.
pub proof fn lemma_nonzero_has_bit(mask: u64)
    requires
        mask != 0,
    ensures
        exists|i: int| 0 <= i < 64 && bit(mask, i),
{
    assert(mask >> 0 == mask) by (bit_vector);
    lemma_some_bit_from(mask, 0);
}

/// A mask with a bit set is nonzero.
pub proof fn lemma_bit_means_nonzero(mask: u64, i: u64)
    by (bit_vector)
    requires
        i < 64,
        bit_at(mask, i),
    ensures
        mask != 0,
{
}

/// The number of ones in the binary representation of `x`.
pub open spec fn ones(x: u64) -> nat
    decreases x,
{
    if x == 0 {
        0
    } else {
        (x % 2) as nat + ones(x / 2)
    }
}

/// `u64::count_ones` of the standard library, which Verus does not read. It
/// is taken to return the number of ones in the binary representation of
/// its argument, as its documentation says.
pub assume_specification[ u64::count_ones ](x: u64) -> (n: u32)
    ensures
        n == ones(x),
;

proof fn lemma_halving(x: u64, k: u64)
    by (bit_vector)
    requires
        k < 64,
        x >> k == 0,
        x != 0,
    ensures
        k >= 1,
        (x / 2) >> ((k - 1) as u64) == 0,
{
}

proof fn lemma_ones_below(x: u64, k: u64)
    requires
        k < 64,
        x >> k == 0,
    ensures
        ones(x) <= k,
    decreases k,
{
    if x != 0 {
        lemma_halving(x, k);
        lemma_ones_below(x / 2, (k - 1) as u64);
    }
}

/// A 64-bit word has at most 64 ones.
pub proof fn lemma_ones_bound(x: u64)
    ensures
        ones(x) <= 64,
{
    if x != 0 {
        assert((x / 2) >> 63 == 0) by (bit_vector);
        lemma_ones_below(x / 2, 63);
    }
}

} // verus!
