//! Bit-level facts about `u64` values used as sets of cards or ranks.
use vstd::prelude::*;

verus! {

/// Bit `b` of `x`, as 0 or 1.
pub open spec fn bit(x: u64, b: int) -> int {
    ((x >> (b as u64)) & 1u64) as int
}

/// Number of set bits of `x` among bits `0..n`.
pub open spec fn bits_below(x: u64, n: int) -> int
    decreases n,
{
    if n <= 0 {
        0
    } else {
        bits_below(x, n - 1) + bit(x, n - 1)
    }
}

/// Number of set bits of `x`.
pub open spec fn popcount(x: u64) -> int {
    bits_below(x, 64)
}

pub proof fn lemma_bit_or_shift(x: u64, b: u64, c: u64)
    by (bit_vector)
    requires
        b < 64,
        c < 64,
    ensures
        ((x | (1u64 << b)) >> c) & 1u64 == if c == b {
            1u64
        } else {
            (x >> c) & 1u64
        },
{
}

pub proof fn lemma_bit_is_01(x: u64, c: u64)
    by (bit_vector)
    ensures
        (x >> c) & 1u64 <= 1u64,
{
}

pub proof fn lemma_bit_of_zero(c: u64)
    by (bit_vector)
    ensures
        (0u64 >> c) & 1u64 == 0u64,
{
}

pub proof fn lemma_bits_below_bounds(x: u64, n: int)
    requires
        0 <= n <= 64,
    ensures
        0 <= bits_below(x, n) <= n,
    decreases n,
{
    if n > 0 {
        lemma_bits_below_bounds(x, n - 1);
        lemma_bit_is_01(x, (n - 1) as u64);
    }
}

pub proof fn lemma_bits_below_zero(n: int)
    requires
        0 <= n <= 64,
    ensures
        bits_below(0u64, n) == 0,
    decreases n,
{
    if n > 0 {
        lemma_bits_below_zero(n - 1);
        lemma_bit_of_zero((n - 1) as u64);
    }
}

/// Counts the set bits of `x`.
pub fn pop_count(x: u64) -> (r: u64)
    ensures
        r == popcount(x),
{
    let mut count: u64 = 0;
    let mut i: u64 = 0;
    while i < 64
        invariant
            i <= 64,
            count == bits_below(x, i as int),
        decreases 64 - i,
    {
        proof {
            lemma_bits_below_bounds(x, i as int);
            lemma_bit_is_01(x, i);
        }
        count = count + ((x >> i) & 1);
        i = i + 1;
    }
    count
}

} // verus!
