//! Rank patterns of a single suit: thirteen bits, one per rank.
use vstd::prelude::*;
use crate::bits::{popcount, pop_count};

verus! {

/// Five consecutive ranks starting at rank `i`.
pub open spec fn window(i: int) -> u64 {
    31u64 << (i as u64)
}

/// Whether the pattern holds all five ranks `i..i + 5`.
pub open spec fn window_full(p: u64, i: int) -> bool {
    p & window(i) == window(i)
}

/// Whether the pattern holds five consecutive ranks (the ace does not wrap around).
pub open spec fn is_straight_pattern(p: u64) -> bool {
    exists|i: int| 0 <= i < 9 && #[trigger] window_full(p, i)
}

/// The ranks present in one suit, as a thirteen-bit pattern.
#[derive(Debug, Clone, Copy, PartialEq, Eq, PartialOrd, Ord)]
pub struct SuitOnlyFastHand(u64);

impl SuitOnlyFastHand {
    #[verifier::type_invariant]
    spec fn inv(self) -> bool {
        self.0 < 0x2000
    }

    /// The pattern's bits.
    pub closed spec fn pattern(self) -> u64 {
        self.0
    }

    pub fn new(val: u64) -> (r: SuitOnlyFastHand)
        requires
            val < 0x2000,
        ensures
            r.pattern() == val,
    {
        SuitOnlyFastHand(val)
    }

    /// The pattern's bits.
    pub fn value(self) -> (r: u64)
        ensures
            r == self.pattern(),
            r < 0x2000,
    {
        proof {
            use_type_invariant(&self);
        }
        self.0
    }

    /// Whether the pattern holds five consecutive ranks.
    pub fn is_straight(self) -> (r: bool)
        ensures
            r == is_straight_pattern(self.pattern()),
    {
        let helper: u64 = 0b11111;
        let mut i: u64 = 0;
        while i < 9
            invariant
                i <= 9,
                helper == 31,
                forall|j: int| 0 <= j < i ==> !#[trigger] window_full(self.0, j),
            decreases 9 - i,
        {
            if self.0 & (helper << i) == helper << i {
                assert(window_full(self.0, i as int));
                return true;
            }
            i = i + 1;
        }
        false
    }

    /// Number of ranks in the pattern.
    pub fn count_ones(self) -> (r: u64)
        ensures
            r == popcount(self.pattern()),
    {
        pop_count(self.0)
    }
}

} // verus!
