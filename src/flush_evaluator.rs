//! The flush table: a strength rank for each of the 8192 single-suit patterns.
use vstd::prelude::*;
use crate::bits::popcount;
use crate::fast_hand::{flush_pattern, PokerHandFast};
use crate::suit_pattern::{is_straight_pattern, SuitOnlyFastHand};

verus! {

/// Number of thirteen-bit patterns.
pub const NUM_PATTERNS: u64 = 0x2000;

/// Class of a pattern: flush-eligible (five or more ranks) counts 2, straight-eligible counts 1.
pub open spec fn flush_class(p: u64) -> int {
    (if popcount(p) >= 5 {
        2int
    } else {
        0int
    }) + (if is_straight_pattern(p) {
        1int
    } else {
        0int
    })
}

/// The order of the flush table: by class, then by numeric value.
pub open spec fn flush_before(q: u64, p: u64) -> bool {
    flush_class(q) < flush_class(p) || (flush_class(q) == flush_class(p) && q < p)
}

/// Number of patterns below `n` ordered before `p`.
pub open spec fn flush_rank_below(p: u64, n: int) -> int
    decreases n,
{
    if n <= 0 {
        0
    } else {
        flush_rank_below(p, n - 1) + if flush_before((n - 1) as u64, p) {
            1int
        } else {
            0int
        }
    }
}

/// Position of `p` in the order of all 8192 patterns.
pub open spec fn flush_rank(p: u64) -> int {
    flush_rank_below(p, NUM_PATTERNS as int)
}

/// Number of patterns below `n` whose class is less than `c`.
pub open spec fn class_lt_below(n: int, c: int) -> int
    decreases n,
{
    if n <= 0 {
        0
    } else {
        class_lt_below(n - 1, c) + if flush_class((n - 1) as u64) < c {
            1int
        } else {
            0int
        }
    }
}

/// Number of patterns below `n` whose class is `c`.
pub open spec fn class_eq_below(n: int, c: int) -> int
    decreases n,
{
    if n <= 0 {
        0
    } else {
        class_eq_below(n - 1, c) + if flush_class((n - 1) as u64) == c {
            1int
        } else {
            0int
        }
    }
}

proof fn lemma_class_counts_bounded(n: int, c: int)
    requires
        n >= 0,
    ensures
        0 <= class_eq_below(n, c) <= n,
        0 <= class_lt_below(n, c) <= n,
        class_lt_below(n, c + 1) == class_lt_below(n, c) + class_eq_below(n, c),
        class_lt_below(n, 0) == 0,
    decreases n,
{
    if n > 0 {
        lemma_class_counts_bounded(n - 1, c);
    }
}

proof fn lemma_class_eq_mono(m: int, n: int, c: int)
    requires
        0 <= m <= n,
    ensures
        class_eq_below(m, c) <= class_eq_below(n, c),
    decreases n,
{
    if m < n {
        lemma_class_eq_mono(m, n - 1, c);
    }
}

proof fn lemma_flush_rank_split(p: u64, n: int)
    requires
        0 <= n <= NUM_PATTERNS,
        p < NUM_PATTERNS,
    ensures
        flush_rank_below(p, n) == class_lt_below(n, flush_class(p)) + class_eq_below(
            if n < p {
                n
            } else {
                p as int
            },
            flush_class(p),
        ),
    decreases n,
{
    if n > 0 {
        lemma_flush_rank_split(p, n - 1);
    }
}

proof fn lemma_flush_rank_below_bound(p: u64, n: int)
    requires
        0 <= n,
    ensures
        0 <= flush_rank_below(p, n) <= n,
    decreases n,
{
    if n > 0 {
        lemma_flush_rank_below_bound(p, n - 1);
    }
}

/// A flush rank is a position among the 8192 patterns.
pub proof fn lemma_flush_rank_bound(p: u64)
    ensures
        0 <= flush_rank(p) <= NUM_PATTERNS,
{
    lemma_flush_rank_below_bound(p, NUM_PATTERNS as int);
}

/// If `q` comes before `p`, fewer patterns come before `q` than before `p`.
proof fn lemma_flush_rank_mono(q: u64, p: u64, n: int)
    requires
        flush_before(q, p),
        0 <= n,
    ensures
        flush_rank_below(q, n) + (if q < n {
            1int
        } else {
            0int
        }) <= flush_rank_below(p, n),
    decreases n,
{
    if n > 0 {
        lemma_flush_rank_mono(q, p, n - 1);
    }
}

/// The flush rank follows the table's order: a pattern of a lower class, or of the same
/// class and a smaller value, ranks lower.
pub proof fn lemma_flush_rank_order(q: u64, p: u64)
    requires
        q < NUM_PATTERNS,
        flush_before(q, p),
    ensures
        flush_rank(q) < flush_rank(p),
{
    lemma_flush_rank_mono(q, p, NUM_PATTERNS as int);
}

/// Every flush-eligible pattern (five or more ranks) ranks above every pattern with fewer
/// than five ranks.
pub proof fn lemma_flush_table_totality(p: u64, q: u64)
    requires
        p < NUM_PATTERNS,
        q < NUM_PATTERNS,
        popcount(p) >= 5,
        popcount(q) < 5,
    ensures
        flush_rank(q) < flush_rank(p),
{
    lemma_flush_rank_mono(q, p, NUM_PATTERNS as int);
}

/// The whole flush table: the rank of each of the 8192 patterns.
pub open spec fn flush_table() -> Seq<u64> {
    Seq::new(NUM_PATTERNS as nat, |p: int| flush_rank(p as u64) as u64)
}

/// Class of a pattern, computed.
fn class_of(p: u64) -> (r: u64)
    requires
        p < NUM_PATTERNS,
    ensures
        r == flush_class(p),
        r < 4,
{
    let h = SuitOnlyFastHand::new(p);
    let flush: u64 = if h.count_ones() >= 5 {
        2
    } else {
        0
    };
    let straight: u64 = if h.is_straight() {
        1
    } else {
        0
    };
    flush + straight
}

/// Ranks flush patterns: `flush_helper[p]` is the position of pattern `p` in the flush order.
#[derive(Debug, PartialEq, Eq, Hash)]
pub struct FlushEvaluator {
    flush_helper: Vec<u64>,
}

impl FlushEvaluator {
    #[verifier::type_invariant]
    spec fn inv(self) -> bool {
        &&& self.flush_helper@.len() == NUM_PATTERNS
        &&& forall|p: int| 0 <= p < NUM_PATTERNS ==> #[trigger] self.flush_helper@[p] == flush_rank(p as u64)
    }

    /// The table: entry `p` is the rank of pattern `p`.
    pub closed spec fn table(self) -> Seq<u64> {
        self.flush_helper@
    }

    pub fn new() -> (r: FlushEvaluator)
        ensures
            r.table() == flush_table(),
            forall|p: int, q: int|
                0 <= p < NUM_PATTERNS && 0 <= q < NUM_PATTERNS && popcount(p as u64) >= 5 && popcount(q as u64)
                    < 5 ==> #[trigger] r.table()[p] > #[trigger] r.table()[q],
    {
        let r = FlushEvaluator { flush_helper: FlushEvaluator::prepare_flush_table() };
        assert(r.table() =~= flush_table());
        r
    }

    /// Builds the table: entry `p` is the number of patterns ordered before `p`.
    fn prepare_flush_table() -> (r: Vec<u64>)
        ensures
            r@.len() == NUM_PATTERNS,
            forall|p: int| 0 <= p < NUM_PATTERNS ==> #[trigger] r@[p] == flush_rank(p as u64),
            forall|p: int, q: int|
                0 <= p < NUM_PATTERNS && 0 <= q < NUM_PATTERNS && popcount(p as u64) >= 5 && popcount(q as u64)
                    < 5 ==> #[trigger] r@[p] > #[trigger] r@[q],
    {
        // how many patterns fall in each class
        let mut counts: Vec<u64> = vec![0, 0, 0, 0];
        let mut p: u64 = 0;
        while p < NUM_PATTERNS
            invariant
                p <= NUM_PATTERNS,
                counts@.len() == 4,
                forall|c: int| 0 <= c < 4 ==> #[trigger] counts@[c] == class_eq_below(p as int, c),
            decreases NUM_PATTERNS - p,
        {
            let c = class_of(p);
            proof {
                lemma_class_counts_bounded(p as int, c as int);
            }
            counts.set(c as usize, counts[c as usize] + 1);
            p = p + 1;
        }
        // first position of each class
        let mut next: Vec<u64> = vec![0, 0, 0, 0];
        let mut c: usize = 1;
        proof {
            lemma_class_counts_bounded(NUM_PATTERNS as int, 0);
        }
        while c < 4
            invariant
                1 <= c <= 4,
                counts@.len() == 4,
                next@.len() == 4,
                forall|d: int| 0 <= d < 4 ==> #[trigger] counts@[d] == class_eq_below(NUM_PATTERNS as int, d),
                forall|d: int| 0 <= d < c ==> #[trigger] next@[d] == class_lt_below(NUM_PATTERNS as int, d),
            decreases 4 - c,
        {
            proof {
                lemma_class_counts_bounded(NUM_PATTERNS as int, (c - 1) as int);
                lemma_class_counts_bounded(NUM_PATTERNS as int, c as int);
            }
            next.set(c, next[c - 1] + counts[c - 1]);
            c = c + 1;
        }
        proof {
            lemma_class_counts_bounded(NUM_PATTERNS as int, 0);
        }
        let mut table: Vec<u64> = Vec::new();
        let mut p: u64 = 0;
        while p < NUM_PATTERNS
            invariant
                p <= NUM_PATTERNS,
                table@.len() == p,
                next@.len() == 4,
                forall|d: int| 0 <= d < 4 ==> #[trigger] next@[d] == class_lt_below(NUM_PATTERNS as int, d) + class_eq_below(p as int, d),
                forall|q: int| 0 <= q < p ==> #[trigger] table@[q] == flush_rank(q as u64),
            decreases NUM_PATTERNS - p,
        {
            let c = class_of(p);
            proof {
                lemma_flush_rank_split(p, NUM_PATTERNS as int);
                lemma_class_counts_bounded(NUM_PATTERNS as int, c as int);
                lemma_class_counts_bounded(NUM_PATTERNS as int, c as int + 1);
                lemma_class_counts_bounded(p as int, c as int);
                lemma_class_eq_mono(p as int + 1, NUM_PATTERNS as int, c as int);
                lemma_class_counts_bounded(NUM_PATTERNS as int, 3);
            }
            table.push(next[c as usize]);
            next.set(c as usize, next[c as usize] + 1);
            p = p + 1;
        }
        assert forall|p: int, q: int|
            0 <= p < NUM_PATTERNS && 0 <= q < NUM_PATTERNS && popcount(p as u64) >= 5 && popcount(q as u64)
                < 5 implies #[trigger] table@[p] > #[trigger] table@[q] by {
            lemma_flush_table_totality(p as u64, q as u64);
        }
        table
    }

    /// The flush rank of the hand's flush pattern.
    pub fn eval(&self, h: PokerHandFast) -> (r: u64)
        ensures
            r == flush_rank(flush_pattern(h.0)),
    {
        proof {
            use_type_invariant(self);
        }
        let p = h.flush_val();
        self.flush_helper[p as usize]
    }
}

impl Clone for FlushEvaluator {
    fn clone(&self) -> (r: FlushEvaluator) {
        proof {
            use_type_invariant(self);
        }
        FlushEvaluator { flush_helper: self.flush_helper.clone() }
    }
}

} // verus!
