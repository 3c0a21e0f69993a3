//! The evaluator: a single strength number for a seven-card hand; higher is stronger.
use vstd::prelude::*;
use crate::card::{encode, PokerHand};
use crate::enumeration::{lemma_seq_sum_update, all_shapes, is_shape, lex_lt, lemma_shape_enumeration, lemma_lex_irreflexive, NUM_SHAPES};
use crate::fast_hand::{
    flush_pattern, has_flush, num_cards, shape_of, lemma_flush_from_nonzero, lemma_flush_pattern_bound,
    PokerHandFast,
};
use crate::flush_evaluator::{flush_table, flush_before, flush_rank, lemma_flush_rank_bound, lemma_flush_rank_order, FlushEvaluator};
use crate::non_flush_evaluator::{
    nf_before, nf_rank_below, non_flush_rank, ranks_all_shapes, lemma_hand_shape, lemma_table_unique,
    NonFlushEvaluator,
};
use crate::shape::{shape_category, shape_key, lemma_key_band};

verus! {

/// Added to the rank of every flush, so that flushes rank above all other hands.
pub const FLUSH_OFFSET: u64 = 1_000_000_000_000;

/// Strength of an encoded hand of seven cards: a flush ranks by its flush pattern above
/// every hand without a flush; other hands rank by their shape.
pub open spec fn hand_strength(x: u64) -> int {
    if flush_pattern(x) != 0 {
        FLUSH_OFFSET + flush_rank(flush_pattern(x))
    } else {
        non_flush_rank(shape_of(x))
    }
}

/// Holds both lookup tables.
#[derive(Clone, PartialEq, Eq)]
pub struct PokerHandEvaluator {
    flush_evaluator: FlushEvaluator,
    non_flush_helper: NonFlushEvaluator,
}

impl PokerHandEvaluator {
    /// The flush table.
    pub closed spec fn flush_table(self) -> Seq<u64> {
        self.flush_evaluator.table()
    }

    /// The non-flush table.
    pub closed spec fn non_flush_table(self) -> Map<u64, u64> {
        self.non_flush_helper.table()
    }

    /// Builds both tables; they are the same on every call.
    pub fn new() -> (r: PokerHandEvaluator)
        ensures
            r.flush_table() == flush_table(),
            ranks_all_shapes(r.non_flush_table()),
    {
        PokerHandEvaluator { flush_evaluator: FlushEvaluator::new(), non_flush_helper: NonFlushEvaluator::new() }
    }

    /// Strength of an encoded hand of seven cards.
    pub fn eval_fast(&self, h: PokerHandFast) -> (r: u64)
        requires
            num_cards(h.0) == 7,
        ensures
            r == hand_strength(h.0),
    {
        if h.is_flush() {
            let v = self.flush_evaluator.eval(h);
            proof {
                lemma_flush_rank_bound(flush_pattern(h.0));
            }
            FLUSH_OFFSET + v
        } else {
            self.non_flush_helper.evaluate(h)
        }
    }

    /// Strength of a hand.
    pub fn eval(&self, h: PokerHand) -> (r: u64)
        ensures
            r == hand_strength(encode(h.cards_spec())),
    {
        self.eval_fast(PokerHandFast::new(h))
    }
}

/// Two evaluators with the tables that `new` builds hold the same tables.
pub proof fn lemma_evaluators_agree(a: PokerHandEvaluator, b: PokerHandEvaluator)
    requires
        a.flush_table() == flush_table(),
        ranks_all_shapes(a.non_flush_table()),
        b.flush_table() == flush_table(),
        ranks_all_shapes(b.non_flush_table()),
    ensures
        a.flush_table() == b.flush_table(),
        a.non_flush_table() == b.non_flush_table(),
{
    lemma_table_unique(a.non_flush_table(), b.non_flush_table());
}

pub proof fn lemma_lex_transitive(a: Seq<u64>, b: Seq<u64>, c: Seq<u64>)
    requires
        lex_lt(a, b),
        lex_lt(b, c),
    ensures
        lex_lt(a, c),
    decreases a.len(),
{
    if a[0] == b[0] && b[0] == c[0] {
        lemma_lex_transitive(
            a.subrange(1, a.len() as int),
            b.subrange(1, b.len() as int),
            c.subrange(1, c.len() as int),
        );
    }
}

proof fn lemma_nf_rank_mono(t: Seq<u64>, s: Seq<u64>, n: int)
    requires
        nf_before(t, s),
        0 <= n <= NUM_SHAPES,
        all_shapes().len() == NUM_SHAPES,
    ensures
        nf_rank_below(t, n) + (if exists|j: int| 0 <= j < n && all_shapes()[j] == t {
            1int
        } else {
            0int
        }) <= nf_rank_below(s, n),
    decreases n,
{
    if n > 0 {
        lemma_nf_rank_mono(t, s, n - 1);
        let x = all_shapes()[n - 1];
        lemma_lex_irreflexive(t);
        if nf_before(x, t) && shape_key(x) == shape_key(t) && shape_key(t) == shape_key(s) {
            lemma_lex_transitive(x, t, s);
        }
        if exists|j: int| 0 <= j < n && all_shapes()[j] == t {
            if !(exists|j: int| 0 <= j < n - 1 && all_shapes()[j] == t) {
                assert(x == t);
            } else {
                let j = choose|j: int| 0 <= j < n - 1 && all_shapes()[j] == t;
                assert(0 <= j < n && all_shapes()[j] == t);
            }
        } else {
            assert(!(exists|j: int| 0 <= j < n - 1 && all_shapes()[j] == t)) by {
                if exists|j: int| 0 <= j < n - 1 && all_shapes()[j] == t {
                    let j = choose|j: int| 0 <= j < n - 1 && all_shapes()[j] == t;
                    assert(0 <= j < n && all_shapes()[j] == t);
                }
            }
        }
    }
}

/// The non-flush rank follows the table's order: a shape that comes before another (a
/// smaller strength key, or an equal key and lexicographically smaller) ranks lower.
pub proof fn lemma_non_flush_rank_order(t: Seq<u64>, s: Seq<u64>)
    requires
        is_shape(t),
        nf_before(t, s),
    ensures
        non_flush_rank(t) < non_flush_rank(s),
{
    lemma_shape_enumeration();
    assert(all_shapes().contains(t));
    let j = choose|j: int| 0 <= j < all_shapes().len() && all_shapes()[j] == t;
    assert(0 <= j < NUM_SHAPES && all_shapes()[j] == t);
    lemma_nf_rank_mono(t, s, NUM_SHAPES as int);
}

/// A shape with a stronger category ranks higher: a full house ranks above every three of a
/// kind, two pairs, pair and high card, and below every four of a kind.
pub proof fn lemma_category_order(t: Seq<u64>, s: Seq<u64>)
    requires
        is_shape(t),
        is_shape(s),
        shape_category(t) < shape_category(s),
    ensures
        non_flush_rank(t) < non_flush_rank(s),
{
    lemma_key_band(t);
    lemma_key_band(s);
    lemma_non_flush_rank_order(t, s);
}

/// Between two hands of seven cards without a flush, the one whose shape has the larger
/// strength key evaluates higher; between two flushes, the one whose flush pattern comes
/// later in the flush order evaluates higher; any flush evaluates above every hand without
/// one.
pub proof fn lemma_stronger_hand_evaluates_higher(x: u64, y: u64)
    requires
        num_cards(x) == 7,
        num_cards(y) == 7,
    ensures
        (!has_flush(x) && !has_flush(y) && shape_key(shape_of(x)) < shape_key(shape_of(y)))
            ==> hand_strength(x) < hand_strength(y),
        (has_flush(x) && has_flush(y) && flush_before(flush_pattern(x), flush_pattern(y)))
            ==> hand_strength(x) < hand_strength(y),
        (!has_flush(x) && has_flush(y)) ==> hand_strength(x) < hand_strength(y),
{
    lemma_flush_pattern_bound(x, 0);
    if has_flush(x) && has_flush(y) && flush_before(flush_pattern(x), flush_pattern(y)) {
        lemma_flush_rank_order(flush_pattern(x), flush_pattern(y));
    }
    lemma_flush_from_nonzero(x, 0);
    lemma_flush_from_nonzero(y, 0);
    lemma_hand_shape(x);
    lemma_hand_shape(y);
    if !has_flush(x) && !has_flush(y) && shape_key(shape_of(x)) < shape_key(shape_of(y)) {
        lemma_non_flush_rank_order(shape_of(x), shape_of(y));
    }
    if !has_flush(x) {
        lemma_non_flush_rank_bound(shape_of(x));
    }
    lemma_flush_rank_bound(flush_pattern(y));
}

pub proof fn lemma_lex_total(a: Seq<u64>, b: Seq<u64>)
    requires
        a.len() == b.len(),
        a != b,
    ensures
        lex_lt(a, b) || lex_lt(b, a),
    decreases a.len(),
{
    if a.len() == 0 {
        assert(a =~= b);
    } else if a[0] == b[0] {
        let a1 = a.subrange(1, a.len() as int);
        let b1 = b.subrange(1, b.len() as int);
        if a1 == b1 {
            assert(a =~= b) by {
                assert forall|i: int| 0 <= i < a.len() implies a[i] == b[i] by {
                    if i > 0 {
                        assert(a[i] == a1[i - 1] && b[i] == b1[i - 1]);
                    }
                }
            }
        }
        lemma_lex_total(a1, b1);
    }
}

proof fn lemma_nf_rank_excludes_self(s: Seq<u64>, n: int)
    requires
        0 <= n <= NUM_SHAPES,
        all_shapes().len() == NUM_SHAPES,
    ensures
        nf_rank_below(s, n) + (if exists|j: int| 0 <= j < n && all_shapes()[j] == s {
            1int
        } else {
            0int
        }) <= n,
    decreases n,
{
    if n > 0 {
        lemma_nf_rank_excludes_self(s, n - 1);
        lemma_lex_irreflexive(s);
        if exists|j: int| 0 <= j < n && all_shapes()[j] == s {
            if exists|j: int| 0 <= j < n - 1 && all_shapes()[j] == s {
                let j = choose|j: int| 0 <= j < n - 1 && all_shapes()[j] == s;
                assert(0 <= j < n && all_shapes()[j] == s);
            }
        } else {
            assert(!(exists|j: int| 0 <= j < n - 1 && all_shapes()[j] == s)) by {
                if exists|j: int| 0 <= j < n - 1 && all_shapes()[j] == s {
                    let j = choose|j: int| 0 <= j < n - 1 && all_shapes()[j] == s;
                    assert(0 <= j < n && all_shapes()[j] == s);
                }
            }
        }
    }
}

/// The ranks of the shapes of seven cards are 0 to 49,204, each taken by one shape: every
/// rank is below the number of shapes, and distinct shapes have distinct ranks.
pub proof fn lemma_non_flush_ranks_distinct(s: Seq<u64>, t: Seq<u64>)
    requires
        is_shape(s),
        is_shape(t),
    ensures
        0 <= non_flush_rank(s) < NUM_SHAPES,
        s != t ==> non_flush_rank(s) != non_flush_rank(t),
{
    lemma_shape_enumeration();
    assert(all_shapes().contains(s));
    let j = choose|j: int| 0 <= j < all_shapes().len() && all_shapes()[j] == s;
    assert(0 <= j < NUM_SHAPES && all_shapes()[j] == s);
    lemma_nf_rank_excludes_self(s, NUM_SHAPES as int);
    lemma_nf_rank_below_bound(s, NUM_SHAPES as int);
    if s != t {
        lemma_lex_total(s, t);
        if nf_before(s, t) {
            lemma_non_flush_rank_order(s, t);
        } else {
            lemma_non_flush_rank_order(t, s);
        }
    }
}

proof fn lemma_lex_first_difference(t: Seq<u64>, s: Seq<u64>, a: int)
    requires
        t.len() == s.len(),
        0 <= a < s.len(),
        forall|i: int| 0 <= i < a ==> t[i] == s[i],
        t[a] < s[a],
    ensures
        lex_lt(t, s),
    decreases a,
{
    if a > 0 {
        let t1 = t.subrange(1, t.len() as int);
        let s1 = s.subrange(1, s.len() as int);
        assert forall|i: int| 0 <= i < a - 1 implies t1[i] == s1[i] by {
            assert(t1[i] == t[i + 1] && s1[i] == s[i + 1]);
        }
        lemma_lex_first_difference(t1, s1, a - 1);
    }
}

/// Moving one card of a shape from rank `a` to a higher rank `b` without changing the
/// strength key lowers the rank: ties in the key are ordered lexicographically, and the
/// moved shape is the smaller. (So raising a kicker that decides nothing never raises a
/// hand's value; only a raise that changes the key does, by the law above.)
pub proof fn lemma_equal_key_kicker_raise(s: Seq<u64>, a: int, b: int)
    requires
        is_shape(s),
        0 <= a < b < 13,
        s[a] >= 1,
        s[b] <= 3,
        shape_key(s.update(a, (s[a] - 1) as u64).update(b, (s[b] + 1) as u64)) == shape_key(s),
    ensures
        non_flush_rank(s.update(a, (s[a] - 1) as u64).update(b, (s[b] + 1) as u64)) < non_flush_rank(s),
{
    let t1 = s.update(a, (s[a] - 1) as u64);
    let t = t1.update(b, (s[b] + 1) as u64);
    lemma_seq_sum_update(s, a, (s[a] - 1) as u64);
    lemma_seq_sum_update(t1, b, (s[b] + 1) as u64);
    assert(is_shape(t));
    lemma_lex_first_difference(t, s, a);
    lemma_non_flush_rank_order(t, s);
}

proof fn lemma_nf_rank_below_bound(s: Seq<u64>, n: int)
    requires
        0 <= n,
    ensures
        0 <= nf_rank_below(s, n) <= n,
    decreases n,
{
    if n > 0 {
        lemma_nf_rank_below_bound(s, n - 1);
    }
}

/// A non-flush rank is a position among the 49,205 shapes.
pub proof fn lemma_non_flush_rank_bound(s: Seq<u64>)
    ensures
        0 <= non_flush_rank(s) <= NUM_SHAPES,
{
    lemma_nf_rank_below_bound(s, NUM_SHAPES as int);
}

} // verus!
