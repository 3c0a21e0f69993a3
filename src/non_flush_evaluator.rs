//! The non-flush table: a strength rank for each of the 49,205 shapes of seven cards.
use vstd::prelude::*;
use std::collections::HashMap;
use crate::enumeration::{
    all_shapes, is_shape, lex_lt, generate_non_flush_hands, lemma_shape_enumeration,
    lemma_lex_irreflexive, lemma_lex_asymmetric, seq_sum, NUM_SHAPES,
};
use crate::fast_hand::{num_cards, shape_of, cards_from, lemma_rank_count_bounds, PokerHandFast};
use crate::shape::{shape_key, PokerHandNonFlush};

verus! {

broadcast use vstd::std_specs::hash::group_hash_axioms;

/// Bound on strength keys: seven categories of 4096 keys each.
pub const NUM_KEYS: u64 = 28672;

/// The order of the non-flush table: by strength key, ties in lexicographic order.
pub open spec fn nf_before(t: Seq<u64>, s: Seq<u64>) -> bool {
    shape_key(t) < shape_key(s) || (shape_key(t) == shape_key(s) && lex_lt(t, s))
}

/// Number of the first `n` shapes ordered before `s`.
pub open spec fn nf_rank_below(s: Seq<u64>, n: int) -> int
    decreases n,
{
    if n <= 0 {
        0
    } else {
        nf_rank_below(s, n - 1) + if nf_before(all_shapes()[n - 1], s) {
            1int
        } else {
            0int
        }
    }
}

/// Position of shape `s` in the order of all shapes: 0 is the weakest high card.
pub open spec fn non_flush_rank(s: Seq<u64>) -> int {
    nf_rank_below(s, NUM_SHAPES as int)
}

/// Number of the first `n` entries of `ks` that come before entry `i` in a stable sort.
pub open spec fn stable_pos_below(ks: Seq<u64>, i: int, n: int) -> int
    decreases n,
{
    if n <= 0 {
        0
    } else {
        stable_pos_below(ks, i, n - 1) + if ks[n - 1] < ks[i] || (ks[n - 1] == ks[i] && n - 1 < i) {
            1int
        } else {
            0int
        }
    }
}

/// Number of the first `n` keys below `c`.
pub open spec fn key_lt_below(ks: Seq<u64>, n: int, c: int) -> int
    decreases n,
{
    if n <= 0 {
        0
    } else {
        key_lt_below(ks, n - 1, c) + if ks[n - 1] < c {
            1int
        } else {
            0int
        }
    }
}

/// Number of the first `n` keys equal to `c`.
pub open spec fn key_eq_below(ks: Seq<u64>, n: int, c: int) -> int
    decreases n,
{
    if n <= 0 {
        0
    } else {
        key_eq_below(ks, n - 1, c) + if ks[n - 1] == c {
            1int
        } else {
            0int
        }
    }
}

proof fn lemma_key_counts(ks: Seq<u64>, n: int, c: int)
    requires
        0 <= n <= ks.len(),
    ensures
        0 <= key_eq_below(ks, n, c) <= n,
        0 <= key_lt_below(ks, n, c) <= n,
        key_lt_below(ks, n, c + 1) == key_lt_below(ks, n, c) + key_eq_below(ks, n, c),
        key_lt_below(ks, n, 0) == 0,
        key_lt_below(ks, n, c) + key_eq_below(ks, n, c) <= n,
    decreases n,
{
    if n > 0 {
        lemma_key_counts(ks, n - 1, c);
    }
}

proof fn lemma_key_eq_mono(ks: Seq<u64>, m: int, n: int, c: int)
    requires
        0 <= m <= n <= ks.len(),
    ensures
        key_lt_below(ks, n, c) + key_eq_below(ks, m, c) <= key_lt_below(ks, n, c) + key_eq_below(ks, n, c),
    decreases n,
{
    if m < n {
        lemma_key_eq_mono(ks, m, n - 1, c);
    }
}

proof fn lemma_stable_pos_split(ks: Seq<u64>, i: int, n: int)
    requires
        0 <= n <= ks.len(),
        0 <= i < ks.len(),
    ensures
        stable_pos_below(ks, i, n) == key_lt_below(ks, n, ks[i] as int) + key_eq_below(
            ks,
            if n < i {
                n
            } else {
                i
            },
            ks[i] as int,
        ),
    decreases n,
{
    if n > 0 {
        lemma_stable_pos_split(ks, i, n - 1);
    }
}

/// For keys taken from the shapes in enumeration order, the stable position of a shape is
/// its rank in the order of all shapes.
proof fn lemma_stable_pos_is_rank(ks: Seq<u64>, i: int, n: int)
    requires
        ks.len() == NUM_SHAPES,
        all_shapes().len() == NUM_SHAPES,
        forall|j: int| 0 <= j < ks.len() ==> #[trigger] ks[j] == shape_key(all_shapes()[j]),
        forall|a: int, b: int|
            0 <= a < b < all_shapes().len() ==> lex_lt(#[trigger] all_shapes()[a], #[trigger] all_shapes()[b]),
        0 <= i < NUM_SHAPES,
        0 <= n <= NUM_SHAPES,
    ensures
        stable_pos_below(ks, i, n) == nf_rank_below(all_shapes()[i], n),
    decreases n,
{
    if n > 0 {
        lemma_stable_pos_is_rank(ks, i, n - 1);
        let j = n - 1;
        let g = all_shapes();
        lemma_lex_irreflexive(g[i]);
        if j < i {
            assert(lex_lt(g[j], g[i]));
        } else if j > i {
            assert(lex_lt(g[i], g[j]));
            lemma_lex_asymmetric(g[i], g[j]);
        }
    }
}

/// The strength keys of a list of shapes.
pub open spec fn keys_of(hands: Seq<PokerHandNonFlush>) -> Seq<u64> {
    Seq::new(hands.len(), |i: int| shape_key(hands[i]@) as u64)
}

/// Positions of the shapes in the stable sort by strength key: entry `i` is the number of
/// shapes with a smaller key, or an equal key and an earlier place.
fn sort_non_flush(hands: &Vec<PokerHandNonFlush>) -> (r: Vec<u64>)
    requires
        hands@.len() <= NUM_SHAPES,
        forall|i: int| 0 <= i < hands@.len() ==> (#[trigger] hands@[i])@.len() == 13,
    ensures
        r@.len() == hands@.len(),
        forall|i: int|
            0 <= i < r@.len() ==> #[trigger] r@[i] == stable_pos_below(
                keys_of(hands@),
                i,
                hands@.len() as int,
            ),
{
    let n = hands.len();
    let mut keys: Vec<u64> = Vec::new();
    let mut i: usize = 0;
    while i < n
        invariant
            i <= n,
            n == hands@.len(),
            forall|j: int| 0 <= j < hands@.len() ==> (#[trigger] hands@[j])@.len() == 13,
            keys@.len() == i,
            forall|j: int| 0 <= j < i ==> #[trigger] keys@[j] == shape_key(hands@[j]@),
            forall|j: int| 0 <= j < i ==> #[trigger] keys@[j] < NUM_KEYS,
        decreases n - i,
    {
        keys.push(hands[i].strength_key());
        i = i + 1;
    }
    let ghost ks = keys@;
    assert(ks =~= keys_of(hands@));
    // how many shapes carry each key
    let mut counts: Vec<u64> = Vec::new();
    let mut c: u64 = 0;
    while c < NUM_KEYS
        invariant
            c <= NUM_KEYS,
            counts@.len() == c,
            forall|d: int| 0 <= d < c ==> #[trigger] counts@[d] == 0,
        decreases NUM_KEYS - c,
    {
        counts.push(0);
        c = c + 1;
    }
    let mut i: usize = 0;
    while i < n
        invariant
            i <= n,
            n == ks.len(),
            n <= NUM_SHAPES,
            keys@ == ks,
            forall|j: int| 0 <= j < n ==> #[trigger] ks[j] < NUM_KEYS,
            counts@.len() == NUM_KEYS,
            forall|d: int| 0 <= d < NUM_KEYS ==> #[trigger] counts@[d] == key_eq_below(ks, i as int, d),
        decreases n - i,
    {
        let k = keys[i] as usize;
        proof {
            lemma_key_counts(ks, i as int, k as int);
        }
        counts.set(k, counts[k] + 1);
        i = i + 1;
    }
    // first position of each key
    let mut next: Vec<u64> = Vec::new();
    next.push(0);
    proof {
        lemma_key_counts(ks, n as int, 0);
    }
    let mut c: usize = 1;
    while c < NUM_KEYS as usize
        invariant
            1 <= c <= NUM_KEYS,
            n == ks.len(),
            n <= NUM_SHAPES,
            counts@.len() == NUM_KEYS,
            forall|d: int| 0 <= d < NUM_KEYS ==> #[trigger] counts@[d] == key_eq_below(ks, n as int, d),
            next@.len() == c,
            forall|d: int| 0 <= d < c ==> #[trigger] next@[d] == key_lt_below(ks, n as int, d),
        decreases NUM_KEYS - c,
    {
        proof {
            lemma_key_counts(ks, n as int, (c - 1) as int);
        }
        next.push(next[c - 1] + counts[c - 1]);
        c = c + 1;
    }
    let mut positions: Vec<u64> = Vec::new();
    let mut i: usize = 0;
    while i < n
        invariant
            i <= n,
            n == ks.len(),
            n <= NUM_SHAPES,
            keys@ == ks,
            forall|j: int| 0 <= j < n ==> #[trigger] ks[j] < NUM_KEYS,
            next@.len() == NUM_KEYS,
            forall|d: int|
                0 <= d < NUM_KEYS ==> #[trigger] next@[d] == key_lt_below(ks, n as int, d) + key_eq_below(
                    ks,
                    i as int,
                    d,
                ),
            positions@.len() == i,
            forall|j: int| 0 <= j < i ==> #[trigger] positions@[j] == stable_pos_below(ks, j, n as int),
        decreases n - i,
    {
        let k = keys[i] as usize;
        proof {
            lemma_stable_pos_split(ks, i as int, n as int);
            lemma_key_counts(ks, n as int, k as int);
            lemma_key_counts(ks, i as int, k as int);
            lemma_key_eq_mono(ks, i as int + 1, n as int, k as int);
        }
        positions.push(next[k]);
        next.set(k, next[k] + 1);
        i = i + 1;
    }
    positions
}

/// Powers of five.
pub open spec fn pow5(n: nat) -> nat
    decreases n,
{
    if n == 0 {
        1
    } else {
        5 * pow5((n - 1) as nat)
    }
}

/// A count vector read as a number in base five, first entry most significant.
pub open spec fn shape_code(s: Seq<u64>) -> int
    decreases s.len(),
{
    if s.len() == 0 {
        0
    } else {
        shape_code(s.drop_last()) * 5 + s.last()
    }
}

proof fn lemma_pow5_mono(i: nat, j: nat)
    requires
        i <= j,
    ensures
        pow5(i) <= pow5(j),
    decreases j,
{
    if i < j {
        lemma_pow5_mono(i, (j - 1) as nat);
    }
}

/// The code of a shape of seven cards fits below five to the thirteenth.
proof fn lemma_code_fits(s: Seq<u64>)
    requires
        is_shape(s),
    ensures
        0 <= shape_code(s) < 1220703125,
{
    lemma_code_bound(s);
    reveal_with_fuel(pow5, 14);
    assert(pow5(13) == 1220703125);
}

proof fn lemma_code_injective(s: Seq<u64>, t: Seq<u64>)
    requires
        s.len() == t.len(),
        forall|i: int| 0 <= i < s.len() ==> #[trigger] s[i] <= 4,
        forall|i: int| 0 <= i < t.len() ==> #[trigger] t[i] <= 4,
        shape_code(s) == shape_code(t),
    ensures
        s == t,
    decreases s.len(),
{
    if s.len() == 0 {
        assert(s =~= t);
    } else {
        let x = shape_code(s.drop_last());
        let y = shape_code(t.drop_last());
        assert(s.last() <= 4 && t.last() <= 4);
        assert(x == y && s.last() == t.last()) by {
            if x < y {
                assert(x * 5 + 5 <= y * 5);
            } else if y < x {
                assert(y * 5 + 5 <= x * 5);
            }
        }
        lemma_code_injective(s.drop_last(), t.drop_last());
        assert(s =~= s.drop_last().push(s.last()));
        assert(t =~= t.drop_last().push(t.last()));
    }
}

/// Reads a count vector with entries from 0 to 4 as a base-five number.
fn code_of(v: &Vec<u64>) -> (r: u64)
    requires
        v@.len() == 13,
        forall|i: int| 0 <= i < 13 ==> #[trigger] v@[i] <= 4,
    ensures
        r == shape_code(v@),
{
    let mut acc: u64 = 0;
    let mut i: usize = 0;
    proof {
        reveal_with_fuel(pow5, 14);
        assert(pow5(13) == 1220703125);
    }
    while i < 13
        invariant
            i <= 13,
            v@.len() == 13,
            forall|j: int| 0 <= j < 13 ==> #[trigger] v@[j] <= 4,
            acc == shape_code(v@.subrange(0, i as int)),
            acc < pow5(i as nat),
            pow5(13) == 1220703125,
        decreases 13 - i,
    {
        proof {
            lemma_pow5_mono((i + 1) as nat, 13);
            assert(v@.subrange(0, i as int + 1).drop_last() =~= v@.subrange(0, i as int));
        }
        acc = acc * 5 + v[i];
        i = i + 1;
    }
    assert(v@.subrange(0, 13) =~= v@);
    acc
}

/// The count of each rank sums to the number of cards.
proof fn lemma_shape_sum(x: u64, k: int)
    requires
        0 <= k <= 13,
    ensures
        seq_sum(shape_of(x).subrange(k, 13)) == cards_from(x, k),
    decreases 13 - k,
{
    if k < 13 {
        lemma_shape_sum(x, k + 1);
        lemma_rank_count_bounds(x, k);
        assert(shape_of(x).subrange(k, 13).subrange(1, 13 - k) =~= shape_of(x).subrange(k + 1, 13));
    }
}

/// The shape of an encoded hand of seven cards is a shape of seven cards.
pub proof fn lemma_hand_shape(x: u64)
    requires
        num_cards(x) == 7,
    ensures
        is_shape(shape_of(x)),
{
    lemma_shape_sum(x, 0);
    assert(shape_of(x).subrange(0, 13) =~= shape_of(x));
    assert forall|v: int| 0 <= v < 13 implies #[trigger] shape_of(x)[v] <= 4 by {
        lemma_rank_count_bounds(x, v);
    }
}

/// Ranks shapes: maps the code of each shape to its position in the order of all shapes.
#[derive(Debug, PartialEq, Eq)]
pub struct NonFlushEvaluator {
    non_flush_helper: HashMap<u64, u64>,
}

/// Whether `m` maps the code of every shape of seven cards to its rank, and holds no other key.
pub open spec fn ranks_all_shapes(m: Map<u64, u64>) -> bool {
    &&& forall|s: Seq<u64>|
        #![trigger shape_code(s)]
        is_shape(s) ==> m.contains_key(shape_code(s) as u64) && m[shape_code(s) as u64] == non_flush_rank(s)
    &&& forall|k: u64| #[trigger] m.contains_key(k) ==> exists|s: Seq<u64>| is_shape(s) && shape_code(s) as u64 == k
}

/// There is only one such table.
pub proof fn lemma_table_unique(m1: Map<u64, u64>, m2: Map<u64, u64>)
    requires
        ranks_all_shapes(m1),
        ranks_all_shapes(m2),
    ensures
        m1 == m2,
{
    assert forall|k: u64| m1.contains_key(k) implies m2.contains_key(k) && m1[k] == m2[k] by {
        let s = choose|s: Seq<u64>| is_shape(s) && shape_code(s) as u64 == k;
        assert(m2.contains_key(shape_code(s) as u64));
    }
    assert forall|k: u64| m2.contains_key(k) implies m1.contains_key(k) by {
        let s = choose|s: Seq<u64>| is_shape(s) && shape_code(s) as u64 == k;
        assert(m1.contains_key(shape_code(s) as u64));
    }
    assert(m1 =~= m2);
}

impl NonFlushEvaluator {
    #[verifier::type_invariant]
    spec fn inv(self) -> bool {
        ranks_all_shapes(self.non_flush_helper@)
    }

    /// The table: shape code to rank.
    pub closed spec fn table(self) -> Map<u64, u64> {
        self.non_flush_helper@
    }

    pub fn new() -> (r: NonFlushEvaluator)
        ensures
            ranks_all_shapes(r.table()),
    {
        NonFlushEvaluator { non_flush_helper: NonFlushEvaluator::prepare_non_flush_table() }
    }

    /// Builds the table from the enumeration of all shapes.
    fn prepare_non_flush_table() -> (r: HashMap<u64, u64>)
        ensures
            ranks_all_shapes(r@),
    {
        let helper = generate_non_flush_hands();
        proof {
            lemma_shape_enumeration();
        }
        let positions = sort_non_flush(&helper);
        let ghost ks = keys_of(helper@);
        proof {
            assert forall|j: int| 0 <= j < ks.len() implies #[trigger] ks[j] == shape_key(all_shapes()[j]) by {
                crate::shape::lemma_key_band(all_shapes()[j]);
            }
        }
        let mut out: HashMap<u64, u64> = HashMap::new();
        let mut i: usize = 0;
        while i < helper.len()
            invariant
                i <= helper@.len(),
                helper@.len() == NUM_SHAPES,
                positions@.len() == NUM_SHAPES,
                ks.len() == NUM_SHAPES,
                all_shapes().len() == NUM_SHAPES,
                forall|j: int| 0 <= j < ks.len() ==> #[trigger] ks[j] == shape_key(all_shapes()[j]),
                forall|j: int| 0 <= j < helper@.len() ==> (#[trigger] helper@[j])@ == all_shapes()[j],
                forall|j: int| 0 <= j < positions@.len() ==> #[trigger] positions@[j] == stable_pos_below(ks, j, NUM_SHAPES as int),
                forall|j: int| 0 <= j < all_shapes().len() ==> is_shape(#[trigger] all_shapes()[j]),
                forall|a: int, b: int|
                    0 <= a < b < all_shapes().len() ==> lex_lt(#[trigger] all_shapes()[a], #[trigger] all_shapes()[b])
                        && all_shapes()[a] != all_shapes()[b],
                forall|j: int|
                    #![trigger shape_code(all_shapes()[j])]
                    0 <= j < i ==> out@.contains_key(shape_code(all_shapes()[j]) as u64) && out@[shape_code(
                        all_shapes()[j],
                    ) as u64] == non_flush_rank(all_shapes()[j]),
                forall|k: u64|
                    #[trigger] out@.contains_key(k) ==> exists|j: int| 0 <= j < i && shape_code(all_shapes()[j]) as u64 == k,
            decreases helper@.len() - i,
        {
            let code = code_of(&helper[i].0);
            proof {
                lemma_stable_pos_is_rank(ks, i as int, NUM_SHAPES as int);
                lemma_code_fits(all_shapes()[i as int]);
                assert(code == shape_code(all_shapes()[i as int]) as u64);
                assert forall|j: int| 0 <= j < i implies shape_code(all_shapes()[j]) as u64 != code by {
                    lemma_code_fits(all_shapes()[j]);
                    if shape_code(all_shapes()[j]) as u64 == code {
                        lemma_code_injective(all_shapes()[j], all_shapes()[i as int]);
                    }
                }
            }
            let ghost prev = out@;
            out.insert(code, positions[i]);
            proof {
                assert(out@ == prev.insert(code, positions@[i as int]));
                assert(positions@[i as int] == non_flush_rank(all_shapes()[i as int]));
                assert forall|j: int|
                    #![trigger shape_code(all_shapes()[j])]
                    0 <= j < i + 1 implies out@.contains_key(shape_code(all_shapes()[j]) as u64) && out@[shape_code(
                        all_shapes()[j],
                    ) as u64] == non_flush_rank(all_shapes()[j]) by {
                    if j < i {
                        assert(prev.contains_key(shape_code(all_shapes()[j]) as u64));
                        assert(prev[shape_code(all_shapes()[j]) as u64] == non_flush_rank(all_shapes()[j]));
                        assert(shape_code(all_shapes()[j]) as u64 != code);
                    }
                }
                assert forall|k: u64| #[trigger] out@.contains_key(k) implies exists|j: int|
                    0 <= j < i + 1 && shape_code(all_shapes()[j]) as u64 == k by {
                    if k == code {
                        assert(0 <= i < i + 1 && shape_code(all_shapes()[i as int]) as u64 == k);
                    } else {
                        assert(prev.contains_key(k));
                        let j = choose|j: int| 0 <= j < i && shape_code(all_shapes()[j]) as u64 == k;
                        assert(0 <= j < i + 1 && shape_code(all_shapes()[j]) as u64 == k);
                    }
                }
            }
            i = i + 1;
        }
        proof {
            assert forall|s: Seq<u64>|
                #![trigger shape_code(s)]
                is_shape(s) implies out@.contains_key(shape_code(s) as u64) && out@[shape_code(s) as u64]
                    == non_flush_rank(s) by {
                assert(all_shapes().contains(s));
                let j = choose|j: int| 0 <= j < all_shapes().len() && all_shapes()[j] == s;
                assert(out@.contains_key(shape_code(all_shapes()[j]) as u64));
                assert(out@[shape_code(all_shapes()[j]) as u64] == non_flush_rank(all_shapes()[j]));
            }
            assert forall|k: u64| #[trigger] out@.contains_key(k) implies exists|s: Seq<u64>|
                is_shape(s) && shape_code(s) as u64 == k by {
                let j = choose|j: int| 0 <= j < NUM_SHAPES && shape_code(all_shapes()[j]) as u64 == k;
                assert(is_shape(all_shapes()[j]));
            }
        }
        out
    }

    /// The rank of the hand's shape among all shapes.
    pub fn evaluate(&self, h: PokerHandFast) -> (r: u64)
        requires
            num_cards(h.0) == 7,
        ensures
            r == non_flush_rank(shape_of(h.0)),
    {
        proof {
            use_type_invariant(self);
            lemma_hand_shape(h.0);
        }
        let repr = h.get_non_flush_repr();
        let code = code_of(&repr);
        proof {
            lemma_code_fits(shape_of(h.0));
            assert(code == shape_code(shape_of(h.0)) as u64);
            assert(self.non_flush_helper@.contains_key(code));
            assert(self.non_flush_helper@[code] == non_flush_rank(shape_of(h.0)));
        }
        match self.non_flush_helper.get(&code) {
            Some(v) => *v,
            None => {
                proof {
                    assert(self.non_flush_helper@.contains_key(shape_code(shape_of(h.0)) as u64));
                }
                0
            },
        }
    }
}

/// The code of a count vector with entries from 0 to 4 is below five to the length.
proof fn lemma_code_bound(s: Seq<u64>)
    requires
        forall|i: int| 0 <= i < s.len() ==> #[trigger] s[i] <= 4,
    ensures
        0 <= shape_code(s) < pow5(s.len()),
    decreases s.len(),
{
    if s.len() > 0 {
        lemma_code_bound(s.drop_last());
    }
}

impl Clone for NonFlushEvaluator {
    fn clone(&self) -> (r: NonFlushEvaluator) {
        proof {
            use_type_invariant(self);
        }
        NonFlushEvaluator { non_flush_helper: self.non_flush_helper.clone() }
    }
}

} // verus!
