//! Enumeration of every shape of seven cards: thirteen rank counts, each from 0 to 4,
//! summing to 7, in lexicographic order.
use vstd::prelude::*;
use crate::shape::PokerHandNonFlush;

verus! {

/// Number of shapes of seven cards.
pub const NUM_SHAPES: u64 = 49205;

/// `t` with `d` put in front.
pub open spec fn prepend(d: u64, t: Seq<u64>) -> Seq<u64> {
    seq![d] + t
}

/// Sum of the entries.
pub open spec fn seq_sum(s: Seq<u64>) -> int
    decreases s.len(),
{
    if s.len() == 0 {
        0
    } else {
        s[0] + seq_sum(s.subrange(1, s.len() as int))
    }
}

/// A count vector of `len` entries, each from 0 to 4, summing to `sum`.
pub open spec fn is_counts(s: Seq<u64>, len: nat, sum: nat) -> bool {
    &&& s.len() == len
    &&& forall|i: int| 0 <= i < s.len() ==> #[trigger] s[i] <= 4
    &&& seq_sum(s) == sum
}

/// A shape of seven cards.
pub open spec fn is_shape(s: Seq<u64>) -> bool {
    is_counts(s, 13, 7)
}

/// Strict lexicographic order on sequences.
pub open spec fn lex_lt(a: Seq<u64>, b: Seq<u64>) -> bool
    decreases a.len(),
{
    if a.len() == 0 || b.len() == 0 {
        false
    } else if a[0] != b[0] {
        a[0] < b[0]
    } else {
        lex_lt(a.subrange(1, a.len() as int), b.subrange(1, b.len() as int))
    }
}

/// Bound on the first entry: one more than the largest allowed first entry.
pub open spec fn first_bound(sum: nat) -> nat {
    if sum < 4 {
        sum + 1
    } else {
        5
    }
}

/// All count vectors of `len` entries summing to `sum`, in lexicographic order.
pub open spec fn shapes_of(len: nat, sum: nat) -> Seq<Seq<u64>>
    decreases len, 6nat,
{
    if len == 0 {
        if sum == 0 {
            seq![Seq::<u64>::empty()]
        } else {
            Seq::empty()
        }
    } else {
        shapes_upto(len, sum, first_bound(sum))
    }
}

/// Those of the count vectors of `len` entries summing to `sum` whose first entry is below `k`.
pub open spec fn shapes_upto(len: nat, sum: nat, k: nat) -> Seq<Seq<u64>>
    decreases len, k,
{
    if len == 0 || k == 0 || k > 5 || k > sum + 1 {
        Seq::empty()
    } else {
        shapes_upto(len, sum, (k - 1) as nat) + shapes_of((len - 1) as nat, (sum - (k - 1)) as nat).map_values(
            |t: Seq<u64>| prepend((k - 1) as u64, t),
        )
    }
}

/// All shapes of seven cards, in lexicographic order.
pub open spec fn all_shapes() -> Seq<Seq<u64>> {
    shapes_of(13, 7)
}

/// Number of count vectors of `len` entries summing to `sum`.
pub open spec fn count_of(len: nat, sum: nat) -> nat
    decreases len, 6nat,
{
    if len == 0 {
        if sum == 0 {
            1
        } else {
            0
        }
    } else {
        count_upto(len, sum, first_bound(sum))
    }
}

/// Number of those whose first entry is below `k`.
pub open spec fn count_upto(len: nat, sum: nat, k: nat) -> nat
    decreases len, k,
{
    if len == 0 || k == 0 || k > 5 || k > sum + 1 {
        0
    } else {
        count_upto(len, sum, (k - 1) as nat) + count_of((len - 1) as nat, (sum - (k - 1)) as nat)
    }
}

proof fn lemma_prepend(d: u64, t: Seq<u64>)
    ensures
        prepend(d, t).len() == t.len() + 1,
        prepend(d, t)[0] == d,
        prepend(d, t).subrange(1, prepend(d, t).len() as int) == t,
        seq_sum(prepend(d, t)) == d + seq_sum(t),
{
    assert(prepend(d, t).subrange(1, prepend(d, t).len() as int) =~= t);
}

proof fn lemma_seq_sum_nonneg(s: Seq<u64>)
    ensures
        seq_sum(s) >= 0,
    decreases s.len(),
{
    if s.len() > 0 {
        lemma_seq_sum_nonneg(s.subrange(1, s.len() as int));
    }
}

pub proof fn lemma_seq_sum_update(s: Seq<u64>, i: int, v: u64)
    requires
        0 <= i < s.len(),
    ensures
        seq_sum(s.update(i, v)) == seq_sum(s) - s[i] + v,
    decreases s.len(),
{
    let u = s.update(i, v);
    if i > 0 {
        lemma_seq_sum_update(s.subrange(1, s.len() as int), i - 1, v);
        assert(u.subrange(1, u.len() as int) =~= s.subrange(1, s.len() as int).update(i - 1, v));
    } else {
        assert(u.subrange(1, u.len() as int) =~= s.subrange(1, s.len() as int));
    }
}

proof fn lemma_count_of(len: nat, sum: nat)
    ensures
        shapes_of(len, sum).len() == count_of(len, sum),
    decreases len, 6nat,
{
    if len > 0 {
        lemma_count_upto(len, sum, first_bound(sum));
    }
}

proof fn lemma_count_upto(len: nat, sum: nat, k: nat)
    ensures
        shapes_upto(len, sum, k).len() == count_upto(len, sum, k),
    decreases len, k,
{
    if !(len == 0 || k == 0 || k > 5 || k > sum + 1) {
        lemma_count_upto(len, sum, (k - 1) as nat);
        lemma_count_of((len - 1) as nat, (sum - (k - 1)) as nat);
    }
}

/// The number of shapes of seven cards, computed rank by rank.
proof fn lemma_count_table()
    ensures
        count_of(13, 7) == NUM_SHAPES,
{
    reveal_with_fuel(count_upto, 7);
    reveal_with_fuel(count_of, 7);
    assert(count_of(0, 0) == 1 && count_of(0, 1) == 0 && count_of(0, 2) == 0 && count_of(0, 3) == 0
        && count_of(0, 4) == 0 && count_of(0, 5) == 0 && count_of(0, 6) == 0 && count_of(0, 7) == 0);
    assert(count_of(1, 0) == 1 && count_of(1, 1) == 1 && count_of(1, 2) == 1 && count_of(1, 3) == 1 && count_of(1, 4) == 1 && count_of(1, 5) == 0 && count_of(1, 6) == 0 && count_of(1, 7) == 0);
    assert(count_of(2, 0) == 1 && count_of(2, 1) == 2 && count_of(2, 2) == 3 && count_of(2, 3) == 4 && count_of(2, 4) == 5 && count_of(2, 5) == 4 && count_of(2, 6) == 3 && count_of(2, 7) == 2);
    assert(count_of(3, 0) == 1 && count_of(3, 1) == 3 && count_of(3, 2) == 6 && count_of(3, 3) == 10 && count_of(3, 4) == 15 && count_of(3, 5) == 18 && count_of(3, 6) == 19 && count_of(3, 7) == 18);
    assert(count_of(4, 0) == 1 && count_of(4, 1) == 4 && count_of(4, 2) == 10 && count_of(4, 3) == 20 && count_of(4, 4) == 35 && count_of(4, 5) == 52 && count_of(4, 6) == 68 && count_of(4, 7) == 80);
    assert(count_of(5, 0) == 1 && count_of(5, 1) == 5 && count_of(5, 2) == 15 && count_of(5, 3) == 35 && count_of(5, 4) == 70 && count_of(5, 5) == 121 && count_of(5, 6) == 185 && count_of(5, 7) == 255);
    assert(count_of(6, 0) == 1 && count_of(6, 1) == 6 && count_of(6, 2) == 21 && count_of(6, 3) == 56 && count_of(6, 4) == 126 && count_of(6, 5) == 246 && count_of(6, 6) == 426 && count_of(6, 7) == 666);
    assert(count_of(7, 0) == 1 && count_of(7, 1) == 7 && count_of(7, 2) == 28 && count_of(7, 3) == 84 && count_of(7, 4) == 210 && count_of(7, 5) == 455 && count_of(7, 6) == 875 && count_of(7, 7) == 1520);
    assert(count_of(8, 0) == 1 && count_of(8, 1) == 8 && count_of(8, 2) == 36 && count_of(8, 3) == 120 && count_of(8, 4) == 330 && count_of(8, 5) == 784 && count_of(8, 6) == 1652 && count_of(8, 7) == 3144);
    assert(count_of(9, 0) == 1 && count_of(9, 1) == 9 && count_of(9, 2) == 45 && count_of(9, 3) == 165 && count_of(9, 4) == 495 && count_of(9, 5) == 1278 && count_of(9, 6) == 2922 && count_of(9, 7) == 6030);
    assert(count_of(10, 0) == 1 && count_of(10, 1) == 10 && count_of(10, 2) == 55 && count_of(10, 3) == 220 && count_of(10, 4) == 715 && count_of(10, 5) == 1992 && count_of(10, 6) == 4905 && count_of(10, 7) == 10890);
    assert(count_of(11, 0) == 1 && count_of(11, 1) == 11 && count_of(11, 2) == 66 && count_of(11, 3) == 286 && count_of(11, 4) == 1001 && count_of(11, 5) == 2992 && count_of(11, 6) == 7887 && count_of(11, 7) == 18722);
    assert(count_of(12, 0) == 1 && count_of(12, 1) == 12 && count_of(12, 2) == 78 && count_of(12, 3) == 364 && count_of(12, 4) == 1365 && count_of(12, 5) == 4356 && count_of(12, 6) == 12232 && count_of(12, 7) == 30888);
    assert(count_of(13, 0) == 1 && count_of(13, 1) == 13 && count_of(13, 2) == 91 && count_of(13, 3) == 455 && count_of(13, 4) == 1820 && count_of(13, 5) == 6175 && count_of(13, 6) == 18395 && count_of(13, 7) == 49205);
}

proof fn lemma_valid_of(len: nat, sum: nat)
    ensures
        forall|i: int| 0 <= i < shapes_of(len, sum).len() ==> is_counts(#[trigger] shapes_of(len, sum)[i], len, sum),
    decreases len, 6nat,
{
    if len > 0 {
        lemma_valid_upto(len, sum, first_bound(sum));
        assert(shapes_of(len, sum) == shapes_upto(len, sum, first_bound(sum)));
    } else if sum == 0 {
        assert(seq_sum(Seq::<u64>::empty()) == 0);
        assert(shapes_of(len, sum) =~= seq![Seq::<u64>::empty()]);
    }
}

proof fn lemma_valid_upto(len: nat, sum: nat, k: nat)
    ensures
        forall|i: int| 0 <= i < shapes_upto(len, sum, k).len() ==> {
            &&& is_counts(#[trigger] shapes_upto(len, sum, k)[i], len, sum)
            &&& shapes_upto(len, sum, k)[i][0] < k
        },
    decreases len, k,
{
    if !(len == 0 || k == 0 || k > 5 || k > sum + 1) {
        let d = (k - 1) as u64;
        let inner = shapes_of((len - 1) as nat, (sum - d) as nat);
        let part = shapes_upto(len, sum, (k - 1) as nat);
        lemma_valid_upto(len, sum, (k - 1) as nat);
        lemma_valid_of((len - 1) as nat, (sum - d) as nat);
        assert forall|i: int| 0 <= i < shapes_upto(len, sum, k).len() implies {
            &&& is_counts(#[trigger] shapes_upto(len, sum, k)[i], len, sum)
            &&& shapes_upto(len, sum, k)[i][0] < k
        } by {
            if i >= part.len() {
                let t = inner[i - part.len()];
                lemma_prepend(d, t);
                assert(shapes_upto(len, sum, k)[i] == prepend(d, t));
                assert forall|m: int| 0 <= m < prepend(d, t).len() implies #[trigger] prepend(d, t)[m] <= 4 by {
                    if m > 0 {
                        assert(prepend(d, t)[m] == t[m - 1]);
                    }
                }
            } else {
                assert(shapes_upto(len, sum, k)[i] == part[i]);
            }
        }
    }
}

proof fn lemma_lex_prepend(d: u64, t: Seq<u64>, e: u64, u: Seq<u64>)
    ensures
        d < e ==> lex_lt(prepend(d, t), prepend(e, u)),
        lex_lt(prepend(d, t), prepend(d, u)) == lex_lt(t, u),
{
    lemma_prepend(d, t);
    lemma_prepend(e, u);
    lemma_prepend(d, u);
}

proof fn lemma_sorted_of(len: nat, sum: nat)
    ensures
        forall|i: int, j: int|
            0 <= i < j < shapes_of(len, sum).len() ==> lex_lt(
                #[trigger] shapes_of(len, sum)[i],
                #[trigger] shapes_of(len, sum)[j],
            ),
    decreases len, 6nat,
{
    if len > 0 {
        lemma_sorted_upto(len, sum, first_bound(sum));
        assert(shapes_of(len, sum) == shapes_upto(len, sum, first_bound(sum)));
    }
}

proof fn lemma_sorted_upto(len: nat, sum: nat, k: nat)
    ensures
        forall|i: int, j: int|
            0 <= i < j < shapes_upto(len, sum, k).len() ==> lex_lt(
                #[trigger] shapes_upto(len, sum, k)[i],
                #[trigger] shapes_upto(len, sum, k)[j],
            ),
    decreases len, k,
{
    if !(len == 0 || k == 0 || k > 5 || k > sum + 1) {
        let d = (k - 1) as u64;
        let inner = shapes_of((len - 1) as nat, (sum - d) as nat);
        let part = shapes_upto(len, sum, (k - 1) as nat);
        let all = shapes_upto(len, sum, k);
        lemma_sorted_upto(len, sum, (k - 1) as nat);
        lemma_sorted_of((len - 1) as nat, (sum - d) as nat);
        lemma_valid_upto(len, sum, (k - 1) as nat);
        assert forall|i: int, j: int| 0 <= i < j < all.len() implies lex_lt(
            #[trigger] all[i],
            #[trigger] all[j],
        ) by {
            if j < part.len() {
                assert(all[i] == part[i] && all[j] == part[j]);
            } else if i < part.len() {
                let p = part[i];
                let u = inner[j - part.len()];
                assert(all[i] == p && all[j] == prepend(d, u));
                assert(is_counts(part[i], len, sum));
                assert(p[0] < d);
                assert(p =~= prepend(p[0], p.subrange(1, p.len() as int)));
                lemma_lex_prepend(p[0], p.subrange(1, p.len() as int), d, u);
            } else {
                let t = inner[i - part.len()];
                let u = inner[j - part.len()];
                assert(all[i] == prepend(d, t) && all[j] == prepend(d, u));
                lemma_lex_prepend(d, t, d, u);
            }
        }
    }
}

proof fn lemma_complete_of(len: nat, sum: nat, s: Seq<u64>)
    requires
        is_counts(s, len, sum),
    ensures
        shapes_of(len, sum).contains(s),
    decreases len, 6nat,
{
    if len == 0 {
        assert(s =~= Seq::<u64>::empty());
        assert(seq_sum(s) == 0);
        assert(shapes_of(len, sum)[0] == s);
    } else {
        lemma_seq_sum_nonneg(s.subrange(1, s.len() as int));
        assert(s[0] <= 4);
        lemma_complete_upto(len, sum, first_bound(sum), s);
        assert(shapes_of(len, sum) == shapes_upto(len, sum, first_bound(sum)));
    }
}

proof fn lemma_complete_upto(len: nat, sum: nat, k: nat, s: Seq<u64>)
    requires
        is_counts(s, len, sum),
        len > 0,
        k <= first_bound(sum),
    ensures
        s[0] < k ==> shapes_upto(len, sum, k).contains(s),
    decreases len, k,
{
    if k > 0 && s[0] < k {
        let d = (k - 1) as u64;
        let part = shapes_upto(len, sum, (k - 1) as nat);
        let all = shapes_upto(len, sum, k);
        if s[0] < d {
            lemma_complete_upto(len, sum, (k - 1) as nat, s);
            let i = choose|i: int| 0 <= i < part.len() && part[i] == s;
            assert(all[i] == s);
        } else {
            let t = s.subrange(1, s.len() as int);
            assert(s =~= prepend(d, t));
            lemma_prepend(d, t);
            assert(is_counts(t, (len - 1) as nat, (sum - d) as nat)) by {
                assert forall|m: int| 0 <= m < t.len() implies #[trigger] t[m] <= 4 by {
                    assert(t[m] == s[m + 1]);
                }
            }
            lemma_complete_of((len - 1) as nat, (sum - d) as nat, t);
            let inner = shapes_of((len - 1) as nat, (sum - d) as nat);
            let i = choose|i: int| 0 <= i < inner.len() && inner[i] == t;
            assert(all[part.len() + i] == s);
        }
    }
}


/// The enumeration of shapes: exactly 49,205 of them, each a count vector of thirteen
/// entries from 0 to 4 summing to 7, all distinct (strictly increasing in lexicographic
/// order), and every such count vector among them.
pub proof fn lemma_shape_enumeration()
    ensures
        all_shapes().len() == NUM_SHAPES,
        forall|i: int| 0 <= i < all_shapes().len() ==> is_shape(#[trigger] all_shapes()[i]),
        forall|i: int, j: int|
            0 <= i < j < all_shapes().len() ==> lex_lt(#[trigger] all_shapes()[i], #[trigger] all_shapes()[j])
                && all_shapes()[i] != all_shapes()[j],
        forall|s: Seq<u64>| is_shape(s) ==> #[trigger] all_shapes().contains(s),
{
    lemma_count_of(13, 7);
    lemma_count_table();
    lemma_valid_of(13, 7);
    lemma_sorted_of(13, 7);
    assert forall|i: int, j: int| 0 <= i < j < all_shapes().len() implies lex_lt(
        #[trigger] all_shapes()[i],
        #[trigger] all_shapes()[j],
    ) && all_shapes()[i] != all_shapes()[j] by {
        lemma_lex_irreflexive(all_shapes()[i]);
    }
    assert forall|s: Seq<u64>| is_shape(s) implies #[trigger] all_shapes().contains(s) by {
        lemma_complete_of(13, 7, s);
    }
}

pub proof fn lemma_lex_irreflexive(a: Seq<u64>)
    ensures
        !lex_lt(a, a),
    decreases a.len(),
{
    if a.len() > 0 {
        lemma_lex_irreflexive(a.subrange(1, a.len() as int));
    }
}

pub proof fn lemma_lex_asymmetric(a: Seq<u64>, b: Seq<u64>)
    ensures
        lex_lt(a, b) ==> !lex_lt(b, a),
    decreases a.len(),
{
    if a.len() > 0 && b.len() > 0 && a[0] == b[0] {
        lemma_lex_asymmetric(a.subrange(1, a.len() as int), b.subrange(1, b.len() as int));
    }
}

/// Appends to `generated` every completion of the prefix `generating` to thirteen entries
/// whose entries after the prefix are at most 4 and sum to `sum`, in lexicographic order.
fn extend_shapes(generating: &mut Vec<u64>, sum: u64, generated: &mut Vec<PokerHandNonFlush>)
    requires
        old(generating)@.len() <= 13,
        sum < 0xffff_ffff_ffff_ffff,
    ensures
        final(generating)@ == old(generating)@,
        final(generated)@.len() == old(generated)@.len() + shapes_of(
            (13 - old(generating)@.len()) as nat,
            sum as nat,
        ).len(),
        forall|k: int| 0 <= k < old(generated)@.len() ==> #[trigger] final(generated)@[k] == old(generated)@[k],
        forall|k: int|
            0 <= k < shapes_of((13 - old(generating)@.len()) as nat, sum as nat).len() ==> (
            #[trigger] final(generated)@[old(generated)@.len() + k])@ == old(generating)@ + shapes_of(
                (13 - old(generating)@.len()) as nat,
                sum as nat,
            )[k],
    decreases 13 - old(generating)@.len(),
{
    let ghost pre = generating@;
    let ghost start = generated@;
    let ghost rem = (13 - pre.len()) as nat;
    if generating.len() == 13 {
        if sum == 0 {
            let shape = crate::shape::PokerHandNonFlush::new(crate::shape::copy_counts(generating));
            generated.push(shape);
            assert(pre + shapes_of(rem, sum as nat)[0] =~= pre);
        }
        return;
    }
    let bound: u64 = if sum + 1 < 5 {
        sum + 1
    } else {
        5
    };
    assert(shapes_of(rem, sum as nat) == shapes_upto(rem, sum as nat, bound as nat));
    let mut i: u64 = 0;
    while i < bound
        invariant
            i <= bound,
            bound == first_bound(sum as nat),
            sum < 0xffff_ffff_ffff_ffff,
            rem == 13 - pre.len(),
            pre == old(generating)@,
            rem > 0,
            generating@ == pre,
            generated@.len() == start.len() + shapes_upto(rem, sum as nat, i as nat).len(),
            forall|k: int| 0 <= k < start.len() ==> #[trigger] generated@[k] == start[k],
            forall|k: int|
                0 <= k < shapes_upto(rem, sum as nat, i as nat).len() ==> (#[trigger] generated@[start.len()
                    + k])@ == pre + shapes_upto(rem, sum as nat, i as nat)[k],
        decreases bound - i,
    {
        let ghost before = generated@;
        let ghost part = shapes_upto(rem, sum as nat, i as nat);
        let ghost inner = shapes_of((rem - 1) as nat, (sum - i) as nat);
        generating.push(i);
        extend_shapes(generating, sum - i, generated);
        let _ = generating.pop();
        assert(generating@ =~= pre);
        proof {
            let all = shapes_upto(rem, sum as nat, (i + 1) as nat);
            assert(all == part + inner.map_values(|t: Seq<u64>| prepend(i, t)));
            assert forall|k: int| 0 <= k < all.len() implies (#[trigger] generated@[start.len() + k])@
                == pre + all[k] by {
                if k >= part.len() {
                    let t = inner[k - part.len()];
                    assert(all[k] == prepend(i, t));
                    assert(pre.push(i) + t =~= pre + prepend(i, t));
                    assert(generated@[before.len() + (k - part.len())] == generated@[start.len() + k]);
                } else {
                    assert(generated@[start.len() + k] == before[start.len() + k]);
                }
            }
        }
        i = i + 1;
    }
}

/// Every shape of seven cards, in lexicographic order.
pub fn generate_non_flush_hands() -> (r: Vec<PokerHandNonFlush>)
    ensures
        r@.len() == NUM_SHAPES,
        forall|k: int| 0 <= k < r@.len() ==> (#[trigger] r@[k])@ == all_shapes()[k],
{
    let mut generated: Vec<PokerHandNonFlush> = Vec::new();
    let mut generating: Vec<u64> = Vec::new();
    extend_shapes(&mut generating, 7, &mut generated);
    proof {
        lemma_shape_enumeration();
        assert forall|k: int| 0 <= k < generated@.len() implies (#[trigger] generated@[k])@ == all_shapes()[k] by {
            assert(generated@[0 + k] == generated@[k]);
            assert(Seq::<u64>::empty() + all_shapes()[k] =~= all_shapes()[k]);
        }
    }
    generated
}

} // verus!
