//! Shapes: how many cards of each of the thirteen ranks a hand holds, ignoring suits,
//! and the classification of a shape into a poker category.
use vstd::prelude::*;
use crate::ranks::{pack, FourOfAKind, Straight, FullHouse, ThreeOfAKind, TwoPairs, Pair, HighCard};

verus! {

/// The highest index `i` in `lo..n` with `s[i] > t`, or -1 if there is none.
pub open spec fn top_in(s: Seq<u64>, lo: int, n: int, t: u64) -> int
    decreases n - lo,
{
    if n <= lo {
        -1
    } else if s[n - 1] > t {
        n - 1
    } else {
        top_in(s, lo, n - 1, t)
    }
}

/// The highest rank with more than `t` cards, or -1 if there is none.
pub open spec fn top(s: Seq<u64>, t: u64) -> int {
    top_in(s, 0, 13, t)
}

/// `s` with `c` cards taken from rank `i`.
pub open spec fn removed(s: Seq<u64>, i: int, c: u64) -> Seq<u64> {
    s.update(i, (s[i] - c) as u64)
}

/// The `k`-th rank of the straight window starting at `i` (window -1 is ace, 2, 3, 4, 5).
pub open spec fn window_rank(i: int, k: int) -> int {
    if i + k < 0 {
        12
    } else {
        i + k
    }
}

/// Whether each rank of the window starting at `i` holds a card.
pub open spec fn straight_at(s: Seq<u64>, i: int) -> bool {
    &&& s[window_rank(i, 0)] >= 1
    &&& s[window_rank(i, 1)] >= 1
    &&& s[window_rank(i, 2)] >= 1
    &&& s[window_rank(i, 3)] >= 1
    &&& s[window_rank(i, 4)] >= 1
}

/// The highest full window among those starting at `-1..n`, or -2 if there is none.
pub open spec fn best_window_below(s: Seq<u64>, n: int) -> int
    decreases n + 1,
{
    if n <= -1 {
        -2
    } else if straight_at(s, n - 1) {
        n - 1
    } else {
        best_window_below(s, n - 1)
    }
}

/// The highest full straight window (starting at -1 to 8), or -2 if there is none.
pub open spec fn best_window(s: Seq<u64>) -> int {
    best_window_below(s, 9)
}

/// `s` with one card taken from each rank of the window starting at `i`.
pub open spec fn remove_window(s: Seq<u64>, i: int) -> Seq<u64> {
    removed(
        removed(
            removed(removed(removed(s, window_rank(i, 0), 1), window_rank(i, 1), 1), window_rank(i, 2), 1),
            window_rank(i, 3),
            1,
        ),
        window_rank(i, 4),
        1,
    )
}

/// Four of a kind: (rank of the four, best remaining rank).
pub open spec fn foak_spec(s: Seq<u64>) -> Option<(int, int)> {
    let i = top(s, 3);
    if i < 0 {
        None
    } else {
        let j = top(removed(s, i, 4), 0);
        if j < 0 {
            None
        } else {
            Some((i, j))
        }
    }
}

/// Full house: (rank of the three, rank of the pair, best remaining rank).
pub open spec fn full_house_spec(s: Seq<u64>) -> Option<(int, int, int)> {
    let i = top(s, 2);
    if i < 0 {
        None
    } else {
        let r1 = removed(s, i, 3);
        let j = top(r1, 1);
        if j < 0 {
            None
        } else {
            let k = top(removed(r1, j, 2), 0);
            if k < 0 {
                None
            } else {
                Some((i, j, k))
            }
        }
    }
}

/// Straight: (one past the window's top rank, best remaining rank).
pub open spec fn straight_spec(s: Seq<u64>) -> Option<(int, int)> {
    let w = best_window(s);
    if w < -1 {
        None
    } else {
        let k = top(remove_window(s, w), 0);
        if k < 0 {
            None
        } else {
            Some((w + 5, k))
        }
    }
}

/// Three of a kind: (rank of the three, best remaining rank).
pub open spec fn toak_spec(s: Seq<u64>) -> Option<(int, int)> {
    let i = top(s, 2);
    if i < 0 {
        None
    } else {
        let j = top(removed(s, i, 3), 0);
        if j < 0 {
            None
        } else {
            Some((i, j))
        }
    }
}

/// Two pairs: (higher pair rank, lower pair rank, best remaining rank).
pub open spec fn two_pairs_spec(s: Seq<u64>) -> Option<(int, int, int)> {
    let i = top(s, 1);
    if i < 0 {
        None
    } else {
        let r1 = removed(s, i, 2);
        let j = top(r1, 1);
        if j < 0 {
            None
        } else {
            let k = top(removed(r1, j, 2), 0);
            if k < 0 {
                None
            } else {
                Some((i, j, k))
            }
        }
    }
}

/// Pair: (rank of the pair, best remaining rank).
pub open spec fn pair_spec(s: Seq<u64>) -> Option<(int, int)> {
    let i = top(s, 1);
    if i < 0 {
        None
    } else {
        let k = top(removed(s, i, 2), 0);
        if k < 0 {
            None
        } else {
            Some((i, k))
        }
    }
}

/// High card: the highest rank held.
pub open spec fn high_card_spec(s: Seq<u64>) -> Option<int> {
    let i = top(s, 0);
    if i < 0 {
        None
    } else {
        Some(i)
    }
}

/// Category of a shape, tried from the strongest down: four of a kind 6, full house 5,
/// straight 4, three of a kind 3, two pairs 2, pair 1, high card 0.
pub open spec fn shape_category(s: Seq<u64>) -> int {
    if foak_spec(s).is_some() {
        6
    } else if full_house_spec(s).is_some() {
        5
    } else if straight_spec(s).is_some() {
        4
    } else if toak_spec(s).is_some() {
        3
    } else if two_pairs_spec(s).is_some() {
        2
    } else if pair_spec(s).is_some() {
        1
    } else {
        0
    }
}

/// Width of the key range of one category.
pub const CATEGORY_SPAN: u64 = 4096;

/// Strength key of a shape: the category, then the category's deciding ranks in order.
pub open spec fn shape_key(s: Seq<u64>) -> int {
    match foak_spec(s) {
        Some((a, b)) => 6 * 4096 + pack(a, b, 0),
        None => match full_house_spec(s) {
            Some((a, b, c)) => 5 * 4096 + pack(a, b, c),
            None => match straight_spec(s) {
                Some((a, b)) => 4 * 4096 + pack(a, b, 0),
                None => match toak_spec(s) {
                    Some((a, b)) => 3 * 4096 + pack(a, b, 0),
                    None => match two_pairs_spec(s) {
                        Some((a, b, c)) => 2 * 4096 + pack(a, b, c),
                        None => match pair_spec(s) {
                            Some((a, b)) => 4096 + pack(a, b, 0),
                            None => match high_card_spec(s) {
                                Some(a) => pack(a, 0, 0),
                                None => 0,
                            },
                        },
                    },
                },
            },
        },
    }
}

pub proof fn lemma_top_in(s: Seq<u64>, lo: int, n: int, t: u64)
    requires
        0 <= lo <= n <= s.len(),
    ensures
        -1 <= top_in(s, lo, n, t) < n,
        top_in(s, lo, n, t) >= 0 ==> lo <= top_in(s, lo, n, t) && s[top_in(s, lo, n, t)] > t,
        top_in(s, lo, n, t) < 0 ==> forall|j: int| lo <= j < n ==> s[j] <= t,
    decreases n - lo,
{
    if n > lo {
        lemma_top_in(s, lo, n - 1, t);
    }
}

pub proof fn lemma_best_window(s: Seq<u64>, n: int)
    requires
        -1 <= n <= 9,
        s.len() == 13,
    ensures
        -2 <= best_window_below(s, n) < n,
        best_window_below(s, n) >= -1 ==> straight_at(s, best_window_below(s, n)),
    decreases n + 1,
{
    if n > -1 {
        lemma_best_window(s, n - 1);
    }
}

/// The deciding ranks are rank indices, and each category's keys lie in their own band,
/// above those of every weaker category.
pub proof fn lemma_key_band(s: Seq<u64>)
    requires
        s.len() == 13,
    ensures
        foak_spec(s) matches Some((a, b)) ==> 0 <= a < 13 && 0 <= b < 13,
        full_house_spec(s) matches Some((a, b, c)) ==> 0 <= a < 13 && 0 <= b < 13 && 0 <= c < 13,
        straight_spec(s) matches Some((a, b)) ==> 4 <= a <= 13 && 0 <= b < 13,
        toak_spec(s) matches Some((a, b)) ==> 0 <= a < 13 && 0 <= b < 13,
        two_pairs_spec(s) matches Some((a, b, c)) ==> 0 <= a < 13 && 0 <= b < 13 && 0 <= c < 13,
        pair_spec(s) matches Some((a, b)) ==> 0 <= a < 13 && 0 <= b < 13,
        high_card_spec(s) matches Some(a) ==> 0 <= a < 13,
        shape_category(s) * 4096 <= shape_key(s) < shape_category(s) * 4096 + 4096,
{
    lemma_top_in(s, 0, 13, 0);
    lemma_top_in(s, 0, 13, 1);
    lemma_top_in(s, 0, 13, 2);
    lemma_top_in(s, 0, 13, 3);
    let i3 = top(s, 3);
    if i3 >= 0 {
        lemma_top_in(removed(s, i3, 4), 0, 13, 0);
    }
    let i2 = top(s, 2);
    if i2 >= 0 {
        let r1 = removed(s, i2, 3);
        lemma_top_in(r1, 0, 13, 0);
        lemma_top_in(r1, 0, 13, 1);
        let j = top(r1, 1);
        if j >= 0 {
            lemma_top_in(removed(r1, j, 2), 0, 13, 0);
        }
    }
    let i1 = top(s, 1);
    if i1 >= 0 {
        let r1 = removed(s, i1, 2);
        lemma_top_in(r1, 0, 13, 0);
        lemma_top_in(r1, 0, 13, 1);
        let j = top(r1, 1);
        if j >= 0 {
            lemma_top_in(removed(r1, j, 2), 0, 13, 0);
        }
    }
    lemma_best_window(s, 9);
    let w = best_window(s);
    if w >= -1 {
        lemma_top_in(remove_window(s, w), 0, 13, 0);
    }
}

/// Copies a vector of counts.
pub(crate) fn copy_counts(v: &Vec<u64>) -> (r: Vec<u64>)
    ensures
        r@ == v@,
{
    let mut r: Vec<u64> = Vec::new();
    let mut i: usize = 0;
    while i < v.len()
        invariant
            i <= v@.len(),
            r@ =~= v@.subrange(0, i as int),
        decreases v@.len() - i,
    {
        r.push(v[i]);
        i = i + 1;
    }
    assert(r@ =~= v@);
    r
}

/// A scan's result: `None` for -1, else the rank index found.
pub open spec fn found(i: int) -> Option<u64> {
    if i < 0 {
        None
    } else {
        Some(i as u64)
    }
}

/// A shape: entry `v` is the number of cards of rank `v`.
#[derive(Debug, Clone, PartialEq, Eq, Hash)]
pub struct PokerHandNonFlush(pub Vec<u64>);

impl View for PokerHandNonFlush {
    type V = Seq<u64>;

    open spec fn view(&self) -> Seq<u64> {
        self.0@
    }
}

impl PokerHandNonFlush {
    pub fn new(hand: Vec<u64>) -> (r: Self)
        ensures
            r@ == hand@,
    {
        Self(hand)
    }

    /// A copy of the shape.
    pub fn duplicate(&self) -> (r: Self)
        ensures
            r@ == self@,
    {
        Self(copy_counts(&self.0))
    }

    /// Strength key of the shape: its category and deciding ranks as one number.
    pub fn strength_key(&self) -> (r: u64)
        requires
            self@.len() == 13,
        ensures
            r == shape_key(self@),
            r < 7 * CATEGORY_SPAN,
    {
        proof {
            lemma_key_band(self@);
        }
        if let Some(f) = self.foak() {
            return 6 * CATEGORY_SPAN + f.sort_key();
        }
        if let Some(f) = self.full_house() {
            return 5 * CATEGORY_SPAN + f.sort_key();
        }
        if let Some(f) = self.straight() {
            return 4 * CATEGORY_SPAN + f.sort_key();
        }
        if let Some(f) = self.toak() {
            return 3 * CATEGORY_SPAN + f.sort_key();
        }
        if let Some(f) = self.two_pairs() {
            return 2 * CATEGORY_SPAN + f.sort_key();
        }
        if let Some(f) = self.pair() {
            return CATEGORY_SPAN + f.sort_key();
        }
        if let Some(f) = self.high_card() {
            return f.sort_key();
        }
        0
    }

    /// The highest index `i` in `left..right` with `v[i] > val`.
    fn find_first_greater(v: &Vec<u64>, left: usize, right: usize, val: u64) -> (r: Option<u64>)
        requires
            left <= right <= v@.len(),
        ensures
            r == found(top_in(v@, left as int, right as int, val)),
            -1 <= top_in(v@, left as int, right as int, val) < right,
    {
        proof {
            lemma_top_in(v@, left as int, right as int, val);
        }
        let mut best_index: Option<u64> = None;
        let mut i: usize = left;
        while i < right
            invariant
                left <= i <= right,
                right <= v@.len(),
                best_index == found(top_in(v@, left as int, i as int, val)),
            decreases right - i,
        {
            if v[i] > val {
                best_index = Some(i as u64);
            }
            i = i + 1;
        }
        best_index
    }

    /// Four of a kind: the highest rank held four times, and the best other rank.
    pub fn foak(&self) -> (r: Option<FourOfAKind>)
        requires
            self@.len() == 13,
        ensures
            r.is_some() == foak_spec(self@).is_some(),
            r matches Some(f) ==> foak_spec(self@) == Some((f.value as int, f.high_card as int))
                && f.hand@ == self@,
    {
        let i = PokerHandNonFlush::find_first_greater(&self.0, 0, 13, 3);
        proof {
            lemma_top_in(self@, 0, 13, 3);
        }
        let i = match i {
            None => return None,
            Some(i) => i as usize,
        };
        let mut arr_without_foak = copy_counts(&self.0);
        arr_without_foak.set(i, arr_without_foak[i] - 4);
        assert(arr_without_foak@ == removed(self@, i as int, 4));
        let j = match PokerHandNonFlush::find_first_greater(&arr_without_foak, 0, 13, 0) {
            None => return None,
            Some(j) => j,
        };
        Some(FourOfAKind { hand: self.duplicate(), value: i as u64, high_card: j })
    }

    /// Straight: the highest window of five consecutive ranks that all hold a card
    /// (the ace also counts below the 2), and the best rank left once one card of each
    /// window rank is taken away.
    pub fn straight(&self) -> (r: Option<Straight>)
        requires
            self@.len() == 13,
        ensures
            r.is_some() == straight_spec(self@).is_some(),
            r matches Some(f) ==> straight_spec(self@) == Some((f.value_end as int, f.high_card as int))
                && f.hand@ == self@,
    {
        let mut best: i64 = -2;
        let mut i: i64 = -1;
        while i < 9
            invariant
                -1 <= i <= 9,
                self@.len() == 13,
                best == best_window_below(self@, i as int),
            decreases 9 - i,
        {
            if self.0[window_index(i, 0)] >= 1 && self.0[window_index(i, 1)] >= 1
                && self.0[window_index(i, 2)] >= 1 && self.0[window_index(i, 3)] >= 1
                && self.0[window_index(i, 4)] >= 1 {
                best = i;
            }
            i = i + 1;
        }
        proof {
            lemma_best_window(self@, 9);
        }
        if best < -1 {
            return None;
        }
        let mut arr_without_straight = copy_counts(&self.0);
        let mut k: i64 = 0;
        while k < 5
            invariant
                0 <= k <= 5,
                -1 <= best <= 8,
                self@.len() == 13,
                straight_at(self@, best as int),
                arr_without_straight@.len() == 13,
                forall|m: int| 0 <= m < 13 ==> #[trigger] arr_without_straight@[m] == self@[m] - (
                    if exists|q: int| 0 <= q < k && window_rank(best as int, q) == m { 1int } else { 0int }),
            decreases 5 - k,
        {
            let pos = window_index(best, k);
            assert(arr_without_straight@[pos as int] >= 1) by {
                assert(forall|q: int| 0 <= q < k ==> window_rank(best as int, q) != pos);
            }
            arr_without_straight.set(pos, arr_without_straight[pos] - 1);
            proof {
                assert forall|m: int| 0 <= m < 13 implies #[trigger] arr_without_straight@[m] == self@[m] - (
                    if exists|q: int| 0 <= q < k + 1 && window_rank(best as int, q) == m { 1int } else { 0int }) by {
                    if m == pos {
                        assert(0 <= k < k + 1 && window_rank(best as int, k as int) == m);
                    } else {
                        if exists|q: int| 0 <= q < k + 1 && window_rank(best as int, q) == m {
                            let q = choose|q: int| 0 <= q < k + 1 && window_rank(best as int, q) == m;
                            assert(0 <= q < k && window_rank(best as int, q) == m);
                        }
                    }
                }
            }
            k = k + 1;
        }
        assert(arr_without_straight@ =~= remove_window(self@, best as int)) by {
            assert forall|m: int| 0 <= m < 13 implies arr_without_straight@[m] == remove_window(self@, best as int)[m] by {
                if exists|q: int| 0 <= q < 5 && window_rank(best as int, q) == m {
                    let q = choose|q: int| 0 <= q < 5 && window_rank(best as int, q) == m;
                    assert(q == 0 || q == 1 || q == 2 || q == 3 || q == 4);
                } else {
                    assert(window_rank(best as int, 0) != m);
                    assert(window_rank(best as int, 1) != m);
                    assert(window_rank(best as int, 2) != m);
                    assert(window_rank(best as int, 3) != m);
                    assert(window_rank(best as int, 4) != m);
                }
            }
        }
        let k = match PokerHandNonFlush::find_first_greater(&arr_without_straight, 0, 13, 0) {
            None => return None,
            Some(k) => k,
        };
        Some(Straight { hand: self.duplicate(), value_end: (best + 5) as u64, high_card: k })
    }

    /// Full house: the highest rank held three times, the highest other rank held twice,
    /// and the best rank left.
    pub fn full_house(&self) -> (r: Option<FullHouse>)
        requires
            self@.len() == 13,
        ensures
            r.is_some() == full_house_spec(self@).is_some(),
            r matches Some(f) ==> full_house_spec(self@) == Some(
                (f.value_three as int, f.value_pair as int, f.high_card as int),
            ) && f.hand@ == self@,
    {
        proof {
            lemma_top_in(self@, 0, 13, 2);
        }
        let i = match PokerHandNonFlush::find_first_greater(&self.0, 0, 13, 2) {
            None => return None,
            Some(i) => i as usize,
        };
        let mut arr_without_three = copy_counts(&self.0);
        arr_without_three.set(i, arr_without_three[i] - 3);
        assert(arr_without_three@ == removed(self@, i as int, 3));
        proof {
            lemma_top_in(arr_without_three@, 0, 13, 1);
        }
        let j = match PokerHandNonFlush::find_first_greater(&arr_without_three, 0, 13, 1) {
            None => return None,
            Some(j) => j as usize,
        };
        let mut arr_without_full_house = copy_counts(&arr_without_three);
        arr_without_full_house.set(j, arr_without_full_house[j] - 2);
        assert(arr_without_full_house@ == removed(arr_without_three@, j as int, 2));
        let k = match PokerHandNonFlush::find_first_greater(&arr_without_full_house, 0, 13, 0) {
            None => return None,
            Some(k) => k,
        };
        Some(
            FullHouse {
                hand: self.duplicate(),
                value_three: i as u64,
                value_pair: j as u64,
                high_card: k,
            },
        )
    }

    /// Three of a kind: the highest rank held three times, and the best other rank.
    pub fn toak(&self) -> (r: Option<ThreeOfAKind>)
        requires
            self@.len() == 13,
        ensures
            r.is_some() == toak_spec(self@).is_some(),
            r matches Some(f) ==> toak_spec(self@) == Some((f.value as int, f.high_card as int))
                && f.hand@ == self@,
    {
        proof {
            lemma_top_in(self@, 0, 13, 2);
        }
        let i = match PokerHandNonFlush::find_first_greater(&self.0, 0, 13, 2) {
            None => return None,
            Some(i) => i as usize,
        };
        let mut arr_without_three = copy_counts(&self.0);
        arr_without_three.set(i, arr_without_three[i] - 3);
        assert(arr_without_three@ == removed(self@, i as int, 3));
        let j = match PokerHandNonFlush::find_first_greater(&arr_without_three, 0, 13, 0) {
            None => return None,
            Some(j) => j,
        };
        Some(ThreeOfAKind { hand: self.duplicate(), value: i as u64, high_card: j })
    }

    /// Two pairs: the highest rank held twice, the next rank held twice, and the best
    /// rank left.
    pub fn two_pairs(&self) -> (r: Option<TwoPairs>)
        requires
            self@.len() == 13,
        ensures
            r.is_some() == two_pairs_spec(self@).is_some(),
            r matches Some(f) ==> two_pairs_spec(self@) == Some(
                (f.value1 as int, f.value2 as int, f.high_card as int),
            ) && f.hand@ == self@,
    {
        proof {
            lemma_top_in(self@, 0, 13, 1);
        }
        let i = match PokerHandNonFlush::find_first_greater(&self.0, 0, 13, 1) {
            None => return None,
            Some(i) => i as usize,
        };
        let mut arr_without_pair = copy_counts(&self.0);
        arr_without_pair.set(i, arr_without_pair[i] - 2);
        assert(arr_without_pair@ == removed(self@, i as int, 2));
        proof {
            lemma_top_in(arr_without_pair@, 0, 13, 1);
        }
        let j = match PokerHandNonFlush::find_first_greater(&arr_without_pair, 0, 13, 1) {
            None => return None,
            Some(j) => j as usize,
        };
        let mut arr_without_two_pairs = copy_counts(&arr_without_pair);
        arr_without_two_pairs.set(j, arr_without_two_pairs[j] - 2);
        assert(arr_without_two_pairs@ == removed(arr_without_pair@, j as int, 2));
        let k = match PokerHandNonFlush::find_first_greater(&arr_without_two_pairs, 0, 13, 0) {
            None => return None,
            Some(k) => k,
        };
        Some(TwoPairs { hand: self.duplicate(), value1: i as u64, value2: j as u64, high_card: k })
    }

    /// Pair: the highest rank held twice, and the best other rank.
    pub fn pair(&self) -> (r: Option<Pair>)
        requires
            self@.len() == 13,
        ensures
            r.is_some() == pair_spec(self@).is_some(),
            r matches Some(f) ==> pair_spec(self@) == Some((f.value as int, f.high_card as int))
                && f.hand@ == self@,
    {
        proof {
            lemma_top_in(self@, 0, 13, 1);
        }
        let i = match PokerHandNonFlush::find_first_greater(&self.0, 0, 13, 1) {
            None => return None,
            Some(i) => i as usize,
        };
        let mut arr_without_pair = copy_counts(&self.0);
        arr_without_pair.set(i, arr_without_pair[i] - 2);
        assert(arr_without_pair@ == removed(self@, i as int, 2));
        let k = match PokerHandNonFlush::find_first_greater(&arr_without_pair, 0, 13, 0) {
            None => return None,
            Some(k) => k,
        };
        Some(Pair { hand: self.duplicate(), value: i as u64, high_card: k })
    }

    /// High card: the highest rank held.
    pub fn high_card(&self) -> (r: Option<HighCard>)
        requires
            self@.len() == 13,
        ensures
            r.is_some() == high_card_spec(self@).is_some(),
            r matches Some(f) ==> high_card_spec(self@) == Some(f.value as int) && f.hand@ == self@,
    {
        let i = match PokerHandNonFlush::find_first_greater(&self.0, 0, 13, 0) {
            None => return None,
            Some(i) => i,
        };
        Some(HighCard { hand: self.duplicate(), value: i })
    }
}

/// Index of the `k`-th rank of the straight window starting at `i`.
fn window_index(i: i64, k: i64) -> (r: usize)
    requires
        -1 <= i <= 8,
        0 <= k < 5,
    ensures
        r == window_rank(i as int, k as int),
        r < 13,
{
    if i + k < 0 {
        12
    } else {
        (i + k) as usize
    }
}

} // verus!
