//! The bit-packed hand: bit `13 * suit + rank` is set for each card held.
use vstd::prelude::*;
use crate::card::PokerHand;
use crate::bits::{bit, popcount, pop_count, lemma_bit_or_shift, lemma_bit_is_01, lemma_bits_below_zero};

verus! {

/// Mask of the thirteen ranks of one suit.
pub const SUIT_MASK: u64 = 0x1fff;

/// How many of the four suits hold rank `v` in the encoded hand `x`.
pub open spec fn rank_count(x: u64, v: int) -> int {
    bit(x, v) + bit(x, 13 + v) + bit(x, 26 + v) + bit(x, 39 + v)
}

/// Number of cards among the ranks `k..13`.
pub open spec fn cards_from(x: u64, k: int) -> int
    decreases 13 - k,
{
    if k >= 13 {
        0
    } else {
        rank_count(x, k) + cards_from(x, k + 1)
    }
}

/// Number of cards held in the encoded hand (bits `0..52`).
pub open spec fn num_cards(x: u64) -> int {
    cards_from(x, 0)
}

/// The rank counts of the encoded hand: how many cards of each rank, ignoring suits.
pub open spec fn shape_of(x: u64) -> Seq<u64> {
    Seq::new(13, |v: int| rank_count(x, v) as u64)
}

/// The thirteen-bit rank pattern of suit `i`.
pub open spec fn suit_slice(x: u64, i: int) -> u64 {
    (x >> ((13 * i) as u64)) & SUIT_MASK
}

/// The pattern of the first suit, from suit `i` on, that holds five or more cards; 0 if none.
pub open spec fn flush_from(x: u64, i: int) -> u64
    decreases 4 - i,
{
    if i >= 4 {
        0
    } else if popcount(suit_slice(x, i)) >= 5 {
        suit_slice(x, i)
    } else {
        flush_from(x, i + 1)
    }
}

/// The flush pattern of the encoded hand: the ranks of its flush suit, or 0 without a flush.
pub open spec fn flush_pattern(x: u64) -> u64 {
    flush_from(x, 0)
}

/// Whether some suit holds five or more cards.
pub open spec fn has_flush(x: u64) -> bool {
    exists|i: int| 0 <= i < 4 && popcount(#[trigger] suit_slice(x, i)) >= 5
}

pub proof fn lemma_mask_bound(y: u64)
    by (bit_vector)
    ensures
        y & 0x1fffu64 < 0x2000u64,
{
}

pub proof fn lemma_rank_count_bounds(x: u64, v: int)
    requires
        0 <= v < 13,
    ensures
        0 <= rank_count(x, v) <= 4,
{
    lemma_bit_is_01(x, v as u64);
    lemma_bit_is_01(x, (13 + v) as u64);
    lemma_bit_is_01(x, (26 + v) as u64);
    lemma_bit_is_01(x, (39 + v) as u64);
}

/// Adding a card that is not yet held raises the count of its rank by one.
pub proof fn lemma_add_card_rank(x: u64, s: int, v: int, w: int)
    requires
        0 <= s < 4,
        0 <= v < 13,
        0 <= w < 13,
        bit(x, 13 * s + v) == 0,
    ensures
        rank_count(x | (1u64 << ((13 * s + v) as u64)), w) == rank_count(x, w) + if w == v {
            1int
        } else {
            0int
        },
{
    let b = (13 * s + v) as u64;
    lemma_bit_or_shift(x, b, w as u64);
    lemma_bit_or_shift(x, b, (13 + w) as u64);
    lemma_bit_or_shift(x, b, (26 + w) as u64);
    lemma_bit_or_shift(x, b, (39 + w) as u64);
}

pub proof fn lemma_add_card_from(x: u64, s: int, v: int, k: int)
    requires
        0 <= s < 4,
        0 <= v < 13,
        0 <= k <= 13,
        bit(x, 13 * s + v) == 0,
    ensures
        cards_from(x | (1u64 << ((13 * s + v) as u64)), k) == cards_from(x, k) + if v >= k {
            1int
        } else {
            0int
        },
    decreases 13 - k,
{
    if k < 13 {
        lemma_add_card_from(x, s, v, k + 1);
        lemma_add_card_rank(x, s, v, k);
    }
}

/// Adding a card that is not yet held adds one to the number of cards.
pub proof fn lemma_add_card(x: u64, s: int, v: int)
    requires
        0 <= s < 4,
        0 <= v < 13,
        bit(x, 13 * s + v) == 0,
    ensures
        num_cards(x | (1u64 << ((13 * s + v) as u64))) == num_cards(x) + 1,
{
    lemma_add_card_from(x, s, v, 0);
}

/// A flush pattern is a thirteen-bit pattern.
pub proof fn lemma_flush_pattern_bound(x: u64, i: int)
    requires
        0 <= i <= 4,
    ensures
        flush_from(x, i) < 0x2000,
    decreases 4 - i,
{
    if i < 4 {
        lemma_flush_pattern_bound(x, i + 1);
        lemma_mask_bound(x >> ((13 * i) as u64));
    }
}

pub proof fn lemma_flush_from_nonzero(x: u64, i: int)
    requires
        0 <= i <= 4,
    ensures
        (flush_from(x, i) != 0) == (exists|j: int| i <= j < 4 && popcount(#[trigger] suit_slice(x, j)) >= 5),
    decreases 4 - i,
{
    if i < 4 {
        lemma_flush_from_nonzero(x, i + 1);
        if popcount(suit_slice(x, i)) >= 5 {
            if suit_slice(x, i) == 0 {
                lemma_bits_below_zero(64);
            }
        }
    }
}

/// A hand in its bit-packed form.
#[derive(Debug, Copy, Clone)]
pub struct PokerHandFast(pub u64);

impl PokerHandFast {
    /// Encodes a hand.
    pub fn new(hand: PokerHand) -> (r: PokerHandFast)
        ensures
            forall|b: int|
                0 <= b < 64 ==> (bit(r.0, b) == 1 <==> exists|k: int|
                    0 <= k < 7 && (#[trigger] hand.cards_spec()[k]).idx() == b),
            num_cards(r.0) == 7,
            r.0 == crate::card::encode(hand.cards_spec()),
    {
        hand.get_fast()
    }

    pub fn new_raw(hand: u64) -> (r: PokerHandFast)
        ensures
            r.0 == hand,
    {
        PokerHandFast(hand)
    }

    /// Whether the hand holds five or more cards of one suit.
    pub fn is_flush(&self) -> (r: bool)
        ensures
            r == has_flush(self.0),
            r == (flush_pattern(self.0) != 0),
    {
        proof {
            lemma_flush_from_nonzero(self.0, 0);
        }
        self.flush_val() != 0
    }

    /// The rank pattern of the first suit with five or more cards, or 0 if there is none.
    pub fn flush_val(&self) -> (r: u64)
        ensures
            r == flush_pattern(self.0),
            r < 0x2000,
    {
        let mut i: u64 = 0;
        while i < 4
            invariant
                i <= 4,
                flush_from(self.0, 0) == flush_from(self.0, i as int),
            decreases 4 - i,
        {
            let val: u64 = (self.0 >> (13 * i)) & SUIT_MASK;
            assert(val == suit_slice(self.0, i as int));
            proof {
                lemma_mask_bound(self.0 >> (13 * i));
            }
            if pop_count(val) >= 5 {
                return val;
            }
            i = i + 1;
        }
        0
    }

    /// How many suits hold rank `val`.
    pub fn count_val(&self, val: u64) -> (r: u64)
        requires
            val < 13,
        ensures
            r == rank_count(self.0, val as int),
    {
        let mut counter: u64 = 0;
        let mut i: u64 = 0;
        while i < 4
            invariant
                i <= 4,
                val < 13,
                counter <= i,
                counter == (if i > 0 { bit(self.0, val as int) } else { 0 }) + (if i > 1 {
                    bit(self.0, 13 + val)
                } else {
                    0
                }) + (if i > 2 { bit(self.0, 26 + val) } else { 0 }) + (if i > 3 {
                    bit(self.0, 39 + val)
                } else {
                    0
                }),
            decreases 4 - i,
        {
            let b: u64 = 13 * i + val;
            proof {
                lemma_bit_is_01(self.0, b);
            }
            let bit_set: bool = (self.0 >> b) & 1 != 0;
            if bit_set {
                counter = counter + 1;
            }
            i = i + 1;
        }
        counter
    }

    /// The rank counts of the hand, one entry per rank.
    pub fn get_non_flush_repr(&self) -> (r: Vec<u64>)
        ensures
            r@ == shape_of(self.0),
    {
        let mut repr: Vec<u64> = Vec::new();
        let mut i: u64 = 0;
        while i < 13
            invariant
                i <= 13,
                repr@.len() == i,
                forall|v: int| 0 <= v < i ==> repr@[v] == rank_count(self.0, v),
            decreases 13 - i,
        {
            let c = self.count_val(i);
            repr.push(c);
            i = i + 1;
        }
        assert(repr@ =~= shape_of(self.0)) by {
            assert forall|v: int| 0 <= v < 13 implies repr@[v] == shape_of(self.0)[v] by {
                lemma_rank_count_bounds(self.0, v);
            }
        }
        repr
    }
}

} // verus!
