//! Cards and hands of seven distinct cards.
use vstd::prelude::*;
use crate::bits::{bit, lemma_bit_or_shift};
use crate::fast_hand::{num_cards, lemma_add_card, PokerHandFast};

verus! {

/// The four suits of a standard deck.
#[derive(Debug, Copy, Clone, Hash, PartialEq, Eq, Structural)]
pub enum Suit {
    S,
    H,
    D,
    C,
}

impl Suit {
    /// The suit's position in the encoded hand (0 to 3).
    pub open spec fn index(self) -> int {
        match self {
            Suit::S => 0,
            Suit::H => 1,
            Suit::D => 2,
            Suit::C => 3,
        }
    }

    /// The suit at position `v`, if `v` is below 4.
    pub fn from_index(v: u64) -> (r: Result<Suit, ()>)
        ensures
            v < 4 ==> (r matches Ok(s) && s.index() == v),
            v >= 4 ==> r is Err,
    {
        match v {
            0 => Ok(Suit::S),
            1 => Ok(Suit::H),
            2 => Ok(Suit::D),
            3 => Ok(Suit::C),
            _ => Err(()),
        }
    }

    /// The suit's position.
    pub fn to_index(self) -> (r: u64)
        ensures
            r == self.index(),
    {
        match self {
            Suit::S => 0,
            Suit::H => 1,
            Suit::D => 2,
            Suit::C => 3,
        }
    }
}

/// A card: a suit and a rank value from 0 to 12.
#[derive(Debug, Copy, Clone, Hash, PartialEq, Eq, Structural)]
pub struct PokerCard {
    suit: Suit,
    value: u64,
}

impl PokerCard {
    #[verifier::type_invariant]
    spec fn inv(self) -> bool {
        self.value < 13
    }

    pub closed spec fn suit_spec(self) -> Suit {
        self.suit
    }

    pub closed spec fn value_spec(self) -> u64 {
        self.value
    }

    pub fn new(suit: Suit, value: u64) -> (r: PokerCard)
        requires
            value <= 12,
        ensures
            r.suit_spec() == suit,
            r.value_spec() == value,
    {
        PokerCard { suit, value }
    }

    /// The card at position `index` of a deck ordered by suit, then rank value; the
    /// position is also the card's bit in the encoded hand.
    pub fn from_index(index: u64) -> (r: PokerCard)
        requires
            index < 52,
        ensures
            r.idx() == index,
            r.suit_spec().index() == index / 13,
            r.value_spec() == index % 13,
    {
        let suit = match index / 13 {
            0 => Suit::S,
            1 => Suit::H,
            2 => Suit::D,
            _ => Suit::C,
        };
        PokerCard { suit, value: index % 13 }
    }

    /// The card's rank value, from 0 to 12.
    pub fn get_value(&self) -> (r: u64)
        ensures
            r == self.value_spec(),
            r < 13,
    {
        proof {
            use_type_invariant(self);
        }
        self.value
    }

    pub fn get_suit(&self) -> (r: Suit)
        ensures
            r == self.suit_spec(),
    {
        self.suit
    }

    /// The card's bit in the encoded hand.
    pub open spec fn idx(self) -> int {
        13 * self.suit_spec().index() + self.value_spec()
    }
}

/// Why a hand could not be built.
#[derive(Debug, Copy, Clone, PartialEq, Eq, Structural)]
pub enum HandError {
    /// A card's rank value is 13 or more.
    RankOutOfRange,
    /// The hand does not hold exactly seven cards.
    WrongCount,
    /// The same card occurs twice.
    DuplicateCard,
}

/// The encoding of the first `k` cards: the bits of their indices, or-ed together.
pub open spec fn encode_upto(cards: Seq<PokerCard>, k: int) -> u64
    decreases k,
{
    if k <= 0 {
        0
    } else {
        encode_upto(cards, k - 1) | (1u64 << (cards[k - 1].idx() as u64))
    }
}

/// The encoding of a list of cards.
pub open spec fn encode(cards: Seq<PokerCard>) -> u64 {
    encode_upto(cards, cards.len() as int)
}

/// Whether some card occurs twice in `s`.
pub open spec fn has_duplicate<T>(s: Seq<T>) -> bool {
    exists|i: int, j: int| 0 <= i < j < s.len() && s[i] == s[j]
}

/// Seven distinct cards.
#[derive(Debug, Copy, Clone, Hash, PartialEq, Eq)]
pub struct PokerHand {
    cards: [PokerCard; 7],
}

impl PokerHand {
    #[verifier::type_invariant]
    spec fn inv(self) -> bool {
        &&& forall|i: int| 0 <= i < 7 ==> (#[trigger] self.cards@[i]).value < 13
        &&& !has_duplicate(self.cards@)
    }

    /// The seven cards, in the order they were given.
    pub closed spec fn cards_spec(self) -> Seq<PokerCard> {
        self.cards@
    }

    /// Builds a hand from (suit, rank value) pairs.
    pub fn new(input: Vec<(Suit, u64)>) -> (r: Result<PokerHand, HandError>)
        ensures
            (exists|k: int| 0 <= k < input@.len() && #[trigger] input@[k].1 >= 13) ==> r == Err::<
                PokerHand,
                HandError,
            >(HandError::RankOutOfRange),
            (forall|k: int| 0 <= k < input@.len() ==> #[trigger] input@[k].1 < 13) ==> {
                &&& input@.len() != 7 ==> r == Err::<PokerHand, HandError>(HandError::WrongCount)
                &&& (input@.len() == 7 && has_duplicate(input@)) ==> r == Err::<
                    PokerHand,
                    HandError,
                >(HandError::DuplicateCard)
                &&& (input@.len() == 7 && !has_duplicate(input@)) ==> (r matches Ok(h) && forall|
                    k: int,
                | 0 <= k < 7 ==> (#[trigger] h.cards_spec()[k]).suit_spec() == input@[k].0
                    && h.cards_spec()[k].value_spec() == input@[k].1)
            },
    {
        let mut cards: Vec<PokerCard> = Vec::new();
        let mut i: usize = 0;
        while i < input.len()
            invariant
                i <= input@.len(),
                cards@.len() == i,
                forall|k: int| 0 <= k < i ==> input@[k].1 < 13,
                forall|k: int|
                    0 <= k < i ==> (#[trigger] cards@[k]).suit == input@[k].0 && cards@[k].value
                        == input@[k].1,
            decreases input@.len() - i,
        {
            let (suit, value) = input[i];
            if value >= 13 {
                return Err(HandError::RankOutOfRange);
            }
            cards.push(PokerCard::new(suit, value));
            i = i + 1;
        }
        assert(has_duplicate(cards@) == has_duplicate(input@)) by {
            if has_duplicate(input@) {
                let (a, b) = choose|a: int, b: int|
                    0 <= a < b < input@.len() && input@[a] == input@[b];
                assert(cards@[a] == cards@[b]);
            }
            if has_duplicate(cards@) {
                let (a, b) = choose|a: int, b: int|
                    0 <= a < b < cards@.len() && cards@[a] == cards@[b];
                assert(input@[a] == input@[b]);
            }
        }
        PokerHand::from_cards(cards)
    }

    /// Builds a hand from exactly seven distinct cards.
    pub fn from_cards(input: Vec<PokerCard>) -> (r: Result<PokerHand, HandError>)
        ensures
            input@.len() != 7 ==> r == Err::<PokerHand, HandError>(HandError::WrongCount),
            (input@.len() == 7 && has_duplicate(input@)) ==> r == Err::<PokerHand, HandError>(
                HandError::DuplicateCard,
            ),
            (input@.len() == 7 && !has_duplicate(input@)) ==> (r matches Ok(h) && h.cards_spec()
                == input@),
    {
        if input.len() != 7 {
            return Err(HandError::WrongCount);
        }
        let mut i: usize = 0;
        while i < 7
            invariant
                i <= 7,
                input@.len() == 7,
                forall|a: int, b: int| 0 <= a < b < 7 && a < i ==> input@[a] != input@[b],
                forall|a: int| 0 <= a < i ==> (#[trigger] input@[a]).value < 13,
            decreases 7 - i,
        {
            let c = input[i];
            proof {
                use_type_invariant(&c);
            }
            let mut j: usize = i + 1;
            while j < 7
                invariant
                    i < j <= 7,
                    input@.len() == 7,
                    c == input@[i as int],
                    forall|b: int| i < b < j ==> input@[i as int] != input@[b],
                decreases 7 - j,
            {
                if input[j] == c {
                    assert(input@[i as int] == input@[j as int]);
                    return Err(HandError::DuplicateCard);
                }
                j = j + 1;
            }
            i = i + 1;
        }
        let cards: [PokerCard; 7] = [input[0], input[1], input[2], input[3], input[4], input[5], input[6]];
        assert(cards@ =~= input@);
        Ok(PokerHand { cards })
    }

    /// The seven cards.
    pub fn cards(&self) -> (r: [PokerCard; 7])
        ensures
            r@ == self.cards_spec(),
    {
        self.cards
    }

    /// Encodes the hand: bit `13 * suit + value` is set for each card.
    pub fn get_fast(&self) -> (r: PokerHandFast)
        ensures
            forall|b: int|
                0 <= b < 64 ==> (bit(r.0, b) == 1 <==> exists|k: int|
                    0 <= k < 7 && (#[trigger] self.cards_spec()[k]).idx() == b),
            num_cards(r.0) == 7,
            r.0 == encode(self.cards_spec()),
    {
        proof {
            use_type_invariant(self);
        }
        let mut repr: u64 = 0;
        let mut i: usize = 0;
        proof {
            assert forall|b: int| 0 <= b < 64 implies bit(0u64, b) == 0 by {
                crate::bits::lemma_bit_of_zero(b as u64);
            }
            crate::bits::lemma_bits_below_zero(64);
            assert(num_cards(0u64) == 0) by {
                zero_cards_from(0);
            }
        }
        while i < 7
            invariant
                i <= 7,
                self.cards@.len() == 7,
                forall|a: int| 0 <= a < 7 ==> (#[trigger] self.cards@[a]).value < 13,
                !has_duplicate(self.cards@),
                forall|b: int|
                    0 <= b < 64 ==> (bit(repr, b) == 1 <==> exists|k: int|
                        0 <= k < i && (#[trigger] self.cards@[k]).idx() == b),
                num_cards(repr) == i,
                repr == encode_upto(self.cards@, i as int),
            decreases 7 - i,
        {
            let c = self.cards[i];
            let b: u64 = 13 * c.suit.to_index() + c.value;
            proof {
                assert(c.idx() == b);
                assert(bit(repr, b as int) != 1) by {
                    if bit(repr, b as int) == 1 {
                        let k = choose|k: int| 0 <= k < i && (#[trigger] self.cards@[k]).idx() == b;
                        assert(self.cards@[k] == self.cards@[i as int]);
                    }
                }
                crate::bits::lemma_bit_is_01(repr, b);
                lemma_add_card(repr, c.suit.index(), c.value as int);
                assert forall|b2: int| 0 <= b2 < 64 implies (bit(repr | (1u64 << b), b2) == 1 <==> exists|k: int|
                        0 <= k < i + 1 && (#[trigger] self.cards@[k]).idx() == b2) by {
                    lemma_bit_or_shift(repr, b, b2 as u64);
                    if bit(repr, b2) == 1 {
                        let k = choose|k: int| 0 <= k < i && (#[trigger] self.cards@[k]).idx() == b2;
                        assert(0 <= k < i + 1 && self.cards@[k].idx() == b2);
                    }
                    if b2 == b {
                        assert(0 <= i < i + 1 && self.cards@[i as int].idx() == b2);
                    }
                }
            }
            repr = repr | (1u64 << b);
            i = i + 1;
        }
        assert(self.cards_spec() == self.cards@);
        assert forall|b: int| 0 <= b < 64 implies (bit(repr, b) == 1 <==> exists|k: int|
                0 <= k < 7 && (#[trigger] self.cards_spec()[k]).idx() == b) by {
            if bit(repr, b) == 1 {
                let k = choose|k: int| 0 <= k < 7 && (#[trigger] self.cards@[k]).idx() == b;
                assert(self.cards_spec()[k].idx() == b);
            }
        }
        PokerHandFast(repr)
    }
}

proof fn zero_cards_from(k: int)
    requires
        0 <= k <= 13,
    ensures
        crate::fast_hand::cards_from(0u64, k) == 0,
    decreases 13 - k,
{
    if k < 13 {
        zero_cards_from(k + 1);
        crate::bits::lemma_bit_of_zero(k as u64);
        crate::bits::lemma_bit_of_zero((13 + k) as u64);
        crate::bits::lemma_bit_of_zero((26 + k) as u64);
        crate::bits::lemma_bit_of_zero((39 + k) as u64);
    }
}

} // verus!
