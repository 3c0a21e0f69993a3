//! Classification records: a shape together with the ranks that decide its category.
use vstd::prelude::*;
use crate::shape::PokerHandNonFlush;

verus! {

/// Four cards of rank `value`; `high_card` is the best other rank.
#[derive(Debug, Clone, PartialEq, Eq, Hash)]
pub struct FourOfAKind {
    pub hand: PokerHandNonFlush,
    pub value: u64,
    pub high_card: u64,
}

/// Five consecutive ranks ending just below `value_end`; `high_card` is the best other rank.
#[derive(Debug, Clone, PartialEq, Eq, Hash)]
pub struct Straight {
    pub hand: PokerHandNonFlush,
    pub value_end: u64,
    pub high_card: u64,
}

/// Three cards of rank `value_three` and two of rank `value_pair`.
#[derive(Debug, Clone, PartialEq, Eq, Hash)]
pub struct FullHouse {
    pub hand: PokerHandNonFlush,
    pub value_three: u64,
    pub value_pair: u64,
    pub high_card: u64,
}

/// Three cards of rank `value`.
#[derive(Debug, Clone, PartialEq, Eq, Hash)]
pub struct ThreeOfAKind {
    pub hand: PokerHandNonFlush,
    pub value: u64,
    pub high_card: u64,
}

/// Two cards of rank `value1` and two of the lower rank `value2`.
#[derive(Debug, Clone, PartialEq, Eq, Hash)]
pub struct TwoPairs {
    pub hand: PokerHandNonFlush,
    pub value1: u64,
    pub value2: u64,
    pub high_card: u64,
}

/// Two cards of rank `value`.
#[derive(Debug, Clone, PartialEq, Eq, Hash)]
pub struct Pair {
    pub hand: PokerHandNonFlush,
    pub value: u64,
    pub high_card: u64,
}

/// No combination; `value` is the highest rank.
#[derive(Debug, Clone, PartialEq, Eq, Hash)]
pub struct HighCard {
    pub hand: PokerHandNonFlush,
    pub value: u64,
}

/// Packs up to three rank values (each below 16) into one number ordered like the tuple.
pub open spec fn pack(a: int, b: int, c: int) -> int {
    a * 256 + b * 16 + c
}

impl FourOfAKind {
    /// Order within the category: by `value`, then `high_card`.
    pub fn sort_key(&self) -> (r: u64)
        requires
            self.value < 16,
            self.high_card < 16,
        ensures
            r == pack(self.value as int, self.high_card as int, 0),
    {
        self.value * 256 + self.high_card * 16
    }
}

impl Straight {
    /// Order within the category: by `value_end`, then `high_card`.
    pub fn sort_key(&self) -> (r: u64)
        requires
            self.value_end < 16,
            self.high_card < 16,
        ensures
            r == pack(self.value_end as int, self.high_card as int, 0),
    {
        self.value_end * 256 + self.high_card * 16
    }
}

impl FullHouse {
    /// Order within the category: by `value_three`, then `value_pair`, then `high_card`.
    pub fn sort_key(&self) -> (r: u64)
        requires
            self.value_three < 16,
            self.value_pair < 16,
            self.high_card < 16,
        ensures
            r == pack(self.value_three as int, self.value_pair as int, self.high_card as int),
    {
        self.value_three * 256 + self.value_pair * 16 + self.high_card
    }
}

impl ThreeOfAKind {
    /// Order within the category: by `value`, then `high_card`.
    pub fn sort_key(&self) -> (r: u64)
        requires
            self.value < 16,
            self.high_card < 16,
        ensures
            r == pack(self.value as int, self.high_card as int, 0),
    {
        self.value * 256 + self.high_card * 16
    }
}

impl TwoPairs {
    /// Order within the category: by `value1`, then `value2`, then `high_card`.
    pub fn sort_key(&self) -> (r: u64)
        requires
            self.value1 < 16,
            self.value2 < 16,
            self.high_card < 16,
        ensures
            r == pack(self.value1 as int, self.value2 as int, self.high_card as int),
    {
        self.value1 * 256 + self.value2 * 16 + self.high_card
    }
}

impl Pair {
    /// Order within the category: by `value`, then `high_card`.
    pub fn sort_key(&self) -> (r: u64)
        requires
            self.value < 16,
            self.high_card < 16,
        ensures
            r == pack(self.value as int, self.high_card as int, 0),
    {
        self.value * 256 + self.high_card * 16
    }
}

impl HighCard {
    /// Order within the category: by `value`.
    pub fn sort_key(&self) -> (r: u64)
        requires
            self.value < 16,
        ensures
            r == pack(self.value as int, 0, 0),
    {
        self.value * 256
    }
}

} // verus!
