//! Seven-card poker hand evaluation with precomputed lookup tables.
//!
//! A hand is encoded as 52 bits. A hand with five or more cards of one suit is ranked by the
//! flush table, indexed by that suit's thirteen-bit rank pattern; every other hand is ranked
//! by its shape, the count of cards of each rank, through the non-flush table.
pub mod bits;
pub mod card;
pub mod fast_hand;
pub mod suit_pattern;
pub mod flush_evaluator;
pub mod ranks;
pub mod shape;
pub mod enumeration;
pub mod non_flush_evaluator;
pub mod hand_evaluator;

pub use card::{HandError, PokerCard, PokerHand, Suit};
pub use fast_hand::PokerHandFast;
pub use flush_evaluator::FlushEvaluator;
pub use hand_evaluator::{PokerHandEvaluator, FLUSH_OFFSET};
pub use non_flush_evaluator::NonFlushEvaluator;
pub use ranks::{FourOfAKind, FullHouse, HighCard, Pair, Straight, ThreeOfAKind, TwoPairs};
pub use shape::PokerHandNonFlush;
pub use suit_pattern::SuitOnlyFastHand;
