use poker_eval::enumeration::generate_non_flush_hands;
use poker_eval::{
    FlushEvaluator, NonFlushEvaluator, PokerHand, PokerHandEvaluator, PokerHandFast,
    PokerHandNonFlush, Suit, FLUSH_OFFSET,
};

/// Builds a hand from cards written as suit letter and face ("C2", "DT", "SA").
fn hand(cards: [&str; 7]) -> PokerHand {
    let faces = "23456789TJQKA";
    let pairs: Vec<(Suit, u64)> = cards
        .iter()
        .map(|c| {
            let suit = match &c[0..1] {
                "S" => Suit::S,
                "H" => Suit::H,
                "D" => Suit::D,
                _ => Suit::C,
            };
            let value = faces.find(&c[1..2]).unwrap() as u64;
            (suit, value)
        })
        .collect();
    PokerHand::new(pairs).unwrap()
}

fn shape(h: PokerHand) -> PokerHandNonFlush {
    PokerHandNonFlush::new(h.get_fast().get_non_flush_repr())
}

#[test]
fn eval_non_flush() {
    let _evaluator = PokerHandEvaluator::new();
}

#[test]
fn straight_flush_hand_is_flush_with_five_suited_ranks() {
    let h = hand(["C2", "C3", "C4", "C5", "C6", "D7", "D8"]);
    let fast = h.get_fast();
    assert!(fast.is_flush());
    assert_eq!(fast.flush_val().count_ones(), 5);
    let evaluator = PokerHandEvaluator::new();
    assert_eq!(evaluator.eval(h), FLUSH_OFFSET + 6930);
}

#[test]
fn full_house_and_straight_scenario() {
    let full = hand(["C2", "C3", "D2", "D3", "H2", "H7", "S9"]);
    let straight = hand(["C2", "D3", "H4", "S5", "C6", "D7", "H8"]);
    assert!(!full.get_fast().is_flush());
    assert!(!straight.get_fast().is_flush());

    let fh = shape(full).full_house().unwrap();
    assert_eq!(fh.value_three, 0);
    assert_eq!(fh.value_pair, 1);
    assert_eq!(fh.high_card, 7);
    assert!(shape(full).foak().is_none());

    let s = shape(straight);
    assert!(s.full_house().is_none());
    let st = s.straight().unwrap();
    // the window's top rank is the 8 (value 6); value_end is one past it
    assert_eq!(st.value_end, 7);
    assert_eq!(st.high_card, 1);

    let evaluator = PokerHandEvaluator::new();
    let full_value = evaluator.eval(full);
    let straight_value = evaluator.eval(straight);
    assert!(full_value > straight_value);
    assert_eq!(full_value, 34188);
    assert_eq!(straight_value, 33620);
}

#[test]
fn weakest_and_strongest_shapes() {
    let evaluator = PokerHandEvaluator::new();
    // nine high without a straight: the two weakest shapes
    assert_eq!(evaluator.eval(hand(["C2", "D3", "H4", "S6", "C7", "D8", "H9"])), 0);
    assert_eq!(evaluator.eval(hand(["C2", "D3", "H4", "S5", "C7", "D8", "H9"])), 1);
    // four aces with a king and two deuces: the last shape
    assert_eq!(evaluator.eval(hand(["SA", "HA", "DA", "CA", "SK", "S2", "H2"])), 49204);
}

#[test]
fn flush_values() {
    let evaluator = PokerHandEvaluator::new();
    let royal = hand(["ST", "SJ", "SQ", "SK", "SA", "H2", "D3"]);
    assert_eq!(evaluator.eval(royal), FLUSH_OFFSET + 7936);
    // the ace does not count below the 2 inside one suit
    let wheel = hand(["SA", "S2", "S3", "S4", "S5", "H9", "DK"]);
    assert_eq!(evaluator.eval(wheel), FLUSH_OFFSET + 3824);
    let plain = hand(["S2", "S3", "S4", "S5", "S7", "H9", "DK"]);
    assert_eq!(evaluator.eval(plain), FLUSH_OFFSET + 1093);
    // every flush is above the strongest hand without one
    assert!(evaluator.eval(plain) > 49204);
}

#[test]
fn flush_evaluator_ranks_patterns() {
    let flush = FlushEvaluator::new();
    let h = hand(["ST", "SJ", "SQ", "SK", "SA", "H2", "D3"]);
    assert_eq!(flush.eval(h.get_fast()), 7936);
    // seven cards of one suit rank above five of them
    let seven = hand(["S2", "S3", "S4", "S5", "S7", "S9", "SK"]);
    let five = hand(["S2", "S3", "S4", "S5", "S7", "H9", "DK"]);
    assert!(flush.eval(seven.get_fast()) > flush.eval(five.get_fast()));
    // the raw table at pattern 0 (no flush) is below every flush pattern
    assert!(flush.eval(PokerHandFast::new_raw(0)) < flush.eval(five.get_fast()));
}

#[test]
fn non_flush_evaluator_matches_facade() {
    let non_flush = NonFlushEvaluator::new();
    let evaluator = PokerHandEvaluator::new();
    let h = hand(["C2", "C3", "D2", "D3", "H2", "H7", "S9"]);
    assert_eq!(non_flush.evaluate(h.get_fast()), evaluator.eval(h));
    assert_eq!(evaluator.eval_fast(PokerHandFast::new(h)), 34188);
}

#[test]
fn category_ordering() {
    let evaluator = PokerHandEvaluator::new();
    let quads = evaluator.eval(hand(["C2", "D2", "H2", "S2", "C7", "D8", "H9"]));
    let full = evaluator.eval(hand(["C2", "D2", "H2", "S3", "C3", "D8", "H9"]));
    let straight = evaluator.eval(hand(["CA", "DK", "HQ", "SJ", "CT", "D3", "H2"]));
    let trips = evaluator.eval(hand(["CA", "DA", "HA", "SJ", "C9", "D3", "H2"]));
    let two_pairs = evaluator.eval(hand(["CA", "DA", "HK", "SK", "C9", "D3", "H2"]));
    let pair = evaluator.eval(hand(["CA", "DA", "HK", "SQ", "C9", "D3", "H2"]));
    let high = evaluator.eval(hand(["CA", "DK", "HQ", "SJ", "C9", "D3", "H2"]));
    assert!(high < pair);
    assert!(pair < two_pairs);
    assert!(two_pairs < trips);
    assert!(trips < straight);
    assert!(straight < full);
    assert!(full < quads);
}

#[test]
fn higher_kicker_evaluates_higher() {
    let evaluator = PokerHandEvaluator::new();
    // a pair of aces with king kicker against a pair of aces with queen kicker
    let king = evaluator.eval(hand(["CA", "DA", "HK", "S7", "C5", "D3", "H2"]));
    let queen = evaluator.eval(hand(["CA", "DA", "HQ", "S7", "C5", "D3", "H2"]));
    assert!(king > queen);
}

#[test]
fn enumeration_has_every_shape_once() {
    let shapes = generate_non_flush_hands();
    assert_eq!(shapes.len(), 49205);
    for s in shapes.iter() {
        assert_eq!(s.0.len(), 13);
        assert_eq!(s.0.iter().sum::<u64>(), 7);
        assert!(s.0.iter().all(|&c| c <= 4));
    }
    for w in shapes.windows(2) {
        assert!(w[0].0 < w[1].0);
    }
}

#[test]
fn classifiers_on_shapes() {
    let quads = PokerHandNonFlush::new(vec![0, 4, 0, 0, 0, 1, 0, 0, 0, 0, 0, 2, 0]);
    let f = quads.foak().unwrap();
    assert_eq!((f.value, f.high_card), (1, 11));
    assert_eq!(quads.strength_key(), 6 * 4096 + 256 + 11 * 16);

    let two = PokerHandNonFlush::new(vec![1, 2, 0, 0, 2, 0, 0, 0, 0, 1, 0, 0, 1]);
    assert!(two.toak().is_none());
    let t = two.two_pairs().unwrap();
    assert_eq!((t.value1, t.value2, t.high_card), (4, 1, 12));
    let p = two.pair().unwrap();
    assert_eq!((p.value, p.high_card), (4, 12));

    let trips = PokerHandNonFlush::new(vec![0, 0, 3, 0, 0, 0, 1, 0, 1, 0, 1, 0, 1]);
    assert!(trips.full_house().is_none());
    let k = trips.toak().unwrap();
    assert_eq!((k.value, k.high_card), (2, 12));
    assert_eq!(trips.high_card().unwrap().value, 12);

    // ace-low straight: ace, 2, 3, 4, 5
    let wheel = PokerHandNonFlush::new(vec![1, 1, 1, 1, 0, 0, 0, 1, 0, 0, 1, 0, 1]);
    let w = wheel.straight().unwrap();
    assert_eq!((w.value_end, w.high_card), (4, 10));
    // ten to ace
    let broadway = PokerHandNonFlush::new(vec![1, 0, 0, 0, 0, 0, 0, 0, 1, 1, 1, 2, 1]);
    let b = broadway.straight().unwrap();
    assert_eq!((b.value_end, b.high_card), (13, 11));
    assert!(PokerHandNonFlush::new(vec![2, 1, 1, 1, 0, 1, 0, 1, 0, 0, 0, 0, 0]).straight().is_none());
}

#[test]
fn raising_a_kicker_that_decides_nothing_orders_lexicographically() {
    let evaluator = PokerHandEvaluator::new();
    // both are nine-high; the 5 is raised to a 6 without changing the strength key
    let before = evaluator.eval(hand(["C2", "D3", "H4", "S5", "C7", "D8", "H9"]));
    let after = evaluator.eval(hand(["C2", "D3", "H4", "S6", "C7", "D8", "H9"]));
    assert_eq!((before, after), (1, 0));
}

#[test]
fn evaluators_built_twice_agree() {
    let a = PokerHandEvaluator::new();
    let b = PokerHandEvaluator::new();
    for h in [
        hand(["C2", "D3", "H4", "S6", "C7", "D8", "H9"]),
        hand(["SA", "HA", "DA", "CA", "SK", "S2", "H2"]),
        hand(["ST", "SJ", "SQ", "SK", "SA", "H2", "D3"]),
        hand(["C2", "C3", "D2", "D3", "H2", "H7", "S9"]),
    ] {
        assert_eq!(a.eval(h), b.eval(h));
    }
    assert!(a == b);
}
