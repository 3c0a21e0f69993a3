use poker_eval::SuitOnlyFastHand;
use rand::prelude::StdRng;
use rand::seq::SliceRandom;
use rand::SeedableRng;

#[test]
fn flush_evaluator_is_straight() {
    assert_eq!(SuitOnlyFastHand::new(0b0_0000_0000_0000).is_straight(), false);
    assert_eq!(SuitOnlyFastHand::new(0b0_1010_1010_1001).is_straight(), false);
    assert_eq!(SuitOnlyFastHand::new(0b0_1011_1000_1000).is_straight(), false);
    assert_eq!(SuitOnlyFastHand::new(0b1_1111_0000_1000).is_straight(), true);
    assert_eq!(SuitOnlyFastHand::new(0b0_1111_1000_1000).is_straight(), true);
}

#[test]
fn suit_only_fast_hand_is_straight() {
    assert_eq!(
        SuitOnlyFastHand::new(0b0_0000_0000_0000).is_straight(),
        false
    );
    assert_eq!(
        SuitOnlyFastHand::new(0b0_1010_1010_1001).is_straight(),
        false
    );
    assert_eq!(
        SuitOnlyFastHand::new(0b0_1011_1000_1000).is_straight(),
        false
    );
    assert_eq!(
        SuitOnlyFastHand::new(0b1_1111_0000_1000).is_straight(),
        true
    );
    assert_eq!(
        SuitOnlyFastHand::new(0b0_1111_1000_1000).is_straight(),
        true
    );
}

#[test]
fn is_straight_automated() {
    let mut rng: StdRng = SeedableRng::seed_from_u64(2104);
    for _ in 0..1_000 {
        let mut value = 0;
        let straight_cards_count = (5..=7)
            .collect::<Vec<usize>>()
            .choose(&mut rng)
            .cloned()
            .unwrap();
        let to_set = (0..13 - straight_cards_count - 1)
            .collect::<Vec<usize>>()
            .choose(&mut rng)
            .cloned()
            .unwrap();
        for i_th_bit in to_set..to_set + straight_cards_count {
            value |= 1 << i_th_bit;
        }
        assert_eq!(SuitOnlyFastHand::new(value).is_straight(), true);
    }
}

#[test]
fn ace_does_not_wrap_in_a_suit_pattern() {
    // ace, 2, 3, 4, 5 of one suit
    assert_eq!(SuitOnlyFastHand::new(0b1_0000_0000_1111).is_straight(), false);
    // the five highest ranks
    assert_eq!(SuitOnlyFastHand::new(0b1_1111_0000_0000).is_straight(), true);
}

#[test]
fn count_ones_counts_ranks() {
    assert_eq!(SuitOnlyFastHand::new(0).count_ones(), 0);
    assert_eq!(SuitOnlyFastHand::new(0b1_0101_0101_0101).count_ones(), 7);
    assert_eq!(SuitOnlyFastHand::new(0x1fff).count_ones(), 13);
    assert_eq!(SuitOnlyFastHand::new(0b1011).value(), 0b1011);
}
