use poker_eval::{PokerCard, PokerHand, Suit};
use rand::prelude::StdRng;
use rand::seq::SliceRandom;
use rand::Rng;
use rand::SeedableRng;

fn suit_of(i: u64) -> Suit {
    Suit::from_index(i).unwrap()
}

#[test]
fn is_flush_true() {
    let c1 = vec![
        (Suit::C, 0),
        (Suit::C, 1),
        (Suit::C, 2),
        (Suit::C, 3),
        (Suit::C, 4),
        (Suit::D, 5),
        (Suit::D, 6),
    ];
    let c2 = vec![
        (Suit::C, 0),
        (Suit::C, 1),
        (Suit::D, 2),
        (Suit::D, 3),
        (Suit::D, 4),
        (Suit::D, 5),
        (Suit::D, 6),
    ];
    assert_eq!(PokerHand::new(c1).unwrap().get_fast().is_flush(), true);
    assert_eq!(PokerHand::new(c2).unwrap().get_fast().is_flush(), true);
}

#[test]
fn is_flush_true_automated() {
    let mut rng: StdRng = SeedableRng::seed_from_u64(2104);
    for _ in 0..100 {
        let flush_suit = suit_of(rng.gen_range(0..4));
        let flush_cards_count = (5..=7)
            .collect::<Vec<usize>>()
            .choose(&mut rng)
            .cloned()
            .unwrap();
        let flush_values = (0..13)
            .collect::<Vec<u64>>()
            .choose_multiple(&mut rng, flush_cards_count)
            .cloned()
            .collect::<Vec<u64>>();

        let mut cards: Vec<PokerCard> = Vec::new();
        for value in flush_values.iter() {
            cards.push(PokerCard::new(flush_suit, *value));
        }

        while cards.len() != 7 {
            let card = PokerCard::new(suit_of(rng.gen_range(0..4)), rng.gen_range(0..=12));
            if card.get_suit() != flush_suit && !cards.contains(&card) {
                cards.push(card);
            }
        }
        let hand = PokerHand::from_cards(cards).unwrap();
        assert_eq!(hand.get_fast().is_flush(), true);
        assert_eq!(
            hand.get_fast().flush_val().count_ones() as u64,
            flush_cards_count as u64
        );
    }
}

#[test]
fn is_flush_false() {
    let c3 = vec![
        (Suit::C, 0),
        (Suit::D, 1),
        (Suit::H, 2),
        (Suit::S, 3),
        (Suit::C, 4),
        (Suit::D, 5),
        (Suit::H, 6),
    ];
    assert_eq!(PokerHand::new(c3).unwrap().get_fast().is_flush(), false);
}

fn all_cards() -> Vec<PokerCard> {
    let mut all_cards = Vec::new();
    for i in 0..4 {
        for j in 0..13 {
            all_cards.push(PokerCard::new(suit_of(i), j));
        }
    }
    all_cards
}

#[test]
fn is_flush_false_automated() {
    let mut rng: StdRng = SeedableRng::seed_from_u64(100);
    let deck = all_cards();
    let mut tested = 0;
    while tested != 100 {
        let cards: Vec<PokerCard> = deck.choose_multiple(&mut rng, 7).cloned().collect();
        let hand = PokerHand::from_cards(cards).unwrap();
        let mut suit_counts = [0, 0, 0, 0];
        for card in hand.cards().iter() {
            suit_counts[card.get_suit().to_index() as usize] += 1;
        }
        if suit_counts[0] >= 5
            || suit_counts[1] >= 5
            || suit_counts[2] >= 5
            || suit_counts[3] >= 5
        {
            continue;
        }
        assert_eq!(hand.get_fast().is_flush(), false);
        tested += 1;
    }
}

#[test]
fn get_fast() {
    let all_cards = all_cards();

    let mut rng: StdRng = SeedableRng::seed_from_u64(2104);
    for _ in 0..100 {
        let random_cards: Vec<PokerCard> =
            all_cards.choose_multiple(&mut rng, 7).cloned().collect();
        let mut result = 0;
        for card in random_cards.iter() {
            result |= 1 << all_cards.iter().position(|&r| r == *card).unwrap();
        }
        assert_eq!(PokerHand::from_cards(random_cards).unwrap().get_fast().0, result);
    }
}

#[test]
fn flush_val_reports_the_flush_suit_pattern() {
    // five hearts of ranks 0, 2, 4, 6, 8 and two other cards
    let hand = PokerHand::new(vec![
        (Suit::H, 0),
        (Suit::H, 2),
        (Suit::H, 4),
        (Suit::H, 6),
        (Suit::H, 8),
        (Suit::S, 0),
        (Suit::D, 12),
    ])
    .unwrap();
    let fast = hand.get_fast();
    assert_eq!(fast.flush_val(), 0b1_0101_0101);
    assert_eq!(fast.count_val(0), 2);
    assert_eq!(fast.count_val(12), 1);
    assert_eq!(fast.count_val(1), 0);
    assert_eq!(
        fast.get_non_flush_repr(),
        vec![2, 0, 1, 0, 1, 0, 1, 0, 1, 0, 0, 0, 1]
    );
}

#[test]
fn flush_val_is_zero_without_flush() {
    let hand = PokerHand::new(vec![
        (Suit::H, 0),
        (Suit::H, 2),
        (Suit::H, 4),
        (Suit::H, 6),
        (Suit::S, 8),
        (Suit::S, 0),
        (Suit::D, 12),
    ])
    .unwrap();
    assert_eq!(hand.get_fast().flush_val(), 0);
    assert_eq!(hand.get_fast().is_flush(), false);
}
