use poker_eval::{HandError, PokerCard, PokerHand, Suit};

#[test]
fn create_valid_poker_card() {
    let _: PokerHand = PokerHand::new(vec![
        (Suit::S, 0),
        (Suit::S, 1),
        (Suit::S, 2),
        (Suit::S, 3),
        (Suit::S, 4),
        (Suit::S, 5),
        (Suit::S, 6),
    ])
    .unwrap();
}

#[test]
fn create_invalid_poker_card() {
    let hand: Result<PokerHand, HandError> = PokerHand::new(vec![
        (Suit::S, 0),
        (Suit::S, 0),
        (Suit::S, 0),
        (Suit::S, 0),
        (Suit::S, 0),
        (Suit::S, 0),
        (Suit::S, 0),
    ]);
    assert_eq!(hand.is_err(), true);
}

#[test]
fn duplicate_card_is_rejected() {
    let hand = PokerHand::new(vec![
        (Suit::S, 0),
        (Suit::H, 0),
        (Suit::D, 0),
        (Suit::C, 0),
        (Suit::S, 1),
        (Suit::H, 5),
        (Suit::H, 0),
    ]);
    assert_eq!(hand, Err(HandError::DuplicateCard));
}

#[test]
fn wrong_count_is_rejected() {
    let six = vec![
        (Suit::S, 0),
        (Suit::S, 1),
        (Suit::S, 2),
        (Suit::S, 3),
        (Suit::S, 4),
        (Suit::S, 5),
    ];
    assert_eq!(PokerHand::new(six), Err(HandError::WrongCount));
    let eight: Vec<PokerCard> = (0..8).map(|v| PokerCard::new(Suit::D, v)).collect();
    assert_eq!(PokerHand::from_cards(eight), Err(HandError::WrongCount));
    assert_eq!(PokerHand::from_cards(Vec::new()), Err(HandError::WrongCount));
}

#[test]
fn rank_out_of_range_is_rejected() {
    let hand = PokerHand::new(vec![
        (Suit::S, 0),
        (Suit::S, 1),
        (Suit::S, 2),
        (Suit::S, 13),
        (Suit::S, 4),
        (Suit::S, 5),
        (Suit::S, 6),
    ]);
    assert_eq!(hand, Err(HandError::RankOutOfRange));
}

#[test]
fn cards_keep_their_order() {
    let input = vec![
        (Suit::C, 12),
        (Suit::S, 1),
        (Suit::H, 2),
        (Suit::D, 3),
        (Suit::S, 4),
        (Suit::S, 5),
        (Suit::S, 6),
    ];
    let hand = PokerHand::new(input.clone()).unwrap();
    for (card, (suit, value)) in hand.cards().iter().zip(input.iter()) {
        assert_eq!(card.get_suit(), *suit);
        assert_eq!(card.get_value(), *value);
    }
    // the club ace is bit 13 * 3 + 12
    assert_eq!(hand.get_fast().0 & (1u64 << 51), 1u64 << 51);
}

#[test]
fn suit_index_round_trip() {
    for i in 0..4u64 {
        assert_eq!(Suit::from_index(i).unwrap().to_index(), i);
    }
    assert!(Suit::from_index(4).is_err());
}

#[test]
fn deck_positions_are_encoding_bits() {
    for i in 0..52u64 {
        let card = PokerCard::from_index(i);
        assert_eq!(card.get_suit().to_index(), i / 13);
        assert_eq!(card.get_value(), i % 13);
    }
    let cards: Vec<PokerCard> = [0u64, 14, 28, 42, 51, 7, 20]
        .iter()
        .map(|&i| PokerCard::from_index(i))
        .collect();
    let hand = PokerHand::from_cards(cards).unwrap();
    let expected: u64 = [0u64, 14, 28, 42, 51, 7, 20].iter().map(|&i| 1u64 << i).sum();
    assert_eq!(hand.get_fast().0, expected);
}
