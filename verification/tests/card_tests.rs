use blackjack::card::{card_from_index, generate_random_card, Card, Rank, Suit};

#[test]
fn rank_values_follow_the_rules() {
    assert_eq!(Card::of(Rank::Ace, Suit::Hearts).value, 11);
    assert_eq!(Card::of(Rank::Two, Suit::Hearts).value, 2);
    assert_eq!(Card::of(Rank::Nine, Suit::Hearts).value, 9);
    assert_eq!(Card::of(Rank::Ten, Suit::Hearts).value, 10);
    assert_eq!(Card::of(Rank::Jack, Suit::Hearts).value, 10);
    assert_eq!(Card::of(Rank::Queen, Suit::Hearts).value, 10);
    assert_eq!(Card::of(Rank::King, Suit::Hearts).value, 10);
}

#[test]
fn drawing_indices_cover_the_deck() {
    let expected = [
        (Rank::Ace, 11),
        (Rank::Two, 2),
        (Rank::Three, 3),
        (Rank::Four, 4),
        (Rank::Five, 5),
        (Rank::Six, 6),
        (Rank::Seven, 7),
        (Rank::Eight, 8),
        (Rank::Nine, 9),
        (Rank::Ten, 10),
        (Rank::Jack, 10),
        (Rank::Queen, 10),
        (Rank::King, 10),
    ];
    for (i, (rank, value)) in expected.iter().enumerate() {
        let c = card_from_index(i as u8, 0);
        assert_eq!(c.rank, *rank);
        assert_eq!(c.value, *value);
    }
    let suits = [Suit::Hearts, Suit::Diamonds, Suit::Spades, Suit::Clubs];
    for (i, suit) in suits.iter().enumerate() {
        assert_eq!(card_from_index(0, i as u8).suit, *suit);
    }
}

#[test]
fn labels_render_the_card() {
    let c = Card::of(Rank::Queen, Suit::Diamonds);
    assert_eq!(c.rank_label(), "Queen");
    assert_eq!(c.suit_label(), "Diamonds");
    let c = Card::of(Rank::Two, Suit::Clubs);
    assert_eq!(c.rank_label(), "2");
    assert_eq!(c.suit_label(), "Clubs");
}

#[test]
fn random_cards_are_always_valid() {
    let mut seen_ranks: Vec<Rank> = Vec::new();
    let mut seen_suits: Vec<Suit> = Vec::new();
    for _ in 0..200 {
        let c = generate_random_card();
        if !seen_ranks.contains(&c.rank) {
            seen_ranks.push(c.rank);
        }
        if !seen_suits.contains(&c.suit) {
            seen_suits.push(c.suit);
        }
        let expected = match c.rank {
            Rank::Ace => 11,
            Rank::Two => 2,
            Rank::Three => 3,
            Rank::Four => 4,
            Rank::Five => 5,
            Rank::Six => 6,
            Rank::Seven => 7,
            Rank::Eight => 8,
            Rank::Nine => 9,
            Rank::Ten | Rank::Jack | Rank::Queen | Rank::King => 10,
        };
        assert_eq!(c.value, expected);
    }
    // 200 independent uniform draws repeat one single rank or suit with
    // vanishing probability; a card source stuck on one card would fail.
    assert!(seen_ranks.len() > 1);
    assert!(seen_suits.len() > 1);
}
