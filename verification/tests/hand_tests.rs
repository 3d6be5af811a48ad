use blackjack::card::{Card, Rank, Suit};
use blackjack::hand::Hand;

fn hand_of(ranks: &[Rank]) -> Hand {
    let mut h = Hand::new();
    for r in ranks {
        h.add_card(Card::of(*r, Suit::Spades));
    }
    h
}

#[test]
fn empty_hand_has_no_totals() {
    let h = Hand::new();
    assert_eq!(h.cards.len(), 0);
    assert_eq!(h.values.len(), 0);
    assert_eq!(h.max_value(), 0);
    assert!(!h.busted());
    assert!(!h.blackjack());
}

#[test]
fn non_ace_cards_sum_plainly() {
    let h = hand_of(&[Rank::Two, Rank::Three, Rank::Four]);
    assert_eq!(h.values, vec![9u8]);
    assert_eq!(h.max_value(), 9);
    let h = hand_of(&[Rank::King, Rank::Nine]);
    assert_eq!(h.values, vec![19u8]);
    assert_eq!(h.max_value(), 19);
}

#[test]
fn ace_on_empty_hand_gives_one_and_eleven() {
    let h = hand_of(&[Rank::Ace]);
    assert_eq!(h.values, vec![1u8, 11]);
    assert_eq!(h.max_value(), 11);
}

#[test]
fn ace_on_ten_gives_eleven_and_twenty_one() {
    let h = hand_of(&[Rank::King, Rank::Ace]);
    assert_eq!(h.values, vec![11u8, 21]);
    assert_eq!(h.max_value(), 21);
}

#[test]
fn two_aces_deduplicate_and_filter() {
    let h = hand_of(&[Rank::Ace, Rank::Ace]);
    assert_eq!(h.values, vec![2u8, 12]);
}

#[test]
fn two_card_twenty_one_is_blackjack() {
    let h = hand_of(&[Rank::Ace, Rank::King]);
    assert!(h.blackjack());
    assert_eq!(h.max_value(), 21);
}

#[test]
fn three_card_twenty_one_is_no_blackjack() {
    let h = hand_of(&[Rank::Seven, Rank::Seven, Rank::Seven]);
    assert_eq!(h.max_value(), 21);
    assert!(!h.blackjack());
}

#[test]
fn going_over_twenty_one_busts_and_empties_totals() {
    let h = hand_of(&[Rank::King, Rank::Queen, Rank::Five]);
    assert!(h.busted());
    assert!(h.values.is_empty());
    assert_eq!(h.max_value(), 0);
    assert_eq!(h.cards.len(), 3);
}

#[test]
fn busted_hand_stays_busted() {
    let mut h = hand_of(&[Rank::King, Rank::Queen, Rank::Five]);
    h.add_card(Card::of(Rank::Two, Suit::Hearts));
    assert!(h.busted());
    assert!(h.values.is_empty());
    assert_eq!(h.cards.len(), 4);
}

#[test]
fn clear_invalid_drops_totals_over_twenty_one() {
    let mut h = Hand {
        cards: Vec::new(),
        values: vec![5, 15, 25],
    };
    h.clear_invalid();
    assert_eq!(h.values, vec![5u8, 15]);
}

#[test]
fn format_options_lists_totals_ascending() {
    let h = hand_of(&[Rank::Ace, Rank::Six]);
    assert_eq!(h.values, vec![7u8, 17]);
    assert_eq!(h.format_options(), "7 or 17");
}

#[test]
fn format_options_single_total() {
    let h = hand_of(&[Rank::King, Rank::Nine]);
    assert_eq!(h.format_options(), "19");
}

#[test]
fn format_options_three_totals() {
    let h = hand_of(&[Rank::Ace, Rank::Ace, Rank::Three]);
    assert_eq!(h.values, vec![5u8, 15]);
    let h = hand_of(&[Rank::Ace, Rank::Two]);
    assert_eq!(h.format_options(), "3 or 13");
}

#[test]
fn soft_totals_shrink_as_cards_arrive() {
    let mut h = hand_of(&[Rank::Ace, Rank::Six]);
    assert_eq!(h.values, vec![7u8, 17]);
    h.add_card(Card::of(Rank::Nine, Suit::Clubs));
    assert_eq!(h.values, vec![16u8]);
}
