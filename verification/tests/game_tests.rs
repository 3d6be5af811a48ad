use blackjack::card::{Card, Rank, Suit};
use blackjack::game::{
    blackjack_result, dealer_should_draw, player_status, showdown, wants_hit, Outcome,
    PlayerStatus,
};
use blackjack::hand::Hand;

fn hand_of(ranks: &[Rank]) -> Hand {
    let mut h = Hand::new();
    for r in ranks {
        h.add_card(Card::of(*r, Suit::Hearts));
    }
    h
}

#[test]
fn dealer_draws_below_seventeen() {
    let sixteen = hand_of(&[Rank::Nine, Rank::Seven]);
    assert_eq!(sixteen.max_value(), 16);
    assert!(dealer_should_draw(&sixteen));
}

#[test]
fn dealer_stands_from_seventeen_up() {
    let seventeen = hand_of(&[Rank::King, Rank::Seven]);
    assert_eq!(seventeen.max_value(), 17);
    assert!(!dealer_should_draw(&seventeen));
    let twenty = hand_of(&[Rank::King, Rank::Queen]);
    assert!(!dealer_should_draw(&twenty));
}

#[test]
fn dealer_never_draws_busted() {
    let busted = hand_of(&[Rank::King, Rank::Queen, Rank::Five]);
    assert!(busted.busted());
    assert!(!dealer_should_draw(&busted));
}

#[test]
fn soft_seventeen_stands() {
    let soft = hand_of(&[Rank::Ace, Rank::Six]);
    assert_eq!(soft.max_value(), 17);
    assert!(!dealer_should_draw(&soft));
}

#[test]
fn player_statuses() {
    assert_eq!(
        player_status(&hand_of(&[Rank::King, Rank::Queen, Rank::Five])),
        PlayerStatus::Busted
    );
    assert_eq!(
        player_status(&hand_of(&[Rank::Ace, Rank::King])),
        PlayerStatus::Blackjack
    );
    assert_eq!(
        player_status(&hand_of(&[Rank::Seven, Rank::Seven, Rank::Seven])),
        PlayerStatus::TwentyOne
    );
    assert_eq!(
        player_status(&hand_of(&[Rank::Nine, Rank::Seven])),
        PlayerStatus::Playing
    );
}

#[test]
fn blackjack_preempts_dealer_draws() {
    let player = hand_of(&[Rank::Ace, Rank::King]);
    let dealer = hand_of(&[Rank::Nine, Rank::Seven]);
    assert_eq!(player_status(&player), PlayerStatus::Blackjack);
    assert!(dealer_should_draw(&dealer));
    assert_eq!(
        blackjack_result(&player, &dealer),
        Some(Outcome::PlayerWins)
    );
}

#[test]
fn both_naturals_tie() {
    let player = hand_of(&[Rank::Ace, Rank::King]);
    let dealer = hand_of(&[Rank::Ace, Rank::Queen]);
    assert_eq!(blackjack_result(&player, &dealer), Some(Outcome::Tie));
}

#[test]
fn dealer_natural_wins_alone() {
    let player = hand_of(&[Rank::King, Rank::Nine]);
    let dealer = hand_of(&[Rank::Ace, Rank::Queen]);
    assert_eq!(
        blackjack_result(&player, &dealer),
        Some(Outcome::DealerWins)
    );
}

#[test]
fn no_naturals_leaves_round_open() {
    let player = hand_of(&[Rank::King, Rank::Nine]);
    let dealer = hand_of(&[Rank::Nine, Rank::Seven]);
    assert_eq!(blackjack_result(&player, &dealer), None);
}

#[test]
fn showdown_compares_best_values() {
    let nineteen = hand_of(&[Rank::King, Rank::Nine]);
    let seventeen = hand_of(&[Rank::King, Rank::Seven]);
    assert_eq!(showdown(&nineteen, &seventeen), Outcome::PlayerWins);
    assert_eq!(showdown(&seventeen, &nineteen), Outcome::DealerWins);
    assert_eq!(showdown(&nineteen, &nineteen), Outcome::Tie);
}

#[test]
fn showdown_pays_dealer_bust() {
    let player = hand_of(&[Rank::Nine, Rank::Seven]);
    let dealer = hand_of(&[Rank::King, Rank::Queen, Rank::Five]);
    assert_eq!(showdown(&player, &dealer), Outcome::PlayerWins);
}

#[test]
fn hit_answers() {
    assert!(wants_hit(b"hit"));
    assert!(wants_hit(b"HIT"));
    assert!(wants_hit(b"Hit me, please"));
    assert!(wants_hit(b"please hIt"));
    assert!(!wants_hit(b"stay"));
    assert!(!wants_hit(b""));
    assert!(!wants_hit(b"hi t"));
    assert!(!wants_hit(b"h"));
}
