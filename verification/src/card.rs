//! The card model: ranks, suits, and the numeric value a card carries.
//!
//! A card's `value` field holds its default blackjack value: an Ace carries
//! 11 (the "high" reading; the hand engine reconciles the 1-or-11 duality),
//! face cards carry 10, and numeric ranks carry their own number.

use vstd::prelude::*;
use rand::RngExt;

verus! {

#[derive(Clone, Copy, PartialEq, Eq, Structural, Debug)]
pub enum Rank {
    Ace,
    Two,
    Three,
    Four,
    Five,
    Six,
    Seven,
    Eight,
    Nine,
    Ten,
    Jack,
    Queen,
    King,
}

#[derive(Clone, Copy, PartialEq, Eq, Structural, Debug)]
pub enum Suit {
    Hearts,
    Diamonds,
    Spades,
    Clubs,
}

/// One drawn card. Immutable once created.
#[derive(Clone, Copy, PartialEq, Eq, Structural, Debug)]
pub struct Card {
    pub rank: Rank,
    pub suit: Suit,
    pub value: u8,
}

/// The default numeric value of a rank: Ace is 11, face cards are 10,
/// numeric ranks are their own number.
pub open spec fn rank_value(r: Rank) -> int {
    match r {
        Rank::Ace => 11,
        Rank::Two => 2,
        Rank::Three => 3,
        Rank::Four => 4,
        Rank::Five => 5,
        Rank::Six => 6,
        Rank::Seven => 7,
        Rank::Eight => 8,
        Rank::Nine => 9,
        Rank::Ten => 10,
        Rank::Jack => 10,
        Rank::Queen => 10,
        Rank::King => 10,
    }
}

/// Every rank is worth at least 1 and at most 11.
pub proof fn lemma_rank_value_bounds(r: Rank)
    ensures
        1 <= rank_value(r) <= 11,
        !(r is Ace) ==> 2 <= rank_value(r) <= 10,
{
}

impl Card {
    /// A card is well formed when its stored value agrees with its rank.
    pub open spec fn wf(self) -> bool {
        self.value == rank_value(self.rank)
    }

    /// Builds the card of a given rank and suit, with the matching value.
    pub fn of(rank: Rank, suit: Suit) -> (c: Card)
        ensures
            c.wf(),
            c.rank == rank,
            c.suit == suit,
    {
        let value: u8 = match rank {
            Rank::Ace => 11,
            Rank::Two => 2,
            Rank::Three => 3,
            Rank::Four => 4,
            Rank::Five => 5,
            Rank::Six => 6,
            Rank::Seven => 7,
            Rank::Eight => 8,
            Rank::Nine => 9,
            Rank::Ten => 10,
            Rank::Jack => 10,
            Rank::Queen => 10,
            Rank::King => 10,
        };
        Card { rank, suit, value }
    }
    /// The rank's display name.
    pub fn rank_label(&self) -> (s: &'static str)
        ensures
            s@ == rank_label_spec(self.rank),
    {
        match self.rank {
            Rank::Ace => "Ace",
            Rank::Two => "2",
            Rank::Three => "3",
            Rank::Four => "4",
            Rank::Five => "5",
            Rank::Six => "6",
            Rank::Seven => "7",
            Rank::Eight => "8",
            Rank::Nine => "9",
            Rank::Ten => "10",
            Rank::Jack => "Jack",
            Rank::Queen => "Queen",
            Rank::King => "King",
        }
    }

    /// The suit's display name.
    pub fn suit_label(&self) -> (s: &'static str)
        ensures
            s@ == suit_label_spec(self.suit),
    {
        match self.suit {
            Suit::Hearts => "Hearts",
            Suit::Diamonds => "Diamonds",
            Suit::Spades => "Spades",
            Suit::Clubs => "Clubs",
        }
    }
}

/// The rank each display name belongs to.
pub open spec fn rank_label_spec(r: Rank) -> Seq<char> {
    match r {
        Rank::Ace => "Ace"@,
        Rank::Two => "2"@,
        Rank::Three => "3"@,
        Rank::Four => "4"@,
        Rank::Five => "5"@,
        Rank::Six => "6"@,
        Rank::Seven => "7"@,
        Rank::Eight => "8"@,
        Rank::Nine => "9"@,
        Rank::Ten => "10"@,
        Rank::Jack => "Jack"@,
        Rank::Queen => "Queen"@,
        Rank::King => "King"@,
    }
}

/// The suit each display name belongs to.
pub open spec fn suit_label_spec(s: Suit) -> Seq<char> {
    match s {
        Suit::Hearts => "Hearts"@,
        Suit::Diamonds => "Diamonds"@,
        Suit::Spades => "Spades"@,
        Suit::Clubs => "Clubs"@,
    }
}

/// The thirteen ranks in drawing order: Ace first, then the numeric ranks
/// in order, then Jack, Queen, King.
pub open spec fn rank_of_index(i: int) -> Rank {
    if i == 0 {
        Rank::Ace
    } else if i == 1 {
        Rank::Two
    } else if i == 2 {
        Rank::Three
    } else if i == 3 {
        Rank::Four
    } else if i == 4 {
        Rank::Five
    } else if i == 5 {
        Rank::Six
    } else if i == 6 {
        Rank::Seven
    } else if i == 7 {
        Rank::Eight
    } else if i == 8 {
        Rank::Nine
    } else if i == 9 {
        Rank::Ten
    } else if i == 10 {
        Rank::Jack
    } else if i == 11 {
        Rank::Queen
    } else {
        Rank::King
    }
}

/// The four suits in drawing order.
pub open spec fn suit_of_index(i: int) -> Suit {
    if i == 0 {
        Suit::Hearts
    } else if i == 1 {
        Suit::Diamonds
    } else if i == 2 {
        Suit::Spades
    } else {
        Suit::Clubs
    }
}

/// Builds the card a pair of drawing indices stands for.
pub fn card_from_index(rank_idx: u8, suit_idx: u8) -> (c: Card)
    requires
        rank_idx < 13,
        suit_idx < 4,
    ensures
        c.wf(),
        c.rank == rank_of_index(rank_idx as int),
        c.suit == suit_of_index(suit_idx as int),
{
    let rank = match rank_idx {
        0 => Rank::Ace,
        1 => Rank::Two,
        2 => Rank::Three,
        3 => Rank::Four,
        4 => Rank::Five,
        5 => Rank::Six,
        6 => Rank::Seven,
        7 => Rank::Eight,
        8 => Rank::Nine,
        9 => Rank::Ten,
        10 => Rank::Jack,
        11 => Rank::Queen,
        _ => Rank::King,
    };
    let suit = match suit_idx {
        0 => Suit::Hearts,
        1 => Suit::Diamonds,
        2 => Suit::Spades,
        _ => Suit::Clubs,
    };
    Card::of(rank, suit)
}

/// Relies on rand::rng and rand::RngExt::random_range: a random integer drawn
/// uniformly from [0, n). random_range panics only on an empty range, which
/// n > 0 rules out.
#[verifier::external_body]
fn random_below(n: u8) -> (r: u8)
    requires
        n > 0,
    ensures
        r < n,
{
    rand::rng().random_range(0..n)
}

/// Draws one card from an infinite deck: rank and suit chosen uniformly and
/// independently, with replacement, so every one of the 52 cards is equally
/// likely on every draw. Nothing beyond validity can be promised of which
/// card comes back.
pub fn generate_random_card() -> (c: Card)
    ensures
        c.wf(),
{
    let rank_idx = random_below(13);
    let suit_idx = random_below(4);
    card_from_index(rank_idx, suit_idx)
}

} // verus!
