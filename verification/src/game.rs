//! The fixed rules the round is played by: what stops the player's turn,
//! how naturals are settled before the dealer draws, the dealer's
//! draw-to-17 policy, the final comparison of the two hands, and the
//! reading of the player's typed hit-or-stay answer.

use vstd::prelude::*;
use crate::hand::Hand;

verus! {

/// How the round ends for the player.
#[derive(Clone, Copy, PartialEq, Eq, Structural, Debug)]
pub enum Outcome {
    PlayerWins,
    DealerWins,
    Tie,
}

/// What the player's turn loop does next with the hand.
#[derive(Clone, Copy, PartialEq, Eq, Structural, Debug)]
pub enum PlayerStatus {
    Busted,
    Blackjack,
    TwentyOne,
    Playing,
}

/// The player's turn stops on a bust, a natural, or any 21; otherwise the
/// player may keep hitting.
pub open spec fn spec_player_status(h: Hand) -> PlayerStatus {
    if h.spec_busted() {
        PlayerStatus::Busted
    } else if h.spec_blackjack() {
        PlayerStatus::Blackjack
    } else if h.spec_max() == 21 {
        PlayerStatus::TwentyOne
    } else {
        PlayerStatus::Playing
    }
}

/// How the naturals settle the round before the dealer draws: both sides a
/// natural is a tie, one side a natural decides it at once, neither leaves
/// the round open.
pub open spec fn spec_blackjack_result(player: Hand, dealer: Hand) -> Option<Outcome> {
    if player.spec_blackjack() && dealer.spec_blackjack() {
        Some(Outcome::Tie)
    } else if player.spec_blackjack() {
        Some(Outcome::PlayerWins)
    } else if dealer.spec_blackjack() {
        Some(Outcome::DealerWins)
    } else {
        None
    }
}

/// The final comparison once neither side's natural decided the round: a
/// busted dealer loses outright, otherwise the higher value wins and equal
/// values tie.
pub open spec fn spec_showdown(player: Hand, dealer: Hand) -> Outcome {
    if dealer.spec_busted() {
        Outcome::PlayerWins
    } else if player.spec_max() > dealer.spec_max() {
        Outcome::PlayerWins
    } else if player.spec_max() < dealer.spec_max() {
        Outcome::DealerWins
    } else {
        Outcome::Tie
    }
}

/// Classifies the player's hand after a deal or a hit.
pub fn player_status(h: &Hand) -> (r: PlayerStatus)
    requires
        h.wf(),
    ensures
        r == spec_player_status(*h),
{
    if h.busted() {
        PlayerStatus::Busted
    } else if h.blackjack() {
        PlayerStatus::Blackjack
    } else if h.max_value() == 21 {
        PlayerStatus::TwentyOne
    } else {
        PlayerStatus::Playing
    }
}

/// Settles the naturals right after both hands are dealt.
pub fn blackjack_result(player: &Hand, dealer: &Hand) -> (r: Option<Outcome>)
    requires
        player.wf(),
        dealer.wf(),
    ensures
        r == spec_blackjack_result(*player, *dealer),
{
    if player.blackjack() && dealer.blackjack() {
        Some(Outcome::Tie)
    } else if player.blackjack() {
        Some(Outcome::PlayerWins)
    } else if dealer.blackjack() {
        Some(Outcome::DealerWins)
    } else {
        None
    }
}

/// The fixed dealer policy: the dealer draws exactly while the hand is
/// worth less than 17 and is not busted; from 17 up, or busted, the dealer
/// never draws again.
pub fn dealer_should_draw(dealer: &Hand) -> (r: bool)
    requires
        dealer.wf(),
    ensures
        r == (!dealer.spec_busted() && dealer.spec_max() < 17),
{
    !dealer.busted() && dealer.max_value() < 17
}

/// Compares the two final hands once the dealer stands or busts.
pub fn showdown(player: &Hand, dealer: &Hand) -> (r: Outcome)
    requires
        player.wf(),
        dealer.wf(),
    ensures
        r == spec_showdown(*player, *dealer),
{
    if dealer.busted() {
        Outcome::PlayerWins
    } else if player.max_value() > dealer.max_value() {
        Outcome::PlayerWins
    } else if player.max_value() < dealer.max_value() {
        Outcome::DealerWins
    } else {
        Outcome::Tie
    }
}

/// ASCII lower-casing of one byte; anything but an ASCII capital is kept.
pub open spec fn lower_byte(b: u8) -> u8 {
    if 65 <= b <= 90 {
        (b + 32) as u8
    } else {
        b
    }
}

/// Whether the three bytes at `i` spell "hit", ignoring ASCII case.
pub open spec fn hit_at(s: Seq<u8>, i: int) -> bool {
    &&& 0 <= i
    &&& i + 3 <= s.len()
    &&& lower_byte(s[i]) == 104
    &&& lower_byte(s[i + 1]) == 105
    &&& lower_byte(s[i + 2]) == 116
}

/// Whether the answer contains "hit" in any ASCII case.
pub open spec fn says_hit(s: Seq<u8>) -> bool {
    exists|i: int| hit_at(s, i)
}

/// ASCII lower-casing of one byte.
fn lower_b(b: u8) -> (r: u8)
    ensures
        r == lower_byte(b),
{
    if b >= 65 && b <= 90 {
        b + 32
    } else {
        b
    }
}

/// Reads the player's typed answer: "hit" anywhere in it, in any ASCII
/// case, asks for another card; everything else, the empty answer
/// included, means stay.
pub fn wants_hit(answer: &[u8]) -> (r: bool)
    ensures
        r == says_hit(answer@),
{
    if answer.len() < 3 {
        proof {
            assert forall|j: int| !hit_at(answer@, j) by {}
        }
        return false;
    }
    let mut i: usize = 0;
    while i < answer.len() - 2
        invariant
            3 <= answer@.len(),
            i <= answer@.len() - 2,
            forall|j: int| 0 <= j < i ==> !hit_at(answer@, j),
        decreases answer@.len() - i,
    {
        let a = lower_b(answer[i]);
        let b = lower_b(answer[i + 1]);
        let c = lower_b(answer[i + 2]);
        if a == 104 && b == 105 && c == 116 {
            proof {
                assert(hit_at(answer@, i as int));
            }
            return true;
        }
        i += 1;
    }
    proof {
        assert forall|j: int| !hit_at(answer@, j) by {
            if 0 <= j && j + 3 <= answer@.len() {
                assert(j < i);
            }
        }
    }
    false
}

} // verus!
