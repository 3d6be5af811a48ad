//! A verified hand-evaluation engine for a simplified one-round game of
//! casino blackjack: cards, the multi-total hand state that models an Ace
//! as 1 or 11 at once, and the fixed decision rules the round is played by.

pub mod card;
pub mod game;
pub mod hand;
pub mod render;
