//! Goofspiel, the game of pure bidding, for a player against the computer.
//!
//! Thirteen prizes are dealt. In each round the next prize is shown, both sides
//! commit one card of their hand, and the higher card takes the prize; equal cards
//! discard it. When the prizes are gone each side sums the ranks of the prizes that
//! it took, and the greater sum wins.
//!
//! `card` holds the cards, `hand` a side's thirteen slots, `player` a side with its
//! hand and its winnings, `resolver` the rule that decides a round, `prize` the deal
//! of the prizes and `session` the game from the deal to the final score. `render`
//! draws cards as text, and `random` is the door to the random number generator.

pub mod card;
pub mod hand;
pub mod player;
pub mod prize;
pub mod random;
pub mod render;
pub mod resolver;
pub mod session;
