//! A single-table blackjack engine: cards and shoes, hand totals with
//! soft aces, the dealer's fixed drawing policy, and the bookkeeping of a
//! player's bank, pot and insurance side-pot.
pub mod cards;
pub mod game;
