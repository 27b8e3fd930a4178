//! A single-table blackjack round engine.
//!
//! The library models cards, hands with ace-aware valuation, players with
//! bank balances, and the round state machine that drives turn advancement,
//! the dealer's drawing policy, and wager settlement. Rendering and input
//! capture live outside the library and drive it through `App`'s commands.

pub mod card;
pub mod digits;
pub mod hand;
pub mod outcome;
pub mod table;
