//! The engine of a card game for two players.
//!
//! The players take turns putting a card from their hand into the middle of
//! the table. A card captures the cards in the middle that have its number;
//! captured cards are worth points when the game ends. The engine shuffles
//! and deals from a seed, checks and carries out the moves, keeps a log of
//! everything that happens and counts the score.

pub mod card;
pub mod deck;
pub mod event;
pub mod game;
pub mod integrity;
pub mod rules;
pub mod score;
pub mod shuffle;
pub mod state;

pub use crate::card::{Card, CardNumber, Suit};
pub use crate::deck::Deck;
pub use crate::event::{GameEvent, Seat};
pub use crate::game::{FreshGame, InProgressGame, Played, Refused, Rejection};
pub use crate::shuffle::Shuffle;
pub use crate::state::{GameState, Player};
