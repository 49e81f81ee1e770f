//! A two-player card battle: players summon units from their hands, units act
//! at the start of their owner's turn, and the player whose turn begins draws a card.
pub mod types;
pub mod rules;
pub mod units;
pub mod deck;
pub mod turn;
pub mod setup;
pub mod laws;
pub mod unit_laws;

pub use types::{Action, Card, Event, Game, Player, PlayerEvent, Unit, UnitEvent, UnitType};
pub use turn::run_action;
pub use setup::new_game;
