//! Rules engine for Klondike solitaire: the card model, the card
//! containers (stock, waste, foundations, tableau piles), the legality
//! rules for moving cards between them, and the command parser that
//! turns user input into typed move requests.

pub mod card;
pub mod command;
pub mod config;
pub mod deck;
pub mod foundation;
pub mod game;
pub mod pile;
pub mod stock;
pub mod tableau;
pub mod text;
pub mod waste;
