//! A verified Klondike Solitaire engine: the card model, pile layout,
//! move legality rules, scoring, undo history and hint/auto-play heuristics.
//!
//! Terminal rendering and input decoding are deliberately outside the
//! library; they talk to the engine through plain intents and read-only
//! views of the state.

pub mod card;
pub mod game;
pub mod moves;
pub mod hint;
pub mod input;
pub mod laws;
