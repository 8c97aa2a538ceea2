//! Ingestion and canonicalisation of doubles score sheets and player alias
//! files: loading results, the reverse alias index, and normalisation of the
//! player names of every game.
pub mod game;
pub mod aliases;
pub mod normalize;
pub mod score_sheet;
pub mod loading;
pub mod requests;
pub mod player;
pub mod roster;
