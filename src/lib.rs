//! Game logic of a multiplayer word game: players produce words that contain a
//! required three-letter fragment (a trigram), lose lives when their time runs
//! out, collect letters, and race toward a win condition.
//!
//! - `types`: the records of a game, as the database stores them.
//! - `trigram`: the dictionary of trigrams and the checks of words against it.
//! - `text`, `random`: strings and random choices as the game uses them.
//! - `player`: what a word or a timeout does to one player.
//! - `play`: winners, trigram history, and how a turn ends.
//! - `moves`: one move of a match, from validation to its effects.
//! - `lobby`: the life of a game around its matches.
//! - `laws`: properties of the game, proved over the functions above.

pub mod common;
pub mod laws;
pub mod lobby;
pub mod moves;
pub mod play;
pub mod player;
pub mod random;
pub mod text;
pub mod trigram;
pub mod types;
