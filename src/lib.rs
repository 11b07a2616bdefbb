//! A chat bot's core: a word-level Markov chain that writes new messages
//! from archived ones, the sampling of archived messages, and a game in
//! which players guess who wrote a message, with their ratings.
use vstd::prelude::*;

pub mod bot;
pub mod chain_laws;
pub mod game;
pub mod generation;
pub mod leaderboard;
pub mod markov_chain;
pub mod rating;
mod random;
pub mod sampler;
pub mod similarity;
pub mod text;

verus! {

} // verus!
