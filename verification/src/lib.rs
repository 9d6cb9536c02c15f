//! Rules engine for a five-seat trick-taking card game: a bidding phase, a
//! card-exchange phase, and a ten-round trick-play phase, ending in a
//! per-side win determination and score.

pub mod card;
pub mod common;
pub mod deck;
pub mod bidding_phase;
pub mod play_phase;
pub mod extra_phase;
pub mod player;
