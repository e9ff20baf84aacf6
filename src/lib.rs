//! A learning scheduler and progress tracker for a bird-call identification game.
//!
//! The scheduler (`quiz`) runs one play session over a pack of birds, the progress
//! store (`stats`) keeps counters across sessions, and the pack identifier (`pack`)
//! turns a user-supplied token into a selection of birds to play.

pub mod bird;
pub mod date;
pub mod pack;
pub mod quiz;
pub mod score;
pub mod session;
pub mod stats;
pub mod text;
