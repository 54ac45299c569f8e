//! Game rules of the Galaxy Force arcade shooter: enemy kinds and their
//! hit points, the player's health and heart animation, wave spawning,
//! collision outcomes, stage progression, HUD contents, menu decisions and
//! music state. Positions, timers and drawing live with the caller; the
//! library decides everything that is not a floating-point computation.

mod config;
mod rng;
pub mod flags;
pub mod audio;
pub mod death;
pub mod enemy;
pub mod hud;
pub mod player;
pub mod playing;

pub use config::{INTERNAL_HEIGHT, INTERNAL_WIDTH, WINDOW_HEIGHT, WINDOW_WIDTH};
