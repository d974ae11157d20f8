//! Core of a dual n-back working-memory trainer: stimulus generation, the
//! trial-by-trial session state machine with its scoring, adaptive leveling,
//! settings, session history and the per-frame play controller.

pub mod game;
pub mod session;
pub mod stimuli;
pub mod config;
pub mod stats;
pub mod play;
