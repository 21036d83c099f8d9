//! Sensing-and-control core for a robot that plays an electronic
//! memory-sequence game: it learns per-color light-detection thresholds
//! from the raw sensor signal, classifies noisy analog readings into
//! boolean light states, and runs the turn-based protocol that alternates
//! observing the device's growing color sequence with replaying it.
//!
//! Everything that touches the physical bus (sensor reads, servo writes,
//! wall-clock timing) lives outside this crate; the driver performs each
//! step the protocol asks for and reports the outcome back.

pub mod calibrate;
pub mod classify;
pub mod config;
pub mod game;
