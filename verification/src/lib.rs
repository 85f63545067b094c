//! A recurring-event scheduler that drives an audio output level toward
//! configured targets at wall-clock times, ramping smoothly instead of
//! jumping.
//!
//! The crate is organised around three pieces: the occurrence resolver
//! (`schedule::time`), which turns a time-of-day into the next concrete
//! local instant; the `schedule`, an ordered set of (time-of-day, level)
//! targets; and the ramp engine and worker logic (`volume`), which compute
//! eased intermediate levels and decide what to push to the actuator.
//! Actual clock reads and actuator commands are left to the embedding
//! program; everything here is pure logic over plain values, except for a
//! single timezone-resolution call.

pub mod config;
pub mod schedule;
pub mod volume;
