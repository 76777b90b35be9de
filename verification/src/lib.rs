//! Smooth-volume engine: a daemon core that turns absolute or relative
//! volume-change requests into evenly paced sequences of discrete
//! volume-set operations against the default audio output.
//!
//! Linear volume is held in fixed-point units of one ten-thousandth, so
//! that `10_000` units stand for the subsystem's nominal full volume.
//! Durations are held in units of one ten-thousandth of a millisecond.

pub mod codec;
pub mod engine;
pub mod volume;
