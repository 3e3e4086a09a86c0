//! Tap-tempo estimation engine.
//!
//! A tap session turns a stream of monotonic millisecond timestamps into a
//! non-decreasing sequence of offsets relative to the first tap of the
//! session; three estimators turn that offset sequence into a
//! beats-per-minute value, reported as an exact integer ratio so that the
//! caller performs at most one floating-point division for display.

pub mod bpm;
pub mod laws;
pub mod session;
pub mod slopes;
