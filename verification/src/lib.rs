//! Core runtime of an interactive sound installation: audio buffers and
//! clipping, recording-ring bookkeeping, event detection by moving-average
//! amplitudes, stretch scheduling, and multi-bus output mixing.
//!
//! Samples are fixed-point `i32` values throughout; the device edge converts
//! to and from the host's floating-point frames outside this crate.

pub mod analysis;
pub mod audio;
pub mod controller;
pub mod channel;
pub mod mixer;
pub mod node;
pub mod ring;
pub mod stretch;
pub mod rng;
