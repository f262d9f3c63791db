//! Driver logic for the Nordic Power Profiler Kit 2.
//!
//! The kit streams 4-byte sample frames over a serial port. This library parses them
//! ([`frame`], [`measurement`]), places them in time ([`stream`]), and decides what the
//! measurement worker ([`worker`]) and its owner ([`session`], [`port`], [`cmd`]) do
//! next. But for the clocks it does no I/O: whoever drives it performs what it decides
//! on and tells it what came of it. What holds over several calls is proved in
//! [`laws`].
//!
//! Times are whole nanoseconds ([`clock`]). Currents are floating-point numbers, which
//! stay outside: a measurement carries its ADC reading and what the spike filter
//! decided about it, from which the current follows.

use vstd::prelude::*;

pub mod clock;
pub mod cmd;
pub mod error;
pub mod frame;
pub mod laws;
pub mod measurement;
pub mod port;
pub mod session;
pub mod stream;
pub mod types;
pub mod worker;

pub use crate::error::Error;
pub use crate::port::try_find_ppk2_port;

verus! {

/// The device's raw hardware sample rate, in samples/sec.
///
/// The device always streams at this rate; requesting a lower `sps` decimates by
/// AVERAGING `chunk = SPS_MAX / sps` raw samples into one emitted
/// [`measurement::MeasurementMatch`].
///
/// This is also the unit in which [`measurement::MeasurementMatch`]'s `missed` counts
/// are expressed: `missed` counts RAW samples, not decimated output periods.
pub const SPS_MAX: usize = 100_000;

} // verus!
