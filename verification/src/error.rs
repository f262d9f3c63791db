//! What can go wrong.

use vstd::prelude::*;

use crate::clock::Nanos;

verus! {

/// Device communication or data parsing error, as far as it is decided here rather
/// than by the port.
#[derive(Debug)]
pub enum Error {
    /// No port of the kit was found.
    Ppk2NotFound,
    /// What the device sent could not be parsed.
    Parse(String),
    /// The channel that carries the stop signal was closed.
    WorkerSignalError,
    /// The measurement stream went silent and stayed silent.
    ///
    /// A single empty read is routine -- see [`SilenceGuard`] -- so this is only
    /// produced after sustained silence, and it means the device stopped streaming
    /// or went away rather than that any one read failed.
    ///
    /// [`SilenceGuard`]: crate::stream::SilenceGuard
    StreamDead {
        /// Consecutive reads that returned no data.
        reads: u32,
        /// How long the port had been silent when the worker gave up.
        elapsed: Nanos,
        /// The port's configured read timeout, for judging whether `reads` and
        /// `elapsed` are consistent with each other.
        timeout: Nanos,
    },
}

} // verus!
