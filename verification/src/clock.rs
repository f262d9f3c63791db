//! Points in time and spans as whole nanoseconds, and the clocks they come from.

use std::time::{Instant, SystemTime, UNIX_EPOCH};

use vstd::prelude::*;

verus! {

/// A wall-clock time: nanoseconds since the Unix epoch, negative before it.
pub type WallNanos = i128;

/// A monotonic time: nanoseconds since the origin of a [`MonoClock`].
pub type MonoNanos = u128;

/// A length of time in nanoseconds.
pub type Nanos = u128;

/// [`std::time::Instant`], whose contents stay hidden.
#[verifier::external_type_specification]
#[verifier::external_body]
pub struct ExInstant(Instant);

/// [`std::time::SystemTime`], whose contents stay hidden.
#[verifier::external_type_specification]
#[verifier::external_body]
pub struct ExSystemTime(SystemTime);

/// [`std::time::Instant::now`]. Nothing is claimed of the time it returns.
pub assume_specification[ Instant::now ]() -> Instant;

/// [`std::time::SystemTime::now`]. Nothing is claimed of the time it returns.
pub assume_specification[ SystemTime::now ]() -> SystemTime;

/// Calls [`std::time::Instant::elapsed`] and hands on the nanoseconds. What it
/// returns depends on when it is called, so nothing is claimed of it.
#[verifier::external_body]
fn nanos_since(origin: &Instant) -> Nanos {
    origin.elapsed().as_nanos()
}

/// Calls [`std::time::SystemTime::duration_since`] with the Unix epoch and hands on
/// the nanoseconds: `Ok` with those since the epoch, `Err` with those still to go
/// until it. A `SystemTime` shows nothing else of itself that the result could be
/// tied to, so nothing is claimed of it.
#[verifier::external_body]
fn since_epoch(t: SystemTime) -> Result<Nanos, Nanos> {
    match t.duration_since(UNIX_EPOCH) {
        Ok(after) => Ok(after.as_nanos()),
        Err(before) => Err(before.duration().as_nanos()),
    }
}

/// A distance from the epoch, `Ok` after it and `Err` before it, as a point in time.
/// What does not fit saturates.
pub open spec fn wall_time(since_epoch: Result<Nanos, Nanos>) -> int {
    match since_epoch {
        Ok(after) => if after <= i128::MAX {
            after as int
        } else {
            i128::MAX as int
        },
        Err(before) => if before <= i128::MAX {
            -(before as int)
        } else {
            i128::MIN as int
        },
    }
}

/// The point in time that is a given distance from the epoch, `Ok` after it and
/// `Err` before it.
pub fn wall_nanos(since_epoch: Result<Nanos, Nanos>) -> (r: WallNanos)
    ensures
        r == wall_time(since_epoch),
{
    match since_epoch {
        Ok(after) => if after <= i128::MAX as u128 {
            after as i128
        } else {
            i128::MAX
        },
        Err(before) => if before <= i128::MAX as u128 {
            -(before as i128)
        } else {
            i128::MIN
        },
    }
}

/// What the wall clock shows now, as a distance from the epoch. It rests on when it is
/// called and on the machine, so nothing is promised of it.
pub(crate) fn wall_reading() -> Result<Nanos, Nanos> {
    since_epoch(SystemTime::now())
}

/// The wall clock now. What it shows rests on when it is called and on the machine, so
/// nothing is promised of it; [`wall_nanos`] says which point in time is returned for
/// each distance from the epoch that it may show.
pub fn wall_now() -> WallNanos {
    wall_nanos(wall_reading())
}

/// A monotonic clock that counts from its own start.
pub struct MonoClock {
    origin: Instant,
}

impl MonoClock {
    /// Start the clock at zero. Where that lies rests on when it is called, so nothing is
    /// promised of it.
    pub fn start() -> Self {
        MonoClock { origin: Instant::now() }
    }

    /// Nanoseconds since the clock was started, as `std` counts them. They rest on when it
    /// is called, so nothing is promised of them.
    pub fn now(&self) -> MonoNanos {
        nanos_since(&self.origin)
    }
}

} // verus!
