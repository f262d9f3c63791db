//! Opening the device, starting a measurement and stopping it: which steps are
//! taken, in which order, and what their failure means.

use vstd::prelude::*;

use crate::clock::{MonoNanos, Nanos};
use crate::error::Error;

verus! {

/// Baud rate of the port.
pub const BAUD_RATE: u32 = 9600;

/// Timeout of the port.
pub const PORT_TIMEOUT: Nanos = 500_000_000;

/// How long the device is given to stop streaming.
pub const SETTLE_TIME: Nanos = 50_000_000;

/// Timeout of the port while stale bytes are drained.
pub const DRAIN_TIMEOUT: Nanos = 20_000_000;

/// How long stale bytes are drained at most.
pub const DRAIN_WINDOW: Nanos = 500_000_000;

/// Bytes read at once while stale bytes are drained.
pub const DRAIN_BUF_BYTES: usize = 256;

/// How often the metadata is asked for.
pub const METADATA_ATTEMPTS: u32 = 3;

/// A step in opening the device.
#[derive(Clone, Copy, Debug, PartialEq, Eq, Structural)]
pub enum OpenStep {
    /// Open the port.
    OpenPort,
    /// Clear the port's buffers.
    ClearBuffers,
    /// Raise the data terminal ready line, which Windows needs.
    RaiseDtr,
    /// Stop the stream that an earlier client may have left running. The metadata
    /// cannot be parsed out of it.
    StopAveraging,
    /// Wait for [`SETTLE_TIME`].
    Settle,
    /// Set the port's timeout to [`DRAIN_TIMEOUT`].
    ShortenTimeout,
    /// Read stale bytes.
    Drain,
    /// Set the port's timeout back.
    RestoreTimeout,
    /// Get the metadata.
    FetchMetadata,
    /// Set the measurement mode.
    SetPowerMode,
    /// The device is ready.
    Ready,
    /// The device cannot be opened.
    Aborted,
}

/// What a step came to.
#[derive(Clone, Copy, Debug, PartialEq, Eq, Structural)]
pub enum StepOutcome {
    /// It succeeded.
    Done,
    /// It was a read, and returned this many bytes.
    Read(usize),
    /// It failed.
    Failed,
}

impl OpenStep {
    /// The place of a step in the order.
    pub open spec fn rank(self) -> nat {
        match self {
            OpenStep::OpenPort => 0,
            OpenStep::ClearBuffers => 1,
            OpenStep::RaiseDtr => 2,
            OpenStep::StopAveraging => 3,
            OpenStep::Settle => 4,
            OpenStep::ShortenTimeout => 5,
            OpenStep::Drain => 6,
            OpenStep::RestoreTimeout => 7,
            OpenStep::FetchMetadata => 8,
            OpenStep::SetPowerMode => 9,
            OpenStep::Ready => 10,
            OpenStep::Aborted => 11,
        }
    }

    /// Whether the device cannot be used if the step fails. Every other step is
    /// taken on the chance that it helps.
    pub open spec fn essential(self) -> bool {
        self is OpenPort || self is FetchMetadata || self is SetPowerMode
    }

    /// Whether there is nothing left to do.
    pub open spec fn ended(self) -> bool {
        self is Ready || self is Aborted
    }
}

/// The device on its way to being opened.
#[derive(Clone, Copy, Debug, PartialEq, Eq, Structural)]
pub struct Opening {
    /// The step to be taken now.
    pub step: OpenStep,
    /// When draining ends.
    pub drain_deadline: MonoNanos,
    /// Stale bytes drained.
    pub drained: usize,
}

impl Opening {
    /// Whether draining goes on: the read delivered bytes, and there is time left.
    pub open spec fn drains_on(self, outcome: StepOutcome, now: MonoNanos) -> bool {
        &&& outcome matches StepOutcome::Read(n) && n > 0
        &&& now < self.drain_deadline
    }

    /// Where the step leads if it came to `outcome` at `now`.
    pub open spec fn next_step(self, outcome: StepOutcome, now: MonoNanos) -> OpenStep {
        if self.step.ended() {
            self.step
        } else if self.step.essential() && outcome is Failed {
            OpenStep::Aborted
        } else {
            match self.step {
                OpenStep::OpenPort => OpenStep::ClearBuffers,
                OpenStep::ClearBuffers => OpenStep::RaiseDtr,
                OpenStep::RaiseDtr => OpenStep::StopAveraging,
                OpenStep::StopAveraging => OpenStep::Settle,
                OpenStep::Settle => OpenStep::ShortenTimeout,
                OpenStep::ShortenTimeout => OpenStep::Drain,
                OpenStep::Drain => if self.drains_on(outcome, now) {
                    OpenStep::Drain
                } else {
                    OpenStep::RestoreTimeout
                },
                OpenStep::RestoreTimeout => OpenStep::FetchMetadata,
                OpenStep::FetchMetadata => OpenStep::SetPowerMode,
                _ => OpenStep::Ready,
            }
        }
    }

    /// The state after the step came to `outcome` at `now`. Draining is given
    /// [`DRAIN_WINDOW`] from where it begins.
    pub open spec fn after(self, outcome: StepOutcome, now: MonoNanos) -> Opening {
        Opening {
            step: self.next_step(outcome, now),
            drain_deadline: if self.step is ShortenTimeout {
                now.saturating_add(DRAIN_WINDOW)
            } else {
                self.drain_deadline
            },
            drained: if self.step is Drain {
                match outcome {
                    StepOutcome::Read(n) => self.drained.saturating_add(n),
                    _ => self.drained,
                }
            } else {
                self.drained
            },
        }
    }

    /// Begin with the first step.
    pub fn new() -> (r: Self)
        ensures
            r == (Opening { step: OpenStep::OpenPort, drain_deadline: 0, drained: 0 }),
    {
        Opening { step: OpenStep::OpenPort, drain_deadline: 0, drained: 0 }
    }

    /// Account for the step, which came to `outcome` at `now`, and go on to the next
    /// one.
    pub fn on_outcome(&mut self, outcome: StepOutcome, now: MonoNanos)
        ensures
            *final(self) == old(self).after(outcome, now),
    {
        let failed = match outcome {
            StepOutcome::Failed => true,
            _ => false,
        };
        self.step = match self.step {
            OpenStep::OpenPort => if failed {
                OpenStep::Aborted
            } else {
                OpenStep::ClearBuffers
            },
            OpenStep::ClearBuffers => OpenStep::RaiseDtr,
            OpenStep::RaiseDtr => OpenStep::StopAveraging,
            OpenStep::StopAveraging => OpenStep::Settle,
            OpenStep::Settle => OpenStep::ShortenTimeout,
            OpenStep::ShortenTimeout => {
                self.drain_deadline = now.saturating_add(DRAIN_WINDOW);
                OpenStep::Drain
            },
            OpenStep::Drain => match outcome {
                StepOutcome::Read(n) => {
                    self.drained = self.drained.saturating_add(n);
                    if n > 0 && now < self.drain_deadline {
                        OpenStep::Drain
                    } else {
                        OpenStep::RestoreTimeout
                    }
                },
                _ => OpenStep::RestoreTimeout,
            },
            OpenStep::RestoreTimeout => OpenStep::FetchMetadata,
            OpenStep::FetchMetadata => if failed {
                OpenStep::Aborted
            } else {
                OpenStep::SetPowerMode
            },
            OpenStep::SetPowerMode => if failed {
                OpenStep::Aborted
            } else {
                OpenStep::Ready
            },
            OpenStep::Ready => OpenStep::Ready,
            OpenStep::Aborted => OpenStep::Aborted,
        };
    }
}

/// No step is skipped and none is gone back to. In particular the metadata is only
/// asked for behind a stop and a drain.
pub proof fn law_steps_are_taken_in_order(opening: Opening, outcome: StepOutcome, now: MonoNanos)
    ensures
        ({
            let next = opening.after(outcome, now).step;
            ||| next.rank() == opening.step.rank() + 1 && !opening.step.ended()
            ||| next == opening.step && (opening.step is Drain || opening.step.ended())
            ||| next is Aborted && opening.step.essential() && outcome is Failed
        }),
{
}

/// A step that is not essential leads on whether it succeeds or fails.
pub proof fn law_only_essential_steps_abort(opening: Opening, now: MonoNanos)
    requires
        !opening.step.essential(),
    ensures
        opening.after(StepOutcome::Failed, now).step == opening.after(StepOutcome::Done, now).step,
        !(opening.step is Aborted) ==> !(opening.after(StepOutcome::Failed, now).step is Aborted),
{
}

/// Draining ends with the first read that delivers nothing, and at the latest with
/// the first one that ends when its time is up.
pub proof fn law_draining_ends(opening: Opening, outcome: StepOutcome, now: MonoNanos)
    requires
        opening.step is Drain,
        now >= opening.drain_deadline || outcome == StepOutcome::Read(0) || outcome is Failed,
    ensures
        opening.after(outcome, now).step is RestoreTimeout,
{
}

/// What to do behind an attempt to get the metadata.
#[derive(Debug)]
pub enum MetadataAction {
    /// The metadata is there.
    Accept,
    /// Try again.
    Retry,
    /// Give up with this error.
    GiveUp(Error),
}

/// Counts the attempts to get the metadata, which sometimes fail.
#[derive(Clone, Copy, Debug, PartialEq, Eq, Structural)]
pub struct MetadataRetry {
    /// Attempts that failed.
    pub failed: u32,
}

impl MetadataRetry {
    /// Begin with no attempt.
    pub fn new() -> (r: Self)
        ensures
            r.failed == 0,
    {
        MetadataRetry { failed: 0 }
    }

    /// Account for an attempt. After [`METADATA_ATTEMPTS`] failures it is given up.
    pub fn on_attempt(&mut self, succeeded: bool) -> (r: MetadataAction)
        ensures
            final(self).failed == (if succeeded {
                old(self).failed
            } else {
                old(self).failed.saturating_add(1)
            }),
            r is Accept <==> succeeded,
            r is Retry <==> !succeeded && final(self).failed < METADATA_ATTEMPTS,
            r is GiveUp <==> !succeeded && final(self).failed >= METADATA_ATTEMPTS,
            r matches MetadataAction::GiveUp(e) ==> e matches Error::Parse(what) && what@
                == "Metadata"@,
    {
        if succeeded {
            return MetadataAction::Accept;
        }
        self.failed = self.failed.saturating_add(1);
        if self.failed < METADATA_ATTEMPTS {
            MetadataAction::Retry
        } else {
            MetadataAction::GiveUp(Error::Parse("Metadata".to_string()))
        }
    }
}

/// A step in starting a measurement.
#[derive(Clone, Copy, Debug, PartialEq, Eq, Structural)]
pub enum StartStep {
    /// Give the worker its own handle to the port.
    ClonePort,
    /// Ask the driver to batch reads, where it can.
    CoalesceReads,
    /// Spawn the worker, which waits until it is released.
    SpawnWorker,
    /// Clear the port's input buffer.
    ClearInput,
    /// Release the worker.
    ReleaseWorker,
    /// Make the device stream.
    StartAveraging,
    /// Measurements are streaming.
    Running,
    /// The measurement could not be started.
    Aborted,
}

impl StartStep {
    /// Whether the measurement cannot be started if the step fails.
    pub open spec fn essential(self) -> bool {
        self is ClonePort || self is ClearInput || self is StartAveraging
    }

    /// The place of a step in the order.
    pub open spec fn rank(self) -> nat {
        match self {
            StartStep::ClonePort => 0,
            StartStep::CoalesceReads => 1,
            StartStep::SpawnWorker => 2,
            StartStep::ClearInput => 3,
            StartStep::ReleaseWorker => 4,
            StartStep::StartAveraging => 5,
            StartStep::Running => 6,
            StartStep::Aborted => 7,
        }
    }
}

/// A measurement on its way to being started.
#[derive(Clone, Copy, Debug, PartialEq, Eq, Structural)]
pub struct Starting {
    /// The step to be taken now.
    pub step: StartStep,
    /// Whether the driver batches reads.
    pub native_read_coalescing: bool,
}

impl Starting {
    /// The state after the step, if `succeeded` says whether it did. That the driver
    /// does not batch reads is not fatal: reads are then placed just the same, only
    /// more of them.
    pub open spec fn after(self, succeeded: bool) -> Starting {
        Starting {
            step: if self.step is Running || self.step is Aborted {
                self.step
            } else if self.step.essential() && !succeeded {
                StartStep::Aborted
            } else {
                match self.step {
                    StartStep::ClonePort => StartStep::CoalesceReads,
                    StartStep::CoalesceReads => StartStep::SpawnWorker,
                    StartStep::SpawnWorker => StartStep::ClearInput,
                    StartStep::ClearInput => StartStep::ReleaseWorker,
                    StartStep::ReleaseWorker => StartStep::StartAveraging,
                    _ => StartStep::Running,
                }
            },
            native_read_coalescing: if self.step is CoalesceReads {
                succeeded
            } else {
                self.native_read_coalescing
            },
        }
    }

    /// Begin with the first step.
    pub fn new() -> (r: Self)
        ensures
            r == (Starting { step: StartStep::ClonePort, native_read_coalescing: false }),
    {
        Starting { step: StartStep::ClonePort, native_read_coalescing: false }
    }

    /// Account for the step and go on to the next one.
    pub fn on_outcome(&mut self, succeeded: bool)
        ensures
            *final(self) == old(self).after(succeeded),
    {
        self.step = match self.step {
            StartStep::ClonePort => if succeeded {
                StartStep::CoalesceReads
            } else {
                StartStep::Aborted
            },
            StartStep::CoalesceReads => {
                self.native_read_coalescing = succeeded;
                StartStep::SpawnWorker
            },
            StartStep::SpawnWorker => StartStep::ClearInput,
            StartStep::ClearInput => if succeeded {
                StartStep::ReleaseWorker
            } else {
                StartStep::Aborted
            },
            StartStep::ReleaseWorker => StartStep::StartAveraging,
            StartStep::StartAveraging => if succeeded {
                StartStep::Running
            } else {
                StartStep::Aborted
            },
            StartStep::Running => StartStep::Running,
            StartStep::Aborted => StartStep::Aborted,
        };
    }
}

/// No step of a start is skipped. In particular the worker is released only behind a
/// cleared input buffer, and the device streams only once the worker is released.
pub proof fn law_start_steps_are_taken_in_order(starting: Starting, succeeded: bool)
    requires
        !(starting.step is Running),
        !(starting.step is Aborted),
    ensures
        ({
            let next = starting.after(succeeded).step;
            ||| next.rank() == starting.step.rank() + 1
            ||| next is Aborted && starting.step.essential() && !succeeded
        }),
{
}

/// A step in stopping a measurement.
#[derive(Clone, Copy, Debug, PartialEq, Eq, Structural)]
pub enum StopStep {
    /// Tell the worker to stop.
    SignalWorker,
    /// Wait for the worker to end, and record how it did.
    JoinWorker,
    /// Give the port its own timeouts back.
    RestoreTimeouts,
    /// Make the device stop streaming.
    StopAveraging,
    /// Hand the device back.
    ReturnDevice,
}

impl StopStep {
    /// The step behind this one. Whether it succeeded makes no difference: a broken
    /// stream does not imply a broken port.
    pub open spec fn after(self, native_read_coalescing: bool) -> StopStep {
        match self {
            StopStep::SignalWorker => StopStep::JoinWorker,
            StopStep::JoinWorker => if native_read_coalescing {
                StopStep::RestoreTimeouts
            } else {
                StopStep::StopAveraging
            },
            StopStep::RestoreTimeouts => StopStep::StopAveraging,
            _ => StopStep::ReturnDevice,
        }
    }

    /// The step behind this one, whether or not this one succeeded. The port's
    /// timeouts only need restoring where the driver was asked to batch reads.
    pub fn next(self, native_read_coalescing: bool) -> (r: StopStep)
        ensures
            r == self.after(native_read_coalescing),
    {
        match self {
            StopStep::SignalWorker => StopStep::JoinWorker,
            StopStep::JoinWorker => if native_read_coalescing {
                StopStep::RestoreTimeouts
            } else {
                StopStep::StopAveraging
            },
            StopStep::RestoreTimeouts => StopStep::StopAveraging,
            StopStep::StopAveraging => StopStep::ReturnDevice,
            StopStep::ReturnDevice => StopStep::ReturnDevice,
        }
    }
}

/// The step that a stop has come to after `n` steps from `from`.
pub open spec fn stop_after(from: StopStep, native_read_coalescing: bool, n: nat) -> StopStep
    decreases n,
{
    if n == 0 {
        from
    } else {
        stop_after(from, native_read_coalescing, (n - 1) as nat).after(native_read_coalescing)
    }
}

/// Whatever fails on the way, a stop ends by handing the device back, behind an
/// attempt to make it stop streaming.
pub proof fn law_stop_always_returns_the_device(native_read_coalescing: bool)
    ensures
        stop_after(StopStep::SignalWorker, native_read_coalescing, 4) is ReturnDevice,
        exists|n: nat|
            n < 4 && (#[trigger] stop_after(
                StopStep::SignalWorker,
                native_read_coalescing,
                n,
            )) is StopAveraging,
{
    reveal_with_fuel(stop_after, 5);
    if native_read_coalescing {
        assert(stop_after(StopStep::SignalWorker, native_read_coalescing, 3) is StopAveraging);
    } else {
        assert(stop_after(StopStep::SignalWorker, native_read_coalescing, 2) is StopAveraging);
    }
}

} // verus!
