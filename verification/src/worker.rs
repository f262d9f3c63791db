//! The measurement worker: what it does next, given what the port and the channels
//! answered, and what its end means for the device.

use vstd::prelude::*;
use vstd::string::StringExecFns;

use crate::clock::{MonoNanos, Nanos};
use crate::error::Error;
use crate::measurement::MeasurementMatch;
use crate::port::{is_empty_read, ReadFault};
use crate::stream::{
    chunk_for, emissions, probe_indicates_drained, AssemblerView, ReadClocks, SilenceGuard,
    StallKind, StreamAssembler,
};
use crate::types::LogicPortPins;

verus! {

/// What the channel that carries the stop signal holds.
#[derive(Clone, Copy, Debug, PartialEq, Eq, Structural)]
pub enum Signal {
    /// No signal yet.
    Empty,
    /// The signal to stop.
    Stop,
    /// Nobody is left to send it.
    Disconnected,
}

/// What a blocking read returned.
#[derive(Clone, Copy, Debug, PartialEq, Eq, Structural)]
pub enum ReadOutcome {
    /// This many bytes.
    Filled(usize),
    /// An error.
    Failed(ReadFault),
}

impl ReadOutcome {
    /// Whether nothing was read although the port works, however the platform
    /// reported it.
    pub open spec fn is_empty(self) -> bool {
        match self {
            ReadOutcome::Filled(n) => n == 0,
            ReadOutcome::Failed(fault) => fault != ReadFault::Other,
        }
    }

    /// Whether the port is broken.
    pub open spec fn is_broken(self) -> bool {
        self == ReadOutcome::Failed(ReadFault::Other)
    }
}

/// What happened.
pub enum WorkerEvent<'a> {
    /// The channel of the stop signal was looked at.
    Signal(Signal),
    /// The blocking read returned.
    Read {
        /// What it returned.
        outcome: ReadOutcome,
        /// When it returned.
        now: MonoNanos,
    },
    /// The blocking read delivered bytes and the drain probe returned.
    Probed {
        /// Both clocks the instant the read returned.
        clocks: ReadClocks,
        /// What the read delivered.
        main: &'a [u8],
        /// What the probe delivered.
        probe: &'a [u8],
        /// Whether something went wrong with the probe.
        probe_failed: bool,
    },
    /// Measurements were sent.
    Sent {
        /// Whether somebody still receives them.
        received: bool,
    },
}

/// Why the worker ended.
#[derive(Debug)]
pub enum WorkerEnd {
    /// It was told to stop, or nobody wants measurements any more.
    Clean,
    /// The blocking read failed, with an error that the port knows.
    ReadFailed,
    /// An error that ends the stream.
    Failed(Error),
}

/// What the worker does next.
#[derive(Debug)]
pub enum WorkerAction {
    /// Look at the channel of the stop signal.
    PollSignal,
    /// Read from the port, blocking.
    Read,
    /// Read both clocks, then probe whether anything is left.
    Probe,
    /// Send these measurements, in order.
    Send(Vec<MeasurementMatch>),
    /// End.
    End(WorkerEnd),
}

/// What a [`MeasurementWorker`] holds between two events.
#[verifier::ext_equal]
pub struct WorkerView {
    /// Places the samples in time.
    pub assembler: AssemblerView,
    /// Watches for a stream that has stopped.
    pub silence: SilenceGuard,
    /// The port's read timeout.
    pub port_timeout: Nanos,
}

impl WorkerView {
    /// What is held after an event.
    pub open spec fn after(self, event: WorkerEvent) -> WorkerView {
        match event {
            WorkerEvent::Read { outcome, now } if outcome.is_empty() => WorkerView {
                silence: self.silence.after_empty_read(),
                ..self
            },
            WorkerEvent::Probed { clocks, main, probe, probe_failed } => WorkerView {
                assembler: self.assembler.on_read(
                    clocks,
                    main@,
                    probe@,
                    trustable(probe@, probe_failed),
                ).0,
                silence: self.silence.after_data(clocks.mono),
                ..self
            },
            _ => self,
        }
    }

    /// Whether `action` is what the worker does behind an event.
    pub open spec fn answers(self, event: WorkerEvent, action: WorkerAction) -> bool {
        match event {
            WorkerEvent::Signal(Signal::Empty) => action is Read,
            WorkerEvent::Signal(Signal::Stop) => action == WorkerAction::End(WorkerEnd::Clean),
            WorkerEvent::Signal(Signal::Disconnected) => action == WorkerAction::End(
                WorkerEnd::Failed(Error::WorkerSignalError),
            ),
            WorkerEvent::Read { outcome, now } => if outcome.is_broken() {
                action == WorkerAction::End(WorkerEnd::ReadFailed)
            } else if outcome.is_empty() {
                match self.silence.after_empty_read().verdict(now) {
                    Some(dead) => action == WorkerAction::End(
                        WorkerEnd::Failed(
                            Error::StreamDead {
                                reads: dead.reads,
                                elapsed: dead.elapsed,
                                timeout: self.port_timeout,
                            },
                        ),
                    ),
                    None => action is PollSignal,
                }
            } else {
                action is Probe
            },
            WorkerEvent::Probed { clocks, main, probe, probe_failed } => {
                &&& action is Send
                &&& emissions(action->Send_0@) == self.assembler.on_read(
                    clocks,
                    main@,
                    probe@,
                    trustable(probe@, probe_failed),
                ).1
            },
            WorkerEvent::Sent { received } => if received {
                action is PollSignal
            } else {
                action == WorkerAction::End(WorkerEnd::Clean)
            },
        }
    }
}

/// Whether a probe shows that the read before it drained the port. A probe that
/// failed leaves this UNKNOWN, and an unknown is not a drain.
pub open spec fn trustable(probe: Seq<u8>, probe_failed: bool) -> bool {
    !probe_failed && probe.len() == 0
}

/// Decides what the measurement worker does. Whoever runs the worker performs the
/// action and hands back the event it led to.
pub struct MeasurementWorker {
    assembler: StreamAssembler,
    silence: SilenceGuard,
    port_timeout: Nanos,
}

impl View for MeasurementWorker {
    type V = WorkerView;

    closed spec fn view(&self) -> WorkerView {
        WorkerView {
            assembler: self.assembler@,
            silence: self.silence,
            port_timeout: self.port_timeout,
        }
    }
}

impl MeasurementWorker {
    /// Start at `now`, for measurements decimated to `sps` samples/sec whose logic
    /// port matches `pins`, on a port with the given read timeout.
    pub fn new(sps: usize, pins: LogicPortPins, now: MonoNanos, port_timeout: Nanos) -> (r: Self)
        ensures
            r@ == (WorkerView {
                assembler: AssemblerView::initial(chunk_for(sps as nat), pins),
                silence: SilenceGuard { consecutive: 0, last_data_at: now },
                port_timeout,
            }),
            r@.assembler.wf(),
    {
        MeasurementWorker {
            assembler: StreamAssembler::new(sps, pins),
            silence: SilenceGuard::new(now),
            port_timeout,
        }
    }

    /// Why the samples held will be discarded by a read at `clocks`; `None` if they will
    /// not. Diagnostic.
    pub fn stall_at(&self, clocks: &ReadClocks) -> (r: Option<StallKind>)
        ensures
            r == self@.assembler.stall(*clocks),
    {
        self.assembler.stall_at(clocks)
    }

    /// Samples currently held. Diagnostic.
    pub fn held(&self) -> (r: usize)
        ensures
            r == self@.assembler.pending.len(),
    {
        self.assembler.held()
    }

    /// Take note of what happened and decide what to do next.
    ///
    /// Each round is one blocking read, then one strictly non-blocking follow-up read
    /// (the drain probe) that answers the only question that matters for placing the
    /// samples in time: was anything still queued behind them?
    pub fn on_event(&mut self, event: WorkerEvent) -> (r: WorkerAction)
        requires
            old(self)@.assembler.wf(),
        ensures
            final(self)@ == old(self)@.after(event),
            old(self)@.answers(event, r),
            final(self)@.assembler.wf(),
    {
        match event {
            WorkerEvent::Signal(signal) => match signal {
                Signal::Empty => WorkerAction::Read,
                Signal::Stop => WorkerAction::End(WorkerEnd::Clean),
                Signal::Disconnected => WorkerAction::End(
                    WorkerEnd::Failed(Error::WorkerSignalError),
                ),
            },
            WorkerEvent::Read { outcome, now } => {
                // An empty read is NOT an error. A genuinely broken port fails with a
                // different error kind. A zero-length `Ok` is the same event as an
                // empty-kind error, just reported differently by the platform, and it
                // must count the same way: left uncounted it would be the one path
                // that can spin without bound.
                let empty = match outcome {
                    ReadOutcome::Filled(n) => n == 0,
                    ReadOutcome::Failed(fault) => {
                        if !is_empty_read(&fault) {
                            return WorkerAction::End(WorkerEnd::ReadFailed);
                        }
                        true
                    },
                };
                if !empty {
                    return WorkerAction::Probe;
                }
                match self.silence.on_empty_read(now) {
                    Some(dead) => WorkerAction::End(
                        WorkerEnd::Failed(
                            Error::StreamDead {
                                reads: dead.reads,
                                elapsed: dead.elapsed,
                                timeout: self.port_timeout,
                            },
                        ),
                    ),
                    None => WorkerAction::PollSignal,
                }
            },
            WorkerEvent::Probed { clocks, main, probe, probe_failed } => {
                self.silence.on_data(clocks.mono);
                let trustable = !probe_failed && probe_indicates_drained(probe.len());
                let mut out: Vec<MeasurementMatch> = Vec::new();
                self.assembler.on_read(clocks, main, probe, trustable, &mut out);
                WorkerAction::Send(out)
            },
            WorkerEvent::Sent { received } => if received {
                WorkerAction::PollSignal
            } else {
                WorkerAction::End(WorkerEnd::Clean)
            },
        }
    }
}

/// What a panic carried.
#[derive(Debug)]
pub enum PanicPayload {
    /// A literal message.
    Literal(&'static str),
    /// A formatted message.
    Formatted(String),
    /// Anything else, which is not printable.
    Other,
}

impl PanicPayload {
    /// What the payload says.
    pub open spec fn message(self) -> Seq<char> {
        match self {
            PanicPayload::Literal(s) => s@,
            PanicPayload::Formatted(s) => s@,
            PanicPayload::Other => "non-string panic payload"@,
        }
    }
}

/// Render what a panic carried as a human-readable string. What is not printable is
/// described generically rather than dropped silently.
pub fn panic_payload_message(payload: &PanicPayload) -> (r: String)
    ensures
        r@ == payload.message(),
{
    match payload {
        PanicPayload::Literal(s) => (*s).to_owned(),
        PanicPayload::Formatted(s) => s.clone(),
        PanicPayload::Other => "non-string panic payload".to_string(),
    }
}

/// How the worker's thread ended.
#[derive(Debug)]
pub enum JoinOutcome<E> {
    /// Without an error.
    Finished,
    /// With an error.
    Failed(E),
    /// In a panic.
    Panicked(PanicPayload),
}

/// What ended a measurement stream abnormally.
#[derive(Debug)]
pub enum StreamFailure<E> {
    /// The worker returned this error.
    Worker(E),
    /// The worker panicked, as this message says.
    Panic(String),
}

/// Whether `failure` is what is to be recorded of how the worker ended.
pub open spec fn records<E>(failure: Option<StreamFailure<E>>, outcome: JoinOutcome<E>) -> bool {
    match outcome {
        JoinOutcome::Finished => failure is None,
        JoinOutcome::Failed(e) => failure == Some(StreamFailure::Worker(e)),
        JoinOutcome::Panicked(payload) => failure matches Some(StreamFailure::Panic(text)) && text@
            == "measurement worker thread panicked: "@ + payload.message(),
    }
}

/// The error that ended the last measurement stream, kept with the device. The device
/// itself is handed back whatever became of the stream.
#[derive(Debug)]
pub struct LastWorkerError<E> {
    /// The error, if the last stream ended abnormally and nobody took it yet.
    pub failure: Option<StreamFailure<E>>,
}

impl<E> LastWorkerError<E> {
    /// No stream has ended yet.
    pub fn new() -> (r: Self)
        ensures
            r.failure is None,
    {
        LastWorkerError { failure: None }
    }

    /// Record how the worker of a stream that is being stopped ended. A stream that
    /// ended cleanly leaves nothing behind of an earlier one.
    pub fn on_stopped(&mut self, outcome: JoinOutcome<E>)
        ensures
            records(final(self).failure, outcome),
    {
        self.failure = match outcome {
            JoinOutcome::Finished => None,
            JoinOutcome::Failed(e) => Some(StreamFailure::Worker(e)),
            JoinOutcome::Panicked(payload) => {
                let mut text = "measurement worker thread panicked: ".to_string();
                text.append(panic_payload_message(&payload).as_str());
                Some(StreamFailure::Panic(text))
            },
        };
    }

    /// Take the error that ended the last measurement stream, if it ended abnormally.
    /// Clears the stored error, so a second call returns `None`.
    pub fn take_last_worker_error(&mut self) -> (r: Option<StreamFailure<E>>)
        ensures
            r == old(self).failure,
            final(self).failure is None,
    {
        self.failure.take()
    }
}

} // verus!
