//! The measurement worker, event by event.

use ppk2::error::Error;
use ppk2::measurement::MeasurementMatch;
use ppk2::port::ReadFault;
use ppk2::stream::{ReadClocks, StallKind, DEAD_STREAM_EMPTY_READS, DEAD_STREAM_MIN_SILENCE};
use ppk2::types::LogicPortPins;
use ppk2::worker::{
    panic_payload_message, JoinOutcome, LastWorkerError, MeasurementWorker, PanicPayload,
    ReadOutcome, Signal, StreamFailure, WorkerAction, WorkerEnd, WorkerEvent,
};

const TIMEOUT: u128 = 500_000_000;

fn worker() -> MeasurementWorker {
    MeasurementWorker::new(100_000, LogicPortPins::default(), 1_000, TIMEOUT)
}

fn frame(i: usize) -> [u8; 4] {
    (((i % 64) as u32) << 18).to_le_bytes()
}

fn frames(range: std::ops::Range<usize>) -> Vec<u8> {
    range.flat_map(frame).collect()
}

fn clocks(since: u128) -> ReadClocks {
    ReadClocks { sys: 1_000_000_000_000 + since as i128, mono: 1_000 + since }
}

fn read(w: &mut MeasurementWorker, outcome: ReadOutcome, since: u128) -> WorkerAction {
    w.on_event(WorkerEvent::Read { outcome, now: 1_000 + since })
}

#[test]
fn signals_decide_whether_to_read() {
    let mut w = worker();
    assert!(matches!(w.on_event(WorkerEvent::Signal(Signal::Empty)), WorkerAction::Read));
    assert!(matches!(
        w.on_event(WorkerEvent::Signal(Signal::Stop)),
        WorkerAction::End(WorkerEnd::Clean)
    ));
    assert!(matches!(
        w.on_event(WorkerEvent::Signal(Signal::Disconnected)),
        WorkerAction::End(WorkerEnd::Failed(Error::WorkerSignalError))
    ));
}

#[test]
fn reads_lead_to_a_probe_or_to_another_round() {
    let mut w = worker();
    assert!(matches!(read(&mut w, ReadOutcome::Filled(4), 0), WorkerAction::Probe));
    assert!(matches!(read(&mut w, ReadOutcome::Filled(0), 0), WorkerAction::PollSignal));
    for fault in [ReadFault::TimedOut, ReadFault::WouldBlock, ReadFault::Interrupted] {
        assert!(matches!(read(&mut w, ReadOutcome::Failed(fault), 0), WorkerAction::PollSignal));
    }
    assert!(matches!(
        read(&mut w, ReadOutcome::Failed(ReadFault::Other), 0),
        WorkerAction::End(WorkerEnd::ReadFailed)
    ));
}

/// Zero-length reads and empty-kind errors count alike, and the error carries what was
/// observed.
#[test]
fn sustained_silence_ends_the_stream() {
    let mut w = worker();
    for r in 1..DEAD_STREAM_EMPTY_READS {
        let outcome = if r % 2 == 0 {
            ReadOutcome::Filled(0)
        } else {
            ReadOutcome::Failed(ReadFault::TimedOut)
        };
        assert!(matches!(read(&mut w, outcome, 6_000_000_000), WorkerAction::PollSignal));
    }
    match read(&mut w, ReadOutcome::Filled(0), DEAD_STREAM_MIN_SILENCE) {
        WorkerAction::End(WorkerEnd::Failed(Error::StreamDead { reads, elapsed, timeout })) => {
            assert_eq!((reads, elapsed, timeout), (10, DEAD_STREAM_MIN_SILENCE, TIMEOUT));
        }
        other => panic!("{other:?}"),
    }
}

/// Data starts both conditions of the backstop again.
#[test]
fn data_revives_the_stream() {
    let mut w = worker();
    for _ in 1..DEAD_STREAM_EMPTY_READS {
        read(&mut w, ReadOutcome::Filled(0), 6_000_000_000);
    }
    let bytes = frames(0..1);
    w.on_event(WorkerEvent::Probed {
        clocks: clocks(6_000_000_000),
        main: &bytes,
        probe: &[],
        probe_failed: false,
    });
    for _ in 1..DEAD_STREAM_EMPTY_READS {
        assert!(matches!(
            read(&mut w, ReadOutcome::Filled(0), 60_000_000_000),
            WorkerAction::PollSignal
        ));
    }
    assert!(matches!(
        read(&mut w, ReadOutcome::Filled(0), 60_000_000_000),
        WorkerAction::End(WorkerEnd::Failed(Error::StreamDead { reads: 10, .. }))
    ));
}

fn sent(action: WorkerAction) -> Vec<MeasurementMatch> {
    match action {
        WorkerAction::Send(out) => out,
        other => panic!("{other:?}"),
    }
}

/// Only a probe that worked and found nothing makes the read an anchor. What the
/// probe found is kept.
#[test]
fn only_a_clean_empty_probe_anchors() {
    let mut w = worker();
    let out = sent(w.on_event(WorkerEvent::Probed {
        clocks: clocks(0),
        main: &frames(0..3),
        probe: &frames(3..5),
        probe_failed: false,
    }));
    assert!(out.is_empty());
    assert_eq!(w.held(), 5);
    assert_eq!(w.stall_at(&clocks(1_000)), None);
    assert_eq!(w.stall_at(&clocks(2_000_000_000)), Some(StallKind::DeviceStall));
    let out = sent(w.on_event(WorkerEvent::Probed {
        clocks: clocks(1_000),
        main: &frames(5..6),
        probe: &[],
        probe_failed: true,
    }));
    assert!(out.is_empty());
    let out = sent(w.on_event(WorkerEvent::Probed {
        clocks: clocks(2_000),
        main: &frames(6..7),
        probe: &[],
        probe_failed: false,
    }));
    assert_eq!(out.len(), 7);
}

#[test]
fn a_dropped_receiver_ends_the_stream_cleanly() {
    let mut w = worker();
    assert!(matches!(
        w.on_event(WorkerEvent::Sent { received: true }),
        WorkerAction::PollSignal
    ));
    assert!(matches!(
        w.on_event(WorkerEvent::Sent { received: false }),
        WorkerAction::End(WorkerEnd::Clean)
    ));
}

#[test]
fn panic_payloads_are_rendered() {
    assert_eq!(panic_payload_message(&PanicPayload::Literal("boom")), "boom");
    assert_eq!(panic_payload_message(&PanicPayload::Formatted("n = 3".to_string())), "n = 3");
    assert_eq!(panic_payload_message(&PanicPayload::Other), "non-string panic payload");
}

/// The error of the last stream can be taken once, and a stream that ended cleanly
/// leaves none.
#[test]
fn last_worker_error_is_taken_once() {
    let mut last: LastWorkerError<&str> = LastWorkerError::new();
    assert!(last.take_last_worker_error().is_none());
    last.on_stopped(JoinOutcome::Failed("port gone"));
    assert!(matches!(
        last.take_last_worker_error(),
        Some(StreamFailure::Worker("port gone"))
    ));
    assert!(last.take_last_worker_error().is_none());
    last.on_stopped(JoinOutcome::Panicked(PanicPayload::Literal("boom")));
    match last.take_last_worker_error() {
        Some(StreamFailure::Panic(text)) => {
            assert_eq!(text, "measurement worker thread panicked: boom")
        }
        other => panic!("{other:?}"),
    }
    last.on_stopped(JoinOutcome::Failed("first"));
    last.on_stopped(JoinOutcome::Finished);
    assert!(last.take_last_worker_error().is_none());
}
