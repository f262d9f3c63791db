//! Commands, the port, and the steps of opening, starting and stopping.

use ppk2::clock::{wall_nanos, wall_now, MonoClock};
use ppk2::cmd::{Command, Exchange};
use ppk2::error::Error;
use ppk2::port::{
    coalescing_timeouts, immediate_timeouts, is_empty_read, probe_outcome, read_len,
    timeout_millis, try_find_ppk2_port, CommTimeouts, PortInfo, ProbeRead, ReadFault, UsbId,
};
use ppk2::session::StepOutcome::{Done, Failed, Read};
use ppk2::session::{
    MetadataAction, MetadataRetry, OpenStep, Opening, StartStep, Starting, StepOutcome, StopStep,
    DRAIN_WINDOW,
};
use ppk2::stream::ReadClocks;
use ppk2::types::{DevicePower, MeasurementMode, SourceVoltage};

/// Only the metadata is answered, and its text ends in `END`.
#[test]
fn responses_are_complete_when_nothing_more_comes() {
    let unanswered = [
        Command::AverageStart,
        Command::AverageStop,
        Command::DeviceRunningSet(DevicePower::Enabled),
        Command::RegulatorSet(SourceVoltage::from_millivolts(3300)),
        Command::SetPowerMode(MeasurementMode::Source),
        Command::Reset,
    ];
    for command in unanswered {
        assert_eq!(command.expected_response_len(), 0);
        assert!(command.response_complete(&[]));
        assert!(!command.response_complete(b"x"));
    }
    let metadata = Command::GetMetaData;
    assert_eq!(metadata.expected_response_len(), 512);
    for incomplete in [&b""[..], b"END", b"IA: 56\nEND", b"END\nx", b"eND\n", b"EN\n\n", b"EMD\n"] {
        assert!(!metadata.response_complete(incomplete), "{incomplete:?}");
    }
    assert!(metadata.response_complete(b"END\n"));
    assert!(metadata.response_complete(b"IA: 56\nEND\n"));
}

/// A response is read piece by piece until it is complete.
#[test]
fn exchange_reads_until_the_response_is_complete() {
    assert!(Exchange::new(Command::AverageStop).is_done());
    let mut exchange = Exchange::new(Command::GetMetaData);
    for piece in [&b"IA: 56\nE"[..], b"", b"ND"] {
        assert!(!exchange.is_done());
        exchange.on_bytes(piece);
    }
    assert!(!exchange.is_done());
    exchange.on_bytes(b"\n");
    assert!(exchange.is_done());
    assert_eq!(exchange.response, b"IA: 56\nEND\n");
}

/// Commands are written as an opcode with what they set behind it.
#[test]
fn commands_are_encoded() {
    assert_eq!(Command::AverageStart.bytes(), [0x06]);
    assert_eq!(Command::AverageStop.bytes(), [0x07]);
    assert_eq!(Command::DeviceRunningSet(DevicePower::Disabled).bytes(), [0x0c, 0]);
    assert_eq!(Command::DeviceRunningSet(DevicePower::Enabled).bytes(), [0x0c, 1]);
    assert_eq!(Command::SetPowerMode(MeasurementMode::Ampere).bytes(), [0x11, 1]);
    assert_eq!(Command::SetPowerMode(MeasurementMode::Source).bytes(), [0x11, 2]);
    assert_eq!(Command::GetMetaData.bytes(), [0x19]);
    assert_eq!(Command::Reset.bytes(), [0x20]);
    for (millivolts, high, low) in [
        (0, 0x03, 0x20),
        (800, 0x03, 0x20),
        (1023, 0x03, 0xff),
        (1024, 0x04, 0x00),
        (3300, 0x0c, 0xe4),
        (5000, 0x13, 0x88),
        (u16::MAX, 0x13, 0x88),
    ] {
        let command = Command::RegulatorSet(SourceVoltage::from_millivolts(millivolts));
        assert_eq!(command.bytes(), [0x0d, high, low], "{millivolts} mV");
    }
}

fn port(name: &str, usb: Option<(u16, u16)>) -> PortInfo {
    PortInfo {
        port_name: name.to_string(),
        usb: usb.map(|(vid, pid)| UsbId { vid, pid }),
    }
}

/// The first USB port with the kit's identity is taken.
#[test]
fn kit_port_is_found_by_its_usb_identity() {
    let ports = vec![
        port("a", None),
        port("b", Some((0x1915, 0xc00b))),
        port("c", Some((0x1914, 0xc00a))),
        port("d", Some((0x1915, 0xc00a))),
        port("e", Some((0x1915, 0xc00a))),
    ];
    assert_eq!(try_find_ppk2_port(&ports).unwrap(), "d");
    let others: Vec<PortInfo> = ports.into_iter().take(3).collect();
    assert!(matches!(try_find_ppk2_port(&others), Err(Error::Ppk2NotFound)));
    assert!(matches!(try_find_ppk2_port(&Vec::new()), Err(Error::Ppk2NotFound)));
}

#[test]
fn three_faults_mean_that_nothing_was_waiting() {
    assert!(is_empty_read(&ReadFault::TimedOut));
    assert!(is_empty_read(&ReadFault::WouldBlock));
    assert!(is_empty_read(&ReadFault::Interrupted));
    assert!(!is_empty_read(&ReadFault::Other));
}

/// What a drain probe comes to: bytes are kept, nothing waiting is a success, and the
/// first error is the one that is reported.
#[test]
fn probe_reports_bytes_and_the_first_error() {
    let outcome = |read, restore| {
        let o = probe_outcome::<&str>(read, restore);
        (o.filled, o.error)
    };
    assert_eq!(outcome(ProbeRead::NotReady("set"), None), (0, Some("set")));
    assert_eq!(outcome(ProbeRead::Filled(12), None), (12, None));
    assert_eq!(outcome(ProbeRead::Filled(12), Some("restore")), (12, Some("restore")));
    for fault in [ReadFault::TimedOut, ReadFault::WouldBlock, ReadFault::Interrupted] {
        assert_eq!(outcome(ProbeRead::Failed(fault, "read"), None), (0, None));
        assert_eq!(
            outcome(ProbeRead::Failed(fault, "read"), Some("restore")),
            (0, Some("restore"))
        );
    }
    assert_eq!(
        outcome(ProbeRead::Failed(ReadFault::Other, "read"), Some("restore")),
        (0, Some("read"))
    );
}

#[test]
fn driver_timeouts_keep_the_write_budget() {
    assert_eq!(
        coalescing_timeouts(5, 500),
        CommTimeouts {
            read_interval_timeout: 0,
            read_total_timeout_multiplier: 0,
            read_total_timeout_constant: 5,
            write_total_timeout_multiplier: 0,
            write_total_timeout_constant: 500,
        }
    );
    assert_eq!(
        immediate_timeouts(500),
        CommTimeouts {
            read_interval_timeout: u32::MAX,
            read_total_timeout_multiplier: 0,
            read_total_timeout_constant: 0,
            write_total_timeout_multiplier: 0,
            write_total_timeout_constant: 500,
        }
    );
    assert_eq!(read_len(true), 2048);
    assert_eq!(read_len(false), 4096);
    assert_eq!(timeout_millis(500_999_999), 500);
    assert_eq!(timeout_millis(u32::MAX as u128 * 1_000_000), u32::MAX);
    assert_eq!(timeout_millis(u128::MAX), u32::MAX);
}

/// Runs an opening with one outcome per step, and returns the steps it took.
fn open_with(outcomes: &[(StepOutcome, u128)]) -> (Vec<OpenStep>, Opening) {
    let mut opening = Opening::new();
    let mut steps = vec![opening.step];
    for (outcome, now) in outcomes {
        opening.on_outcome(*outcome, *now);
        steps.push(opening.step);
    }
    (steps, opening)
}

/// Everything but the port, the metadata and the mode may fail.
#[test]
fn opening_survives_what_is_not_essential() {
    let (steps, opening) = open_with(&[
        (Done, 0),
        (Failed, 0),
        (Failed, 0),
        (Failed, 0),
        (Done, 50),
        (Failed, 100),
        (Read(256), 110),
        (Read(13), 120),
        (Failed, 140),
        (Failed, 141),
        (Done, 150),
        (Done, 151),
        (Failed, 152),
    ]);
    assert_eq!(
        steps,
        [
            OpenStep::OpenPort,
            OpenStep::ClearBuffers,
            OpenStep::RaiseDtr,
            OpenStep::StopAveraging,
            OpenStep::Settle,
            OpenStep::ShortenTimeout,
            OpenStep::Drain,
            OpenStep::Drain,
            OpenStep::Drain,
            OpenStep::RestoreTimeout,
            OpenStep::FetchMetadata,
            OpenStep::SetPowerMode,
            OpenStep::Ready,
            OpenStep::Ready,
        ]
    );
    assert_eq!(opening.drained, 269);
    assert_eq!(opening.drain_deadline, 100 + DRAIN_WINDOW);
}

#[test]
fn opening_aborts_where_a_step_is_essential() {
    let (steps, _) = open_with(&[(Failed, 0), (Done, 0)]);
    assert_eq!(steps[1..], [OpenStep::Aborted, OpenStep::Aborted]);
    let to_metadata = [Done, Done, Done, Done, Done, Done, Read(0), Done];
    let mut outcomes: Vec<(StepOutcome, u128)> = to_metadata.iter().map(|o| (*o, 0)).collect();
    outcomes.push((Failed, 0));
    assert_eq!(open_with(&outcomes).1.step, OpenStep::Aborted);
    outcomes.pop();
    outcomes.push((Done, 0));
    outcomes.push((Failed, 0));
    assert_eq!(open_with(&outcomes).1.step, OpenStep::Aborted);
}

/// Draining ends when its time is up, though bytes keep coming.
#[test]
fn draining_is_bounded() {
    let mut opening = Opening::new();
    for _ in 0..6 {
        opening.on_outcome(StepOutcome::Done, 7);
    }
    assert_eq!(opening.step, OpenStep::Drain);
    opening.on_outcome(StepOutcome::Read(1), 7 + DRAIN_WINDOW - 1);
    assert_eq!(opening.step, OpenStep::Drain);
    opening.on_outcome(StepOutcome::Read(1), 7 + DRAIN_WINDOW);
    assert_eq!(opening.step, OpenStep::RestoreTimeout);
    assert_eq!(opening.drained, 2);
}

#[test]
fn metadata_is_asked_for_three_times() {
    let mut retry = MetadataRetry::new();
    assert!(matches!(retry.on_attempt(false), MetadataAction::Retry));
    assert!(matches!(retry.on_attempt(false), MetadataAction::Retry));
    match retry.on_attempt(false) {
        MetadataAction::GiveUp(Error::Parse(what)) => assert_eq!(what, "Metadata"),
        other => panic!("{other:?}"),
    }
    let mut retry = MetadataRetry::new();
    retry.on_attempt(false);
    retry.on_attempt(false);
    assert!(matches!(retry.on_attempt(true), MetadataAction::Accept));
}

#[test]
fn starting_needs_the_port_the_buffer_and_the_stream() {
    let run = |outcomes: &[bool]| {
        let mut starting = Starting::new();
        for ok in outcomes {
            starting.on_outcome(*ok);
        }
        starting
    };
    let all = run(&[true; 6]);
    assert_eq!((all.step, all.native_read_coalescing), (StartStep::Running, true));
    let plain = run(&[true, false, true, true, true, true]);
    assert_eq!((plain.step, plain.native_read_coalescing), (StartStep::Running, false));
    assert_eq!(run(&[false]).step, StartStep::Aborted);
    assert_eq!(run(&[true, true, true, false, true]).step, StartStep::Aborted);
    assert_eq!(run(&[true, true, true, true, true, false]).step, StartStep::Aborted);
}

#[test]
fn stopping_ends_with_the_device() {
    let steps = |coalescing: bool| {
        let mut step = StopStep::SignalWorker;
        let mut seen = vec![step];
        while step != StopStep::ReturnDevice {
            step = step.next(coalescing);
            seen.push(step);
        }
        seen
    };
    assert_eq!(
        steps(true),
        [
            StopStep::SignalWorker,
            StopStep::JoinWorker,
            StopStep::RestoreTimeouts,
            StopStep::StopAveraging,
            StopStep::ReturnDevice,
        ]
    );
    assert_eq!(
        steps(false),
        [
            StopStep::SignalWorker,
            StopStep::JoinWorker,
            StopStep::StopAveraging,
            StopStep::ReturnDevice,
        ]
    );
}

/// Times before the epoch are negative, and what does not fit saturates.
#[test]
fn wall_times_are_signed() {
    assert_eq!(wall_nanos(Ok(5)), 5);
    assert_eq!(wall_nanos(Err(5)), -5);
    assert_eq!(wall_nanos(Ok(u128::MAX)), i128::MAX);
    assert_eq!(wall_nanos(Err(u128::MAX)), i128::MIN);
}

/// Each clock's reading ends up in its own place.
#[test]
fn readings_make_a_pair_of_clocks() {
    assert_eq!(ReadClocks::from_readings(Ok(7), 9), ReadClocks { sys: 7, mono: 9 });
    assert_eq!(ReadClocks::from_readings(Err(7), 0), ReadClocks { sys: -7, mono: 0 });
    assert_eq!(ReadClocks::from_readings(Ok(u128::MAX), 1), ReadClocks { sys: i128::MAX, mono: 1 });
}

/// The clocks show what std's own clocks show.
#[test]
fn clocks_agree_with_the_system() {
    let epoch = std::time::UNIX_EPOCH;
    let before = epoch.elapsed().unwrap().as_nanos() as i128;
    let clock = MonoClock::start();
    let origin = std::time::Instant::now();
    let first = ReadClocks::now(&clock);
    while origin.elapsed().as_millis() < 2 {}
    let second = ReadClocks::now(&clock);
    let after = epoch.elapsed().unwrap().as_nanos() as i128;
    assert!(before <= first.sys && first.sys <= after, "{before} {first:?} {after}");
    assert!(before <= wall_now());
    assert!(second.mono - first.mono < 10_000_000_000);
    assert!(second.mono >= 2_000_000);
    assert!(clock.now() >= second.mono);
}
