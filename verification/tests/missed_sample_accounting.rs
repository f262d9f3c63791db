//! The skipped-raw-sample count reaches the consumer intact: summing `missed` across
//! every emitted `MeasurementMatch`, plus anything still pending when the stream
//! ends, yields the EXACT total number of skipped raw samples.

use std::collections::VecDeque;

use ppk2::measurement::{
    saturating_missed, AdcResult, Measurement, MeasurementAccumulator, MeasurementIterExt,
    MeasurementMatch, Report,
};
use ppk2::types::LogicPortPins;
use ppk2::SPS_MAX;

/// Number of synthetic 4-byte frames in the pristine (pre-deletion) stream.
const N_FRAMES: usize = 60_000;

/// Deliberate dropouts as `(first_frame_index, run_length)`. Each run is
/// physically deleted from the byte stream to emulate samples the host never
/// received. The device counter is 6 bits, so a run of exactly 64 wraps to a zero
/// gap and is undetectable in principle.
const DROPS: &[(usize, usize)] = &[(1_000, 1), (5_000, 7), (12_345, 63), (30_000, 3)];

fn make_frame(i: usize) -> u32 {
    let adc = (i.wrapping_mul(7) & 0x3FFF) as u32; // 14 bits
    let range = (i % 5) as u32; // 0..=4, drives spike-filter path
    let counter = (i % 64) as u32; // consecutive over the logical index
    let logic = (i & 0xFF) as u32; // 8 logic-port bits
    adc | (range << 14) | (counter << 18) | (logic << 24)
}

fn is_dropped(i: usize) -> bool {
    DROPS.iter().any(|&(start, len)| i >= start && i < start + len)
}

/// Emit the stream with `DROPS` physically removed, plus the total number of
/// removed frames.
fn build_stream_with_gaps() -> (Vec<u8>, usize) {
    let mut stream = Vec::with_capacity(N_FRAMES * 4);
    let mut removed = 0usize;
    for i in 0..N_FRAMES {
        if is_dropped(i) {
            removed += 1;
            continue;
        }
        stream.extend_from_slice(&make_frame(i).to_le_bytes());
    }
    (stream, removed)
}

/// Feed the stream in reads of `read_size` and drain it in chunks. Returns
/// `(missed_summed_over_emitted, missed_still_pending, emitted_count)`.
fn run(stream: &[u8], read_size: usize, sps: usize) -> (u64, usize, usize) {
    let pins = LogicPortPins::default();
    let chunk = (SPS_MAX / sps).max(1);

    let mut acc = MeasurementAccumulator::new();
    let mut measurement_buf: VecDeque<Measurement> = VecDeque::with_capacity(SPS_MAX);
    let mut missed = 0usize;
    let mut missed_total = 0u64;
    let mut emitted = 0usize;

    for read in stream.chunks(read_size) {
        missed += acc.feed_into(read, &mut measurement_buf);
        while measurement_buf.len() >= chunk {
            let m = measurement_buf
                .drain(..chunk)
                .collect::<Vec<_>>()
                .combine_matching(missed, 0, pins);
            missed_total += match m {
                MeasurementMatch::Match { missed, .. } => u64::from(missed),
                MeasurementMatch::NoMatch { missed, .. } => u64::from(missed),
                _ => panic!("combining reports no loss"),
            };
            emitted += 1;
            missed = 0;
        }
    }
    (missed_total, missed, emitted)
}

#[test]
fn summed_missed_equals_skipped_sample_count() {
    let (stream, removed) = build_stream_with_gaps();

    let expected_removed: usize = DROPS.iter().map(|&(_, len)| len).sum();
    assert_eq!(removed, expected_removed, "fixture removed the wrong count");
    assert_eq!(stream.len(), (N_FRAMES - removed) * 4);

    // Non-decimating (chunk = 1) and decimating (chunk = 10), each at a small
    // (one-sample) and a large (1024-sample) read size, to prove the accounting
    // is independent of both decimation and read chunking.
    for sps in [SPS_MAX, 10_000usize] {
        for read_size in [4usize, 4096usize] {
            let (missed_total, pending, emitted) = run(&stream, read_size, sps);

            assert!(emitted > 0, "sps={sps} read={read_size}: nothing emitted");
            assert_eq!(
                missed_total + pending as u64,
                removed as u64,
                "sps={sps} read={read_size}: summed `missed` ({missed_total}) + pending \
                 ({pending}) != actually skipped samples ({removed}) -- the consumer's \
                 synthesized timeline would drift"
            );
        }
    }

    println!("{removed} skipped raw samples fully accounted for across all sps/read-size cases");
}

fn low(sample: u64) -> Measurement {
    Measurement {
        sample,
        reading: AdcResult {
            range: 0,
            adc_val: 4,
            restore_averages: false,
            report: Report::Calibrated,
        },
        pins: [false; 8].into(),
    }
}

#[test]
fn missed_survives_the_empty_input_path() {
    // A chunk in which NOTHING matched must still report the pending count;
    // dropping it here would silently lose elapsed-but-sampleless time.
    let empty: Vec<Measurement> = Vec::new();
    match empty.combine(42, 0) {
        MeasurementMatch::NoMatch { missed, .. } => assert_eq!(missed, 42),
        _ => panic!("expected NoMatch for an empty chunk"),
    }
}

#[test]
fn missed_survives_the_pin_filtered_path() {
    // Same, but reached via `combine_matching`'s logic-port filter rejecting
    // every measurement rather than via an empty input.
    let measurements = vec![low(1), low(2)];
    // Require every pin HIGH; all-low measurements cannot match.
    let require_all_high: LogicPortPins = [true; 8].into();
    match measurements.combine_matching(7, 0, require_all_high) {
        MeasurementMatch::NoMatch { missed, .. } => assert_eq!(missed, 7),
        _ => panic!("expected NoMatch when no pins match"),
    }
}

/// A count beyond what is reported clamps.
#[test]
fn missed_clamps_at_the_reported_width() {
    assert_eq!(saturating_missed(0), 0);
    assert_eq!(saturating_missed(u32::MAX as usize), u32::MAX);
    assert_eq!(saturating_missed(u32::MAX as usize + 1), u32::MAX);
    assert_eq!(saturating_missed(usize::MAX), u32::MAX);
    match Vec::<Measurement>::new().combine(usize::MAX, 3) {
        MeasurementMatch::NoMatch { missed, read_at } => {
            assert_eq!((missed, read_at), (u32::MAX, 3))
        }
        _ => panic!("expected NoMatch for an empty chunk"),
    }
}
