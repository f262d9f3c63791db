//! The timestamp contract: `read_at` is the wall-clock CAPTURE time of the first
//! raw sample of the chunk it rides on, samples inside a block are exactly one
//! period apart, and nothing that is emitted ever goes backwards in time.

use ppk2::clock::{Nanos, WallNanos};
use ppk2::measurement::MeasurementMatch;
use ppk2::stream::{ReadClocks, StreamAssembler, RAW_SAMPLE_PERIOD, STALL_GUARD};
use ppk2::types::LogicPortPins;
use ppk2::SPS_MAX;

/// Bytes per raw device sample.
const SAMPLE_BYTES: usize = 4;

/// Default USB full-speed bulk packet size, and the size that most macOS reads
/// return: 16 samples, 160 us of stream.
const PACKET_BYTES: usize = 64;

/// What Windows returns for most reads under native coalescing.
const WIN_READ_BYTES: usize = 2048;

const PERIOD: WallNanos = RAW_SAMPLE_PERIOD as WallNanos;

/// One synthetic 4-byte device frame for logical sample index `i`.
fn frame(i: usize) -> [u8; 4] {
    let adc = (i.wrapping_mul(7) & 0x3FFF) as u32;
    let range = (i % 5) as u32;
    let counter = (i % 64) as u32; // consecutive => no device-side loss
    let logic = (i & 0xFF) as u32;
    (adc | (range << 14) | (counter << 18) | (logic << 24)).to_le_bytes()
}

fn stream(n_frames: usize) -> Vec<u8> {
    (0..n_frames).flat_map(frame).collect()
}

fn base() -> WallNanos {
    1_700_000_000 * 1_000_000_000
}

fn clocks(since: Nanos) -> ReadClocks {
    ReadClocks { sys: base() + since as WallNanos, mono: 4_242 + since }
}

/// Every emission that carries a timestamp, in order.
fn stamps(out: &[MeasurementMatch]) -> Vec<WallNanos> {
    out.iter()
        .filter_map(|m| match *m {
            MeasurementMatch::Match { read_at, .. } | MeasurementMatch::NoMatch { read_at, .. } => {
                Some(read_at)
            }
            _ => None,
        })
        .collect()
}

fn missed_total(out: &[MeasurementMatch]) -> u64 {
    out.iter()
        .map(|m| match *m {
            MeasurementMatch::Match { missed, .. } | MeasurementMatch::NoMatch { missed, .. } => {
                u64::from(missed)
            }
            _ => 0,
        })
        .sum()
}

/// Assert the stream a consumer sees is strictly increasing.
fn assert_strictly_monotonic(out: &[MeasurementMatch], chunk: usize) {
    let ts = stamps(out);
    for (i, w) in ts.windows(2).enumerate() {
        assert!(
            w[1] > w[0],
            "emission {} is not strictly after emission {i} ({:?} then {:?}) -- \
             downstream seam-dedupe would silently drop it",
            i + 1,
            w[0],
            w[1]
        );
    }
    // Within a block, spacing is exact. Across blocks it may jump forward.
    let step = PERIOD * chunk as WallNanos;
    for (i, w) in ts.windows(2).enumerate() {
        let d = w[1] - w[0];
        assert!(
            d >= step,
            "emissions {i} and {} are {d:?} apart, closer than one decimation \
             period ({step:?}) -- the samples would overlap in time",
            i + 1
        );
    }
}

/// Drive the assembler over `bytes`, split into `read_size` reads, each declared
/// `trustable`, with a synthetic clock advanced by exactly the stream time each
/// read carried. That is what a perfect transport with a perfectly constant delay
/// would produce.
fn run_uniform(bytes: &[u8], read_size: usize, sps: usize, trustable: bool) -> Vec<MeasurementMatch> {
    let mut a = StreamAssembler::new(sps, LogicPortPins::default());
    let mut out = Vec::new();
    let mut all = Vec::new();
    let mut elapsed: Nanos = 0;

    for read in bytes.chunks(read_size) {
        let samples = (read.len() / SAMPLE_BYTES) as Nanos;
        // The read completes after its LAST sample was captured, so the clock
        // sits at that sample's capture time.
        elapsed += RAW_SAMPLE_PERIOD * samples;
        out.clear();
        a.on_read(clocks(elapsed), read, &[], trustable, &mut out);
        all.append(&mut out);
    }
    all
}

/// Every read is one 64-byte USB packet and every read drained the port. Each
/// emitted measurement must land on its own true capture time.
#[test]
fn packet_per_read_stream_places_every_sample_at_its_capture_time() {
    let n = 4_000;
    let out = run_uniform(&stream(n), PACKET_BYTES, SPS_MAX, true);

    let ts = stamps(&out);
    assert_eq!(ts.len(), n, "chunk=1 emits one value per raw sample");
    // Sample 0 was captured one period before sample 1, and so on back from the
    // first read's completion at base() + 16 periods.
    let first = base() + PERIOD * 16 - PERIOD * 15;
    for (i, stamp) in ts.iter().enumerate() {
        assert_eq!(
            *stamp,
            first + PERIOD * i as WallNanos,
            "sample {i} is not at its capture time"
        );
    }
    assert_strictly_monotonic(&out, 1);
}

/// 2048-byte reads, all draining. Decimated to 1 ksps, so a chunk is 100 raw
/// samples and every read spans several chunks with a remainder carried across the
/// boundary.
#[test]
fn coalesced_windows_stream_is_contiguous_across_read_boundaries() {
    let sps = 1_000;
    let chunk = SPS_MAX / sps;
    let n = 40_000;
    let out = run_uniform(&stream(n), WIN_READ_BYTES, sps, true);

    let ts = stamps(&out);
    assert!(!ts.is_empty());
    for (i, w) in ts.windows(2).enumerate() {
        assert_eq!(
            w[1] - w[0],
            PERIOD * chunk as WallNanos,
            "chunks {i} and {} are not exactly one decimation period apart -- a \
             chunk completed across a read boundary was mis-placed",
            i + 1
        );
    }
    assert_strictly_monotonic(&out, chunk);
}

/// Decimated output is identical whether it arrives 16 samples at a time or 512,
/// INCLUDING the timestamps.
#[test]
fn output_is_independent_of_read_size() {
    let bytes = stream(40_000);
    for sps in [SPS_MAX, 1_000usize] {
        let small = run_uniform(&bytes, PACKET_BYTES, sps, true);
        let large = run_uniform(&bytes, WIN_READ_BYTES, sps, true);
        assert_eq!(
            stamps(&small),
            stamps(&large),
            "sps={sps}: read size changed the emitted timestamps"
        );
        assert_eq!(
            format!("{small:?}"),
            format!("{large:?}"),
            "sps={sps}: read size changed what was emitted"
        );
    }
}

/// A run of reads that swept up a backlog, followed by one that drained the port.
/// Arrival times inside the drain are deliberately nothing like capture times. The
/// output must still be one contiguous, strictly monotonic run ending at the
/// draining read.
#[test]
fn backlogged_drain_still_produces_one_contiguous_run() {
    let mut a = StreamAssembler::new(SPS_MAX, LogicPortPins::default());
    let mut out = Vec::new();

    // 1020 bytes = 255 samples = 2.55 ms of stream, arriving every 253 us.
    let per_read = 255;
    let n_backlogged = 8;
    for r in 0..n_backlogged {
        a.on_read(
            clocks(253_000 * r as Nanos),
            &(r * per_read..(r + 1) * per_read).flat_map(frame).collect::<Vec<_>>(),
            &[],
            false,
            &mut out,
        );
    }
    assert!(
        out.is_empty(),
        "reads that swept up a backlog must not be emitted on their own arrival \
         times -- doing so is what produces overlapping, non-monotonic output"
    );

    // The drain ends: one more read, and this time nothing was queued behind it.
    let anchor = clocks(253_000 * n_backlogged as Nanos);
    a.on_read(
        anchor,
        &(n_backlogged * per_read..n_backlogged * per_read + 16)
            .flat_map(frame)
            .collect::<Vec<_>>(),
        &[],
        true,
        &mut out,
    );

    let ts = stamps(&out);
    assert_eq!(ts.len(), n_backlogged * per_read + 16);
    assert_eq!(
        *ts.last().unwrap(),
        anchor.sys,
        "the draining read dates its own last sample"
    );
    assert_strictly_monotonic(&out, 1);
    assert!(
        out.iter().all(|m| !matches!(m, MeasurementMatch::Dropped { .. })),
        "nothing was lost here, so nothing may be reported as lost"
    );
}

/// A long stream with realistic transport-delay jitter and a mixture of draining
/// and backlogged reads. Nothing may ever be emitted out of order, and the jitter
/// must be reported as `SeamOverlap`, never as `Dropped`.
#[test]
fn jittery_transport_never_emits_a_backwards_timestamp() {
    let sps = 10_000; // chunk = 10
    let chunk = SPS_MAX / sps;
    let mut a = StreamAssembler::new(sps, LogicPortPins::default());
    let mut out = Vec::new();
    let mut all = Vec::new();

    let per_read = 64; // samples
    let reads = 3_000;
    let mut elapsed: Nanos = 0;

    for r in 0..reads {
        elapsed += RAW_SAMPLE_PERIOD * per_read as Nanos;
        // Transport delay wobbles around a constant. This is what makes a block
        // start before the previous one ended.
        let wobble = RAW_SAMPLE_PERIOD * ((r * 37) % 17) as Nanos;
        let at = clocks(elapsed);
        out.clear();
        a.on_read(
            ReadClocks { sys: at.sys + wobble as WallNanos, mono: at.mono },
            &(r * per_read..(r + 1) * per_read).flat_map(frame).collect::<Vec<_>>(),
            &[],
            // Two reads in five swept up a backlog.
            r % 5 < 3,
            &mut out,
        );
        all.append(&mut out);
    }

    assert_strictly_monotonic(&all, chunk);
    let overlaps = all
        .iter()
        .filter(|m| matches!(m, MeasurementMatch::SeamOverlap { .. }))
        .count();
    assert!(
        overlaps > 0,
        "the fixture never produced a backwards seam, so the guard was not actually exercised"
    );
    assert!(
        all.iter().all(|m| !matches!(m, MeasurementMatch::Dropped { .. })),
        "timing jitter is not sample loss and must never be reported as a hole -- \
         doing so sends someone hunting a USB fault that does not exist"
    );
}

/// Summing `missed` over every emission equals the exact number of raw samples the
/// device skipped.
#[test]
fn missed_accounting_still_balances_exactly() {
    // Run lengths stay in 1..64: the device counter is 6 bits, so a run of
    // exactly 64 wraps to a zero gap and is undetectable in principle.
    let drops: &[(usize, usize)] = &[(1_000, 1), (5_000, 7), (12_345, 63), (30_000, 3)];
    let removed: u64 = drops.iter().map(|&(_, n)| n as u64).sum();

    let mut bytes = Vec::new();
    for i in 0..60_000usize {
        if drops.iter().any(|&(s, n)| i >= s && i < s + n) {
            continue;
        }
        bytes.extend_from_slice(&frame(i));
    }

    for sps in [SPS_MAX, 10_000usize] {
        for read_size in [SAMPLE_BYTES, PACKET_BYTES, WIN_READ_BYTES] {
            // Every read draining, so nothing is discarded and everything the
            // device reported must arrive.
            let out = run_uniform(&bytes, read_size, sps, true);
            assert_eq!(
                missed_total(&out),
                removed,
                "sps={sps} read={read_size}: summed `missed` != skipped samples"
            );
        }
    }
}

/// A stall longer than the guard discards what was held and says so. The samples
/// that arrive afterwards are placed on the new read, not stitched onto the old
/// run.
#[test]
fn stall_reports_loss_rather_than_stitching_across_it() {
    let mut a = StreamAssembler::new(SPS_MAX, LogicPortPins::default());
    let mut out = Vec::new();

    a.on_read(clocks(0), &stream(512), &[], false, &mut out);
    assert!(out.is_empty());

    let gap = STALL_GUARD + 500 * 1_000_000;
    a.on_read(
        clocks(gap),
        &(512..528).flat_map(frame).collect::<Vec<_>>(),
        &[],
        true,
        &mut out,
    );

    let dropped: Vec<u64> = out
        .iter()
        .filter_map(|m| match *m {
            MeasurementMatch::Dropped { samples, .. } => Some(samples),
            _ => None,
        })
        .collect();
    assert_eq!(dropped, vec![512], "the stale run must be reported as lost");
    assert_eq!(stamps(&out).len(), 16, "only the post-stall read may be emitted");
}

/// Every sample that was sent is in a measurement, in a reported loss or overlap, or
/// still held; and samples come out once, in order.
#[test]
fn every_sample_is_accounted_for_once() {
    let chunk = 7;
    let mut a = StreamAssembler::new(SPS_MAX / chunk, LogicPortPins::default());
    assert_eq!(a.chunk(), chunk);
    let mut out = Vec::new();
    let mut sent = 0usize;
    let mut now: Nanos = 0;
    for r in 0..2_000usize {
        let n = 1 + (r * 31) % 90;
        // Mostly on time, sometimes late, sometimes stalled, sometimes stepped back.
        now += RAW_SAMPLE_PERIOD * n as Nanos;
        if r % 97 == 0 {
            now += STALL_GUARD * 3;
        }
        let mut at = clocks(now);
        if r % 11 == 0 {
            at.sys -= 40 * PERIOD;
        }
        if r > 1_500 {
            at.sys -= 3_600 * 1_000_000_000;
        }
        let bytes: Vec<u8> = (sent..sent + n).flat_map(frame).collect();
        a.on_read(at, &bytes, &[], r % 3 != 1, &mut out);
        sent += n;
    }
    let mut accounted = 0u64;
    let mut last: Option<u64> = None;
    for m in &out {
        accounted += match m {
            MeasurementMatch::Match { measurement, .. } => {
                for s in &measurement.samples {
                    assert!(last.is_none_or(|l| l < *s), "sample {s} came out twice or late");
                    last = Some(*s);
                }
                chunk as u64
            }
            MeasurementMatch::NoMatch { .. } => chunk as u64,
            MeasurementMatch::Dropped { samples, .. } => *samples,
            MeasurementMatch::SeamOverlap { samples_trimmed, .. } => *samples_trimmed,
        };
    }
    // A read that delivers reports every loss so far.
    now += RAW_SAMPLE_PERIOD * 700;
    let mut at = clocks(now);
    at.sys -= 3_600 * 1_000_000_000;
    let bytes: Vec<u8> = (sent..sent + 700).flat_map(frame).collect();
    let before = out.len();
    a.on_read(at, &bytes, &[], true, &mut out);
    sent += 700;
    for m in &out[before..] {
        accounted += match m {
            MeasurementMatch::Match { .. } | MeasurementMatch::NoMatch { .. } => chunk as u64,
            MeasurementMatch::Dropped { samples, .. } => *samples,
            MeasurementMatch::SeamOverlap { samples_trimmed, .. } => *samples_trimmed,
        };
    }
    assert!(a.held() < chunk);
    assert_eq!(accounted + a.held() as u64, sent as u64);
}
