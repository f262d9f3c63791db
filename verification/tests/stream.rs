//! The assembler and the silence guard, read by read.

use ppk2::clock::{MonoNanos, Nanos, WallNanos};
use ppk2::measurement::MeasurementMatch;
use ppk2::stream::{
    add_samples, classify_stall, probe_indicates_drained, sub_samples, ReadClocks, SilenceGuard,
    StallKind, StreamAssembler, DEAD_STREAM_EMPTY_READS, RAW_SAMPLE_PERIOD,
    RING_CAPACITY_SAMPLES, SEAM_MAX_OVERLAP, STALL_GUARD,
};
use ppk2::types::LogicPortPins;
use ppk2::SPS_MAX;

const PERIOD: WallNanos = RAW_SAMPLE_PERIOD as WallNanos;

fn secs(n: u128) -> Nanos {
    n * 1_000_000_000
}

fn millis(n: u128) -> Nanos {
    n * 1_000_000
}

fn micros(n: u128) -> Nanos {
    n * 1_000
}

/// One synthetic 4-byte device frame for logical sample index `i`, with a
/// consecutive 6-bit counter so the parser reports no skipped samples.
fn frame(i: usize) -> [u8; 4] {
    let adc = (i.wrapping_mul(7) & 0x3FFF) as u32;
    let range = (i % 5) as u32;
    let counter = (i % 64) as u32;
    let logic = (i & 0xFF) as u32;
    (adc | (range << 14) | (counter << 18) | (logic << 24)).to_le_bytes()
}

fn frames(range: std::ops::Range<usize>) -> Vec<u8> {
    range.flat_map(frame).collect()
}

fn base() -> WallNanos {
    secs(1_700_000_000) as WallNanos
}

/// Where the monotonic clock stands when a test begins.
fn mono() -> MonoNanos {
    secs(77)
}

/// The clocks `since` after the beginning.
fn clocks_after(since: Nanos) -> ReadClocks {
    ReadClocks { sys: base() + since as WallNanos, mono: mono() + since }
}

fn clocks(sys: WallNanos, mono: MonoNanos) -> ReadClocks {
    ReadClocks { sys, mono }
}

fn assembler(sps: usize) -> StreamAssembler {
    StreamAssembler::new(sps, LogicPortPins::default())
}

fn stamps(out: &[MeasurementMatch]) -> Vec<WallNanos> {
    out.iter()
        .filter_map(|m| match *m {
            MeasurementMatch::Match { read_at, .. } | MeasurementMatch::NoMatch { read_at, .. } => {
                Some(read_at)
            }
            _ => None,
        })
        .collect()
}

fn drops(out: &[MeasurementMatch]) -> Vec<(WallNanos, u64)> {
    out.iter()
        .filter_map(|m| match *m {
            MeasurementMatch::Dropped { at, samples } => Some((at, samples)),
            _ => None,
        })
        .collect()
}

fn n_dropped(out: &[MeasurementMatch]) -> usize {
    drops(out).len()
}

/// A drained read anchors its own block: the LAST sample it delivered is
/// dated by the read, and the first is back-dated by `len - 1` periods.
#[test]
fn trustable_read_back_dates_to_its_first_sample() {
    let mut a = assembler(SPS_MAX);
    let mut out = Vec::new();
    let t = base();

    a.on_read(clocks(t, mono()), &frames(0..16), &[], true, &mut out);

    let ts = stamps(&out);
    assert_eq!(ts.len(), 16, "chunk=1 must emit one value per raw sample");
    assert_eq!(ts[15], t, "the last sample of the block is the one the read dates");
    assert_eq!(
        ts[0],
        t - PERIOD * 15,
        "the first sample must be back-dated by the block's own duration"
    );
    for (i, w) in ts.windows(2).enumerate() {
        assert_eq!(
            w[1] - w[0],
            PERIOD,
            "samples {i} and {} are not exactly one period apart",
            i + 1
        );
    }
}

/// Decimated emissions are spaced by `chunk` periods and each is stamped with
/// the capture time of the FIRST raw sample it averages.
#[test]
fn decimated_block_stamps_the_first_sample_of_each_chunk() {
    let sps = 10_000; // chunk = 10
    let mut a = assembler(sps);
    let mut out = Vec::new();
    let t = base();

    a.on_read(clocks(t, mono()), &frames(0..40), &[], true, &mut out);

    let ts = stamps(&out);
    assert_eq!(ts.len(), 4);
    // 40 samples, last one at `t`, so the first is at t - 39 periods.
    let first = t - PERIOD * 39;
    for (c, stamp) in ts.iter().enumerate() {
        assert_eq!(
            *stamp,
            first + PERIOD * (c as WallNanos * 10),
            "chunk {c} is not stamped at its own first raw sample"
        );
    }
}

/// Samples delivered by reads that did NOT drain the port are held, and when a
/// draining read finally arrives the held run is pinned backward so it butts
/// against the new block.
#[test]
fn untrusted_run_is_pinned_backward_onto_the_next_drained_read() {
    let mut a = assembler(SPS_MAX);
    let mut out = Vec::new();

    // Three backlogged reads, 253 us apart, each carrying 255 samples
    // (2.55 ms of stream). None drained the port.
    for r in 0..3usize {
        a.on_read(
            clocks_after(micros(253 * r as u128)),
            &frames(r * 255..(r + 1) * 255),
            &[],
            false,
            &mut out,
        );
        assert!(out.is_empty(), "untrusted read {r} must emit nothing");
    }
    assert_eq!(a.held(), 765);

    // A fourth read drains the port and carries 100 more samples.
    let anchor = base() + micros(759) as WallNanos;
    a.on_read(clocks_after(micros(759)), &frames(765..865), &[], true, &mut out);

    let ts = stamps(&out);
    assert_eq!(ts.len(), 865, "the whole held run must be emitted at once");
    assert_eq!(n_dropped(&out), 0, "nothing was lost, so nothing is Dropped");
    assert_eq!(ts[864], anchor, "the anchor read still dates its own last sample");
    assert_eq!(
        ts[0],
        anchor - PERIOD * 864,
        "the held run must be pinned back from the anchor, not from its own arrival times"
    );
    for w in ts.windows(2) {
        assert_eq!(w[1] - w[0], PERIOD, "pinning produced a non-contiguous run");
    }
}

/// A host suspend: the wall clock jumps 225 s while the monotonic clock
/// advances only 622 ms. The held run is stale and must be discarded and reported.
#[test]
fn suspend_invisible_to_the_monotonic_clock_still_discards_held_samples() {
    let mut a = assembler(SPS_MAX);
    let mut out = Vec::new();
    let t0 = base();
    let m0 = mono();

    a.on_read(clocks(t0, m0), &frames(0..500), &[], false, &mut out);
    assert!(out.is_empty());
    assert_eq!(a.held(), 500);

    let after = clocks(t0 + secs(225) as WallNanos, m0 + millis(622));
    a.on_read(after, &frames(500..600), &[], true, &mut out);

    assert_eq!(n_dropped(&out), 1, "the stale run must be reported as loss");
    let dropped_samples = out
        .iter()
        .find_map(|m| match *m {
            MeasurementMatch::Dropped { samples, .. } => Some(samples),
            _ => None,
        })
        .expect("a Dropped event");
    assert_eq!(dropped_samples, 500);

    let ts = stamps(&out);
    assert_eq!(ts.len(), 100, "only the post-suspend read may be emitted");
    assert_eq!(ts[99], after.sys);
}

/// Repeated stalls emit one drop event, not one per stall.
#[test]
fn repeated_stalls_emit_nothing_until_caught_up() {
    let mut a = assembler(SPS_MAX);
    let mut out = Vec::new();

    a.on_read(clocks_after(0), &frames(0..100), &[], false, &mut out);
    for r in 1..4u128 {
        a.on_read(clocks_after(secs(10 * r)), &frames(0..100), &[], false, &mut out);
    }
    assert_eq!(
        n_dropped(&out),
        1,
        "three stalls in a row must not produce three drop events"
    );
}

/// What repeated stalls discarded rides out in full with the next data.
#[test]
fn silent_stalls_are_reported_with_the_next_data() {
    let mut a = assembler(SPS_MAX);
    let mut out = Vec::new();

    a.on_read(clocks_after(0), &frames(0..100), &[], false, &mut out);
    a.on_read(clocks_after(secs(10)), &frames(100..120), &[], false, &mut out);
    a.on_read(clocks_after(secs(20)), &frames(120..127), &[], false, &mut out);
    assert_eq!(drops(&out), vec![(base() + secs(10) as WallNanos, 100)]);
    out.clear();

    a.on_read(clocks_after(secs(30)), &frames(127..130), &[], true, &mut out);
    let at = base() + secs(30) as WallNanos - 2 * PERIOD;
    assert_eq!(drops(&out), vec![(at, 27)]);
    assert_eq!(stamps(&out), vec![at, at + PERIOD, at + 2 * PERIOD]);
}

/// A block whose first sample lands before the last delivered one is TRIMMED at
/// the front, never shifted, and reports `SeamOverlap` rather than `Dropped`.
#[test]
fn backwards_seam_is_trimmed_at_the_front_and_reported_as_overlap() {
    let mut a = assembler(SPS_MAX);
    let mut out = Vec::new();
    let t0 = base();
    let m0 = mono();

    a.on_read(clocks(t0, m0), &frames(0..100), &[], true, &mut out);
    let last_delivered = *stamps(&out).last().unwrap();
    assert_eq!(last_delivered, t0);
    out.clear();

    // The next read carries 100 more samples but arrives only 70 periods
    // later, because the transport delay shrank. Its block therefore reaches
    // 29 periods back into already-delivered time.
    let at = t0 + PERIOD * 70;
    a.on_read(clocks(at, m0 + millis(1)), &frames(100..200), &[], true, &mut out);

    let (trimmed, overlap) = out
        .iter()
        .find_map(|m| match *m {
            MeasurementMatch::SeamOverlap { samples_trimmed, overlap, .. } => {
                Some((samples_trimmed, overlap))
            }
            _ => None,
        })
        .expect("a SeamOverlap event");
    assert_eq!(overlap, RAW_SAMPLE_PERIOD * 29, "the reported overlap must be the real one");
    assert_eq!(trimmed, 30, "floor(overlap / period) + 1 samples");
    assert_eq!(n_dropped(&out), 0, "a seam overlap is jitter, not a hole");

    let ts = stamps(&out);
    assert_eq!(ts.len(), 100 - 30);
    assert!(
        ts[0] > last_delivered,
        "the first surviving sample must be strictly after the seam"
    );
    assert_eq!(
        *ts.last().unwrap(),
        at,
        "trimming must not move the surviving samples: every one keeps its own true computed time"
    );
}

/// A block lying entirely inside already-delivered time is dropped whole, and
/// still reports the overlap rather than a hole.
#[test]
fn block_entirely_inside_delivered_time_is_dropped_whole() {
    let mut a = assembler(SPS_MAX);
    let mut out = Vec::new();
    let t0 = base();
    let m0 = mono();

    a.on_read(clocks(t0, m0), &frames(0..1000), &[], true, &mut out);
    out.clear();

    // 10 samples arriving with a stamp far behind the delivered edge.
    let at = t0 - PERIOD * 500;
    a.on_read(clocks(at, m0 + millis(1)), &frames(1000..1010), &[], true, &mut out);

    assert!(stamps(&out).is_empty(), "nothing may be emitted");
    assert_eq!(n_dropped(&out), 0);
    assert!(matches!(
        out.as_slice(),
        [MeasurementMatch::SeamOverlap { samples_trimmed: 10, .. }]
    ));
}

/// An overlap larger than `SEAM_MAX_OVERLAP` is a wall-clock step, not jitter, so
/// the timeline is declared broken and re-based instead.
#[test]
fn large_backwards_step_rebases_instead_of_trimming_forever() {
    let mut a = assembler(SPS_MAX);
    let mut out = Vec::new();
    let t0 = base();
    let m0 = mono();

    a.on_read(clocks(t0, m0), &frames(0..100), &[], true, &mut out);
    out.clear();

    // Wall clock steps back an hour; the monotonic clock barely moves.
    let at = t0 - secs(3600) as WallNanos;
    a.on_read(clocks(at, m0 + millis(1)), &frames(100..200), &[], true, &mut out);

    assert_eq!(
        n_dropped(&out),
        1,
        "a backwards clock step breaks the timeline and must say so -- exactly \
         once, even though it trips both the stall guard and the seam guard"
    );
    assert_eq!(
        stamps(&out).len(),
        100,
        "the samples themselves are fine and must still be delivered"
    );
}

/// Two small steps back that the stall guard lets pass add up to a break of the
/// timeline. It is reported even where the read that shows it completes no chunk.
#[test]
fn creeping_step_back_is_reported_with_the_next_data() {
    let mut a = assembler(1_000); // chunk = 100
    let mut out = Vec::new();
    let t0 = base();
    let m0 = mono();

    a.on_read(clocks(t0, m0), &frames(0..100), &[], true, &mut out);
    assert_eq!(stamps(&out), vec![t0 - 99 * PERIOD]);
    out.clear();

    let back = millis(900) as WallNanos;
    a.on_read(clocks(t0 - back, m0 + millis(1)), &frames(100..110), &[], false, &mut out);
    a.on_read(clocks(t0 - 2 * back, m0 + millis(2)), &frames(110..120), &[], true, &mut out);
    assert!(out.is_empty(), "twenty samples are no chunk");
    assert_eq!(a.held(), 20);

    let at = t0 - 2 * back + PERIOD * 80;
    a.on_read(clocks(at, m0 + millis(3)), &frames(120..200), &[], true, &mut out);
    let first = at - 99 * PERIOD;
    assert_eq!(drops(&out), vec![(first, 0)], "time went backwards and must say so");
    assert_eq!(stamps(&out), vec![first]);
}

/// Ring overflow discards the oldest samples and reports them.
#[test]
fn ring_overflow_discards_oldest_and_reports_it() {
    let mut a = assembler(SPS_MAX);
    let mut out = Vec::new();

    // Fill past capacity with untrusted reads, staying inside the stall guard
    // so the guard does not fire first.
    let per_read = 5_000;
    let reads = RING_CAPACITY_SAMPLES / per_read + 2;
    for r in 0..reads {
        a.on_read(
            clocks_after(millis(10 * r as u128)),
            &frames(r * per_read..(r + 1) * per_read),
            &[],
            false,
            &mut out,
        );
    }
    assert_eq!(a.held(), RING_CAPACITY_SAMPLES);

    a.on_read(
        clocks_after(millis(10 * reads as u128)),
        &frames(reads * per_read..reads * per_read + 10),
        &[],
        true,
        &mut out,
    );
    assert_eq!(n_dropped(&out), 1, "overflow must be reported");
    assert_eq!(drops(&out)[0].1, 2 * per_read as u64 + 10);
    assert_eq!(stamps(&out).len(), RING_CAPACITY_SAMPLES);
}

/// A backlog that fills the ring loses its oldest samples to a draining read too. The
/// read's own last sample is still the one that it dates.
#[test]
fn full_ring_is_cut_and_keeps_its_anchor() {
    let n = RING_CAPACITY_SAMPLES;
    let at = base() + millis(1) as WallNanos;
    for (probe, dropped) in [(0usize, 2u64), (3, 5)] {
        let mut a = assembler(SPS_MAX);
        let mut out = Vec::new();
        a.on_read(clocks_after(0), &frames(0..n), &[], false, &mut out);
        a.on_read(
            clocks_after(millis(1)),
            &frames(n..n + 2),
            &frames(n + 2..n + 2 + probe),
            true,
            &mut out,
        );
        let ts = stamps(&out);
        assert_eq!(ts.len(), n);
        assert_eq!(ts[n - 1 - probe], at);
        assert_eq!(*ts.last().unwrap(), at + probe as WallNanos * PERIOD);
        assert_eq!(drops(&out), vec![(ts[0], dropped)]);
        assert_eq!(a.held(), 0);
    }
}

/// Where the probe alone fills the ring, the anchor is cut off, and what is left is
/// placed behind it.
#[test]
fn probe_that_fills_the_ring_is_placed_behind_the_anchor() {
    let n = RING_CAPACITY_SAMPLES;
    let mut a = assembler(SPS_MAX);
    let mut out = Vec::new();
    a.on_read(clocks_after(0), &frames(0..1), &[], false, &mut out);
    a.on_read(clocks_after(0), &frames(1..2), &frames(2..n + 5), true, &mut out);
    let ts = stamps(&out);
    assert_eq!(ts.len(), n);
    assert_eq!(ts[0], base() + 4 * PERIOD);
    assert_eq!(drops(&out), vec![(ts[0], 5)]);
}

/// At one sample per second a chunk is as large as the ring. A stream that is always
/// drained still loses nothing, whatever the size of the reads.
#[test]
fn one_sample_per_second_loses_nothing() {
    for (reads, per_read, held) in [(196usize, 512usize, 352usize), (200, 500, 0), (3, 99_999, 99_997)]
    {
        let mut a = assembler(1);
        assert_eq!(a.chunk(), RING_CAPACITY_SAMPLES);
        let mut out = Vec::new();
        for r in 0..reads {
            let since = RAW_SAMPLE_PERIOD * (per_read * (r + 1)) as u128;
            let bytes = frames(per_read * r..per_read * (r + 1));
            a.on_read(clocks_after(since), &bytes, &[], true, &mut out);
            if (r + 1) * per_read < SPS_MAX {
                assert!(out.is_empty());
            }
        }
        assert_eq!(n_dropped(&out), 0, "no stall, every read drained");
        let chunks = reads * per_read / SPS_MAX;
        let expected: Vec<WallNanos> = (0..chunks)
            .map(|c| base() + PERIOD + (c * SPS_MAX) as WallNanos * PERIOD)
            .collect();
        assert_eq!(stamps(&out), expected);
        assert_eq!(a.held(), held);
    }
}

/// What the guard will discard can be asked beforehand.
#[test]
fn stall_is_announced() {
    let mut a = assembler(SPS_MAX);
    let mut out = Vec::new();
    assert_eq!(a.stall_at(&clocks_after(secs(100))), None);
    a.on_read(clocks_after(0), &frames(0..5), &[], false, &mut out);
    assert_eq!(a.stall_at(&clocks_after(secs(1))), None);
    assert_eq!(a.stall_at(&clocks_after(secs(2))), Some(StallKind::DeviceStall));
    assert_eq!(
        a.stall_at(&clocks(base() + secs(225) as WallNanos, mono())),
        Some(StallKind::HostSuspend)
    );
}

/// Only a COMPLETELY empty probe means the port drained.
#[test]
fn only_a_completely_empty_probe_means_drained() {
    assert!(probe_indicates_drained(0));
    for n in [1usize, 4, 16, 63, 64, 65, 1020, 2048] {
        assert!(
            !probe_indicates_drained(n),
            "a probe that returned {n} bytes found real backlog behind the \
             read, so that read cannot anchor a block"
        );
    }
}

/// Probe bytes are stream data: they are kept, and they end up placed
/// immediately after the samples of the read they followed.
#[test]
fn probe_bytes_are_kept_and_placed_after_the_read_they_followed() {
    let mut a = assembler(SPS_MAX);
    let mut out = Vec::new();

    // 16 samples from the read, 4 more the probe swept up.
    a.on_read(clocks_after(0), &frames(0..16), &frames(16..20), false, &mut out);
    assert!(out.is_empty(), "a read with backlog behind it emits nothing");
    assert_eq!(a.held(), 20, "probe bytes must not be discarded");

    // The next read drains the port and anchors the whole run.
    let at = base() + micros(200) as WallNanos;
    a.on_read(clocks_after(micros(200)), &frames(20..26), &[], true, &mut out);

    let ts = stamps(&out);
    assert_eq!(ts.len(), 26);
    assert_eq!(*ts.last().unwrap(), at);
    for w in ts.windows(2) {
        assert_eq!(
            w[1] - w[0],
            PERIOD,
            "probe samples must sit contiguously between the read that \
             preceded them and the one that followed"
        );
    }
}

/// The dead-stream backstop needs BOTH conditions. Ten empty reads that took
/// 50 ms are the normal Windows startup shape and must not kill the stream.
#[test]
fn dead_stream_backstop_requires_both_the_count_and_the_window() {
    let t0 = mono();

    // Windows shape: reads return every 5 ms because the driver's coalescing
    // window expired, not because the device is gone.
    let mut fast = SilenceGuard::new(t0);
    for r in 1..=200u128 {
        assert!(
            fast.on_empty_read(t0 + millis(5 * r)).is_none(),
            "empty read {r} at {} ms declared the stream dead -- a pure count \
             would kill every Windows measurement before it started",
            5 * r
        );
    }

    // Unix shape: 500 ms per read. Nine is not enough however long it took.
    let mut slow = SilenceGuard::new(t0);
    for r in 1..DEAD_STREAM_EMPTY_READS as u128 {
        assert!(
            slow.on_empty_read(t0 + millis(500 * r)).is_none(),
            "fired after only {r} empty reads"
        );
    }
    let dead = slow
        .on_empty_read(t0 + millis(500 * DEAD_STREAM_EMPTY_READS as u128))
        .expect("ten empty reads over five seconds must declare the stream dead");
    assert_eq!(dead.reads, DEAD_STREAM_EMPTY_READS);
    assert_eq!(
        dead.elapsed,
        secs(5),
        "the reported silence must be the real span since data last arrived, \
         not a figure computed from the nominal timeout"
    );
}

/// A host suspend produces exactly ONE empty read before the stream recovers.
#[test]
fn a_suspend_sized_gap_never_trips_the_backstop() {
    let t0 = mono();
    let mut guard = SilenceGuard::new(t0);
    let mut now = t0;

    // 200 suspends, the overnight count: one empty read, then recovery.
    for _ in 0..200 {
        now += millis(500);
        assert!(
            guard.on_empty_read(now).is_none(),
            "a single suspend timeout must never declare the stream dead"
        );
        now += millis(250);
        guard.on_data(now);
    }
}

/// Any read that delivers bytes resets both conditions, so silence has to be
/// unbroken to be fatal.
#[test]
fn data_resets_the_backstop() {
    let t0 = mono();
    let mut guard = SilenceGuard::new(t0);
    let mut now = t0;

    for _ in 0..(DEAD_STREAM_EMPTY_READS - 1) {
        now += millis(500);
        assert!(guard.on_empty_read(now).is_none());
    }
    guard.on_data(now);
    // A full run short of the limit again, well past the silence window in
    // absolute terms -- but the clock restarted with the data.
    for r in 1..DEAD_STREAM_EMPTY_READS {
        now += millis(500);
        assert!(
            guard.on_empty_read(now).is_none(),
            "empty read {r} after recovery fired; the counter did not reset"
        );
    }
}

/// A monotonic clock that seems to run backwards counts as no silence.
#[test]
fn silence_before_the_last_data_is_none() {
    let mut guard = SilenceGuard::new(secs(100));
    for _ in 0..50 {
        assert!(guard.on_empty_read(secs(10)).is_none());
    }
    let dead = guard.on_empty_read(secs(105)).expect("enough of both");
    assert_eq!((dead.reads, dead.elapsed), (51, secs(5)));
}

/// Summing `missed` over every emission reconstructs the exact count the device
/// reported, whether or not blocks were held, trimmed or dropped along the way.
#[test]
fn missed_accounting_survives_held_and_dropped_blocks() {
    // Physically delete runs of frames so the device counter shows a gap.
    let drops: &[(usize, usize)] = &[(100, 5), (600, 13), (1_500, 63)];
    let removed: usize = drops.iter().map(|&(_, n)| n).sum();
    let mut stream = Vec::new();
    for i in 0..3_000usize {
        if drops.iter().any(|&(s, n)| i >= s && i < s + n) {
            continue;
        }
        stream.extend_from_slice(&frame(i));
    }

    let mut a = assembler(SPS_MAX);
    let mut out = Vec::new();

    let mut total = 0u64;
    for (r, bytes) in stream.chunks(333).enumerate() {
        // Alternate trustable / untrusted so held runs really occur.
        a.on_read(clocks_after(millis(r as u128)), bytes, &[], r % 3 == 0, &mut out);
        for m in out.drain(..) {
            total += match m {
                MeasurementMatch::Match { missed, .. }
                | MeasurementMatch::NoMatch { missed, .. } => u64::from(missed),
                _ => 0,
            };
        }
    }
    assert_eq!(
        total + a.missed() as u64,
        removed as u64,
        "summed `missed` plus what is still pending must equal the skipped \
         sample count exactly"
    );
}

/// A read that delivered no whole frame cannot anchor anything.
#[test]
fn read_without_a_whole_frame_does_not_anchor() {
    let mut a = assembler(SPS_MAX);
    let mut out = Vec::new();

    a.on_read(clocks_after(0), &frames(0..8), &[], false, &mut out);
    assert!(out.is_empty());

    // Two bytes: not a frame.
    a.on_read(clocks_after(millis(1)), &[0, 0], &[], true, &mut out);
    assert!(
        out.is_empty(),
        "an anchor-less read must hold rather than mis-place the run"
    );
    assert_eq!(a.held(), 8);
}

/// A partial decimation chunk is carried across an ordinary block boundary
/// but discarded across a discontinuity, so one averaged value never straddles a
/// gap.
#[test]
fn partial_chunk_carries_across_blocks_but_not_across_a_gap() {
    let sps = 10_000; // chunk = 10
    let mut a = assembler(sps);
    let mut out = Vec::new();

    // 14 samples: one chunk emitted, 4 held.
    a.on_read(clocks_after(0), &frames(0..14), &[], true, &mut out);
    assert_eq!(stamps(&out).len(), 1);
    assert_eq!(a.held(), 4, "the sub-chunk remainder is carried");
    out.clear();

    // 6 more complete that chunk across the block boundary.
    a.on_read(clocks_after(millis(1)), &frames(14..20), &[], true, &mut out);
    assert_eq!(
        stamps(&out).len(),
        1,
        "a chunk completed across an ordinary boundary must still be emitted"
    );
    out.clear();

    // Now a stall. The remainder must not survive it.
    a.on_read(clocks_after(millis(1)), &frames(20..25), &[], false, &mut out);
    assert_eq!(a.held(), 5);
    a.on_read(clocks_after(secs(30)), &frames(25..30), &[], false, &mut out);
    assert_eq!(
        a.held(),
        5,
        "the pre-stall remainder must be discarded, not averaged together \
         with post-stall samples"
    );
}

/// The chunk is `SPS_MAX / sps`, at least one, and zero counts as one.
#[test]
fn chunk_follows_the_rate() {
    for (sps, chunk) in [
        (0, 100_000),
        (1, 100_000),
        (3, 33_333),
        (1_000, 100),
        (99_999, 1),
        (100_000, 1),
        (100_001, 1),
        (usize::MAX, 1),
    ] {
        assert_eq!(assembler(sps).chunk(), chunk, "sps={sps}");
    }
}

/// Each kind of gap between two reads, with its limits.
#[test]
fn gaps_are_classified_by_both_clocks() {
    let guard = STALL_GUARD as WallNanos;
    let at = |sys: WallNanos, mono: MonoNanos| {
        classify_stall(&clocks(0, secs(1000)), &clocks(sys, mono))
    };
    let m0 = secs(1000);
    assert_eq!(at(0, m0), None);
    assert_eq!(at(guard, m0 + STALL_GUARD), None);
    assert_eq!(at(guard + 1, m0 + STALL_GUARD), Some(StallKind::DeviceStall));
    assert_eq!(at(0, m0 + STALL_GUARD + 1), Some(StallKind::DeviceStall));
    assert_eq!(at(2 * guard, m0 + STALL_GUARD), Some(StallKind::DeviceStall));
    assert_eq!(at(2 * guard + 1, m0 + STALL_GUARD), Some(StallKind::HostSuspend));
    assert_eq!(at(225 * guard, m0 + millis(622)), Some(StallKind::HostSuspend));
    assert_eq!(at(guard + 1, 0), Some(StallKind::HostSuspend));
    assert_eq!(at(-guard, m0), None);
    assert_eq!(at(-guard, m0 + secs(50)), None);
    assert_eq!(at(-guard - 1, m0), Some(StallKind::ClockStep));
    assert_eq!(
        classify_stall(&clocks(i128::MIN, 0), &clocks(i128::MAX, u128::MAX)),
        Some(StallKind::DeviceStall)
    );
}

/// Sample periods are added up to the latest time there is, and taken off down to
/// the epoch.
#[test]
fn sample_arithmetic_respects_its_limits() {
    assert_eq!(add_samples(5, 3), 30_005);
    assert_eq!(add_samples(-40_000, 3), -10_000);
    assert_eq!(add_samples(i128::MAX - 20_000, 2), i128::MAX);
    assert_eq!(add_samples(i128::MAX - 19_999, 2), i128::MAX);
    assert_eq!(add_samples(0, u64::MAX), u64::MAX as i128 * 10_000);
    assert_eq!(sub_samples(30_005, 3), Some(5));
    assert_eq!(sub_samples(30_000, 3), Some(0));
    assert_eq!(sub_samples(29_999, 3), None);
    assert_eq!(sub_samples(-1, 0), None);
}

/// A block that would start before the epoch is held.
#[test]
fn block_before_the_epoch_is_held() {
    let mut a = assembler(SPS_MAX);
    let mut out = Vec::new();
    a.on_read(clocks(9 * PERIOD - 1, 0), &frames(0..10), &[], true, &mut out);
    assert!(out.is_empty());
    assert_eq!(a.held(), 10);
    a.on_read(clocks(10 * PERIOD, 0), &frames(10..11), &[], true, &mut out);
    assert_eq!(stamps(&out)[0], 0);
    assert_eq!(stamps(&out).len(), 11);
}

/// An overlap of exactly `SEAM_MAX_OVERLAP` is still trimmed. One nanosecond more
/// breaks the timeline.
#[test]
fn seam_limit_is_exact() {
    for (extra, broken) in [(0, false), (1, true)] {
        let mut a = assembler(SPS_MAX);
        let mut out = Vec::new();
        let t0 = base();
        a.on_read(clocks(t0, 0), &frames(0..1), &[], true, &mut out);
        out.clear();
        // Two steps, so that the stall guard lets both pass.
        let half = SEAM_MAX_OVERLAP as WallNanos / 2;
        let at = t0 - 2 * half - extra;
        a.on_read(clocks(t0 - half, 0), &frame(1)[..1], &[], false, &mut out);
        a.on_read(clocks(at, 0), &frame(1)[1..], &[], true, &mut out);
        if broken {
            assert_eq!(drops(&out), vec![(at, 0)]);
            assert_eq!(stamps(&out), vec![at]);
            assert_eq!(out.len(), 2);
        } else {
            assert!(matches!(
                out.as_slice(),
                [MeasurementMatch::SeamOverlap { samples_trimmed: 1, overlap: SEAM_MAX_OVERLAP, .. }]
            ));
        }
    }
}
