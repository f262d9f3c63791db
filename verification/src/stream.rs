//! Timebase assembly: turning USB reads into correctly *placed* sample blocks.
//!
//! The device streams continuously at [`SPS_MAX`]. Sample *spacing* is therefore free
//! -- the device's crystal defines it -- and the only hard question is where the run
//! of samples sits on the wall clock. Every block is anchored from the read that
//! delivered it, and no anchor outlives a single block.
//!
//! A read's return time is only a statement about capture time if that read *drained
//! the port*. So reads are classified (see [`probe_indicates_drained`]), and:
//!
//! * a read that drained the port anchors a block, which is stamped and emitted;
//! * a read that did not is *held* in a ring buffer, un-emitted;
//! * when a draining read finally arrives, the held run is **pinned backward** so its
//!   last sample sits immediately before the new block's first sample, and the whole
//!   thing is emitted as one correctly-placed run.
//!
//! Held samples are only placeable relative to the *next* draining read. If that read
//! is later than [`STALL_GUARD`], pinning the held run would place old samples as
//! though they were current. So a stall discards the ring and reports
//! [`MeasurementMatch::Dropped`]. The guard looks at the wall clock too, because a
//! host suspend hardly shows on the monotonic one.

use std::collections::VecDeque;

use vstd::arithmetic::div_mod::lemma_fundamental_div_mod;
use vstd::arithmetic::mul::lemma_mul_is_commutative;
use vstd::prelude::*;

use crate::clock::{
    wall_nanos, wall_reading, wall_time, MonoClock, MonoNanos, Nanos, WallNanos,
};
use crate::measurement::{
    clamp_usize, combined, matching, AccumulatorView, Emission, Measurement,
    MeasurementAccumulator, MeasurementIterExt, MeasurementMatch,
};
use crate::types::LogicPortPins;
use crate::SPS_MAX;

verus! {

/// Spacing of two consecutive raw device samples: exactly 1/[`SPS_MAX`] s.
///
/// This is the spacing every emitted block guarantees *internally*. Blocks carry
/// no such guarantee relative to one another.
pub const RAW_SAMPLE_PERIOD: Nanos = 10_000;

/// How long a run of un-anchored samples may be held before it is considered
/// stale and discarded.
pub const STALL_GUARD: Nanos = 1_000_000_000;

/// Capacity of the held-sample ring, in raw samples.
///
/// Deliberately equal to [`STALL_GUARD`] times [`SPS_MAX`]. Every read cuts the ring to
/// it, but for one that drained the port while less than a chunk was held: then there is
/// no backlog to bound. So as long as reads drain the port overflow is unreachable at
/// every rate, and it takes reads that leave a backlog to reach it.
pub const RING_CAPACITY_SAMPLES: usize = SPS_MAX;

/// Largest backwards seam step still treated as transport jitter rather than as
/// a wall-clock discontinuity. See [`StreamAssembler`]'s seam-guard discussion.
pub const SEAM_MAX_OVERLAP: Nanos = STALL_GUARD;

/// Whether a follow-up non-blocking probe returning `probe_filled` bytes means
/// the preceding read drained the port.
///
/// The rule is **strictly zero**. Any byte at all behind the read means the read
/// did not drain the port, so its arrival time says nothing about when its
/// samples were captured, and it may not anchor a block. A small tolerance would
/// accept up to a whole packet of genuine backlog, and with it a placement error.
pub fn probe_indicates_drained(probe_filled: usize) -> (r: bool)
    ensures
        r == (probe_filled == 0),
{
    probe_filled == 0
}

/// Consecutive zero-byte reads after which the stream is declared dead.
///
/// This is a backstop, not the mechanism: the application detects a suspend and
/// stops gathering of its own accord. A host suspend produces exactly ONE zero-byte
/// read before the stream recovers, and ten is far clear of that.
pub const DEAD_STREAM_EMPTY_READS: u32 = 10;

/// Minimum silence before the stream may be declared dead, regardless of how
/// many reads that took.
///
/// A read's duration is a platform property, not a constant, and a count alone
/// would make the backstop mean different things on different platforms.
pub const DEAD_STREAM_MIN_SILENCE: Nanos = 5_000_000_000;

/// What the backstop observed when it fired. Carries the evidence so the error
/// can state what actually happened rather than just that something did.
#[derive(Clone, Copy, Debug, PartialEq, Eq, Structural)]
pub struct DeadStream {
    /// Consecutive reads that returned no data.
    pub reads: u32,
    /// How long it has been since a read last delivered any bytes.
    pub elapsed: Nanos,
}

/// Tracks consecutive zero-byte reads so a stream that has genuinely stopped can
/// be declared dead instead of spinning forever.
///
/// A zero-byte read is NOT an error, so silence is tolerated, and only *sustained*
/// silence is fatal. See [`DEAD_STREAM_EMPTY_READS`] and
/// [`DEAD_STREAM_MIN_SILENCE`] for the two conditions and why both are needed.
#[derive(Clone, Copy, Debug, PartialEq, Eq, Structural)]
pub struct SilenceGuard {
    /// Zero-byte reads since data last arrived.
    pub consecutive: u32,
    /// When data last arrived.
    pub last_data_at: MonoNanos,
}

impl SilenceGuard {
    /// How long no data has arrived at `now`.
    pub open spec fn silence(self, now: MonoNanos) -> Nanos {
        now.saturating_sub(self.last_data_at)
    }

    /// The guard after a read at `now` that delivered bytes.
    pub open spec fn after_data(self, now: MonoNanos) -> SilenceGuard {
        SilenceGuard { consecutive: 0, last_data_at: now }
    }

    /// The guard after a read that delivered nothing.
    pub open spec fn after_empty_read(self) -> SilenceGuard {
        SilenceGuard { consecutive: self.consecutive.saturating_add(1), ..self }
    }

    /// What the guard says of the stream at `now`: dead once both enough reads and
    /// enough time have passed without data.
    pub open spec fn verdict(self, now: MonoNanos) -> Option<DeadStream> {
        if self.consecutive >= DEAD_STREAM_EMPTY_READS && self.silence(now)
            >= DEAD_STREAM_MIN_SILENCE {
            Some(DeadStream { reads: self.consecutive, elapsed: self.silence(now) })
        } else {
            None
        }
    }

    /// Start the guard. `now` seeds the silence clock, so a device that never
    /// streams at all is still eventually declared dead.
    pub fn new(now: MonoNanos) -> (r: Self)
        ensures
            r == (SilenceGuard { consecutive: 0, last_data_at: now }),
    {
        SilenceGuard { consecutive: 0, last_data_at: now }
    }

    /// Record a read that delivered bytes. Resets both conditions.
    pub fn on_data(&mut self, now: MonoNanos)
        ensures
            *final(self) == old(self).after_data(now),
    {
        self.consecutive = 0;
        self.last_data_at = now;
    }

    /// Record a read that delivered nothing, however the platform reported it --
    /// an empty-kind error or a zero-length `Ok`.
    ///
    /// Returns `Some` once the stream should be declared dead.
    pub fn on_empty_read(&mut self, now: MonoNanos) -> (r: Option<DeadStream>)
        ensures
            *final(self) == old(self).after_empty_read(),
            r == old(self).after_empty_read().verdict(now),
    {
        self.consecutive = self.consecutive.saturating_add(1);
        let elapsed: Nanos = now.saturating_sub(self.last_data_at);
        if self.consecutive < DEAD_STREAM_EMPTY_READS || elapsed < DEAD_STREAM_MIN_SILENCE {
            return None;
        }
        Some(DeadStream { reads: self.consecutive, elapsed })
    }
}

/// The pair of clocks read together the instant a USB read returns.
///
/// Both are needed. The wall clock is the timebase the samples are placed on and
/// the only clock that sees a host suspend. The monotonic clock is immune to NTP
/// steps and manual clock changes, and is what distinguishes "the host was asleep"
/// from "the wall clock was adjusted" -- two situations with identical read-level
/// signatures.
#[derive(Clone, Copy, Debug, PartialEq, Eq, Structural)]
pub struct ReadClocks {
    /// Wall clock at the instant the read returned.
    pub sys: WallNanos,
    /// Monotonic clock at the same instant.
    pub mono: MonoNanos,
}

impl ReadClocks {
    /// The pair that both clocks show, when the wall clock is `since_epoch` away from
    /// the epoch, `Ok` after it and `Err` before it, and the monotonic one `since_start`
    /// away from its start.
    pub fn from_readings(since_epoch: Result<Nanos, Nanos>, since_start: MonoNanos) -> (r: Self)
        ensures
            r.sys == wall_time(since_epoch),
            r.mono == since_start,
    {
        ReadClocks { sys: wall_nanos(since_epoch), mono: since_start }
    }

    /// Sample both clocks now. What they show rests on when this is called and on the
    /// machine, so nothing is promised of it; [`ReadClocks::from_readings`] says what is
    /// returned for each pair of readings.
    ///
    /// Call this immediately after `read()` returns and before anything else --
    /// in particular before the drain probe and before parsing. Everything after
    /// the read adds latency that would be silently folded into the timebase.
    pub fn now(mono: &MonoClock) -> Self {
        ReadClocks::from_readings(wall_reading(), mono.now())
    }
}

/// Why a run of held samples was discarded. Recorded for diagnostics; the
/// response is the same either way, because both lose the data.
#[derive(Clone, Copy, Debug, PartialEq, Eq, Structural)]
pub enum StallKind {
    /// The wall clock jumped forward far more than the monotonic clock did: the
    /// host was suspended.
    HostSuspend,
    /// Both clocks agree that a long time passed: the device or the driver
    /// stopped delivering.
    DeviceStall,
    /// The wall clock moved backwards or was stepped: samples cannot be placed
    /// relative to anything that came before.
    ClockStep,
}

/// How far a monotonic clock advanced, zero if it did not.
pub open spec fn mono_gap(prev: ReadClocks, now: ReadClocks) -> int {
    if now.mono >= prev.mono {
        now.mono - prev.mono
    } else {
        0
    }
}

/// What the gap between two successful reads was, `None` if it is normal.
pub open spec fn stall_between(prev: ReadClocks, now: ReadClocks) -> Option<StallKind> {
    let sys_gap = now.sys - prev.sys;
    if sys_gap < 0 {
        if -sys_gap > STALL_GUARD {
            Some(StallKind::ClockStep)
        } else {
            None
        }
    } else if sys_gap <= STALL_GUARD && mono_gap(prev, now) <= STALL_GUARD {
        None
    } else if sys_gap > 2 * mono_gap(prev, now) && sys_gap > STALL_GUARD {
        Some(StallKind::HostSuspend)
    } else {
        Some(StallKind::DeviceStall)
    }
}

/// The span from `earlier` to `later`.
fn span(earlier: WallNanos, later: WallNanos) -> (r: Nanos)
    requires
        earlier <= later,
    ensures
        r == later - earlier,
{
    if earlier >= 0 || later < 0 {
        (later - earlier) as u128
    } else {
        later as u128 + (-(earlier + 1)) as u128 + 1
    }
}

/// Classify the gap between two successful reads, or `None` if it is normal.
///
/// The two clocks are compared rather than just the wall clock because a
/// suspend, a device stall and an NTP step are indistinguishable from the read
/// pattern alone. All three lose the held samples, but the classification is what
/// makes a log line say something true.
pub fn classify_stall(prev: &ReadClocks, now: &ReadClocks) -> (r: Option<StallKind>)
    ensures
        r == stall_between(*prev, *now),
{
    let mono_gap: Nanos = now.mono.saturating_sub(prev.mono);
    if now.sys >= prev.sys {
        let sys_gap: Nanos = span(prev.sys, now.sys);
        if sys_gap <= STALL_GUARD && mono_gap <= STALL_GUARD {
            return None;
        }
        if sys_gap > mono_gap.saturating_add(mono_gap) && sys_gap > STALL_GUARD {
            Some(StallKind::HostSuspend)
        } else {
            Some(StallKind::DeviceStall)
        }
    } else if span(now.sys, prev.sys) > STALL_GUARD {
        Some(StallKind::ClockStep)
    } else {
        None
    }
}

/// `n` sample periods after `t`, at most the latest time there is.
pub open spec fn after_samples(t: int, n: int) -> int {
    if t + n * RAW_SAMPLE_PERIOD <= i128::MAX {
        t + n * RAW_SAMPLE_PERIOD
    } else {
        i128::MAX as int
    }
}

/// The length of `n` sample periods.
fn periods(n: u64) -> (r: i128)
    ensures
        r == n * RAW_SAMPLE_PERIOD,
        0 <= r <= u64::MAX * RAW_SAMPLE_PERIOD,
{
    n as i128 * 10_000
}

/// `t + n` sample periods, saturating at the representable maximum.
pub fn add_samples(t: WallNanos, n: u64) -> (r: WallNanos)
    ensures
        r == after_samples(t as int, n as int),
{
    let span: i128 = periods(n);
    if t <= i128::MAX - span {
        t + span
    } else {
        i128::MAX
    }
}

/// `t - n` sample periods, or `None` if that precedes the epoch.
pub fn sub_samples(t: WallNanos, n: u64) -> (r: Option<WallNanos>)
    ensures
        r is Some <==> t - n * RAW_SAMPLE_PERIOD >= 0,
        r matches Some(u) ==> u == t - n * RAW_SAMPLE_PERIOD,
{
    let span: i128 = periods(n);
    if t >= span {
        Some(t - span)
    } else {
        None
    }
}

/// Capture time of the oldest of `len` samples held. The anchor is the LAST sample that
/// the read itself delivered, with `newer` ones behind it: the read completed after that
/// sample was captured, so `anchor` dates it, and every other is placed by counting
/// periods away from it. `None` if that precedes the epoch.
fn back_date(anchor: WallNanos, len: usize, newer: usize) -> (r: Option<WallNanos>)
    requires
        len > 0,
    ensures
        r is Some <==> back_dated(anchor as int, len - 1 - newer) is Some,
        r matches Some(first) ==> back_dated(anchor as int, len - 1 - newer) == Some(
            first as int,
        ),
{
    if newer < len {
        sub_samples(anchor, (len - 1 - newer) as u64)
    } else {
        // The anchor itself was cut off.
        let after: WallNanos = add_samples(anchor, (newer - len) as u64 + 1);
        if after >= 0 {
            Some(after)
        } else {
            None
        }
    }
}

/// What a [`StreamAssembler`] holds between two reads.
#[verifier::ext_equal]
pub struct AssemblerView {
    /// Raw samples per emitted measurement.
    pub chunk: nat,
    /// Logic-port pattern emitted measurements must match.
    pub pins: LogicPortPins,
    /// The frame parser.
    pub parser: AccumulatorView,
    /// Samples parsed but not yet emitted, oldest first.
    pub pending: Seq<Measurement>,
    /// Raw samples the device skipped, not yet reported.
    pub missed: usize,
    /// Raw samples that were discarded, not yet reported.
    pub dropped: u64,
    /// A drop event has been emitted and no data since.
    pub drop_signalled: bool,
    /// The timeline was re-based, and no data has been emitted since.
    pub rebased: bool,
    /// Capture time of the last raw sample handed to the consumer.
    pub last_delivered: Option<int>,
    /// Clocks of the last read that delivered bytes.
    pub last_read: Option<ReadClocks>,
}

/// How many samples of `run` are too many for the ring.
pub open spec fn overflow(run: Seq<Measurement>) -> int {
    if run.len() > RING_CAPACITY_SAMPLES {
        run.len() - RING_CAPACITY_SAMPLES
    } else {
        0
    }
}

/// `n` as far as a `u64` can hold it.
pub open spec fn clamp_u64(n: int) -> u64 {
    if n <= u64::MAX {
        n as u64
    } else {
        u64::MAX
    }
}

/// Capture time of the oldest held sample when the sample `ahead` places behind it
/// was captured at `anchor`. `None` if that precedes the epoch. With a negative `ahead`
/// the anchor itself is no longer held.
pub open spec fn back_dated(anchor: int, ahead: int) -> Option<int> {
    if anchor - ahead * RAW_SAMPLE_PERIOD >= 0 {
        Some(after_samples(anchor, -ahead))
    } else {
        None
    }
}

impl AssemblerView {
    /// Nothing received.
    pub open spec fn initial(chunk: nat, pins: LogicPortPins) -> AssemblerView {
        AssemblerView {
            chunk,
            pins,
            parser: AccumulatorView::initial(),
            pending: Seq::empty(),
            missed: 0,
            dropped: 0,
            drop_signalled: false,
            rebased: false,
            last_delivered: None,
            last_read: None,
        }
    }

    /// What holds of every assembler, also within a read: chunks are not empty.
    pub open spec fn sound(self) -> bool {
        &&& 1 <= self.chunk <= SPS_MAX
        &&& self.parser.wf()
        &&& self.last_delivered matches Some(last) ==> last <= i128::MAX
    }

    /// What holds of every assembler between two reads: no more is held than the ring
    /// has room for.
    pub open spec fn wf(self) -> bool {
        self.sound() && self.pending.len() <= RING_CAPACITY_SAMPLES
    }

    /// Why what is held is too old to be placed relative to a read at `clocks`; `None`
    /// if it is not.
    pub open spec fn stall(self, clocks: ReadClocks) -> Option<StallKind> {
        match self.last_read {
            Some(prev) => stall_between(prev, clocks),
            None => None,
        }
    }

    /// Whether what is held is too old to be placed relative to a read at `clocks`.
    pub open spec fn stalled(self, clocks: ReadClocks) -> bool {
        self.stall(clocks) is Some
    }

    /// Everything held is discarded. The loss is reported unless one was reported
    /// since data was last emitted.
    pub open spec fn discarded(self, at: int) -> (AssemblerView, Seq<Emission>) {
        let dropped = clamp_u64(self.dropped + self.pending.len());
        if self.drop_signalled {
            (AssemblerView { pending: Seq::empty(), dropped, ..self }, Seq::empty())
        } else {
            (
                AssemblerView {
                    pending: Seq::empty(),
                    dropped: 0,
                    drop_signalled: true,
                    ..self
                },
                seq![Emission::Dropped { at, samples: dropped as nat }],
            )
        }
    }

    /// `bytes` are parsed into the ring.
    pub open spec fn ingested(self, bytes: Seq<u8>) -> AssemblerView {
        let decoded = self.parser.decoded(bytes);
        AssemblerView {
            parser: self.parser.fed(bytes),
            pending: self.pending + decoded.samples,
            missed: clamp_usize(self.missed as nat + decoded.missed),
            ..self
        }
    }

    /// The ring is cut to its capacity: the oldest samples go.
    pub open spec fn capped(self) -> AssemblerView {
        AssemblerView {
            pending: self.pending.skip(overflow(self.pending)),
            dropped: clamp_u64(self.dropped + overflow(self.pending)),
            ..self
        }
    }

    /// How many whole chunks are held.
    pub open spec fn chunks_held(self) -> nat {
        self.pending.len() / self.chunk
    }

    /// The `c`-th chunk held.
    pub open spec fn chunk_at(self, c: int) -> Seq<Measurement> {
        self.pending.subrange(c * self.chunk, c * self.chunk + self.chunk)
    }

    /// Whether the loss of samples, or of the timeline, is still to be reported.
    pub open spec fn hole_unreported(self) -> bool {
        self.dropped > 0 || (self.rebased && !self.drop_signalled)
    }

    /// The measurements emitted for the first `n` chunks held, when the oldest
    /// sample was captured at `first`. The first of them reports what was missed.
    pub open spec fn measurements(self, first: int, n: nat) -> Seq<Emission> {
        Seq::new(
            n,
            |c: int|
                combined(
                    matching(self.chunk_at(c), self.pins),
                    if c == 0 {
                        self.missed as nat
                    } else {
                        0
                    },
                    after_samples(first, c * self.chunk),
                ),
        )
    }

    /// Every whole chunk held is emitted, when the oldest sample was captured at
    /// `first`. A loss that is still to be reported comes first.
    pub open spec fn delivered(self, first: int) -> (AssemblerView, Seq<Emission>) {
        let n = self.chunks_held();
        if n == 0 {
            (self, Seq::empty())
        } else {
            (
                AssemblerView {
                    pending: self.pending.skip((n * self.chunk) as int),
                    missed: 0,
                    dropped: 0,
                    drop_signalled: false,
                    rebased: false,
                    last_delivered: Some(after_samples(first, n * self.chunk - 1)),
                    ..self
                },
                (if self.hole_unreported() {
                    seq![Emission::Dropped { at: first, samples: self.dropped as nat }]
                } else {
                    Seq::empty()
                }) + self.measurements(first, n),
            )
        }
    }

    /// How far a block that starts at `first` reaches back into delivered time;
    /// `None` if it does not.
    pub open spec fn seam_overlap(self, first: int) -> Option<int> {
        match self.last_delivered {
            Some(last) => if first <= last {
                Some(last - first)
            } else {
                None
            },
            None => None,
        }
    }

    /// Whether a block that starts at `first` reaches back further than jitter does.
    pub open spec fn breaks_timeline(self, first: int) -> bool {
        self.seam_overlap(first) matches Some(overlap) && overlap > SEAM_MAX_OVERLAP
    }

    /// How many samples a block that starts at `first` has in delivered time, as far as
    /// they are trimmed: none where the timeline breaks.
    pub open spec fn trim(self, first: int) -> nat {
        match self.seam_overlap(first) {
            Some(overlap) => if overlap > SEAM_MAX_OVERLAP {
                0
            } else if overlap / RAW_SAMPLE_PERIOD as int + 1 < self.pending.len() {
                (overlap / RAW_SAMPLE_PERIOD as int + 1) as nat
            } else {
                self.pending.len()
            },
            None => 0,
        }
    }

    /// What is left of a block that starts at `first`: a small overlap with delivered
    /// time is trimmed off the front, and a large one re-bases the timeline.
    pub open spec fn trimmed(self, first: int) -> AssemblerView {
        AssemblerView {
            pending: self.pending.skip(self.trim(first) as int),
            rebased: self.rebased || self.breaks_timeline(first),
            last_delivered: if self.breaks_timeline(first) {
                None
            } else {
                self.last_delivered
            },
            ..self
        }
    }

    /// The report of a small overlap.
    pub open spec fn seam_events(self, first: int) -> Seq<Emission> {
        match self.seam_overlap(first) {
            Some(overlap) => if overlap > SEAM_MAX_OVERLAP {
                Seq::empty()
            } else {
                seq![
                    Emission::SeamOverlap {
                        at: first,
                        samples_trimmed: self.trim(first),
                        overlap,
                    },
                ]
            },
            None => Seq::empty(),
        }
    }

    /// The whole ring is stamped, with its oldest sample at `first`, and emitted, but
    /// for what lies in delivered time.
    pub open spec fn emitted(self, first: int) -> (AssemblerView, Seq<Emission>) {
        let (after, events) = self.trimmed(first).delivered(
            after_samples(first, self.trim(first) as int),
        );
        (after, self.seam_events(first) + events)
    }

    /// What stands before the bytes of a read are parsed: a stall discards what is
    /// held.
    pub open spec fn guarded(self, clocks: ReadClocks) -> (AssemblerView, Seq<Emission>) {
        let (kept, events) = if self.stalled(clocks) {
            self.discarded(clocks.sys as int)
        } else {
            (self, Seq::empty())
        };
        (AssemblerView { last_read: Some(clocks), ..kept }, events)
    }

    /// Whether a read may place what is held: it drained the port and delivered a whole
    /// frame.
    pub open spec fn anchored(self, main: Seq<u8>, trustable: bool) -> bool {
        trustable && self.parser.decoded(main).samples.len() > 0
    }

    /// What is held once a read is parsed. The ring is cut to its capacity, unless the
    /// read may place what is held and no more than the beginning of a chunk was held.
    pub open spec fn taken_in(
        self,
        main: Seq<u8>,
        probe: Seq<u8>,
        trustable: bool,
    ) -> AssemblerView {
        let all = self.ingested(main).ingested(probe);
        if self.anchored(main, trustable) && self.pending.len() < self.chunk {
            all
        } else {
            all.capped()
        }
    }

    /// Capture time of the oldest sample held once a read is parsed, if the read may
    /// place what is held. Its last sample was captured when the read returned, and the
    /// probe's samples follow.
    pub open spec fn block_start(
        self,
        clocks: ReadClocks,
        main: Seq<u8>,
        probe: Seq<u8>,
        trustable: bool,
    ) -> Option<int> {
        if self.anchored(main, trustable) {
            back_dated(
                clocks.sys as int,
                self.taken_in(main, probe, trustable).pending.len() - 1 - self.ingested(
                    main,
                ).parser.decoded(probe).samples.len(),
            )
        } else {
            None
        }
    }

    /// One read is accounted for. A read that places what is held emits it, and leaves
    /// less than a chunk. Behind any other no more is held than the ring has room for.
    pub open spec fn on_read(
        self,
        clocks: ReadClocks,
        main: Seq<u8>,
        probe: Seq<u8>,
        trustable: bool,
    ) -> (AssemblerView, Seq<Emission>) {
        let (kept, lost) = self.guarded(clocks);
        let held = kept.taken_in(main, probe, trustable);
        match kept.block_start(clocks, main, probe, trustable) {
            None => (held.capped(), lost),
            Some(first) => (held.emitted(first).0, lost + held.emitted(first).1),
        }
    }
}

/// What `events` say.
pub open spec fn emissions(events: Seq<MeasurementMatch>) -> Seq<Emission> {
    events.map_values(|m: MeasurementMatch| m@)
}

/// Assembles raw USB reads into timestamped, correctly-placed
/// [`MeasurementMatch`]es.
///
/// Feed it every read in order via [`StreamAssembler::on_read`]; it emits into a
/// caller-supplied `Vec`. It owns the parser, the held-sample ring, the
/// skipped-sample accounting and the seam guard, so all of the timebase's
/// invariants live in one place.
///
/// # Emission contract
///
/// * `read_at` on an emitted [`MeasurementMatch::Match`] / `NoMatch` is the
///   **capture time of the first raw sample** averaged into it, back-dated from
///   a drain-verified anchor. It is not the instant any read returned.
/// * Consecutive emissions from one block are spaced by exactly
///   `chunk` times [`RAW_SAMPLE_PERIOD`], with no gaps inside the block.
/// * Nothing is promised *across* blocks but that time runs forward. Sample loss is
///   reported out of band as [`MeasurementMatch::Dropped`], and a backwards seam as
///   [`MeasurementMatch::SeamOverlap`].
///
/// # The seam guard
///
/// When the transport delay shrinks, a block anchored from a draining read can start
/// *before* the previous block ended. So the first timestamp of every block is compared
/// against the last one delivered, and an overlap is resolved by **trimming samples off
/// the front of the block**, not by shifting the block forward. Trimming keeps every
/// sample that *is* delivered at its true computed time and makes the loss an honest
/// absence. The trim is reported as [`MeasurementMatch::SeamOverlap`], which is
/// deliberately a different event from `Dropped`: `Dropped` means there is a hole in the
/// timeline, `SeamOverlap` means the transport delay wobbled and there is no hole.
///
/// An overlap larger than [`SEAM_MAX_OVERLAP`] is not jitter -- the wall clock moved
/// backwards -- and is reported as a timeline break (`Dropped`) with the next
/// measurements instead, after the guard has re-based. Trimming there would discard
/// everything until real time caught up with the old clock.
pub struct StreamAssembler {
    /// Raw samples per emitted measurement: `SPS_MAX / sps`, at least 1.
    chunk: usize,
    /// Logic-port pattern emitted measurements must match.
    pins: LogicPortPins,
    /// The frame parser. Owned here so that the skipped-sample accounting and
    /// the partial-frame remainder cannot get out of step with the ring.
    accumulator: MeasurementAccumulator,
    /// Samples parsed but not yet emitted, oldest first. Holds the sub-`chunk`
    /// remainder of the last emitted block, and any samples held because no draining
    /// read has arrived yet.
    pending: VecDeque<Measurement>,
    /// Raw samples the DEVICE skipped, not yet reported. Reset only on a successful
    /// emission.
    missed: usize,
    /// Raw samples discarded HERE (stall or ring overflow), not yet reported.
    dropped: u64,
    /// A drop event has been emitted and no data has been emitted since. Suppresses a
    /// storm of drop events while a stall repeats.
    drop_signalled: bool,
    /// The timeline was re-based and no data has been emitted since.
    rebased: bool,
    /// Capture time of the last raw sample handed to the consumer. `None` before
    /// anything has been delivered, and after a wall-clock step re-bases the
    /// timeline.
    last_delivered: Option<WallNanos>,
    /// Clocks from the last read that delivered bytes, for the stall guard.
    last_read: Option<ReadClocks>,
}

impl View for StreamAssembler {
    type V = AssemblerView;

    closed spec fn view(&self) -> AssemblerView {
        AssemblerView {
            chunk: self.chunk as nat,
            pins: self.pins,
            parser: self.accumulator@,
            pending: self.pending@,
            missed: self.missed,
            dropped: self.dropped,
            drop_signalled: self.drop_signalled,
            rebased: self.rebased,
            last_delivered: match self.last_delivered {
                Some(last) => Some(last as int),
                None => None,
            },
            last_read: self.last_read,
        }
    }
}

/// Raw samples averaged into one measurement of a stream decimated to `sps`
/// samples per second: at least one, and for `sps` zero as for one.
pub open spec fn chunk_for(sps: nat) -> nat {
    if sps > SPS_MAX {
        1
    } else if sps == 0 {
        SPS_MAX as nat
    } else {
        SPS_MAX as nat / sps
    }
}

impl StreamAssembler {
    /// Create an assembler for a stream decimated to `sps` samples/sec, emitting
    /// only measurements whose logic port matches `pins`.
    pub fn new(sps: usize, pins: LogicPortPins) -> (r: Self)
        ensures
            r@ == AssemblerView::initial(chunk_for(sps as nat), pins),
            r@.wf(),
    {
        let sps_nonzero: usize = if sps == 0 { 1 } else { sps };
        let quotient: usize = SPS_MAX / sps_nonzero;
        proof {
            assert(quotient <= SPS_MAX) by (nonlinear_arith)
                requires
                    sps_nonzero >= 1,
                    quotient == SPS_MAX / sps_nonzero,
            ;
            assert(quotient == 0 <==> sps_nonzero > SPS_MAX) by (nonlinear_arith)
                requires
                    sps_nonzero >= 1,
                    quotient == SPS_MAX / sps_nonzero,
            ;
        }
        StreamAssembler {
            chunk: if quotient == 0 { 1 } else { quotient },
            pins,
            accumulator: MeasurementAccumulator::new(),
            pending: VecDeque::with_capacity(RING_CAPACITY_SAMPLES),
            missed: 0,
            dropped: 0,
            drop_signalled: false,
            rebased: false,
            last_delivered: None,
            last_read: None,
        }
    }

    /// Number of raw samples averaged into one emitted measurement.
    pub fn chunk(&self) -> (r: usize)
        ensures
            r == self@.chunk,
    {
        self.chunk
    }

    /// Samples currently held un-emitted. Diagnostic; the value is meaningful
    /// only between calls.
    pub fn held(&self) -> (r: usize)
        ensures
            r == self@.pending.len(),
    {
        self.pending.len()
    }

    /// Raw samples the device skipped that no measurement has reported yet.
    pub fn missed(&self) -> (r: usize)
        ensures
            r == self@.missed,
    {
        self.missed
    }

    /// Why what is held will be discarded by a read at `clocks`; `None` if it will not.
    /// Diagnostic: [`StreamAssembler::on_read`] finds out for itself.
    pub fn stall_at(&self, clocks: &ReadClocks) -> (r: Option<StallKind>)
        ensures
            r == self@.stall(*clocks),
    {
        match self.last_read {
            Some(prev) => classify_stall(&prev, clocks),
            None => None,
        }
    }

    /// Account for one USB read.
    ///
    /// Call this ONLY for reads that returned bytes. A zero-byte read delivers
    /// nothing to place and must not disturb the stall guard, whose question is "how
    /// long since data last arrived".
    ///
    /// * `clocks` -- both clocks, sampled the instant the read returned.
    /// * `main` -- the bytes that read returned.
    /// * `probe` -- bytes the follow-up drain probe returned, if any. These are
    ///   real stream data and are kept and accounted like any other; they are
    ///   simply known to have been captured *after* the anchor sample.
    /// * `trustable` -- [`probe_indicates_drained`] applied to the probe result.
    ///   Pass `false` if the probe itself failed: an unknown is not a drain.
    /// * `out` -- emissions are appended here, in order.
    pub fn on_read(
        &mut self,
        clocks: ReadClocks,
        main: &[u8],
        probe: &[u8],
        trustable: bool,
        out: &mut Vec<MeasurementMatch>,
    )
        requires
            old(self)@.wf(),
        ensures
            final(self)@ == old(self)@.on_read(clocks, main@, probe@, trustable).0,
            emissions(final(out)@) == emissions(old(out)@) + old(self)@.on_read(
                clocks,
                main@,
                probe@,
                trustable,
            ).1,
            final(self)@.wf(),
    {
        // The guard runs BEFORE the new bytes are ingested. What it judges is
        // whether the samples already held can still be placed relative to this
        // read; the new bytes are innocent either way.
        if self.stall_at(&clocks).is_some() {
            self.discard_held(clocks.sys, out);
        }
        self.last_read = Some(clocks);

        let ghost kept = self@;
        let ghost shown = emissions(out@);
        let newer = self.take_in(main, probe, trustable);
        if let Some(newer) = newer {
            if let Some(first_ts) = back_date(clocks.sys, self.pending.len(), newer) {
                self.emit_block(first_ts, out);
                proof {
                    let lost = old(self)@.guarded(clocks).1;
                    assert(shown =~= emissions(old(out)@) + lost);
                    let events = kept.taken_in(main@, probe@, trustable).emitted(
                        first_ts as int,
                    ).1;
                    assert(shown + events =~= emissions(old(out)@) + (lost + events));
                }
                return;
            }
        }
        self.cut_to_capacity();
    }

    /// Parse a read into the ring, enforcing its capacity where a backlog may have
    /// reached it. Returns how many samples are newer than the read's own last one, if the
    /// read may place what is held.
    ///
    /// If the read delivered no whole frame there is nothing to anchor: the newest held
    /// sample belongs to an older read, and dating it from now would place it late. Hold
    /// instead; the next read costs one more block.
    fn take_in(&mut self, main: &[u8], probe: &[u8], trustable: bool) -> (r: Option<usize>)
        requires
            old(self)@.wf(),
        ensures
            final(self)@ == old(self)@.taken_in(main@, probe@, trustable),
            final(self)@.sound(),
            r is Some <==> old(self)@.anchored(main@, trustable),
            r matches Some(newer) ==> newer == old(self)@.ingested(main@).parser.decoded(
                probe@,
            ).samples.len(),
    {
        let backlog = self.pending.len() >= self.chunk;
        let added: usize = self.ingest(main);
        // Probe bytes are strictly newer than the anchor sample, so they take
        // indices above it and are stamped forward.
        let newer: usize = self.ingest(probe);
        let anchored = trustable && added > 0;
        if backlog || !anchored {
            self.cut_to_capacity();
        }
        if anchored {
            Some(newer)
        } else {
            None
        }
    }

    /// Parse `bytes` into the ring. Returns how many samples the parse produced.
    fn ingest(&mut self, bytes: &[u8]) -> (r: usize)
        requires
            old(self)@.sound(),
        ensures
            final(self)@ == old(self)@.ingested(bytes@),
            final(self)@.sound(),
            r == old(self)@.parser.decoded(bytes@).samples.len(),
    {
        let before: usize = self.pending.len();
        let missed: usize = self.accumulator.feed_into(bytes, &mut self.pending);
        self.missed = self.missed.saturating_add(missed);
        self.pending.len() - before
    }

    /// Enforce the ring's capacity. Overflow discards the OLDEST, which is the only
    /// choice that keeps the survivors contiguous with the read that will eventually
    /// anchor them.
    fn cut_to_capacity(&mut self)
        requires
            old(self)@.sound(),
        ensures
            final(self)@ == old(self)@.capped(),
            final(self)@.wf(),
    {
        let ghost run = self.pending@;
        let ghost mut gone: int = 0;
        while self.pending.len() > RING_CAPACITY_SAMPLES
            invariant
                run == old(self)@.pending,
                old(self)@.sound(),
                0 <= gone <= overflow(run),
                self@ == (AssemblerView {
                    pending: run.skip(gone),
                    dropped: clamp_u64(old(self)@.dropped + gone),
                    ..old(self)@
                }),
            decreases run.len() - gone,
        {
            let _ = self.pending.pop_front();
            self.dropped = self.dropped.saturating_add(1);
            proof {
                gone = gone + 1;
            }
        }
    }

    /// Discard everything held, because it can no longer be placed.
    ///
    /// This also throws away the sub-`chunk` remainder, which is the point: a
    /// partial decimation chunk carried across a discontinuity would produce one
    /// averaged value straddling a gap, quietly mixing samples from either side
    /// of it. The cost of discarding is bounded at one chunk.
    fn discard_held(&mut self, at: WallNanos, out: &mut Vec<MeasurementMatch>)
        requires
            old(self)@.sound(),
        ensures
            final(self)@ == old(self)@.discarded(at as int).0,
            emissions(final(out)@) == emissions(old(out)@) + old(self)@.discarded(at as int).1,
            final(self)@.sound(),
    {
        self.dropped = self.dropped.saturating_add(self.pending.len() as u64);
        self.pending.clear();
        // Repeated stalls emit nothing until the stream is caught up: the count
        // keeps accumulating and rides out on the next event.
        if !self.drop_signalled {
            out.push(MeasurementMatch::Dropped { at, samples: self.dropped });
            self.dropped = 0;
            self.drop_signalled = true;
        }
    }

    /// Stamp and emit everything the ring holds, when its oldest sample was captured
    /// at `first_ts`.
    fn emit_block(&mut self, first_ts: WallNanos, out: &mut Vec<MeasurementMatch>)
        requires
            old(self)@.sound(),
        ensures
            final(self)@ == old(self)@.emitted(first_ts as int).0,
            emissions(final(out)@) == emissions(old(out)@) + old(self)@.emitted(
                first_ts as int,
            ).1,
            final(self)@.sound(),
            final(self)@.pending.len() < final(self)@.chunk,
    {
        let mut start: WallNanos = first_ts;
        if let Some(last) = self.last_delivered {
            if first_ts <= last {
                let overlap: Nanos = span(first_ts, last);
                if overlap > SEAM_MAX_OVERLAP {
                    // Not jitter. Trimming here would discard every sample until
                    // real time caught up with the old clock, which for a one-hour
                    // step is one hour of data.
                    self.rebased = true;
                    self.last_delivered = None;
                } else {
                    // +1 so the first surviving sample is strictly after the last
                    // delivered one, never merely equal to it. If the whole block lies
                    // inside already-delivered time, nothing of it survives.
                    let past: u64 = (overlap / RAW_SAMPLE_PERIOD) as u64 + 1;
                    let len: u64 = self.pending.len() as u64;
                    let trim: u64 = if past < len { past } else { len };
                    out.push(
                        MeasurementMatch::SeamOverlap {
                            at: first_ts,
                            samples_trimmed: trim,
                            overlap,
                        },
                    );
                    let _ = self.take_front(trim as usize);
                    start = add_samples(first_ts, trim);
                }
            }
        }
        let ghost shown = emissions(out@);
        proof {
            let held = old(self)@;
            assert(self@ =~= held.trimmed(first_ts as int));
            assert(shown =~= emissions(old(out)@) + held.seam_events(first_ts as int));
        }
        self.deliver(start, out);
        proof {
            let held = old(self)@;
            let events = held.trimmed(first_ts as int).delivered(start as int).1;
            assert(emissions(old(out)@) + (held.seam_events(first_ts as int) + events)
                =~= shown + events);
        }
    }

    /// Take the `n` oldest samples out of the ring.
    fn take_front(&mut self, n: usize) -> (r: Vec<Measurement>)
        requires
            n <= old(self)@.pending.len(),
        ensures
            r@ == old(self)@.pending.take(n as int),
            final(self)@ == (AssemblerView {
                pending: old(self)@.pending.skip(n as int),
                ..old(self)@
            }),
    {
        let mut r: Vec<Measurement> = Vec::with_capacity(n);
        while r.len() < n
            invariant
                n <= old(self)@.pending.len(),
                r@.len() <= n,
                r@ == old(self)@.pending.take(r@.len() as int),
                self@ == (AssemblerView {
                    pending: old(self)@.pending.skip(r@.len() as int),
                    ..old(self)@
                }),
            decreases n - r@.len(),
        {
            if let Some(m) = self.pending.pop_front() {
                r.push(m);
            }
        }
        r
    }

    /// Emit every whole chunk the ring holds, when its oldest sample was captured at
    /// `first_ts`.
    fn deliver(&mut self, first_ts: WallNanos, out: &mut Vec<MeasurementMatch>)
        requires
            old(self)@.sound(),
        ensures
            final(self)@ == old(self)@.delivered(first_ts as int).0,
            emissions(final(out)@) == emissions(old(out)@) + old(self)@.delivered(
                first_ts as int,
            ).1,
            final(self)@.sound(),
            final(self)@.pending.len() < final(self)@.chunk,
    {
        let n_chunks: usize = self.pending.len() / self.chunk;
        proof {
            lemma_chunk_remainder(self@.pending.len(), self@.chunk);
        }
        if n_chunks == 0 {
            // Not enough for one decimated value yet. Everything stays; the
            // pending `missed` and `dropped` counts stay with it.
            return;
        }
        // A re-based timeline only needs its own event if the stall guard has not
        // already reported one for the same clock step: two drop events for one
        // discontinuity would over-report the damage.
        if self.dropped > 0 || (self.rebased && !self.drop_signalled) {
            // `first_ts` is where the recovered data resumes, which is the edge
            // of the hole a consumer needs to know about.
            out.push(MeasurementMatch::Dropped { at: first_ts, samples: self.dropped });
            self.dropped = 0;
        }
        let ghost start = emissions(out@);
        let ghost held = AssemblerView { dropped: 0, ..old(self)@ };
        let mut c: usize = 0;
        proof {
            assert(held.pending.skip(0) =~= held.pending);
        }
        while c < n_chunks
            invariant
                held == (AssemblerView { dropped: 0, ..old(self)@ }),
                held.sound(),
                held.pending.len() <= usize::MAX,
                n_chunks == held.chunks_held(),
                n_chunks * held.chunk <= held.pending.len(),
                c <= n_chunks,
                self@ == (AssemblerView {
                    pending: held.pending.skip(c * held.chunk),
                    missed: if c == 0 {
                        held.missed
                    } else {
                        0
                    },
                    ..held
                }),
                emissions(out@) == start + held.measurements(first_ts as int, c as nat),
            decreases n_chunks - c,
        {
            proof {
                assert(c * held.chunk + held.chunk == (c + 1) * held.chunk) by (nonlinear_arith);
                assert((c + 1) * held.chunk <= n_chunks * held.chunk) by (nonlinear_arith)
                    requires
                        c + 1 <= n_chunks,
                        held.chunk >= 0,
                ;
                assert(c * held.chunk >= 0) by (nonlinear_arith)
                    requires
                        c >= 0,
                        held.chunk >= 0,
                ;
            }
            let read_at: WallNanos = add_samples(first_ts, (c * self.chunk) as u64);
            let chunk: usize = self.chunk;
            let samples = self.take_front(chunk);
            assert(samples@ =~= held.chunk_at(c as int));
            let m = samples.combine_matching(self.missed, read_at, self.pins);
            // Reset ONLY after the value is built, so no skipped-sample count is
            // ever dropped: summing `missed` over every emission reconstructs the
            // exact total the device reported.
            self.missed = 0;
            let ghost shown = out@;
            out.push(m);
            proof {
                assert(held.pending.skip(c * held.chunk).skip(held.chunk as int)
                    =~= held.pending.skip((c + 1) * held.chunk));
                assert(emissions(out@) =~= emissions(shown).push(m@));
                assert(held.measurements(first_ts as int, (c + 1) as nat) =~= held.measurements(
                    first_ts as int,
                    c as nat,
                ).push(m@));
            }
            c = c + 1;
        }
        self.last_delivered = Some(add_samples(first_ts, (n_chunks * self.chunk - 1) as u64));
        self.drop_signalled = false;
        self.rebased = false;
    }
}

/// The sample period is exact, so that no rounding error can accumulate however long
/// a block is, and a full ring holds [`STALL_GUARD`] of samples.
pub proof fn law_sample_period_is_exact()
    ensures
        RAW_SAMPLE_PERIOD * SPS_MAX == 1_000_000_000,
        RAW_SAMPLE_PERIOD * RING_CAPACITY_SAMPLES == STALL_GUARD,
{
}

/// Cutting whole chunks off `len` samples leaves less than one.
pub proof fn lemma_chunk_remainder(len: nat, chunk: nat)
    requires
        chunk >= 1,
    ensures
        0 <= len / chunk * chunk <= len,
        len - len / chunk * chunk == len % chunk < chunk,
        len / chunk >= 1 ==> len / chunk * chunk >= chunk,
{
    lemma_fundamental_div_mod(len as int, chunk as int);
    lemma_mul_is_commutative(chunk as int, (len / chunk) as int);
    let q = len / chunk;
    assert(q >= 1 ==> q * chunk >= chunk) by (nonlinear_arith);
}

} // verus!
