//! Where the measurements of one read are placed in time.

use vstd::prelude::*;

use crate::laws::order::lemma_after_samples;
use crate::laws::run::{
    block_at, found_at, held_at, is_data, lemma_emitted, lemma_held, lemma_run,
    lemma_trimmed, probe_samples, run, stamp, step, Read,
};
use crate::measurement::{combined, matching, Emission};
use crate::stream::{
    after_samples, lemma_chunk_remainder, mono_gap, stall_between, AssemblerView, ReadClocks,
    StallKind, RAW_SAMPLE_PERIOD, RING_CAPACITY_SAMPLES, SEAM_MAX_OVERLAP, STALL_GUARD,
};
use crate::types::LogicPortPins;
use crate::SPS_MAX;

verus! {

/// Whether `e` is what `chunk` samples held from position `at` on combine to.
pub open spec fn combines(held: AssemblerView, at: int, e: Emission) -> bool {
    &&& 0 <= at
    &&& at + held.chunk <= held.pending.len()
    &&& exists|missed: nat|
        e == #[trigger] combined(
            matching(held.pending.subrange(at, at + held.chunk), held.pins),
            missed,
            stamp(e),
        )
}

/// Capture time of the sample held at position `at`: the last sample of the read
/// itself was captured when the read returned, and every other is a whole number of
/// periods away.
pub open spec fn capture_time(before: AssemblerView, read: Read, at: int) -> int {
    after_samples(
        read.clocks.sys as int,
        at - (held_at(before, read).pending.len() - 1 - probe_samples(before, read)),
    )
}

proof fn lemma_delivered_placement(held: AssemblerView, first: int, k: int)
    requires
        held.sound(),
        first <= i128::MAX,
        0 <= k < held.delivered(first).1.len(),
        is_data(held.delivered(first).1[k]),
    ensures
        exists|at: int|
            combines(held, at, held.delivered(first).1[k]) && stamp(held.delivered(first).1[k])
                == #[trigger] after_samples(first, at),
{
    let n = held.chunks_held();
    let e = held.delivered(first).1[k];
    let hole: int = if held.hole_unreported() {
        1
    } else {
        0
    };
    let c = k - hole;
    assert(e == held.measurements(first, n)[c]);
    let at = c * held.chunk;
    lemma_chunk_remainder(held.pending.len(), held.chunk);
    assert(at + held.chunk <= n * held.chunk) by (nonlinear_arith)
        requires
            at == c * held.chunk,
            c + 1 <= n,
            held.chunk >= 0,
    ;
    assert(at >= 0) by (nonlinear_arith)
        requires
            at == c * held.chunk,
            c >= 0,
            held.chunk >= 0,
    ;
    let missed: nat = if c == 0 {
        held.missed as nat
    } else {
        0
    };
    assert(e == combined(
        matching(held.pending.subrange(at, at + held.chunk), held.pins),
        missed,
        stamp(e),
    ));
    assert(stamp(e) == after_samples(first, at));
}

/// Every measurement that a read leads to is stamped with the capture time of its
/// first raw sample, placed backward or forward from the read that drained the
/// port. This holds of the samples held from earlier reads, and of those that are
/// left when an overlap is trimmed.
pub proof fn law_stamp_is_capture_time(before: AssemblerView, read: Read, k: int)
    requires
        before.wf(),
        0 <= k < step(before, read).1.len(),
        is_data(step(before, read).1[k]),
    ensures
        read.trustable,
        exists|at: int|
            combines(held_at(before, read), at, step(before, read).1[k]) && stamp(
                step(before, read).1[k],
            ) == #[trigger] capture_time(before, read, at),
{
    lemma_data_comes_from_a_block(before, read, k);
    let held = held_at(before, read);
    let e = step(before, read).1[k];
    let first = block_at(before, read).unwrap();
    let trim = held.trim(first) as int;
    let rest = held.trimmed(first);
    let start = after_samples(first, trim);
    lemma_delivered_placement(rest, start, delivered_index(before, read, k));
    let at = choose|at: int|
        combines(rest, at, e) && stamp(e) == #[trigger] after_samples(start, at);
    assert(rest.pending.subrange(at, at + held.chunk) =~= held.pending.subrange(
        trim + at,
        trim + at + held.chunk,
    ));
    assert(combines(held, trim + at, e));
    lemma_after_samples(first, trim, at);
    assert(stamp(e) == capture_time(before, read, trim + at));
}

/// The place of a read's `k`-th emission among those of its block.
pub open spec fn delivered_index(before: AssemblerView, read: Read, k: int) -> int {
    k - before.guarded(read.clocks).1.len() - held_at(before, read).seam_events(
        block_at(before, read).unwrap(),
    ).len()
}

/// A measurement comes from what is left of a block that the read placed, and so does
/// everything behind it.
proof fn lemma_data_comes_from_a_block(before: AssemblerView, read: Read, k: int)
    requires
        before.wf(),
        0 <= k < step(before, read).1.len(),
        is_data(step(before, read).1[k]),
    ensures
        read.trustable,
        block_at(before, read) is Some,
        ({
            let held = held_at(before, read);
            let first = block_at(before, read).unwrap();
            let start = after_samples(first, held.trim(first) as int);
            let events = held.trimmed(first).delivered(start).1;
            let d = delivered_index(before, read, k);
            &&& held.sound()
            &&& held.chunk == before.chunk
            &&& held.trimmed(first).sound()
            &&& 0 <= first <= i128::MAX
            &&& start <= i128::MAX
            &&& held.trim(first) <= held.pending.len()
            &&& first == after_samples(
                read.clocks.sys as int,
                probe_samples(before, read) + 1 - held.pending.len(),
            )
            &&& 0 <= d < events.len()
            &&& events.len() - d == step(before, read).1.len() - k
            &&& events[d] == step(before, read).1[k]
            &&& k + 1 < step(before, read).1.len() ==> events[d + 1] == step(before, read).1[k + 1]
        }),
{
    lemma_held(before, read);
    let lost = before.guarded(read.clocks).1;
    match block_at(before, read) {
        None => {},
        Some(first) => {
            let held = held_at(before, read);
            let seam = held.seam_events(first);
            lemma_trimmed(held, first);
            let start = after_samples(first, held.trim(first) as int);
            let events = held.trimmed(first).delivered(start).1;
            assert(step(before, read).1 =~= lost + (seam + events));
        },
    }
}

/// The measurements of one read are spaced by exactly one chunk of sample periods,
/// with no gap and no other event among them.
pub proof fn law_blocks_are_evenly_spaced(before: AssemblerView, read: Read, k: int)
    requires
        before.wf(),
        0 <= k < step(before, read).1.len() - 1,
        is_data(step(before, read).1[k]),
    ensures
        is_data(step(before, read).1[k + 1]),
        stamp(step(before, read).1[k + 1]) < i128::MAX ==> stamp(step(before, read).1[k + 1])
            == stamp(step(before, read).1[k]) + before.chunk * RAW_SAMPLE_PERIOD,
{
    lemma_data_comes_from_a_block(before, read, k);
    let held = held_at(before, read);
    let first = block_at(before, read).unwrap();
    lemma_delivered_spacing(
        held.trimmed(first),
        after_samples(first, held.trim(first) as int),
        delivered_index(before, read, k),
    );
}

proof fn lemma_delivered_spacing(held: AssemblerView, first: int, k: int)
    requires
        held.sound(),
        first <= i128::MAX,
        0 <= k < held.delivered(first).1.len() - 1,
        is_data(held.delivered(first).1[k]),
    ensures
        is_data(held.delivered(first).1[k + 1]),
        stamp(held.delivered(first).1[k + 1]) < i128::MAX ==> stamp(held.delivered(first).1[k + 1])
            == stamp(held.delivered(first).1[k]) + held.chunk * RAW_SAMPLE_PERIOD,
{
    let n = held.chunks_held();
    let hole: int = if held.hole_unreported() {
        1
    } else {
        0
    };
    let c = k - hole;
    assert(held.delivered(first).1[k] == held.measurements(first, n)[c]);
    assert(held.delivered(first).1[k + 1] == held.measurements(first, n)[c + 1]);
    assert((c + 1) * held.chunk == c * held.chunk + held.chunk) by (nonlinear_arith);
    assert(c * held.chunk >= 0) by (nonlinear_arith)
        requires
            c >= 0,
            held.chunk >= 0,
    ;
}

/// A read that places what is held leaves less than a chunk, and what it reports is
/// reported in full.
pub proof fn law_placing_leaves_less_than_a_chunk(before: AssemblerView, read: Read)
    requires
        before.wf(),
        block_at(before, read) is Some,
    ensures
        step(before, read).0.pending.len() < before.chunk,
        forall|k: int|
            0 <= k < step(before, read).1.len() && is_data(#[trigger] step(before, read).1[k])
                ==> step(before, read).0.missed == 0 && step(before, read).0.dropped == 0
                && !step(before, read).0.drop_signalled,
{
    let first = block_at(before, read).unwrap();
    lemma_held(before, read);
    lemma_emitted(held_at(before, read), first);
    assert forall|k: int|
        0 <= k < step(before, read).1.len() && is_data(#[trigger] step(before, read).1[k]) implies
        step(before, read).0.missed == 0 && step(before, read).0.dropped == 0 && !step(
        before,
        read,
    ).0.drop_signalled by {
        lemma_data_comes_from_a_block(before, read, k);
    }
}

/// A read that did not drain the port, or that completed no frame, emits no
/// measurement and trims nothing. What it delivered is held, as far as the ring has room
/// for it.
pub proof fn law_unanchored_reads_only_hold(before: AssemblerView, read: Read)
    requires
        before.wf(),
        !read.trustable || before.parser.decoded(read.main).samples.len() == 0,
    ensures
        forall|k: int|
            0 <= k < step(before, read).1.len() ==> (#[trigger] step(before, read).1[k]) is Dropped,
        step(before, read).0 == held_at(before, read),
{
    let held = held_at(before, read);
    assert(held.pending.skip(0) =~= held.pending);
    assert(held.capped() =~= held);
}

/// A wall clock that moved by more than [`STALL_GUARD`] either way is a stall, whatever
/// the monotonic clock shows: a suspend of the host hardly moves that one.
pub proof fn law_wall_clock_gap_is_a_stall(prev: ReadClocks, now: ReadClocks)
    requires
        now.sys - prev.sys > STALL_GUARD || prev.sys - now.sys > STALL_GUARD,
    ensures
        stall_between(prev, now) is Some,
        now.sys > prev.sys && now.sys - prev.sys > 2 * mono_gap(prev, now) ==> stall_between(
            prev,
            now,
        ) == Some(StallKind::HostSuspend),
        now.sys < prev.sys ==> stall_between(prev, now) == Some(StallKind::ClockStep),
{
}

/// After a stall nothing older than the read is held, so that no measurement mixes
/// samples from both sides of it.
pub proof fn law_nothing_straddles_a_stall(before: AssemblerView, read: Read)
    requires
        before.wf(),
        before.stalled(read.clocks),
    ensures
        held_at(before, read).pending.is_suffix_of(
            before.parser.decoded(read.main + read.probe).samples,
        ),
{
    lemma_held(before, read);
    let samples = before.parser.decoded(read.main + read.probe).samples;
    assert(found_at(before, read) =~= samples);
}

/// While a reported loss has not been followed by a measurement, further stalls are
/// silent: a read that emits no measurement then emits nothing at all, apart from an
/// overlap that it trims.
pub proof fn law_repeated_stalls_are_reported_once(before: AssemblerView, read: Read)
    requires
        before.wf(),
        before.drop_signalled,
        forall|k: int| 0 <= k < step(before, read).1.len() ==> !is_data(step(before, read).1[k]),
    ensures
        forall|k: int|
            0 <= k < step(before, read).1.len() ==> (#[trigger] step(
                before,
                read,
            ).1[k]) is SeamOverlap,
        step(before, read).0.drop_signalled,
{
    lemma_held(before, read);
    match block_at(before, read) {
        None => {},
        Some(first) => {
            let held = held_at(before, read);
            let rest = held.trimmed(first);
            let seam = held.seam_events(first);
            let events = step(before, read).1;
            lemma_trimmed(held, first);
            let start = after_samples(first, held.trim(first) as int);
            assert(events =~= seam + rest.delivered(start).1);
            if rest.chunks_held() > 0 {
                let hole: int = if rest.hole_unreported() {
                    1
                } else {
                    0
                };
                assert(is_data(rest.delivered(start).1[hole]));
                assert(is_data(events[seam.len() + hole]));
            }
        },
    }
}

/// What an overlap trims is exactly the samples that lie in delivered time: those
/// captured no later than the last one delivered.
pub proof fn law_trim_is_exact(held: AssemblerView, first: int, i: int)
    requires
        held.sound(),
        held.seam_overlap(first) is Some,
        held.seam_overlap(first).unwrap() <= SEAM_MAX_OVERLAP,
        0 <= i < held.pending.len(),
    ensures
        held.emitted(first).1.len() > 0,
        held.emitted(first).1[0] matches Emission::SeamOverlap { samples_trimmed, .. } && (i
            < samples_trimmed <==> first + i * RAW_SAMPLE_PERIOD <= held.last_delivered.unwrap()),
{
}

/// Whether a read disturbs nothing: it comes without a stall, the ring has room for what
/// it delivers, or need not have, and the read reaches back no further than jitter does.
pub open spec fn undisturbed(before: AssemblerView, read: Read) -> bool {
    &&& !before.stalled(read.clocks)
    &&& match block_at(before, read) {
        Some(first) => {
            &&& before.pending.len() < before.chunk || found_at(before, read).len()
                <= RING_CAPACITY_SAMPLES
            &&& !held_at(before, read).breaks_timeline(first)
        },
        None => found_at(before, read).len() <= RING_CAPACITY_SAMPLES,
    }
}

/// Jitter is no loss, and neither is a backlog that is merely held: an undisturbed read
/// reports no loss, and leaves none to be reported.
pub proof fn law_jitter_is_no_loss(before: AssemblerView, read: Read)
    requires
        before.wf(),
        before.dropped == 0,
        !before.rebased,
        undisturbed(before, read),
    ensures
        forall|k: int|
            0 <= k < step(before, read).1.len() ==> !((#[trigger] step(
                before,
                read,
            ).1[k]) is Dropped),
        step(before, read).0.dropped == 0,
        !step(before, read).0.rebased,
{
    lemma_held(before, read);
    match block_at(before, read) {
        None => {},
        Some(first) => {
            let held = held_at(before, read);
            let rest = held.trimmed(first);
            let seam = held.seam_events(first);
            let events = step(before, read).1;
            lemma_trimmed(held, first);
            let start = after_samples(first, held.trim(first) as int);
            let ms = rest.measurements(start, rest.chunks_held());
            assert(rest.delivered(start).1 =~= if rest.chunks_held() == 0 {
                Seq::empty()
            } else {
                ms
            });
            assert(events =~= seam + rest.delivered(start).1);
        },
    }
}

/// Whether every read of a run is undisturbed.
pub open spec fn all_undisturbed(start: AssemblerView, reads: Seq<Read>) -> bool
    decreases reads.len(),
{
    reads.len() == 0 || {
        &&& all_undisturbed(start, reads.drop_last())
        &&& undisturbed(run(start, reads.drop_last()).0, reads.last())
    }
}

/// Over any run of undisturbed reads, draining or not, no loss is reported and none is
/// left to be reported.
pub proof fn law_undisturbed_reads_lose_nothing(
    chunk: nat,
    pins: LogicPortPins,
    reads: Seq<Read>,
)
    requires
        1 <= chunk <= SPS_MAX,
        all_undisturbed(AssemblerView::initial(chunk, pins), reads),
    ensures
        forall|k: int|
            0 <= k < run(AssemblerView::initial(chunk, pins), reads).1.len() ==> !((
            #[trigger] run(AssemblerView::initial(chunk, pins), reads).1[k]) is Dropped),
        run(AssemblerView::initial(chunk, pins), reads).0.dropped == 0,
        !run(AssemblerView::initial(chunk, pins), reads).0.rebased,
    decreases reads.len(),
{
    let start = AssemblerView::initial(chunk, pins);
    if reads.len() > 0 {
        let init = reads.drop_last();
        law_undisturbed_reads_lose_nothing(chunk, pins, init);
        lemma_run(start, init);
        law_jitter_is_no_loss(run(start, init).0, reads.last());
    }
}

/// Whether every read of a run comes without a stall, and drains the port and places
/// what is held without reaching back further than jitter does, or completes no frame at
/// all.
pub open spec fn all_draining(start: AssemblerView, reads: Seq<Read>) -> bool
    decreases reads.len(),
{
    reads.len() == 0 || {
        let before = run(start, reads.drop_last()).0;
        let read = reads.last();
        &&& all_draining(start, reads.drop_last())
        &&& !before.stalled(read.clocks)
        &&& match block_at(before, read) {
            Some(first) => !held_at(before, read).breaks_timeline(first),
            None => before.parser.decoded(read.main + read.probe).samples.len() == 0,
        }
    }
}

/// As long as reads drain the port without a stall, no block precedes the epoch and no
/// clock steps back further than jitter does, no loss is ever reported: the ring does not
/// overflow, at any rate and for any size of the reads.
pub proof fn law_draining_reads_lose_nothing(chunk: nat, pins: LogicPortPins, reads: Seq<Read>)
    requires
        1 <= chunk <= SPS_MAX,
        all_draining(AssemblerView::initial(chunk, pins), reads),
    ensures
        forall|k: int|
            0 <= k < run(AssemblerView::initial(chunk, pins), reads).1.len() ==> !((
            #[trigger] run(AssemblerView::initial(chunk, pins), reads).1[k]) is Dropped),
        run(AssemblerView::initial(chunk, pins), reads).0.dropped == 0,
        run(AssemblerView::initial(chunk, pins), reads).0.pending.len() < chunk,
{
    lemma_draining_is_undisturbed(chunk, pins, reads);
    law_undisturbed_reads_lose_nothing(chunk, pins, reads);
}

proof fn lemma_draining_is_undisturbed(chunk: nat, pins: LogicPortPins, reads: Seq<Read>)
    requires
        1 <= chunk <= SPS_MAX,
        all_draining(AssemblerView::initial(chunk, pins), reads),
    ensures
        all_undisturbed(AssemblerView::initial(chunk, pins), reads),
        run(AssemblerView::initial(chunk, pins), reads).0.pending.len() < chunk,
    decreases reads.len(),
{
    let start = AssemblerView::initial(chunk, pins);
    if reads.len() > 0 {
        let init = reads.drop_last();
        let before = run(start, init).0;
        lemma_draining_is_undisturbed(chunk, pins, init);
        lemma_run(start, init);
        lemma_held(before, reads.last());
        match block_at(before, reads.last()) {
            None => {},
            Some(first) => {
                lemma_emitted(held_at(before, reads.last()), first);
            },
        }
    }
}

} // verus!
