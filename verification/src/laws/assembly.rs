//! What each part of assembling a read does, in terms of the samples and the times.

use vstd::prelude::*;

use crate::laws::clocks::law_read_within_the_guard_discards_nothing;
use crate::laws::parsing::{law_feeding_in_pieces, law_feeding_nothing, lemma_fed_wf};
use crate::laws::run::{
    block_at, bytes_of, found_at, held_at, lemma_held, lemma_run, lemma_step, run, stamp, step,
    stream_of, Read,
};
use crate::measurement::{combined, matching, AccumulatorView, Emission, Measurement};
use crate::stream::{
    after_samples, chunk_for, lemma_chunk_remainder, AssemblerView, ReadClocks,
};
use crate::types::LogicPortPins;

verus! {

/// The chunk is the largest number of raw samples with which the requested rate is still
/// reached, out of the hundred thousand that arrive in a second. A rate of zero counts as
/// one, and a rate that cannot be reached leaves single samples.
pub proof fn law_chunk_reaches_the_rate(sps: nat)
    ensures
        1 <= sps <= 100_000 ==> chunk_for(sps) * sps <= 100_000 < (chunk_for(sps) + 1) * sps,
        sps > 100_000 ==> chunk_for(sps) == 1,
        chunk_for(0) == chunk_for(1),
        1 <= chunk_for(sps) <= 100_000,
{
    if 1 <= sps <= 100_000 {
        let q = 100_000nat / sps;
        lemma_chunk_remainder(100_000, sps);
        assert((q + 1) * sps == q * sps + sps) by (nonlinear_arith);
        assert(1 <= q) by (nonlinear_arith)
            requires
                q == 100_000nat / sps,
                1 <= sps <= 100_000,
        ;
        assert(q <= 100_000) by (nonlinear_arith)
            requires
                q * sps <= 100_000,
                1 <= sps,
        ;
    }
    lemma_chunk_remainder(100_000, 1);
}

/// A higher rate never has a larger chunk.
pub proof fn law_higher_rates_have_smaller_chunks(sps: nat, higher: nat)
    requires
        sps <= higher,
    ensures
        chunk_for(higher) <= chunk_for(sps),
{
    law_chunk_reaches_the_rate(sps);
    law_chunk_reaches_the_rate(higher);
    if 1 <= sps && higher <= 100_000 {
        let a = chunk_for(sps);
        let b = chunk_for(higher);
        assert(b <= a) by (nonlinear_arith)
            requires
                sps <= higher,
                b * higher <= 100_000,
                100_000 < (a + 1) * sps,
                1 <= sps,
                b >= 0,
                a >= 0,
        ;
    }
}

/// An assembler that has read nothing holds nothing, has delivered nothing and has nothing
/// to report.
pub proof fn law_fresh_assembler_holds_nothing(chunk: nat, pins: LogicPortPins)
    ensures
        ({
            let fresh = AssemblerView::initial(chunk, pins);
            &&& fresh.chunk == chunk
            &&& fresh.pins == pins
            &&& fresh.parser == AccumulatorView::initial()
            &&& fresh.pending.len() == 0
            &&& fresh.missed == 0
            &&& fresh.dropped == 0
            &&& !fresh.drop_signalled
            &&& !fresh.rebased
            &&& fresh.last_delivered is None
            &&& fresh.last_read is None
        }),
{
}

/// Parsing bytes puts what they decode to behind what is held, adds what they show to be
/// missed, and touches nothing else.
pub proof fn law_parsing_appends(held: AssemblerView, bytes: Seq<u8>)
    ensures
        ({
            let missed = held.missed + held.parser.decoded(bytes).missed;
            &&& held.ingested(bytes) == (AssemblerView {
                parser: held.parser.fed(bytes),
                pending: held.pending + held.parser.decoded(bytes).samples,
                missed: held.ingested(bytes).missed,
                ..held
            })
            &&& missed <= usize::MAX ==> held.ingested(bytes).missed == missed
            &&& missed > usize::MAX ==> held.ingested(bytes).missed == usize::MAX
        }),
{
}

/// Cutting the ring leaves the newest hundred thousand samples, or all if there are no more,
/// and counts each sample that goes.
pub proof fn law_ring_keeps_the_newest(held: AssemblerView, i: int)
    requires
        held.dropped + held.pending.len() <= u64::MAX,
    ensures
        held.pending.len() <= 100_000 ==> held.capped() == held,
        held.pending.len() > 100_000 ==> {
            &&& held.capped().pending.len() == 100_000
            &&& 0 <= i < 100_000 ==> held.capped().pending[99_999 - i]
                == held.pending[held.pending.len() - 1 - i]
            &&& held.capped().dropped == held.dropped + (held.pending.len() - 100_000)
            &&& held.capped() == (AssemblerView {
                pending: held.capped().pending,
                dropped: held.capped().dropped,
                ..held
            })
        },
{
    assert(held.pending.skip(0) =~= held.pending);
}

/// A read is parsed with its own bytes before those of the probe. The ring is cut unless the
/// read drained the port, delivered a frame, and found less than a chunk.
pub proof fn law_ring_is_cut_unless_drained(
    held: AssemblerView,
    main: Seq<u8>,
    probe: Seq<u8>,
    trustable: bool,
)
    ensures
        ({
            let all = held.ingested(main).ingested(probe);
            let frames = held.parser.decoded(main).samples.len();
            &&& trustable && frames > 0 && held.pending.len() < held.chunk ==> held.taken_in(
                main,
                probe,
                trustable,
            ) == all
            &&& !trustable || frames == 0 || held.pending.len() >= held.chunk ==> held.taken_in(
                main,
                probe,
                trustable,
            ) == all.capped()
        }),
{
}

/// A read places what is held exactly if it drained the port, delivered a frame, and does
/// not place the oldest sample before the epoch. Its own last sample is then dated by the
/// read: as many samples stand before it as are held without it and those of the probe, each
/// ten microseconds earlier.
pub proof fn law_reads_place_what_is_held(
    held: AssemblerView,
    clocks: ReadClocks,
    main: Seq<u8>,
    probe: Seq<u8>,
    trustable: bool,
    ahead: int,
)
    requires
        ahead + 1 + held.parser.fed(main).decoded(probe).samples.len() == held.taken_in(
            main,
            probe,
            trustable,
        ).pending.len(),
    ensures
        held.block_start(clocks, main, probe, trustable) is Some <==> trustable
            && held.parser.decoded(main).samples.len() > 0 && clocks.sys >= ahead * 10_000,
        held.block_start(clocks, main, probe, trustable) matches Some(first) ==> {
            ||| first + ahead * 10_000 == clocks.sys
            ||| first == i128::MAX && clocks.sys - ahead * 10_000 > i128::MAX
        },
{
}

/// With less than a chunk held nothing is delivered. With `n` chunks and less than one more,
/// exactly those are, oldest first and one behind the other: each is combined from its own
/// samples, and stamped with the time of its first one. The first reports what was missed,
/// the others nothing. A loss, or a timeline that was re-based and not yet reported, is
/// reported before them, where they start.
pub proof fn law_whole_chunks_are_delivered(held: AssemblerView, first: int, n: nat)
    requires
        held.chunk >= 1,
        n * held.chunk <= held.pending.len() < n * held.chunk + held.chunk,
    ensures
        n == 0 ==> held.delivered(first) == (held, Seq::<Emission>::empty()),
        n > 0 ==> {
            let (after, events) = held.delivered(first);
            let unreported = held.dropped > 0 || (held.rebased && !held.drop_signalled);
            let at: int = if unreported {
                1
            } else {
                0
            };
            &&& events.len() == at + n
            &&& unreported ==> events[0] == (Emission::Dropped {
                at: first,
                samples: held.dropped as nat,
            })
            &&& events[at] == combined(
                matching(held.pending.subrange(0, held.chunk as int), held.pins),
                held.missed as nat,
                after_samples(first, 0),
            )
            &&& forall|c: int|
                0 < c < n ==> #[trigger] events[at + c] == combined(
                    matching(
                        held.pending.subrange(c * held.chunk, c * held.chunk + held.chunk),
                        held.pins,
                    ),
                    0,
                    after_samples(first, c * held.chunk),
                )
            &&& after.pending == held.pending.skip((n * held.chunk) as int)
            &&& after.missed == 0
            &&& after.dropped == 0
            &&& !after.drop_signalled
            &&& !after.rebased
            &&& after.last_delivered == Some(after_samples(first, n * held.chunk - 1))
            &&& after.chunk == held.chunk
            &&& after.pins == held.pins
            &&& after.parser == held.parser
            &&& after.last_read == held.last_read
        },
{
    let q = held.chunks_held();
    lemma_chunk_remainder(held.pending.len(), held.chunk);
    assert(q == n) by (nonlinear_arith)
        requires
            held.chunk >= 1,
            n * held.chunk <= held.pending.len() < n * held.chunk + held.chunk,
            q * held.chunk <= held.pending.len(),
            held.pending.len() - q * held.chunk < held.chunk,
    ;
    assert(0 * held.chunk == 0) by (nonlinear_arith);
    if n > 0 {
        let at: int = if held.hole_unreported() {
            1
        } else {
            0
        };
        let events = held.delivered(first).1;
        assert forall|c: int| 0 <= c < n implies #[trigger] events[at + c] == held.measurements(
            first,
            n,
        )[c] by {}
        assert(events[at + 0] == held.measurements(first, n)[0]);
    }
}

/// A block that starts behind what was delivered is delivered as it is.
pub proof fn law_block_behind_the_seam_is_delivered(held: AssemblerView, first: int)
    requires
        first <= i128::MAX,
        held.last_delivered matches Some(last) ==> last < first,
    ensures
        held.emitted(first) == held.delivered(first),
{
    assert(held.pending.skip(0) =~= held.pending);
    assert(held.trimmed(first) =~= held);
    let events = held.delivered(first).1;
    assert(Seq::<Emission>::empty() + events =~= events);
}

/// A block that reaches back into delivered time by at most a second loses the `t` samples
/// that lie there, no fewer and no more, and reports them. What is left keeps its times. If
/// nothing is left, nothing else happens.
pub proof fn law_block_across_the_seam_is_trimmed(
    held: AssemblerView,
    first: int,
    last: int,
    t: nat,
)
    requires
        held.chunk >= 1,
        first <= i128::MAX,
        held.last_delivered == Some(last),
        0 <= last - first <= 1_000_000_000,
        first + (t - 1) * 10_000 <= last < first + t * 10_000,
    ensures
        t < held.pending.len() ==> {
            let (after, events) = (AssemblerView {
                pending: held.pending.skip(t as int),
                ..held
            }).delivered(after_samples(first, t as int));
            &&& held.emitted(first).0 == after
            &&& held.emitted(first).1 == seq![
                Emission::SeamOverlap { at: first, samples_trimmed: t, overlap: last - first },
            ] + events
        },
        t >= held.pending.len() ==> {
            &&& held.emitted(first).0 == (AssemblerView {
                pending: Seq::<Measurement>::empty(),
                ..held
            })
            &&& held.emitted(first).1 == seq![
                Emission::SeamOverlap {
                    at: first,
                    samples_trimmed: held.pending.len(),
                    overlap: last - first,
                },
            ]
        },
{
    assert(held.seam_overlap(first) == Some(last - first));
    assert(t == (last - first) / 10_000 + 1);
    if t >= held.pending.len() {
        let none = held.pending.skip(held.pending.len() as int);
        assert(none =~= Seq::<Measurement>::empty());
        lemma_chunk_remainder(0, held.chunk);
        assert(held.trimmed(first).chunks_held() == 0) by (nonlinear_arith)
            requires
                held.trimmed(first).chunks_held() == 0nat / held.chunk,
                held.chunk >= 1,
        ;
    }
}

/// A block that reaches back by more than a second is delivered in full, on a timeline that
/// starts anew.
pub proof fn law_block_far_back_starts_anew(held: AssemblerView, first: int, last: int)
    requires
        first <= i128::MAX,
        held.last_delivered == Some(last),
        last - first > 1_000_000_000,
    ensures
        held.emitted(first) == (AssemblerView {
            rebased: true,
            last_delivered: None,
            ..held
        }).delivered(first),
{
    assert(held.pending.skip(0) =~= held.pending);
    let moved = AssemblerView { rebased: true, last_delivered: None, ..held };
    assert(held.trimmed(first) =~= moved);
    let events = moved.delivered(first).1;
    assert(Seq::<Emission>::empty() + events =~= events);
}

/// A read first settles what a stall costs, then takes its bytes in, and then emits what it
/// places. If it places nothing, what it took in is held as far as the ring has room.
pub proof fn law_reads_settle_take_in_and_emit(before: AssemblerView, read: Read)
    ensures
        ({
            let (kept, lost) = before.guarded(read.clocks);
            let held = kept.taken_in(read.main, read.probe, read.trustable);
            &&& held_at(before, read) == held
            &&& match kept.block_start(read.clocks, read.main, read.probe, read.trustable) {
                Some(first) => step(before, read) == (
                    held.emitted(first).0,
                    lost + held.emitted(first).1,
                ),
                None => step(before, read) == (held.capped(), lost),
            }
        }),
{
}

/// A run that was held is pinned back from the read that drains the port. Of two reads within
/// a second of each other, the first of which leaves a backlog, nothing is lost, whenever they
/// arrived: all whole chunks come out with the second one, each stamped as many sample
/// periods before that read returned as samples follow its first one.
pub proof fn law_held_run_is_pinned_back(
    chunk: nat,
    pins: LogicPortPins,
    held: Read,
    draining: Read,
    n: nat,
    c: int,
)
    requires
        1 <= chunk <= 100_000,
        !held.trustable,
        draining.trustable,
        draining.probe.len() == 0,
        0 <= draining.clocks.sys - held.clocks.sys <= 1_000_000_000,
        draining.clocks.mono - held.clocks.mono <= 1_000_000_000,
        stream_of(seq![held, draining]).len() <= 100_000,
        stream_of(seq![held]).len() < stream_of(seq![held, draining]).len(),
        draining.clocks.sys >= 10_000 * stream_of(seq![held, draining]).len(),
        n * chunk <= stream_of(seq![held, draining]).len() < n * chunk + chunk,
        0 <= c < n,
    ensures
        run(AssemblerView::initial(chunk, pins), seq![held]).1.len() == 0,
        run(AssemblerView::initial(chunk, pins), seq![held, draining]).1.len() == n,
        ({
            let e = run(AssemblerView::initial(chunk, pins), seq![held, draining]).1[c];
            &&& e is Match || e is NoMatch
            &&& stamp(e) + 10_000 * (stream_of(seq![held, draining]).len() - 1 - c * chunk)
                == draining.clocks.sys
        }),
{
    let start = AssemblerView::initial(chunk, pins);
    let both = seq![held, draining];
    let one = seq![held];
    assert(both.drop_last() =~= one);
    assert(one.drop_last() =~= Seq::<Read>::empty());
    assert(run(start, Seq::<Read>::empty()) == (start, Seq::<Emission>::empty()));
    // The first read is held.
    lemma_run(start, one);
    lemma_held(start, held);
    law_read_within_the_guard_discards_nothing(start, held.clocks);
    assert(bytes_of(one) =~= held.main + held.probe) by {
        assert(bytes_of(Seq::<Read>::empty()) =~= Seq::empty());
    }
    assert(bytes_of(both) =~= bytes_of(one) + (draining.main + draining.probe));
    let first_samples = stream_of(one);
    assert(found_at(start, held) =~= first_samples);
    assert(first_samples.skip(0) =~= first_samples);
    let before = step(start, held).0;
    assert(before.pending =~= first_samples);
    assert(before.last_read == Some(held.clocks));
    assert(step(start, held).1 =~= Seq::<Emission>::empty());
    assert(run(start, one).1 =~= Seq::<Emission>::empty());
    // The second one places everything.
    lemma_step(start, held);
    lemma_held(before, draining);
    law_read_within_the_guard_discards_nothing(before, draining.clocks);
    law_feeding_in_pieces(
        AccumulatorView::initial(),
        bytes_of(one),
        draining.main + draining.probe,
    );
    assert(draining.main + draining.probe =~= draining.main);
    let all = stream_of(both);
    assert(found_at(before, draining) =~= all);
    assert(all.skip(0) =~= all);
    let placed = held_at(before, draining);
    assert(placed.pending =~= all);
    lemma_fed_wf(before.parser, draining.main);
    law_feeding_nothing(before.parser.fed(draining.main));
    assert(draining.probe =~= Seq::empty());
    let first = draining.clocks.sys - 10_000 * (all.len() - 1);
    assert(block_at(before, draining) == Some(first));
    law_block_behind_the_seam_is_delivered(placed, first);
    law_whole_chunks_are_delivered(placed, first, n);
    let events = placed.delivered(first).1;
    assert(step(before, draining).1 =~= events);
    assert(run(start, both).1 =~= events);
    assert(events[0 + c] == events[c]);
    assert(c * chunk + chunk <= n * chunk) by (nonlinear_arith)
        requires
            c + 1 <= n,
            chunk >= 0,
    ;
    assert(0 <= c * chunk) by (nonlinear_arith)
        requires
            c >= 0,
            chunk >= 0,
    ;
}

} // verus!
