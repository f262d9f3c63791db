//! What is held and what is delivered, as parts of the stream.

use vstd::prelude::*;

use crate::frame::frames;
use crate::laws::parsing::{law_feeding_in_pieces, law_positions_count_up};
use crate::laws::run::{
    block_at, bytes_of, cut_at, found_at, held_at, lemma_held, lemma_run, lemma_trimmed, run, step,
    stream_of, Read,
};
use crate::measurement::{matching, positions, Emission, Measurement};
use crate::stream::{
    after_samples, lemma_chunk_remainder, overflow, AssemblerView, RING_CAPACITY_SAMPLES,
};
use crate::types::LogicPortPins;
use crate::SPS_MAX;

verus! {

proof fn lemma_suffix_grows(part: Seq<Measurement>, whole: Seq<Measurement>, more: Seq<Measurement>)
    requires
        part.is_suffix_of(whole),
    ensures
        (part + more).is_suffix_of(whole + more),
{
    assert(part + more =~= (whole + more).subrange(
        (whole + more).len() - (part + more).len(),
        (whole + more).len() as int,
    ));
}

proof fn lemma_suffix_shrinks(part: Seq<Measurement>, whole: Seq<Measurement>, n: int)
    requires
        part.is_suffix_of(whole),
        0 <= n <= part.len(),
    ensures
        part.skip(n).is_suffix_of(whole),
{
    assert(part.skip(n) =~= whole.subrange(
        whole.len() - part.skip(n).len(),
        whole.len() as int,
    ));
}

proof fn lemma_emitted_suffix(held: AssemblerView, first: int, whole: Seq<Measurement>)
    requires
        held.sound(),
        first <= i128::MAX,
        held.pending.is_suffix_of(whole),
    ensures
        held.emitted(first).0.pending.is_suffix_of(whole),
{
    let rest = held.trimmed(first).pending;
    lemma_trimmed(held, first);
    lemma_suffix_shrinks(held.pending, whole, held.trim(first) as int);
    lemma_chunk_remainder(rest.len(), held.chunk);
    lemma_suffix_shrinks(rest, whole, (rest.len() / held.chunk * held.chunk) as int);
}

/// What is held once a read is parsed is the newest run of the stream.
proof fn lemma_held_suffix(before: AssemblerView, whole: Seq<Measurement>, read: Read)
    requires
        before.wf(),
        before.pending.is_suffix_of(whole),
    ensures
        held_at(before, read).pending.is_suffix_of(
            whole + before.parser.decoded(read.main + read.probe).samples,
        ),
        held_at(before, read).pending.len() <= before.pending.len() + before.parser.decoded(
            read.main + read.probe,
        ).samples.len(),
{
    let kept = before.guarded(read.clocks).0;
    assert(kept.pending.is_suffix_of(whole)) by {
        assert(Seq::<Measurement>::empty() =~= whole.subrange(
            whole.len() as int,
            whole.len() as int,
        ));
    }
    lemma_held(before, read);
    let more = before.parser.decoded(read.main + read.probe).samples;
    lemma_suffix_grows(kept.pending, whole, more);
    lemma_suffix_shrinks(found_at(before, read), whole + more, cut_at(before, read));
}

/// One read keeps the ring the newest run of the stream.
proof fn lemma_step_suffix(before: AssemblerView, whole: Seq<Measurement>, read: Read)
    requires
        before.wf(),
        before.pending.is_suffix_of(whole),
    ensures
        step(before, read).0.pending.is_suffix_of(
            whole + before.parser.decoded(read.main + read.probe).samples,
        ),
{
    let all = whole + before.parser.decoded(read.main + read.probe).samples;
    let held = held_at(before, read);
    lemma_held(before, read);
    lemma_held_suffix(before, whole, read);
    match block_at(before, read) {
        None => {
            lemma_suffix_shrinks(held.pending, all, overflow(held.pending));
        },
        Some(first) => {
            lemma_emitted_suffix(held, first, all);
        },
    }
}

/// Whatever the reads, what is held is always the newest part of the stream without
/// a gap, and never more than the ring has room for.
pub proof fn law_held_is_the_newest_run(chunk: nat, pins: LogicPortPins, reads: Seq<Read>)
    requires
        1 <= chunk <= SPS_MAX,
    ensures
        run(AssemblerView::initial(chunk, pins), reads).0.pending.is_suffix_of(stream_of(reads)),
        run(AssemblerView::initial(chunk, pins), reads).0.pending.len() <= RING_CAPACITY_SAMPLES,
    decreases reads.len(),
{
    let start = AssemblerView::initial(chunk, pins);
    lemma_run(start, reads);
    if reads.len() > 0 {
        let init = reads.drop_last();
        let last = reads.last();
        law_held_is_the_newest_run(chunk, pins, init);
        lemma_run(start, init);
        law_feeding_in_pieces(start.parser, bytes_of(init), last.main + last.probe);
        lemma_step_suffix(run(start, init).0, stream_of(init), last);
    }
}

/// The positions of the samples that an emission delivers.
pub open spec fn positions_in(e: Emission) -> Seq<u64> {
    match e {
        Emission::Match { positions, .. } => positions,
        _ => Seq::empty(),
    }
}

/// The positions of the samples that `events` deliver, in order.
pub open spec fn positions_of(events: Seq<Emission>) -> Seq<u64>
    decreases events.len(),
{
    if events.len() == 0 {
        Seq::empty()
    } else {
        positions_of(events.drop_last()) + positions_in(events.last())
    }
}

/// Whether `all` goes up from number to number and stays from `low` up to below
/// `high`.
pub open spec fn rising(all: Seq<u64>, low: int, high: int) -> bool {
    &&& forall|i: int| 0 <= i < all.len() ==> low <= #[trigger] all[i] < high
    &&& forall|i: int, j: int| #![trigger all[i], all[j]] 0 <= i < j < all.len() ==> all[i] < all[j]
}

/// Whether the positions of `items` count up from `low`.
pub open spec fn numbered(items: Seq<Measurement>, low: int) -> bool {
    forall|i: int| 0 <= i < items.len() ==> (#[trigger] items[i]).sample == low + i
}

proof fn lemma_positions_add(a: Seq<Emission>, b: Seq<Emission>)
    ensures
        positions_of(a + b) == positions_of(a) + positions_of(b),
    decreases b.len(),
{
    if b.len() == 0 {
        assert(a + b =~= a);
        assert(positions_of(a) + positions_of(b) =~= positions_of(a));
    } else {
        lemma_positions_add(a, b.drop_last());
        assert((a + b).drop_last() =~= a + b.drop_last());
        assert(positions_of(a + b) =~= positions_of(a) + positions_of(b));
    }
}

proof fn lemma_rising_add(a: Seq<u64>, b: Seq<u64>, low: int, mid: int, high: int)
    requires
        rising(a, low, mid),
        rising(b, mid, high),
        low <= mid <= high,
    ensures
        rising(a + b, low, high),
{
}

/// What matches of a numbered run is still in order.
proof fn lemma_matching_rises(items: Seq<Measurement>, low: int, pins: LogicPortPins)
    requires
        numbered(items, low),
    ensures
        rising(positions(matching(items, pins)), low, low + items.len()),
    decreases items.len(),
{
    reveal(Seq::filter);
    if items.len() > 0 {
        let init = items.drop_last();
        assert forall|i: int| 0 <= i < init.len() implies (#[trigger] init[i]).sample == low + i by {
            assert(init[i] == items[i]);
        }
        lemma_matching_rises(init, low, pins);
        let before = positions(matching(init, pins));
        let all = positions(matching(items, pins));
        assert(items.last() == items[items.len() - 1]);
        if items.last().pins.compatible(pins) {
            assert(all =~= before.push(items.last().sample));
        } else {
            assert(all =~= before);
        }
    }
}

proof fn lemma_measurements_rise(held: AssemblerView, first: int, n: nat, low: int)
    requires
        numbered(held.pending, low),
        n * held.chunk <= held.pending.len(),
    ensures
        rising(positions_of(held.measurements(first, n)), low, low + n * held.chunk),
    decreases n,
{
    let events = held.measurements(first, n);
    if n == 0 {
        assert(0 * held.chunk == 0) by (nonlinear_arith);
    } else {
        let m = (n - 1) as nat;
        let mc = m * held.chunk;
        assert(n * held.chunk == mc + held.chunk) by (nonlinear_arith)
            requires
                n == m + 1,
                mc == m * held.chunk,
        ;
        assert(mc >= 0) by (nonlinear_arith)
            requires
                mc == m * held.chunk,
        ;
        lemma_measurements_rise(held, first, m, low);
        assert(events.drop_last() =~= held.measurements(first, m));
        let items = held.chunk_at(m as int);
        assert forall|i: int| 0 <= i < items.len() implies (#[trigger] items[i]).sample == low + mc
            + i by {
            assert(items[i] == held.pending[mc + i]);
        }
        lemma_matching_rises(items, low + mc, held.pins);
        assert(events.last() == held.measurements(first, n)[m as int]);
        let last = positions_in(events.last());
        if matching(items, held.pins).len() > 0 {
            assert(last == positions(matching(items, held.pins)));
        }
        lemma_rising_add(
            positions_of(events.drop_last()),
            last,
            low,
            low + mc,
            low + mc + held.chunk,
        );
    }
}

proof fn lemma_delivered_rises(held: AssemblerView, first: int, low: int)
    requires
        held.sound(),
        numbered(held.pending, low),
    ensures
        rising(
            positions_of(held.delivered(first).1),
            low,
            low + held.pending.len() - held.delivered(first).0.pending.len(),
        ),
        held.delivered(first).0.pending.len() <= held.pending.len(),
{
    let n = held.chunks_held();
    if n > 0 {
        lemma_chunk_remainder(held.pending.len(), held.chunk);
        lemma_measurements_rise(held, first, n, low);
        let ms = held.measurements(first, n);
        let event = Emission::Dropped { at: first, samples: held.dropped as nat };
        if held.hole_unreported() {
            lemma_positions_add(seq![event], ms);
            lemma_no_positions(event);
            assert(positions_of(seq![event]) + positions_of(ms) =~= positions_of(ms));
        } else {
            assert(Seq::<Emission>::empty() + ms =~= ms);
        }
    }
}

proof fn lemma_no_positions(e: Emission)
    requires
        !(e is Match),
    ensures
        positions_of(seq![e]) == Seq::<u64>::empty(),
{
    reveal_with_fuel(positions_of, 2);
    assert(seq![e].drop_last() =~= Seq::empty());
    assert(positions_of(seq![e]) =~= Seq::empty());
}

proof fn lemma_emitted_rises(held: AssemblerView, first: int, low: int)
    requires
        held.sound(),
        first <= i128::MAX,
        numbered(held.pending, low),
    ensures
        rising(
            positions_of(held.emitted(first).1),
            low,
            low + held.pending.len() - held.emitted(first).0.pending.len(),
        ),
        held.emitted(first).0.pending.len() <= held.pending.len(),
{
    let rest = held.trimmed(first);
    let trim = held.trim(first) as int;
    let start = after_samples(first, trim);
    let seam = held.seam_events(first);
    lemma_trimmed(held, first);
    assert forall|i: int| 0 <= i < rest.pending.len() implies (#[trigger] rest.pending[i]).sample
        == low + trim + i by {
        assert(rest.pending[i] == held.pending[trim + i]);
    }
    lemma_delivered_rises(rest, start, low + trim);
    lemma_positions_add(seam, rest.delivered(start).1);
    if seam.len() > 0 {
        lemma_no_positions(seam[0]);
    }
    assert(positions_of(held.emitted(first).1) =~= positions_of(rest.delivered(start).1));
}

/// A suffix of a numbered stream is numbered from where it starts.
proof fn lemma_suffix_numbered(part: Seq<Measurement>, whole: Seq<Measurement>)
    requires
        part.is_suffix_of(whole),
        numbered(whole, 0),
    ensures
        numbered(part, whole.len() - part.len()),
{
    let low = whole.len() - part.len();
    assert forall|i: int| 0 <= i < part.len() implies (#[trigger] part[i]).sample == low + i by {
        assert(part[i] == whole[low + i]);
    }
}

proof fn lemma_step_rises(before: AssemblerView, old_s: Seq<Measurement>, read: Read)
    requires
        before.wf(),
        before.pending.is_suffix_of(old_s),
        numbered(old_s + before.parser.decoded(read.main + read.probe).samples, 0),
    ensures
        rising(
            positions_of(step(before, read).1),
            old_s.len() - before.pending.len(),
            old_s.len() + before.parser.decoded(read.main + read.probe).samples.len() - step(
                before,
                read,
            ).0.pending.len(),
        ),
        old_s.len() - before.pending.len() <= old_s.len() + before.parser.decoded(
            read.main + read.probe,
        ).samples.len() - step(before, read).0.pending.len(),
{
    let new_s = old_s + before.parser.decoded(read.main + read.probe).samples;
    let lost = before.guarded(read.clocks).1;
    lemma_held(before, read);
    let held = held_at(before, read);
    lemma_held_suffix(before, old_s, read);
    lemma_suffix_numbered(held.pending, new_s);
    let low = new_s.len() - held.pending.len();
    if lost.len() > 0 {
        assert(lost =~= seq![lost[0]]);
        lemma_no_positions(lost[0]);
    }
    assert(positions_of(lost) =~= Seq::empty());
    match block_at(before, read) {
        None => {},
        Some(first) => {
            lemma_emitted_rises(held, first, low);
            lemma_positions_add(lost, held.emitted(first).1);
            assert(positions_of(step(before, read).1) =~= positions_of(held.emitted(first).1));
        },
    }
}

/// Whatever the reads, no sample is delivered twice, and samples are delivered in the
/// order in which the device sent them.
pub proof fn law_samples_are_delivered_in_order(
    chunk: nat,
    pins: LogicPortPins,
    reads: Seq<Read>,
)
    requires
        1 <= chunk <= SPS_MAX,
        bytes_of(reads).len() <= u64::MAX,
    ensures
        rising(
            positions_of(run(AssemblerView::initial(chunk, pins), reads).1),
            0,
            stream_of(reads).len() - run(
                AssemblerView::initial(chunk, pins),
                reads,
            ).0.pending.len(),
        ),
    decreases reads.len(),
{
    let start = AssemblerView::initial(chunk, pins);
    if reads.len() > 0 {
        let init = reads.drop_last();
        let last = reads.last();
        let before = run(start, init).0;
        law_samples_are_delivered_in_order(chunk, pins, init);
        law_held_is_the_newest_run(chunk, pins, init);
        lemma_run(start, init);
        law_feeding_in_pieces(start.parser, bytes_of(init), last.main + last.probe);
        law_positions_count_up(frames(start.parser.undecoded(bytes_of(reads))));
        assert(stream_of(reads) == stream_of(init) + before.parser.decoded(
            last.main + last.probe,
        ).samples);
        lemma_step_rises(before, stream_of(init), last);
        lemma_positions_add(run(start, init).1, step(before, last).1);
        lemma_rising_add(
            positions_of(run(start, init).1),
            positions_of(step(before, last).1),
            0,
            stream_of(init).len() - before.pending.len(),
            stream_of(reads).len() - step(before, last).0.pending.len(),
        );
    }
}

} // verus!
