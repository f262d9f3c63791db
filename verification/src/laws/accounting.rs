//! Every sample that the device sent or skipped is accounted for.

use vstd::prelude::*;

use crate::laws::parsing::{law_feeding_in_pieces, law_feeding_nothing};
use crate::laws::run::{
    block_at, bytes_of, held_at, lemma_guarded, lemma_held, lemma_run, lemma_trimmed, run, step,
    Read,
};
use crate::measurement::Emission;
use crate::stream::{after_samples, lemma_chunk_remainder, AssemblerView, ReadClocks};

verus! {

/// The missed samples that an emission reports.
pub open spec fn missed_in(e: Emission) -> nat {
    match e {
        Emission::Match { missed, .. } => missed as nat,
        Emission::NoMatch { missed, .. } => missed as nat,
        _ => 0,
    }
}

/// All the missed samples that `events` report.
pub open spec fn missed_total(events: Seq<Emission>) -> nat
    decreases events.len(),
{
    if events.len() == 0 {
        0
    } else {
        missed_total(events.drop_last()) + missed_in(events.last())
    }
}

/// The raw samples that an emission accounts for: a whole chunk for a measurement,
/// and what it says for a loss.
pub open spec fn samples_in(chunk: nat, e: Emission) -> nat {
    match e {
        Emission::Match { .. } => chunk,
        Emission::NoMatch { .. } => chunk,
        Emission::Dropped { samples, .. } => samples,
        Emission::SeamOverlap { samples_trimmed, .. } => samples_trimmed,
    }
}

/// All the raw samples that `events` account for.
pub open spec fn samples_total(chunk: nat, events: Seq<Emission>) -> nat
    decreases events.len(),
{
    if events.len() == 0 {
        0
    } else {
        samples_total(chunk, events.drop_last()) + samples_in(chunk, events.last())
    }
}

/// What is held and still to be reported, in raw samples.
pub open spec fn outstanding(held: AssemblerView) -> nat {
    held.pending.len() + held.dropped as nat
}

proof fn lemma_missed_total_add(a: Seq<Emission>, b: Seq<Emission>)
    ensures
        missed_total(a + b) == missed_total(a) + missed_total(b),
    decreases b.len(),
{
    if b.len() == 0 {
        assert(a + b =~= a);
    } else {
        lemma_missed_total_add(a, b.drop_last());
        assert((a + b).drop_last() =~= a + b.drop_last());
    }
}

proof fn lemma_samples_total_add(chunk: nat, a: Seq<Emission>, b: Seq<Emission>)
    ensures
        samples_total(chunk, a + b) == samples_total(chunk, a) + samples_total(chunk, b),
    decreases b.len(),
{
    if b.len() == 0 {
        assert(a + b =~= a);
    } else {
        lemma_samples_total_add(chunk, a, b.drop_last());
        assert((a + b).drop_last() =~= a + b.drop_last());
    }
}

proof fn lemma_total_of_one(chunk: nat, e: Emission)
    ensures
        missed_total(seq![e]) == missed_in(e),
        samples_total(chunk, seq![e]) == samples_in(chunk, e),
{
    assert(seq![e].drop_last() =~= Seq::empty());
    reveal_with_fuel(missed_total, 2);
    reveal_with_fuel(samples_total, 2);
}

/// The measurements of a block report what was missed once, and account for a chunk
/// each.
proof fn lemma_measurements_total(held: AssemblerView, first: int, n: nat)
    ensures
        held.missed <= u32::MAX ==> missed_total(held.measurements(first, n)) == (if n == 0 {
            0
        } else {
            held.missed as nat
        }),
        samples_total(held.chunk, held.measurements(first, n)) == n * held.chunk,
    decreases n,
{
    let events = held.measurements(first, n);
    if n == 0 {
        assert(0 * held.chunk == 0) by (nonlinear_arith);
    } else {
        let m = (n - 1) as nat;
        lemma_measurements_total(held, first, m);
        assert(events.drop_last() =~= held.measurements(first, m));
        assert(n * held.chunk == m * held.chunk + held.chunk) by (nonlinear_arith)
            requires
                n == m + 1,
        ;
    }
}

proof fn lemma_delivered_balance(held: AssemblerView, first: int)
    requires
        held.sound(),
    ensures
        held.missed <= u32::MAX || held.chunks_held() == 0 ==> missed_total(
            held.delivered(first).1,
        ) + held.delivered(first).0.missed == held.missed,
        samples_total(held.chunk, held.delivered(first).1) + outstanding(held.delivered(first).0)
            == outstanding(held),
{
    let n = held.chunks_held();
    if n > 0 {
        lemma_chunk_remainder(held.pending.len(), held.chunk);
        lemma_measurements_total(held, first, n);
        let ms = held.measurements(first, n);
        if held.hole_unreported() {
            let e = Emission::Dropped { at: first, samples: held.dropped as nat };
            lemma_total_of_one(held.chunk, e);
            lemma_missed_total_add(seq![e], ms);
            lemma_samples_total_add(held.chunk, seq![e], ms);
        } else {
            assert(Seq::<Emission>::empty() + ms =~= ms);
        }
    }
}

proof fn lemma_emitted_balance(held: AssemblerView, first: int)
    requires
        held.sound(),
        first <= i128::MAX,
    ensures
        held.missed <= u32::MAX || held.trimmed(first).chunks_held() == 0 ==> missed_total(
            held.emitted(first).1,
        ) + held.emitted(first).0.missed == held.missed,
        samples_total(held.chunk, held.emitted(first).1) + outstanding(held.emitted(first).0)
            == outstanding(held),
{
    let rest = held.trimmed(first);
    let start = after_samples(first, held.trim(first) as int);
    let seam = held.seam_events(first);
    lemma_trimmed(held, first);
    lemma_delivered_balance(rest, start);
    lemma_missed_total_add(seam, rest.delivered(start).1);
    lemma_samples_total_add(held.chunk, seam, rest.delivered(start).1);
    if seam.len() > 0 {
        lemma_total_of_one(held.chunk, seam[0]);
    }
}

proof fn lemma_guard_balance(held: AssemblerView, clocks: ReadClocks)
    requires
        held.wf(),
    ensures
        missed_total(held.guarded(clocks).1) == 0,
        outstanding(held) <= u64::MAX ==> samples_total(held.chunk, held.guarded(clocks).1)
            + outstanding(held.guarded(clocks).0) == outstanding(held),
{
    if held.stalled(clocks) && !held.drop_signalled {
        lemma_total_of_one(held.chunk, held.guarded(clocks).1[0]);
        assert(held.guarded(clocks).1 =~= seq![held.guarded(clocks).1[0]]);
    }
}

/// How many samples a read shows to have been missed.
pub open spec fn newly_missed(before: AssemblerView, read: Read) -> nat {
    before.parser.decoded(read.main + read.probe).missed
}

/// Whether a read emits a measurement.
pub open spec fn emits(before: AssemblerView, read: Read) -> bool {
    block_at(before, read) matches Some(first) && held_at(before, read).trimmed(
        first,
    ).chunks_held() > 0
}

/// One read hands on every report of a missed sample.
proof fn lemma_step_missed(before: AssemblerView, read: Read)
    requires
        before.wf(),
        before.missed + newly_missed(before, read) <= usize::MAX,
        emits(before, read) ==> before.missed + newly_missed(before, read) <= u32::MAX,
    ensures
        missed_total(step(before, read).1) + step(before, read).0.missed == before.missed
            + newly_missed(before, read),
{
    let lost = before.guarded(read.clocks).1;
    let held = held_at(before, read);
    lemma_guarded(before, read.clocks);
    lemma_guard_balance(before, read.clocks);
    law_feeding_in_pieces(before.parser, read.main, read.probe);
    lemma_held(before, read);
    assert(held.missed == before.missed + newly_missed(before, read));
    match block_at(before, read) {
        None => {},
        Some(first) => {
            lemma_emitted_balance(held, first);
            lemma_missed_total_add(lost, held.emitted(first).1);
        },
    }
}

/// One read hands every sample on.
proof fn lemma_step_samples(before: AssemblerView, read: Read)
    requires
        before.wf(),
        outstanding(before) + before.parser.decoded(read.main + read.probe).samples.len()
            <= u64::MAX,
    ensures
        samples_total(before.chunk, step(before, read).1) + outstanding(step(before, read).0)
            == outstanding(before) + before.parser.decoded(read.main + read.probe).samples.len(),
{
    let lost = before.guarded(read.clocks).1;
    let held = held_at(before, read);
    lemma_guarded(before, read.clocks);
    lemma_guard_balance(before, read.clocks);
    lemma_held(before, read);
    match block_at(before, read) {
        None => {},
        Some(first) => {
            lemma_emitted_balance(held, first);
            lemma_samples_total_add(before.chunk, lost, held.emitted(first).1);
        },
    }
}

/// Whether the samples that are held, or whose loss is still to be reported, can be
/// counted throughout a run.
pub open spec fn losses_fit(start: AssemblerView, reads: Seq<Read>) -> bool
    decreases reads.len(),
{
    reads.len() == 0 || {
        let before = run(start, reads.drop_last()).0;
        let read = reads.last();
        &&& losses_fit(start, reads.drop_last())
        &&& outstanding(before) + before.parser.decoded(read.main + read.probe).samples.len()
            <= u64::MAX
    }
}

/// Whatever the reads, every sample that the device sent is accounted for once: in
/// a measurement, in a reported loss, in a reported overlap, or it is still held or
/// its loss is still to be reported.
pub proof fn law_every_sample_is_accounted_for(start: AssemblerView, reads: Seq<Read>)
    requires
        start.wf(),
        losses_fit(start, reads),
    ensures
        samples_total(start.chunk, run(start, reads).1) + outstanding(run(start, reads).0)
            == outstanding(start) + start.parser.decoded(bytes_of(reads)).samples.len(),
    decreases reads.len(),
{
    if reads.len() == 0 {
        law_feeding_nothing(start.parser);
    } else {
        let init = reads.drop_last();
        let last = reads.last();
        law_feeding_in_pieces(start.parser, bytes_of(init), last.main + last.probe);
        lemma_run(start, init);
        law_every_sample_is_accounted_for(start, init);
        lemma_step_samples(run(start, init).0, last);
        lemma_samples_total_add(
            start.chunk,
            run(start, init).1,
            step(run(start, init).0, last).1,
        );
    }
}

/// Whether the missed samples that are still to be reported can be counted throughout a
/// run, and fit into one report where one is made.
pub open spec fn missed_fits(start: AssemblerView, reads: Seq<Read>) -> bool
    decreases reads.len(),
{
    reads.len() == 0 || {
        let before = run(start, reads.drop_last()).0;
        let read = reads.last();
        &&& missed_fits(start, reads.drop_last())
        &&& before.missed + newly_missed(before, read) <= usize::MAX
        &&& emits(before, read) ==> before.missed + newly_missed(before, read) <= u32::MAX
    }
}

/// Whatever the reads, the missed samples that the measurements report, with those
/// still to be reported, are exactly those that the device's counter shows.
pub proof fn law_missed_samples_add_up(start: AssemblerView, reads: Seq<Read>)
    requires
        start.wf(),
        missed_fits(start, reads),
    ensures
        missed_total(run(start, reads).1) + run(start, reads).0.missed == start.missed
            + start.parser.decoded(bytes_of(reads)).missed,
    decreases reads.len(),
{
    if reads.len() == 0 {
        law_feeding_nothing(start.parser);
    } else {
        let init = reads.drop_last();
        let last = reads.last();
        law_feeding_in_pieces(start.parser, bytes_of(init), last.main + last.probe);
        lemma_run(start, init);
        law_missed_samples_add_up(start, init);
        lemma_step_missed(run(start, init).0, last);
        lemma_missed_total_add(run(start, init).1, step(run(start, init).0, last).1);
    }
}

} // verus!
