//! Nothing goes backwards in time without a reported loss.

use vstd::prelude::*;

use crate::laws::run::{
    block_at, held_at, is_data, lemma_guarded, lemma_held, lemma_run, lemma_trimmed, run, stamp,
    step, Read,
};
use crate::measurement::Emission;
use crate::stream::{after_samples, lemma_chunk_remainder, AssemblerView};
use crate::types::LogicPortPins;
use crate::SPS_MAX;

verus! {

/// Adding samples in two steps is adding them at once.
pub proof fn lemma_after_samples(t: int, a: int, b: int)
    requires
        t <= i128::MAX,
        a >= 0,
        b >= 0,
    ensures
        after_samples(after_samples(t, a), b) == after_samples(t, a + b),
        t <= after_samples(t, a) <= i128::MAX,
        after_samples(t, a) <= after_samples(t, a + b),
        b > 0 && after_samples(t, a) < i128::MAX ==> after_samples(t, a) < after_samples(t, a + b),
{
}

/// Capture time of the last raw sample of a measurement.
pub open spec fn end_of(chunk: nat, e: Emission) -> int {
    after_samples(stamp(e), chunk - 1)
}

/// Whether no loss is reported between `i` and `j`.
pub open spec fn no_drop_between(events: Seq<Emission>, i: int, j: int) -> bool {
    forall|k: int| i < k < j ==> !((#[trigger] events[k]) is Dropped)
}

/// Whether each measurement starts after the end of every earlier one that no
/// reported loss separates from it. Stamps saturate at the latest time there is;
/// nothing is said of what lies beyond it.
pub open spec fn in_order(chunk: nat, events: Seq<Emission>) -> bool {
    forall|i: int, j: int|
        #![trigger events[i], events[j]]
        0 <= i < j < events.len() && is_data(events[i]) && is_data(events[j]) && no_drop_between(
            events,
            i,
            j,
        ) && end_of(chunk, events[i]) < i128::MAX ==> end_of(chunk, events[i]) < stamp(events[j])
}

/// Whether the assembler knows of the end of every measurement that no reported
/// loss follows, unless it is about to report one.
pub open spec fn seam_known(held: AssemblerView, shown: Seq<Emission>) -> bool {
    forall|i: int|
        #![trigger shown[i]]
        0 <= i < shown.len() && is_data(shown[i]) && no_drop_between(shown, i, shown.len() as int)
            ==> !held.drop_signalled && (held.rebased || (held.last_delivered is Some && end_of(
            held.chunk,
            shown[i],
        ) <= held.last_delivered.unwrap()))
}

proof fn lemma_delivered_order(held: AssemblerView, shown: Seq<Emission>, first: int)
    requires
        held.sound(),
        first <= i128::MAX,
        in_order(held.chunk, shown),
        seam_known(held, shown),
        held.pending.len() > 0 ==> (held.last_delivered matches Some(last) ==> first > last || first
            == i128::MAX),
    ensures
        in_order(held.chunk, shown + held.delivered(first).1),
        seam_known(held.delivered(first).0, shown + held.delivered(first).1),
{
    let n = held.chunks_held();
    let (after, events) = held.delivered(first);
    let all = shown + events;
    if n == 0 {
        assert(all =~= shown);
    } else {
        let chunk = held.chunk;
        let hole: int = if held.hole_unreported() {
            1
        } else {
            0
        };
        let base = shown.len() + hole;
        lemma_chunk_remainder(held.pending.len(), chunk);
        assert(all.len() == base + n);
        // The stamps of the new measurements.
        assert forall|c: int| 0 <= c < n implies {
            &&& is_data(#[trigger] all[base + c])
            &&& stamp(all[base + c]) == after_samples(first, c * chunk)
            &&& end_of(chunk, all[base + c]) == after_samples(first, c * chunk + (chunk - 1))
            &&& first <= stamp(all[base + c])
            &&& end_of(chunk, all[base + c]) <= after_samples(first, n * chunk - 1)
        } by {
            assert(all[base + c] == held.measurements(first, n)[c]);
            assert(c * chunk >= 0) by (nonlinear_arith)
                requires
                    c >= 0,
                    chunk >= 0,
            ;
            assert(c * chunk + chunk <= n * chunk) by (nonlinear_arith)
                requires
                    c + 1 <= n,
                    chunk >= 0,
            ;
            lemma_after_samples(first, c * chunk, chunk - 1);
            lemma_after_samples(
                first,
                c * chunk + (chunk - 1),
                n * chunk - 1 - (c * chunk + (chunk - 1)),
            );
        }
        assert forall|i: int, j: int|
            #![trigger all[i], all[j]]
            0 <= i < j < all.len() && is_data(all[i]) && is_data(all[j]) && no_drop_between(
                all,
                i,
                j,
            ) && end_of(chunk, all[i]) < i128::MAX implies end_of(chunk, all[i]) < stamp(all[j]) by {
            if j < shown.len() {
                assert(all[i] == shown[i] && all[j] == shown[j]);
                assert(no_drop_between(shown, i, j)) by {
                    assert forall|k: int| i < k < j implies !((#[trigger] shown[k]) is Dropped) by {
                        assert(all[k] == shown[k]);
                    }
                }
            } else {
                assert(j >= base) by {
                    if j < base {
                        assert(all[j] is Dropped);
                    }
                }
                let c = j - base;
                assert(all[base + c] == all[j]);
                if i < shown.len() {
                    assert(hole == 0) by {
                        if hole == 1 {
                            assert(all[shown.len() as int] is Dropped);
                        }
                    }
                    assert(all[i] == shown[i]);
                    assert(no_drop_between(shown, i, shown.len() as int)) by {
                        assert forall|k: int| i < k < shown.len() implies !((
                        #[trigger] shown[k]) is Dropped) by {
                            assert(all[k] == shown[k]);
                        }
                    }
                } else {
                    assert(i >= base) by {
                        if i < base {
                            assert(all[i] is Dropped);
                        }
                    }
                    let b = i - base;
                    assert(all[base + b] == all[i]);
                    assert(b * chunk + chunk <= c * chunk) by (nonlinear_arith)
                        requires
                            b + 1 <= c,
                            chunk >= 0,
                    ;
                    assert(b * chunk >= 0) by (nonlinear_arith)
                        requires
                            b >= 0,
                            chunk >= 0,
                    ;
                    lemma_after_samples(
                        first,
                        b * chunk + (chunk - 1),
                        c * chunk - (b * chunk + (chunk - 1)),
                    );
                }
            }
        }
        assert forall|i: int|
            #![trigger all[i]]
            0 <= i < all.len() && is_data(all[i]) && no_drop_between(
                all,
                i,
                all.len() as int,
            ) implies !after.drop_signalled && (after.rebased || (after.last_delivered is Some
            && end_of(chunk, all[i]) <= after.last_delivered.unwrap())) by {
            if i >= base {
                assert(all[base + (i - base)] == all[i]);
            } else {
                assert(hole == 0 && i < shown.len()) by {
                    if hole == 1 {
                        assert(all[shown.len() as int] is Dropped);
                    }
                }
                assert(all[i] == shown[i]);
                assert(no_drop_between(shown, i, shown.len() as int)) by {
                    assert forall|k: int| i < k < shown.len() implies !((
                    #[trigger] shown[k]) is Dropped) by {
                        assert(all[k] == shown[k]);
                    }
                }
                assert(n * chunk - 1 >= 0) by (nonlinear_arith)
                    requires
                        n >= 1,
                        chunk >= 1,
                ;
                lemma_after_samples(first, 0, n * chunk - 1);
            }
        }
    }
}

/// An event that is no measurement keeps the order, and a loss closes every seam.
proof fn lemma_event_order(
    chunk: nat,
    held: AssemblerView,
    after: AssemblerView,
    shown: Seq<Emission>,
    e: Emission,
)
    requires
        in_order(chunk, shown),
        seam_known(held, shown),
        held.chunk == chunk == after.chunk,
        !is_data(e),
        e is Dropped || (after.drop_signalled == held.drop_signalled && after.rebased
            == held.rebased && after.last_delivered == held.last_delivered),
    ensures
        in_order(chunk, shown.push(e)),
        seam_known(after, shown.push(e)),
{
    let all = shown.push(e);
    assert forall|i: int, j: int|
        #![trigger all[i], all[j]]
        0 <= i < j < all.len() && is_data(all[i]) && is_data(all[j]) && no_drop_between(all, i, j)
            && end_of(chunk, all[i]) < i128::MAX implies end_of(chunk, all[i]) < stamp(all[j]) by {
        assert(all[i] == shown[i] && all[j] == shown[j]);
        assert(no_drop_between(shown, i, j)) by {
            assert forall|k: int| i < k < j implies !((#[trigger] shown[k]) is Dropped) by {
                assert(all[k] == shown[k]);
            }
        }
    }
    assert forall|i: int|
        #![trigger all[i]]
        0 <= i < all.len() && is_data(all[i]) && no_drop_between(all, i, all.len() as int) implies
        !after.drop_signalled && (after.rebased || (after.last_delivered is Some && end_of(
        chunk,
        all[i],
    ) <= after.last_delivered.unwrap())) by {
        assert(all[i] == shown[i]);
        assert(!(all[shown.len() as int] is Dropped));
        assert(no_drop_between(shown, i, shown.len() as int)) by {
            assert forall|k: int| i < k < shown.len() implies !((#[trigger] shown[k]) is Dropped) by {
                assert(all[k] == shown[k]);
            }
        }
    }
}

proof fn lemma_emitted_order(held: AssemblerView, shown: Seq<Emission>, first: int)
    requires
        held.sound(),
        first <= i128::MAX,
        in_order(held.chunk, shown),
        seam_known(held, shown),
    ensures
        in_order(held.chunk, shown + held.emitted(first).1),
        seam_known(held.emitted(first).0, shown + held.emitted(first).1),
{
    let rest = held.trimmed(first);
    let start = after_samples(first, held.trim(first) as int);
    let seam = held.seam_events(first);
    lemma_trimmed(held, first);
    if seam.len() > 0 {
        lemma_event_order(held.chunk, held, rest, shown, seam[0]);
        assert(shown + seam =~= shown.push(seam[0]));
    } else {
        assert(shown + seam =~= shown);
        assert(seam_known(rest, shown));
    }
    lemma_delivered_order(rest, shown + seam, start);
    assert(shown + held.emitted(first).1 =~= (shown + seam) + rest.delivered(start).1);
}

proof fn lemma_step_order(before: AssemblerView, shown: Seq<Emission>, read: Read)
    requires
        before.wf(),
        in_order(before.chunk, shown),
        seam_known(before, shown),
    ensures
        in_order(before.chunk, shown + step(before, read).1),
        seam_known(step(before, read).0, shown + step(before, read).1),
{
    let (kept, lost) = before.guarded(read.clocks);
    lemma_guarded(before, read.clocks);
    if lost.len() == 0 {
        assert(shown + lost =~= shown);
        assert(seam_known(kept, shown));
    } else {
        lemma_event_order(before.chunk, before, kept, shown, lost[0]);
        assert(shown + lost =~= shown.push(lost[0]));
    }
    lemma_held(before, read);
    let held = held_at(before, read);
    assert(seam_known(held, shown + lost));
    match block_at(before, read) {
        None => {
            assert(seam_known(held.capped(), shown + lost));
        },
        Some(first) => {
            lemma_emitted_order(held, shown + lost, first);
            assert(shown + (lost + held.emitted(first).1) =~= (shown + lost) + held.emitted(
                first,
            ).1);
        },
    }
}

proof fn lemma_run_order(chunk: nat, pins: LogicPortPins, reads: Seq<Read>)
    requires
        1 <= chunk <= SPS_MAX,
    ensures
        in_order(chunk, run(AssemblerView::initial(chunk, pins), reads).1),
        seam_known(
            run(AssemblerView::initial(chunk, pins), reads).0,
            run(AssemblerView::initial(chunk, pins), reads).1,
        ),
    decreases reads.len(),
{
    let start = AssemblerView::initial(chunk, pins);
    if reads.len() > 0 {
        let init = reads.drop_last();
        lemma_run_order(chunk, pins, init);
        lemma_run(start, init);
        lemma_step_order(run(start, init).0, run(start, init).1, reads.last());
    }
}

/// Whatever the reads and the clocks, nothing goes backwards in time without a
/// reported loss: each measurement starts after the last raw sample of every
/// earlier one, unless a [`MeasurementMatch::Dropped`] stands between the two.
///
/// [`MeasurementMatch::Dropped`]: crate::measurement::MeasurementMatch::Dropped
pub proof fn law_time_runs_forward(chunk: nat, pins: LogicPortPins, reads: Seq<Read>)
    requires
        1 <= chunk <= SPS_MAX,
    ensures
        in_order(chunk, run(AssemblerView::initial(chunk, pins), reads).1),
{
    lemma_run_order(chunk, pins, reads);
}

} // verus!
