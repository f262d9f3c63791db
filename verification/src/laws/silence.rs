//! What the worker makes of silence and of an unknown.

use vstd::prelude::*;

use crate::clock::MonoNanos;
use crate::laws::placement::law_unanchored_reads_only_hold;
use crate::laws::run::{step, Read};
use crate::measurement::MeasurementMatch;
use crate::stream::{
    emissions, ReadClocks, SilenceGuard, DEAD_STREAM_EMPTY_READS, DEAD_STREAM_MIN_SILENCE,
};
use crate::worker::{WorkerAction, WorkerEvent, WorkerView};

verus! {

/// The guard after `n` reads that delivered nothing.
pub open spec fn after_empty_reads(guard: SilenceGuard, n: nat) -> SilenceGuard
    decreases n,
{
    if n == 0 {
        guard
    } else {
        after_empty_reads(guard, (n - 1) as nat).after_empty_read()
    }
}

/// However the guard stood before, data resets it: the stream is declared dead
/// behind `n` empty reads if and only if those are enough AND enough time has passed
/// since that data. Neither a long gap with few reads, such as a suspend of the host,
/// nor many reads in a short time will do.
pub proof fn law_death_takes_both_reads_and_silence(
    before: SilenceGuard,
    data_at: MonoNanos,
    n: nat,
    now: MonoNanos,
)
    requires
        n <= u32::MAX,
    ensures
        after_empty_reads(before.after_data(data_at), n).verdict(now) is Some <==> n
            >= DEAD_STREAM_EMPTY_READS && now - data_at >= DEAD_STREAM_MIN_SILENCE,
        after_empty_reads(before.after_data(data_at), n).verdict(now) matches Some(dead)
            ==> dead.reads == n && dead.elapsed == now - data_at,
{
    lemma_empty_reads_count(before.after_data(data_at), n);
}

proof fn lemma_empty_reads_count(guard: SilenceGuard, n: nat)
    requires
        guard.consecutive + n <= u32::MAX,
    ensures
        after_empty_reads(guard, n).consecutive == guard.consecutive + n,
        after_empty_reads(guard, n).last_data_at == guard.last_data_at,
    decreases n,
{
    if n > 0 {
        lemma_empty_reads_count(guard, (n - 1) as nat);
    }
}

/// A read whose probe failed or found anything places no samples: what is sent
/// behind it is at most the report of a loss.
pub proof fn law_unknown_is_not_a_drain(
    worker: WorkerView,
    clocks: ReadClocks,
    main: &[u8],
    probe: &[u8],
    probe_failed: bool,
    sent: Vec<MeasurementMatch>,
)
    requires
        worker.assembler.wf(),
        probe_failed || probe@.len() > 0,
        worker.answers(
            WorkerEvent::Probed { clocks, main, probe, probe_failed },
            WorkerAction::Send(sent),
        ),
    ensures
        forall|k: int| 0 <= k < sent@.len() ==> (#[trigger] sent@[k]) is Dropped,
{
    let read = Read { clocks, main: main@, probe: probe@, trustable: false };
    law_unanchored_reads_only_hold(worker.assembler, read);
    assert forall|k: int| 0 <= k < sent@.len() implies (#[trigger] sent@[k]) is Dropped by {
        assert(emissions(sent@)[k] == sent@[k]@);
        assert(step(worker.assembler, read).1[k] is Dropped);
    }
}

} // verus!
