//! What the worker answers to each event, and what its end is taken for.

use vstd::prelude::*;

use crate::clock::MonoNanos;
use crate::error::Error;
use crate::port::ReadFault;
use crate::stream::{emissions, ReadClocks, SilenceGuard};
use crate::worker::{
    records, trustable, JoinOutcome, PanicPayload, ReadOutcome, Signal, StreamFailure,
    WorkerAction, WorkerEnd, WorkerEvent, WorkerView,
};

verus! {

/// A read that returned any bytes at all is answered with a probe, however many they are,
/// and changes nothing by itself.
pub proof fn law_every_filled_read_is_probed(
    worker: WorkerView,
    n: usize,
    now: MonoNanos,
    action: WorkerAction,
)
    requires
        n > 0,
    ensures
        ({
            let event = WorkerEvent::Read { outcome: ReadOutcome::Filled(n), now };
            &&& worker.answers(event, action) <==> action == WorkerAction::Probe
            &&& worker.after(event) == worker
        }),
{
}

/// Whether a read brought nothing: it returned zero bytes, or failed in one of the three
/// ways that mean that nothing was waiting.
pub open spec fn brought_nothing(outcome: ReadOutcome) -> bool {
    ||| outcome == ReadOutcome::Filled(0)
    ||| outcome == ReadOutcome::Failed(ReadFault::TimedOut)
    ||| outcome == ReadOutcome::Failed(ReadFault::WouldBlock)
    ||| outcome == ReadOutcome::Failed(ReadFault::Interrupted)
}

/// A read that brought nothing is counted, and nothing else changes. The worker goes on,
/// unless it is at least the tenth in a row and no data has come for five seconds or more;
/// then it ends, and says how many reads and how much time that took.
pub proof fn law_empty_reads_are_counted(
    worker: WorkerView,
    outcome: ReadOutcome,
    now: MonoNanos,
    action: WorkerAction,
)
    requires
        brought_nothing(outcome),
    ensures
        ({
            let event = WorkerEvent::Read { outcome, now };
            let reads = if worker.silence.consecutive < u32::MAX {
                worker.silence.consecutive + 1
            } else {
                u32::MAX as int
            };
            let silence = now - worker.silence.last_data_at;
            let dead = reads >= 10 && silence >= 5_000_000_000;
            &&& worker.after(event) == (WorkerView {
                silence: SilenceGuard { consecutive: reads as u32, ..worker.silence },
                ..worker
            })
            &&& !dead ==> (worker.answers(event, action) <==> action == WorkerAction::PollSignal)
            &&& dead ==> (worker.answers(event, action) <==> action == WorkerAction::End(
                WorkerEnd::Failed(
                    Error::StreamDead {
                        reads: reads as u32,
                        elapsed: silence as u128,
                        timeout: worker.port_timeout,
                    },
                ),
            ))
        }),
{
}

/// A read that failed in any other way ends the worker, and changes nothing.
pub proof fn law_broken_port_ends_the_worker(
    worker: WorkerView,
    now: MonoNanos,
    action: WorkerAction,
)
    ensures
        ({
            let event = WorkerEvent::Read {
                outcome: ReadOutcome::Failed(ReadFault::Other),
                now,
            };
            &&& worker.answers(event, action) <==> action == WorkerAction::End(
                WorkerEnd::ReadFailed,
            )
            &&& worker.after(event) == worker
        }),
{
}

/// The stop signal ends the worker cleanly, a closed channel ends it with an error, and as
/// long as neither comes it reads.
pub proof fn law_signals_are_obeyed(worker: WorkerView, signal: Signal, action: WorkerAction)
    ensures
        worker.after(WorkerEvent::Signal(signal)) == worker,
        worker.answers(WorkerEvent::Signal(signal), action) <==> action == (match signal {
            Signal::Empty => WorkerAction::Read,
            Signal::Stop => WorkerAction::End(WorkerEnd::Clean),
            Signal::Disconnected => WorkerAction::End(WorkerEnd::Failed(Error::WorkerSignalError)),
        }),
{
}

/// As long as somebody receives, the worker goes on. When nobody does, it ends cleanly.
pub proof fn law_nobody_left_is_a_clean_end(
    worker: WorkerView,
    received: bool,
    action: WorkerAction,
)
    ensures
        worker.after(WorkerEvent::Sent { received }) == worker,
        worker.answers(WorkerEvent::Sent { received }, action) <==> action == (if received {
            WorkerAction::PollSignal
        } else {
            WorkerAction::End(WorkerEnd::Clean)
        }),
{
}

/// What was read and probed goes to the assembler, and exactly what that emits is sent. The
/// read counts as one that drained the port exactly if the probe worked and found nothing.
/// The silence ends with the read.
pub proof fn law_probed_reads_are_assembled(
    worker: WorkerView,
    clocks: ReadClocks,
    main: &[u8],
    probe: &[u8],
    probe_failed: bool,
    action: WorkerAction,
)
    ensures
        ({
            let event = WorkerEvent::Probed { clocks, main, probe, probe_failed };
            let drained = probe@.len() == 0 && !probe_failed;
            let (after, sent) = worker.assembler.on_read(clocks, main@, probe@, drained);
            &&& worker.after(event) == (WorkerView {
                assembler: after,
                silence: SilenceGuard { consecutive: 0, last_data_at: clocks.mono },
                ..worker
            })
            &&& worker.answers(event, action) <==> (action matches WorkerAction::Send(out)
                && emissions(out@) == sent)
            &&& trustable(probe@, probe_failed) == drained
        }),
{
}

/// A stream that ended cleanly leaves no error, one that failed leaves its own, and a panic
/// leaves its message behind the words that name it.
pub proof fn law_ends_are_recorded<E>(failure: Option<StreamFailure<E>>, e: E, payload: PanicPayload)
    ensures
        records(failure, JoinOutcome::<E>::Finished) <==> failure is None,
        records(failure, JoinOutcome::Failed(e)) <==> failure == Some(StreamFailure::Worker(e)),
        records(failure, JoinOutcome::<E>::Panicked(payload)) <==> (failure matches Some(
            StreamFailure::Panic(text),
        ) && text@ == "measurement worker thread panicked: "@ + payload.message()),
{
}

/// A panic says what it carried, or that it carried no text.
pub proof fn law_panics_say_what_they_carried(literal: &'static str, formatted: String)
    ensures
        PanicPayload::Literal(literal).message() == literal@,
        PanicPayload::Formatted(formatted).message() == formatted@,
        PanicPayload::Other.message() == "non-string panic payload"@,
{
}

} // verus!
