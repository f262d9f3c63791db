//! What gaps between reads mean, and how sample periods are counted, in terms of the
//! clocks alone.

use vstd::prelude::*;

use crate::clock::{wall_time, Nanos};
use crate::laws::run::{held_at, step, Read};
use crate::measurement::{Emission, Measurement};
use crate::stream::{
    after_samples, back_dated, stall_between, AssemblerView, ReadClocks, StallKind, STALL_GUARD,
};

verus! {

/// A gap of at most a second on both clocks is no stall, and neither is a step back of
/// the wall clock by at most a second.
pub proof fn law_gap_within_the_guard_is_no_stall(prev: ReadClocks, now: ReadClocks)
    ensures
        0 <= now.sys - prev.sys <= 1_000_000_000 && now.mono - prev.mono <= 1_000_000_000
            ==> stall_between(prev, now) is None,
        0 < prev.sys - now.sys <= 1_000_000_000 ==> stall_between(prev, now) is None,
{
}

/// Every other gap is a stall, and the clocks say of which kind. A wall clock that went
/// back was stepped. One that went ahead by more than twice what the monotonic clock did
/// shows a suspend of the host, unless it went ahead by a second at most. Everything else
/// is the device.
pub proof fn law_gap_beyond_the_guard_is_a_stall(prev: ReadClocks, now: ReadClocks)
    ensures
        prev.sys - now.sys > 1_000_000_000 <==> stall_between(prev, now) == Some(
            StallKind::ClockStep,
        ),
        now.sys - prev.sys > 1_000_000_000 && now.sys - prev.sys > 2 * (now.mono - prev.mono)
            <==> stall_between(prev, now) == Some(StallKind::HostSuspend),
        now.sys - prev.sys > 1_000_000_000 && now.sys - prev.sys <= 2 * (now.mono - prev.mono)
            ==> stall_between(prev, now) == Some(StallKind::DeviceStall),
        0 <= now.sys - prev.sys <= 1_000_000_000 && now.mono - prev.mono > 1_000_000_000
            ==> stall_between(prev, now) == Some(StallKind::DeviceStall),
{
}

/// Only the distance between two reads matters, not where they lie.
pub proof fn law_stall_depends_on_distances_only(
    prev: ReadClocks,
    now: ReadClocks,
    other_prev: ReadClocks,
    other_now: ReadClocks,
)
    requires
        now.sys - prev.sys == other_now.sys - other_prev.sys,
        now.mono - prev.mono == other_now.mono - other_prev.mono,
    ensures
        stall_between(prev, now) == stall_between(other_prev, other_now),
{
}

/// A read within the guard of the one before, or the first one, leaves everything held
/// as it is and reports nothing by itself.
pub proof fn law_read_within_the_guard_discards_nothing(before: AssemblerView, clocks: ReadClocks)
    requires
        before.last_read matches Some(prev) ==> {
            ||| 0 <= clocks.sys - prev.sys <= 1_000_000_000 && clocks.mono - prev.mono
                <= 1_000_000_000
            ||| 0 < prev.sys - clocks.sys <= 1_000_000_000
        },
    ensures
        !before.stalled(clocks),
        before.stall(clocks) is None,
        before.guarded(clocks).0 == (AssemblerView { last_read: Some(clocks), ..before }),
        before.guarded(clocks).1.len() == 0,
{
}

/// A read beyond the guard discards everything held. The loss is reported at once with
/// everything that is still to be reported, dated by the read, unless one was reported
/// since the last measurement; then it is added to what is still to be reported.
pub proof fn law_read_beyond_the_guard_discards_everything(
    before: AssemblerView,
    prev: ReadClocks,
    clocks: ReadClocks,
)
    requires
        before.last_read == Some(prev),
        before.dropped + before.pending.len() <= u64::MAX,
        ({
            ||| prev.sys - clocks.sys > 1_000_000_000
            ||| clocks.sys - prev.sys > 1_000_000_000
            ||| clocks.sys >= prev.sys && clocks.mono - prev.mono > 1_000_000_000
        }),
    ensures
        before.stalled(clocks),
        before.stall(clocks) == stall_between(prev, clocks),
        !before.drop_signalled ==> before.guarded(clocks) == (
            AssemblerView {
                pending: Seq::<Measurement>::empty(),
                dropped: 0,
                drop_signalled: true,
                last_read: Some(clocks),
                ..before
            },
            seq![
                Emission::Dropped {
                    at: clocks.sys as int,
                    samples: before.dropped as nat + before.pending.len(),
                },
            ],
        ),
        before.drop_signalled ==> before.guarded(clocks) == (
            AssemblerView {
                pending: Seq::<Measurement>::empty(),
                dropped: (before.dropped + before.pending.len()) as u64,
                last_read: Some(clocks),
                ..before
            },
            Seq::<Emission>::empty(),
        ),
{
}

/// Whatever a read leads to, the next one is measured against its clocks.
pub proof fn law_last_read_is_remembered(before: AssemblerView, read: Read)
    ensures
        step(before, read).0.last_read == Some(read.clocks),
        held_at(before, read).last_read == Some(read.clocks),
{
}

/// The guard is one second.
pub proof fn law_guard_is_one_second()
    ensures
        STALL_GUARD == 1_000_000_000,
{
}

/// A sample later is ten microseconds later, as long as there is such a time, and the
/// latest time there is otherwise.
pub proof fn law_periods_are_counted_exactly(t: int, n: int)
    ensures
        t + n * 10_000 <= i128::MAX ==> after_samples(t, n) == t + n * 10_000,
        t + n * 10_000 > i128::MAX ==> after_samples(t, n) == i128::MAX,
{
}

/// A block is dated so that its anchor falls on the time it was captured, counting ten
/// microseconds per sample. It is held exactly if it would begin before the epoch.
pub proof fn law_anchor_falls_on_its_time(anchor: int, ahead: int)
    requires
        anchor <= i128::MAX,
    ensures
        back_dated(anchor, ahead) is None <==> anchor < ahead * 10_000,
        back_dated(anchor, ahead) matches Some(first) ==> {
            ||| first + ahead * 10_000 == anchor
            ||| first == i128::MAX && anchor - ahead * 10_000 > i128::MAX
        },
{
}

/// A distance from the epoch is the time itself, with its sign, as far as there is such
/// a time; and a later reading is never an earlier time.
pub proof fn law_readings_are_times(after: Nanos, before: Nanos)
    ensures
        after <= i128::MAX ==> wall_time(Ok(after)) == after,
        after > i128::MAX ==> wall_time(Ok(after)) == i128::MAX,
        before <= i128::MAX ==> wall_time(Err(before)) + before == 0,
        before > i128::MAX ==> wall_time(Err(before)) == i128::MIN,
        wall_time(Err(before)) <= wall_time(Ok(after)),
{
}

} // verus!
