//! What measurements combine to, and what is said of it, in terms of the measurements.

use vstd::prelude::*;

use crate::measurement::{
    clamp_u32, clamp_usize, combined, high_count, matching, positions, Emission, Measurement,
    MeasurementMatch,
};
use crate::stream::{clamp_u64, emissions};
use crate::types::{Level, LogicPortPins};

verus! {

/// Nothing is lost and nothing is made up: where there are items, the combined measurement
/// lists every one of them, in order, and where there are none there is no match.
pub proof fn law_every_item_is_listed(items: Seq<Measurement>, missed: nat, read_at: int)
    ensures
        items.len() == 0 <==> combined(items, missed, read_at) is NoMatch,
        items.len() > 0 <==> combined(items, missed, read_at) is Match,
        combined(items, missed, read_at) matches Emission::Match { positions, .. } ==> {
            &&& positions.len() == items.len()
            &&& forall|k: int| 0 <= k < items.len() ==> #[trigger] positions[k] == items[k].sample
        },
{
}

/// A combined measurement is a mean: where nothing was missed, the divisor is the number of
/// measurements that it lists. What was missed is taken off it, as long as something is
/// left, and else the divisor is one.
pub proof fn law_combined_measurement_is_a_mean(
    items: Seq<Measurement>,
    missed: nat,
    read_at: int,
)
    ensures
        combined(items, missed, read_at) matches Emission::Match { positions, divisor, .. } ==> {
            &&& missed == 0 ==> divisor == positions.len()
            &&& missed < positions.len() ==> divisor + missed == positions.len()
            &&& missed >= positions.len() ==> divisor == 1
        },
{
}

/// One more item adds one to the divisor, once more items are combined than were missed.
pub proof fn law_divisor_counts_items(
    items: Seq<Measurement>,
    more: Measurement,
    missed: nat,
    read_at: int,
)
    requires
        0 < items.len(),
        missed < items.len(),
    ensures
        combined(items.push(more), missed, read_at)->divisor == combined(
            items,
            missed,
            read_at,
        )->divisor + 1,
{
}

/// What was missed, and the stamp, are handed on whether or not there is a match. A count
/// that is too large to be reported is reported as the largest there is.
pub proof fn law_missed_and_stamp_are_handed_on(
    items: Seq<Measurement>,
    missed: nat,
    read_at: int,
)
    ensures
        match combined(items, missed, read_at) {
            Emission::Match { missed: reported, read_at: stamp, .. } => {
                &&& stamp == read_at
                &&& missed <= 0xffff_ffff ==> reported == missed
                &&& missed > 0xffff_ffff ==> reported == 0xffff_ffff
            },
            Emission::NoMatch { missed: reported, read_at: stamp } => {
                &&& stamp == read_at
                &&& missed <= 0xffff_ffff ==> reported == missed
                &&& missed > 0xffff_ffff ==> reported == 0xffff_ffff
            },
            _ => false,
        },
{
}

/// How many of the first `n` items have `pin` high.
pub open spec fn votes(items: Seq<Measurement>, pin: int, n: nat) -> nat
    decreases n,
{
    if n == 0 {
        0
    } else {
        votes(items, pin, (n - 1) as nat) + if items[n - 1].pins@[pin] == Level::High {
            1nat
        } else {
            0
        }
    }
}

proof fn lemma_votes(items: Seq<Measurement>, pin: int, n: nat)
    requires
        n <= items.len(),
    ensures
        high_count(items.take(n as int), pin) == votes(items, pin, n),
    decreases n,
{
    reveal(Seq::filter);
    if n > 0 {
        lemma_votes(items, pin, (n - 1) as nat);
        assert(items.take(n as int).drop_last() =~= items.take(n - 1));
    }
}

/// A combined pin is high if it was high in more items than not, and low otherwise.
pub proof fn law_pins_are_voted(
    items: Seq<Measurement>,
    missed: nat,
    read_at: int,
    pin: int,
)
    requires
        items.len() > 0,
        0 <= pin < 8,
    ensures
        ({
            let high = votes(items, pin, items.len());
            let pins = combined(items, missed, read_at)->pins;
            &&& high > items.len() - high ==> pins@[pin] == Level::High
            &&& high <= items.len() - high ==> pins@[pin] == Level::Low
        }),
{
    lemma_votes(items, pin, items.len());
    assert(items.take(items.len() as int) =~= items);
}

/// Levels match each other both ways: equal ones always do, an open one matches any, and a
/// low one never matches a high one.
pub proof fn law_levels_match(a: Level, b: Level)
    ensures
        a == b ==> a.compatible(b),
        a.compatible(Level::Either),
        Level::Either.compatible(a),
        !Level::Low.compatible(Level::High),
        !Level::High.compatible(Level::Low),
        a.compatible(b) == b.compatible(a),
{
}

/// Whether two levels contradict each other.
pub open spec fn contradict(a: Level, b: Level) -> bool {
    (a == Level::Low && b == Level::High) || (a == Level::High && b == Level::Low)
}

/// Pins match a pattern unless one of them contradicts it.
pub proof fn law_pins_match_unless_one_contradicts(pins: LogicPortPins, pattern: LogicPortPins)
    ensures
        pins.compatible(pattern) <==> forall|i: int|
            0 <= i < 8 ==> !contradict(#[trigger] pins@[i], pattern@[i]),
{
    assert forall|i: int| 0 <= i < 8 implies contradict(#[trigger] pins@[i], pattern@[i])
        == !pins@[i].compatible(pattern@[i]) by {}
    if forall|i: int| 0 <= i < 8 ==> !contradict(#[trigger] pins@[i], pattern@[i]) {
        assert forall|i: int| 0 <= i < 8 implies (#[trigger] pins@[i]).compatible(pattern@[i]) by {
            assert(!contradict(pins@[i], pattern@[i]));
        }
    }
}

/// The items that match are picked one by one: the last one stays behind those before it if
/// its pins match, and is left out if not. Whether the others stay does not depend on it.
pub proof fn law_matching_items_are_picked_in_turn(
    items: Seq<Measurement>,
    last: Measurement,
    pattern: LogicPortPins,
)
    ensures
        matching(Seq::empty(), pattern).len() == 0,
        last.pins.compatible(pattern) ==> matching(items.push(last), pattern) == matching(
            items,
            pattern,
        ).push(last),
        !last.pins.compatible(pattern) ==> matching(items.push(last), pattern) == matching(
            items,
            pattern,
        ),
{
    reveal(Seq::filter);
    assert(items.push(last).drop_last() =~= items);
}

/// Positions are those of the items, in order.
pub proof fn law_positions_are_those_of_the_items(items: Seq<Measurement>)
    ensures
        positions(items).len() == items.len(),
        forall|k: int| 0 <= k < items.len() ==> #[trigger] positions(items)[k] == items[k].sample,
{
}

/// What an event says is everything that it holds.
pub proof fn law_event_says_what_it_holds(event: MeasurementMatch)
    ensures
        match event {
            MeasurementMatch::Match { measurement, missed, read_at } => event@
                == (Emission::Match {
                positions: measurement.samples@,
                divisor: measurement.divisor as nat,
                pins: measurement.pins,
                missed,
                read_at: read_at as int,
            }),
            MeasurementMatch::NoMatch { missed, read_at } => event@ == (Emission::NoMatch {
                missed,
                read_at: read_at as int,
            }),
            MeasurementMatch::Dropped { at, samples } => event@ == (Emission::Dropped {
                at: at as int,
                samples: samples as nat,
            }),
            MeasurementMatch::SeamOverlap { at, samples_trimmed, overlap } => event@
                == (Emission::SeamOverlap {
                at: at as int,
                samples_trimmed: samples_trimmed as nat,
                overlap: overlap as int,
            }),
        },
{
}

/// Events say what each of them says, in order.
pub proof fn law_events_speak_in_turn(events: Seq<MeasurementMatch>)
    ensures
        emissions(events).len() == events.len(),
        forall|k: int| 0 <= k < events.len() ==> #[trigger] emissions(events)[k] == events[k]@,
{
}

/// A count is kept as it is, or as the largest one there is.
pub proof fn law_counts_are_kept_or_largest(n: nat)
    ensures
        n <= u32::MAX ==> clamp_u32(n) == n,
        n > u32::MAX ==> clamp_u32(n) == u32::MAX,
        n <= u64::MAX ==> clamp_u64(n as int) == n,
        n > u64::MAX ==> clamp_u64(n as int) == u64::MAX,
        n <= usize::MAX ==> clamp_usize(n) == n,
        n > usize::MAX ==> clamp_usize(n) == usize::MAX,
{
}

} // verus!
