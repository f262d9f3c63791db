//! What holds of the parser over several calls.

use vstd::prelude::*;

use crate::frame::{frame_at, frame_counter, frames, remainder};
use crate::measurement::{
    decode, decode_frame, matching, AccumulatorState, AccumulatorView, Measurement, Report,
};
use crate::types::{Level, LogicPortPins};

verus! {

/// Decoding one run of frames behind another is decoding both at once.
pub proof fn lemma_decode_concat(state: AccumulatorState, a: Seq<u32>, b: Seq<u32>)
    ensures
        decode(state, a + b).state == decode(decode(state, a).state, b).state,
        decode(state, a + b).samples == decode(state, a).samples + decode(
            decode(state, a).state,
            b,
        ).samples,
        decode(state, a + b).missed == decode(state, a).missed + decode(
            decode(state, a).state,
            b,
        ).missed,
    decreases b.len(),
{
    if b.len() == 0 {
        assert(a + b =~= a);
    } else {
        lemma_decode_concat(state, a, b.drop_last());
        assert((a + b).drop_last() =~= a + b.drop_last());
        assert((a + b).last() == b.last());
    }
}

/// Where bytes are cut into two pieces, the second piece completes the frame that
/// the first began.
pub proof fn lemma_frames_concat(a: Seq<u8>, b: Seq<u8>)
    ensures
        frames(a + b) == frames(a) + frames(remainder(a) + b),
        remainder(a + b) == remainder(remainder(a) + b),
{
    let whole = 4 * (a.len() as int / 4);
    let tail = remainder(a) + b;
    assert(tail =~= (a + b).skip(whole));
    assert((a + b).len() / 4 == a.len() / 4 + tail.len() / 4);
    assert forall|k: int| 0 <= k < (a + b).len() / 4 implies #[trigger] frames(a + b)[k] == (frames(
        a,
    ) + frames(tail))[k] by {
        let f = a.len() as int / 4;
        if k >= f {
            assert(frame_at(a + b, 4 * k) == frame_at(tail, 4 * (k - f))) by {
                assert(forall|j: int| 0 <= j < tail.len() ==> tail[j] == (a + b)[whole + j]);
                assert((a + b)[4 * k] == tail[4 * (k - f)]);
                assert((a + b)[4 * k + 1] == tail[4 * (k - f) + 1]);
                assert((a + b)[4 * k + 2] == tail[4 * (k - f) + 2]);
                assert((a + b)[4 * k + 3] == tail[4 * (k - f) + 3]);
            }
        }
    }
    assert(frames(a + b) =~= frames(a) + frames(tail));
    assert(remainder(a + b) =~= remainder(tail));
}

/// How bytes are split over reads makes no difference to the parser: feeding `a`
/// and then `b` is feeding both at once, whether or not the split falls inside a
/// frame.
pub proof fn law_feeding_in_pieces(parser: AccumulatorView, a: Seq<u8>, b: Seq<u8>)
    ensures
        parser.fed(a + b) == parser.fed(a).fed(b),
        parser.decoded(a + b).samples == parser.decoded(a).samples + parser.fed(a).decoded(
            b,
        ).samples,
        parser.decoded(a + b).missed == parser.decoded(a).missed + parser.fed(a).decoded(b).missed,
{
    let u = parser.undecoded(a);
    assert(parser.undecoded(a + b) =~= u + b);
    lemma_frames_concat(u, b);
    lemma_decode_concat(parser.state, frames(u), frames(remainder(u) + b));
}

proof fn lemma_decode_wf(state: AccumulatorState, raw: Seq<u32>)
    requires
        state.wf(),
    ensures
        decode(state, raw).state.wf(),
    decreases raw.len(),
{
    if raw.len() > 0 {
        lemma_decode_wf(state, raw.drop_last());
    }
}

/// Feeding keeps what holds of every parser.
pub proof fn lemma_fed_wf(parser: AccumulatorView, bytes: Seq<u8>)
    requires
        parser.wf(),
    ensures
        parser.fed(bytes).wf(),
{
    lemma_decode_wf(parser.state, frames(parser.undecoded(bytes)));
}

/// Feeding nothing changes nothing.
pub proof fn law_feeding_nothing(parser: AccumulatorView)
    requires
        parser.wf(),
    ensures
        parser.fed(Seq::empty()) == parser,
        parser.decoded(Seq::empty()).samples.len() == 0,
        parser.decoded(Seq::empty()).missed == 0,
{
    assert(parser.undecoded(Seq::empty()) =~= parser.rest);
    assert(frames(parser.rest) =~= Seq::empty());
    assert(remainder(parser.rest) =~= parser.rest);
}

/// A counter that jumps `gap` samples ahead reports exactly `gap` missing samples,
/// and the frame that shows the jump is discarded.
pub proof fn law_gap_is_counted_exactly(
    state: AccumulatorState,
    expected: u8,
    gap: nat,
    raw: u32,
)
    requires
        state.expected_counter == Some(expected),
        expected < 64,
        0 < gap < 64,
        frame_counter(raw) == (expected + gap) % 64,
    ensures
        decode_frame(state, raw).missed == gap,
        decode_frame(state, raw).samples.len() == 0,
        decode_frame(state, raw).state.expected_counter == Some(((expected + gap + 1) % 64) as u8),
{
}

/// Whether each of `raw` carries the counter behind that of the one before, the
/// first one `first`.
pub open spec fn counters_unbroken(first: nat, raw: Seq<u32>) -> bool {
    forall|k: int| 0 <= k < raw.len() ==> frame_counter(#[trigger] raw[k]) == (first + k) % 64
}

/// Frames with unbroken counters each give a measurement, and nothing is reported
/// missing.
pub proof fn law_unbroken_counters_lose_nothing(
    state: AccumulatorState,
    first: nat,
    raw: Seq<u32>,
)
    requires
        counters_unbroken(first, raw),
        state.expected_counter matches Some(c) ==> c == first % 64,
    ensures
        decode(state, raw).samples.len() == raw.len(),
        decode(state, raw).missed == 0,
    decreases raw.len(),
{
    lemma_unbroken(state, first, raw);
}

/// A frame with the expected counter gives a measurement.
proof fn lemma_expected_frame(state: AccumulatorState, n: nat, raw: u32)
    requires
        frame_counter(raw) == n % 64,
        state.expected_counter matches Some(c) ==> c == n % 64,
    ensures
        decode_frame(state, raw).samples.len() == 1,
        decode_frame(state, raw).missed == 0,
        decode_frame(state, raw).state.expected_counter == Some(((n + 1) % 64) as u8),
{
    assert(((n % 64) + 1) % 64 == (n + 1) % 64);
}

proof fn lemma_unbroken(state: AccumulatorState, first: nat, raw: Seq<u32>)
    requires
        counters_unbroken(first, raw),
        state.expected_counter matches Some(c) ==> c == first % 64,
    ensures
        decode(state, raw).samples.len() == raw.len(),
        decode(state, raw).missed == 0,
        decode(state, raw).state.expected_counter matches Some(c) ==> c == (first + raw.len()) % 64,
    decreases raw.len(),
{
    if raw.len() > 0 {
        assert forall|k: int| 0 <= k < raw.drop_last().len() implies frame_counter(
            #[trigger] raw.drop_last()[k],
        ) == (first + k) % 64 by {
            assert(raw.drop_last()[k] == raw[k]);
        }
        lemma_unbroken(state, first, raw.drop_last());
        assert(frame_counter(raw[raw.len() - 1]) == (first + (raw.len() - 1)) % 64);
        lemma_expected_frame(
            decode(state, raw.drop_last()).state,
            (first + raw.len() - 1) as nat,
            raw.last(),
        );
    }
}

/// Parsing from the start, the `k`-th measurement has position `k`.
pub proof fn law_positions_count_up(raw: Seq<u32>)
    requires
        raw.len() <= u64::MAX,
    ensures
        forall|k: int|
            0 <= k < decode(AccumulatorState::initial(), raw).samples.len() ==> #[trigger] decode(
                AccumulatorState::initial(),
                raw,
            ).samples[k].sample == k,
{
    lemma_positions(raw);
}

proof fn lemma_positions(raw: Seq<u32>)
    requires
        raw.len() <= u64::MAX,
    ensures
        decode(AccumulatorState::initial(), raw).samples.len() <= raw.len(),
        decode(AccumulatorState::initial(), raw).state.next_sample == decode(
            AccumulatorState::initial(),
            raw,
        ).samples.len(),
        forall|k: int|
            0 <= k < decode(AccumulatorState::initial(), raw).samples.len() ==> #[trigger] decode(
                AccumulatorState::initial(),
                raw,
            ).samples[k].sample == k,
    decreases raw.len(),
{
    if raw.len() > 0 {
        lemma_positions(raw.drop_last());
    }
}

/// Whether reading `k` of `samples` was taken in another range than the one before.
pub open spec fn range_changed(samples: Seq<Measurement>, k: int) -> bool {
    k > 0 && samples[k].reading.range != samples[k - 1].reading.range
}

/// Parsing from the start, the spike filter replaces a reading exactly when it
/// follows one in another range. The filter is never re-armed: its window stays
/// closed between range changes.
pub proof fn law_only_range_changes_are_filtered(raw: Seq<u32>)
    ensures
        decode(AccumulatorState::initial(), raw).state.wf(),
        forall|k: int|
            0 <= k < decode(AccumulatorState::initial(), raw).samples.len() ==> ((#[trigger] decode(
                AccumulatorState::initial(),
                raw,
            ).samples[k]).reading.report != Report::Calibrated <==> range_changed(
                decode(AccumulatorState::initial(), raw).samples,
                k,
            )),
    decreases raw.len(),
{
    lemma_filtered(raw);
}

proof fn lemma_filtered(raw: Seq<u32>)
    ensures
        decode(AccumulatorState::initial(), raw).state.wf(),
        decode(AccumulatorState::initial(), raw).state.prev_range == (if decode(
            AccumulatorState::initial(),
            raw,
        ).samples.len() == 0 {
            None
        } else {
            Some(decode(AccumulatorState::initial(), raw).samples.last().reading.range)
        }),
        forall|k: int|
            0 <= k < decode(AccumulatorState::initial(), raw).samples.len() ==> ((#[trigger] decode(
                AccumulatorState::initial(),
                raw,
            ).samples[k]).reading.report != Report::Calibrated <==> range_changed(
                decode(AccumulatorState::initial(), raw).samples,
                k,
            )),
    decreases raw.len(),
{
    if raw.len() > 0 {
        let before = decode(AccumulatorState::initial(), raw.drop_last());
        lemma_filtered(raw.drop_last());
        let all = decode(AccumulatorState::initial(), raw);
        assert forall|k: int| 0 <= k < all.samples.len() implies ((
        #[trigger] all.samples[k]).reading.report != Report::Calibrated <==> range_changed(
            all.samples,
            k,
        )) by {
            if k < before.samples.len() {
                assert(all.samples[k] == before.samples[k]);
                assert(range_changed(all.samples, k) == range_changed(before.samples, k));
            }
        }
    }
}

/// Parsing from the start, the averages forget at most one reading: the filter's count
/// of range changes never starts again.
pub proof fn law_averages_forget_at_most_one_reading(raw: Seq<u32>, i: int, j: int)
    requires
        0 <= i < j < decode(AccumulatorState::initial(), raw).samples.len(),
    ensures
        !decode(AccumulatorState::initial(), raw).samples[i].reading.restore_averages || !decode(
            AccumulatorState::initial(),
            raw,
        ).samples[j].reading.restore_averages,
{
    lemma_forgotten(raw);
}

proof fn lemma_forgotten(raw: Seq<u32>)
    ensures
        decode(AccumulatorState::initial(), raw).state.wf(),
        forall|i: int|
            0 <= i < decode(AccumulatorState::initial(), raw).samples.len() && (#[trigger] decode(
                AccumulatorState::initial(),
                raw,
            ).samples[i]).reading.restore_averages ==> decode(
                AccumulatorState::initial(),
                raw,
            ).state.consecutive_range_sample > 0,
        forall|i: int, j: int|
            #![trigger
                decode(AccumulatorState::initial(), raw).samples[i],
                decode(AccumulatorState::initial(), raw).samples[j]
            ]
            0 <= i < j < decode(AccumulatorState::initial(), raw).samples.len() ==> !decode(
                AccumulatorState::initial(),
                raw,
            ).samples[i].reading.restore_averages || !decode(
                AccumulatorState::initial(),
                raw,
            ).samples[j].reading.restore_averages,
    decreases raw.len(),
{
    if raw.len() > 0 {
        let before = decode(AccumulatorState::initial(), raw.drop_last());
        lemma_forgotten(raw.drop_last());
        let all = decode(AccumulatorState::initial(), raw);
        let n = before.samples.len();
        assert(forall|k: int| 0 <= k < n ==> all.samples[k] == before.samples[k]);
        assert forall|i: int|
            0 <= i < all.samples.len() && (
            #[trigger] all.samples[i]).reading.restore_averages implies all.state.consecutive_range_sample
            > 0 by {
            if i < n {
                assert(before.samples[i].reading.restore_averages);
            }
        }
        assert forall|i: int, j: int|
            #![trigger all.samples[i], all.samples[j]]
            0 <= i < j < all.samples.len() implies !all.samples[i].reading.restore_averages
            || !all.samples[j].reading.restore_averages by {
            if j < n {
                assert(before.samples[i] == all.samples[i] && before.samples[j] == all.samples[j]);
            } else {
                assert(before.samples[i] == all.samples[i]);
            }
        }
    }
}

/// The default pattern lets every measurement through.
pub proof fn law_default_pattern_matches_all(items: Seq<Measurement>, pattern: LogicPortPins)
    requires
        pattern@ == Seq::new(8, |i: int| Level::Either),
    ensures
        matching(items, pattern) == items,
    decreases items.len(),
{
    reveal(Seq::filter);
    if items.len() > 0 {
        law_default_pattern_matches_all(items.drop_last(), pattern);
        assert(items.last().pins.compatible(pattern)) by {
            assert forall|i: int| 0 <= i < 8 implies (#[trigger] items.last().pins@[i]).compatible(
                pattern@[i],
            ) by {}
        }
        assert(items =~= items.drop_last().push(items.last()));
    }
}

} // verus!
