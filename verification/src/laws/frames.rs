//! What a frame says, in terms of the numbers it is made of and the bytes it arrives in.

use vstd::arithmetic::div_mod::{
    lemma_fundamental_div_mod, lemma_mod_bound, lemma_mod_breakdown,
};
use vstd::arithmetic::mul::lemma_mul_is_commutative;
use vstd::arithmetic::power2::{lemma2_to64, lemma_pow2_pos, lemma_pow2_unfold, pow2};
use vstd::prelude::*;
use vstd::std_specs::convert::FromSpec;

use crate::frame::{
    field, frame_adc, frame_at, frame_counter, frame_logic, frame_range, frames, remainder,
};
use crate::measurement::{
    decode, decode_frame, AccumulatorState, AccumulatorView, Measurement, Report,
};
use crate::types::{bit_of, pins_from, Level, LogicPortPins};

verus! {

/// The frame that the device makes of an ADC value, a range, a spare bit, a counter and
/// the logic port.
pub open spec fn frame_of(adc: nat, range: nat, spare: nat, counter: nat, logic: nat) -> u32 {
    (adc + 0x4000 * range + 0x2_0000 * spare + 0x4_0000 * counter + 0x100_0000 * logic) as u32
}

/// Whether these numbers fit into a frame.
pub open spec fn fits_frame(adc: nat, range: nat, spare: nat, counter: nat, logic: nat) -> bool {
    adc < 0x4000 && range < 8 && spare < 2 && counter < 64 && logic < 256
}

/// Every number that goes into a frame comes out of it.
pub proof fn law_fields_read_back(adc: nat, range: nat, spare: nat, counter: nat, logic: nat)
    requires
        fits_frame(adc, range, spare, counter, logic),
    ensures
        frame_adc(frame_of(adc, range, spare, counter, logic)) == adc,
        frame_range(frame_of(adc, range, spare, counter, logic)) == range,
        frame_counter(frame_of(adc, range, spare, counter, logic)) == counter,
        frame_logic(frame_of(adc, range, spare, counter, logic)) == logic,
{
    let raw = frame_of(adc, range, spare, counter, logic);
    assert(raw == adc + 0x4000 * range + 0x2_0000 * spare + 0x4_0000 * counter + 0x100_0000
        * logic);
    assert(raw as nat / 0x4000 == range + 8 * spare + 16 * counter + 0x400 * logic);
    assert(raw as nat / 0x4_0000 == counter + 64 * logic);
}

/// Whether `raw` consists of `above`, then `bits` bits that make `between`, then `pos` bits
/// that make `below`.
pub open spec fn made_of(
    raw: u32,
    above: nat,
    between: nat,
    below: nat,
    bits: nat,
    pos: nat,
) -> bool {
    below < pow2(pos) && raw == (above * pow2(bits) + between) * pow2(pos) + below
}

/// A field of a frame is what stands between the bits above it and those below it.
pub proof fn law_field_lies_between(raw: u32, bits: nat, pos: nat)
    ensures
        field(raw, bits, pos) < pow2(bits),
        exists|above: nat, below: nat|
            #[trigger] made_of(raw, above, field(raw, bits, pos), below, bits, pos),
{
    lemma_pow2_pos(bits);
    lemma_pow2_pos(pos);
    let shifted = raw as nat / pow2(pos);
    let below = raw as nat % pow2(pos);
    let above = shifted / pow2(bits);
    lemma_fundamental_div_mod(raw as int, pow2(pos) as int);
    lemma_fundamental_div_mod(shifted as int, pow2(bits) as int);
    lemma_mod_bound(raw as int, pow2(pos) as int);
    lemma_mod_bound(shifted as int, pow2(bits) as int);
    let (p, b, f) = (pow2(pos), pow2(bits), field(raw, bits, pos));
    assert(shifted == above * b + f) by (nonlinear_arith)
        requires
            shifted == b * above + f,
    ;
    assert(raw == shifted * p + below) by (nonlinear_arith)
        requires
            raw == p * shifted + below,
    ;
    assert(made_of(raw, above, field(raw, bits, pos), below, bits, pos));
}

/// A frame is read with its least significant byte first.
pub proof fn law_frame_is_little_endian(bytes: Seq<u8>, at: int)
    ensures
        frame_at(bytes, at) as int == bytes[at] + 256 * (bytes[at + 1] + 256 * (bytes[at + 2] + 256
            * bytes[at + 3])),
{
}

/// Cut into frames, no byte is lost, doubled or moved: each of the first bytes stands in
/// its frame, and at most three are left over, in order.
pub proof fn law_frames_hold_every_byte(bytes: Seq<u8>, k: int)
    ensures
        bytes.len() == 4 * frames(bytes).len() + remainder(bytes).len(),
        remainder(bytes).len() < 4,
        0 <= k < frames(bytes).len() ==> frames(bytes)[k] == frame_at(bytes, 4 * k),
        0 <= k < remainder(bytes).len() ==> remainder(bytes)[k] == bytes[4 * frames(bytes).len()
            + k],
{
}

/// What eight pins are worth as a number, pin 0 counting one and each further one twice as
/// much as the one before.
pub open spec fn weight(pins: LogicPortPins, n: nat) -> nat
    decreases n,
{
    if n == 0 {
        0
    } else {
        weight(pins, (n - 1) as nat) + if pins@[n - 1] == Level::High {
            pow2((n - 1) as nat)
        } else {
            0
        }
    }
}

/// Whether every pin is either low or high.
pub open spec fn none_open(pins: LogicPortPins) -> bool {
    forall|i: int| 0 <= i < 8 ==> (#[trigger] pins@[i]) != Level::Either
}

/// The logic port of a frame can be read off its pins, none of which is left open.
pub proof fn law_pins_read_back(logic: u32)
    requires
        logic < 256,
    ensures
        weight(pins_from(|i: int| bit_of(logic, i)), 8) == logic,
        none_open(pins_from(|i: int| bit_of(logic, i))),
{
    lemma2_to64();
    lemma_weight(logic, 8);
}

/// The first `n` pins are worth what the last `n` bits are.
proof fn lemma_weight(logic: u32, n: nat)
    requires
        n <= 8,
    ensures
        weight(pins_from(|i: int| bit_of(logic, i)), n) == logic as nat % pow2(n),
    decreases n,
{
    lemma2_to64();
    if n > 0 {
        let m = (n - 1) as nat;
        let pins = pins_from(|i: int| bit_of(logic, i));
        lemma_weight(logic, m);
        lemma_pow2_pos(m);
        lemma_pow2_unfold(n);
        lemma_mod_breakdown(logic as int, pow2(m) as int, 2);
        lemma_mul_is_commutative(2, pow2(m) as int);
        let bit = logic as int / pow2(m) as int % 2;
        assert(pins@[m as int] == Level::High <==> bit == 1);
        assert(bit == 0 ==> pow2(m) * bit == 0);
        assert(bit == 1 ==> pow2(m) * bit == pow2(m));
    }
}

/// Pins made of eight truth values are high where the value is true and low elsewhere.
pub proof fn law_pins_follow_their_values(high: spec_fn(int) -> bool, i: int)
    requires
        0 <= i < 8,
    ensures
        high(i) ==> pins_from(high)@[i] == Level::High,
        !high(i) ==> pins_from(high)@[i] == Level::Low,
{
}

/// Pins made of a number are worth its last eight bits, and pins made of eight truth values
/// are high where the value is true and low elsewhere.
pub proof fn law_pins_are_what_they_are_made_of(bits: u32, high: [bool; 8], i: int)
    requires
        0 <= i < 8,
    ensures
        weight(<LogicPortPins as FromSpec<u32>>::from_spec(bits), 8) == bits as nat % 256,
        none_open(<LogicPortPins as FromSpec<u32>>::from_spec(bits)),
        high[i] ==> <LogicPortPins as FromSpec<[bool; 8]>>::from_spec(high)@[i] == Level::High,
        !high[i] ==> <LogicPortPins as FromSpec<[bool; 8]>>::from_spec(high)@[i] == Level::Low,
{
    lemma2_to64();
    lemma_weight(bits, 8);
}

/// A frame with the expected counter, or the first one, becomes one measurement: its range
/// is the number that was sent, or 4 if that was more, its ADC value is four times the
/// number that was sent, and its pins are worth the number that was sent. The next counter
/// is expected, and nothing is missed.
pub proof fn law_frame_is_read_as_sent(
    state: AccumulatorState,
    adc: nat,
    range: nat,
    spare: nat,
    counter: nat,
    logic: nat,
)
    requires
        fits_frame(adc, range, spare, counter, logic),
        state.expected_counter matches Some(c) ==> c == counter,
    ensures
        ({
            let decoded = decode_frame(state, frame_of(adc, range, spare, counter, logic));
            let m = decoded.samples[0];
            &&& decoded.samples.len() == 1
            &&& decoded.missed == 0
            &&& m.sample == state.next_sample
            &&& m.reading.adc_val == 4 * adc
            &&& range <= 4 ==> m.reading.range == range
            &&& range > 4 ==> m.reading.range == 4
            &&& weight(m.pins, 8) == logic
            &&& none_open(m.pins)
            &&& decoded.state.expected_counter == Some(((counter + 1) % 64) as u8)
            &&& decoded.state.prev_range == Some(m.reading.range)
            &&& state.next_sample < u64::MAX ==> decoded.state.next_sample == state.next_sample + 1
            &&& state.next_sample == u64::MAX ==> decoded.state.next_sample == 0
        }),
{
    law_fields_read_back(adc, range, spare, counter, logic);
    law_pins_read_back(logic as u32);
}

/// Frames that differ in a range of at most 4 give readings in different ranges, and those
/// that differ in their ADC value give different values.
pub proof fn law_readings_differ_as_frames_do(
    state: AccumulatorState,
    adc: nat,
    range: nat,
    other_adc: nat,
    other_range: nat,
    counter: nat,
    logic: nat,
)
    requires
        fits_frame(adc, range, 0, counter, logic),
        fits_frame(other_adc, other_range, 0, counter, logic),
        state.expected_counter matches Some(c) ==> c == counter,
    ensures
        ({
            let one = decode_frame(state, frame_of(adc, range, 0, counter, logic)).samples[0];
            let other = decode_frame(
                state,
                frame_of(other_adc, other_range, 0, counter, logic),
            ).samples[0];
            &&& range <= 4 && other_range <= 4 && range != other_range ==> one.reading.range
                != other.reading.range
            &&& adc < other_adc ==> one.reading.adc_val < other.reading.adc_val
        }),
{
    law_frame_is_read_as_sent(state, adc, range, 0, counter, logic);
    law_frame_is_read_as_sent(state, other_adc, other_range, 0, counter, logic);
}

/// A frame that comes `gap` counters too late reports that many samples missing, whatever
/// else it holds. It gives no measurement and leaves everything but the expected counter
/// as it was.
pub proof fn law_late_frame_reports_its_gap(
    state: AccumulatorState,
    expected: u8,
    gap: nat,
    adc: nat,
    range: nat,
    spare: nat,
    logic: nat,
)
    requires
        state.expected_counter == Some(expected),
        expected < 64,
        0 < gap < 64,
        fits_frame(adc, range, spare, (expected + gap) as nat % 64, logic),
    ensures
        ({
            let counter = (expected + gap) as nat % 64;
            let decoded = decode_frame(state, frame_of(adc, range, spare, counter, logic));
            &&& decoded.samples.len() == 0
            &&& decoded.missed == gap
            &&& decoded.state == (AccumulatorState {
                expected_counter: Some(((counter + 1) % 64) as u8),
                ..state
            })
        }),
{
    law_fields_read_back(adc, range, spare, (expected + gap) as nat % 64, logic);
}

/// Frames are decoded one after the other, each in the state that the one before left.
pub proof fn law_frames_are_decoded_in_turn(state: AccumulatorState, raw: Seq<u32>, next: u32)
    ensures
        decode(state, Seq::empty()).state == state,
        decode(state, Seq::empty()).samples.len() == 0,
        decode(state, Seq::empty()).missed == 0,
        ({
            let before = decode(state, raw);
            let after = decode(state, raw.push(next));
            let one = decode_frame(before.state, next);
            &&& after.state == one.state
            &&& after.samples == before.samples + one.samples
            &&& after.missed == before.missed + one.missed
        }),
{
    assert(raw.push(next).drop_last() =~= raw);
}

/// Four bytes behind whole frames are one frame. Fewer wait for the rest.
pub proof fn law_bytes_are_fed_in_fours(parser: AccumulatorView, bytes: Seq<u8>)
    ensures
        parser.rest.len() + bytes.len() < 4 ==> {
            &&& parser.decoded(bytes).samples.len() == 0
            &&& parser.decoded(bytes).missed == 0
            &&& parser.fed(bytes).rest == parser.rest + bytes
            &&& parser.fed(bytes).state == parser.state
        },
        parser.rest.len() + bytes.len() == 4 ==> {
            let one = decode_frame(parser.state, frame_at(parser.rest + bytes, 0));
            &&& parser.decoded(bytes).samples == one.samples
            &&& parser.decoded(bytes).missed == one.missed
            &&& parser.fed(bytes).rest.len() == 0
            &&& parser.fed(bytes).state == one.state
        },
{
    let all = parser.rest + bytes;
    if all.len() < 4 {
        assert(frames(all) =~= Seq::empty());
        assert(remainder(all) =~= all);
    }
    if all.len() == 4 {
        let raw = frame_at(all, 0);
        assert(frames(all) =~= Seq::empty().push(raw));
        law_frames_are_decoded_in_turn(parser.state, Seq::empty(), raw);
        let one = decode_frame(parser.state, raw);
        assert(Seq::<Measurement>::empty() + one.samples =~= one.samples);
    }
}

/// What the filter hands on of a reading is the reading itself, whatever it decides.
pub proof fn law_filter_keeps_the_reading(state: AccumulatorState, range: usize, adc_val: u32)
    ensures
        state.adc_result(range, adc_val).range == range,
        state.adc_result(range, adc_val).adc_val == adc_val,
        state.after_reading(range).prev_range == Some(range),
        state.after_reading(range).expected_counter == state.expected_counter,
        state.after_reading(range).next_sample == state.next_sample,
{
}

/// A reading in the range of the one before, or the first one, is reported as it is while
/// the filter is not armed, and leaves the filter alone.
pub proof fn law_steady_range_is_reported_as_read(
    state: AccumulatorState,
    range: usize,
    adc_val: u32,
)
    requires
        state.prev_range is None || state.prev_range == Some(range),
        state.after_spike <= 0,
    ensures
        state.adc_result(range, adc_val).report == Report::Calibrated,
        !state.adc_result(range, adc_val).restore_averages,
        state.after_reading(range).after_spike == state.after_spike,
        state.after_reading(range).consecutive_range_sample == state.consecutive_range_sample,
{
}

/// A reading behind one in another range is reported as an average: the slow one in range
/// 4, the other one elsewhere. It counts up, and takes one off the window. The averages
/// forget it exactly if it is in range 4 and the first that was counted.
pub proof fn law_new_range_is_averaged(
    state: AccumulatorState,
    before: usize,
    range: usize,
    adc_val: u32,
)
    requires
        state.prev_range == Some(before),
        before != range,
        state.after_spike > isize::MIN,
        state.consecutive_range_sample < usize::MAX,
    ensures
        state.adc_result(range, adc_val).report == (if range == 4 {
            Report::RollingAvg4
        } else {
            Report::RollingAvg
        }),
        state.adc_result(range, adc_val).restore_averages <==> range == 4
            && state.consecutive_range_sample == 0,
        state.after_reading(range).after_spike == state.after_spike - 1,
        state.after_reading(range).consecutive_range_sample == state.consecutive_range_sample + 1,
{
}

/// A reading in an unchanged range is reported as an average too while the filter is armed,
/// starts the count again, and leaves two readings of the window.
pub proof fn law_armed_filter_averages(state: AccumulatorState, range: usize, adc_val: u32)
    requires
        state.prev_range is None || state.prev_range == Some(range),
        state.after_spike > 0,
    ensures
        state.adc_result(range, adc_val).report == (if range == 4 {
            Report::RollingAvg4
        } else {
            Report::RollingAvg
        }),
        state.adc_result(range, adc_val).restore_averages <==> range == 4,
        state.after_reading(range).after_spike == 2,
        state.after_reading(range).consecutive_range_sample == 0,
{
}

/// What a frame decodes to is what the filter makes of its reading, in the state that it
/// found.
pub proof fn law_frames_pass_the_filter(
    state: AccumulatorState,
    adc: nat,
    range: nat,
    spare: nat,
    counter: nat,
    logic: nat,
)
    requires
        fits_frame(adc, range, spare, counter, logic),
        state.expected_counter matches Some(c) ==> c == counter,
    ensures
        ({
            let decoded = decode_frame(state, frame_of(adc, range, spare, counter, logic));
            let m = decoded.samples[0];
            let after = state.after_reading(m.reading.range);
            &&& m.reading == state.adc_result(m.reading.range, (4 * adc) as u32)
            &&& decoded.state.after_spike == after.after_spike
            &&& decoded.state.consecutive_range_sample == after.consecutive_range_sample
        }),
{
    law_fields_read_back(adc, range, spare, counter, logic);
}

/// A parser that has received nothing expects any counter, has seen no range, is not armed
/// and counts from zero.
pub proof fn law_fresh_parser_knows_nothing()
    ensures
        AccumulatorView::initial().rest.len() == 0,
        AccumulatorView::initial().state == AccumulatorState::initial(),
        AccumulatorState::initial().expected_counter is None,
        AccumulatorState::initial().prev_range is None,
        AccumulatorState::initial().after_spike == 0,
        AccumulatorState::initial().consecutive_range_sample == 0,
        AccumulatorState::initial().next_sample == 0,
{
}

} // verus!
