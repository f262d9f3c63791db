//! Measurement parsing and preprocessing.

use std::collections::VecDeque;

use vstd::prelude::*;

use crate::clock::{Nanos, WallNanos};
use crate::frame::{
    frame_adc, frame_at, frame_counter, frame_from_le_bytes, frame_logic, frame_range, frames,
    get_adc, get_counter, get_logic, get_range, remainder,
};
use crate::types::{pins_from, bit_of, Level, LogicPortPins};

verus! {

/// Readings for which the spike filter stays active once it has been re-armed.
pub const SPIKE_FILTER_SAMPLES: isize = 3;

/// The range that the spike filter treats apart from the others, and the highest
/// one there is.
pub const TOP_RANGE: usize = 4;

/// Which value stands for the current of a reading.
#[derive(Clone, Copy, Debug, PartialEq, Eq, Structural)]
pub enum Report {
    /// The calibrated reading itself.
    Calibrated,
    /// The rolling average over the readings.
    RollingAvg,
    /// The slower rolling average that is used in [`TOP_RANGE`].
    RollingAvg4,
}

/// One ADC reading, with what the spike filter decided about it.
///
/// The current in amperes follows from the readings in order. A reading is
/// calibrated by `range` and `adc_val`, and both rolling averages take it in.
/// If `restore_averages` is set they go back to what they were before it. Then
/// `report` names the value that stands for the current.
#[derive(Clone, Copy, Debug, PartialEq, Eq, Structural)]
pub struct AdcResult {
    /// Measurement range, at most [`TOP_RANGE`].
    pub range: usize,
    /// ADC value scaled to the calibration's unit.
    pub adc_val: u32,
    /// The rolling averages forget this reading.
    pub restore_averages: bool,
    /// The value that stands for the current.
    pub report: Report,
}

/// A single parsed measurement.
#[derive(Clone, Copy, Debug)]
pub struct Measurement {
    /// Position among all measurements that the accumulator has parsed.
    pub sample: u64,
    /// The measured current, as an ADC reading.
    pub reading: AdcResult,
    /// Logic port bits.
    pub pins: LogicPortPins,
}

/// What parsing one frame leaves behind for the next.
#[derive(Clone, Copy, Debug, PartialEq, Eq, Structural)]
pub struct AccumulatorState {
    /// Range of the reading before.
    pub prev_range: Option<usize>,
    /// The spike filter is active while this is positive.
    pub after_spike: isize,
    /// Range changes counted by the spike filter.
    pub consecutive_range_sample: usize,
    /// Counter that the next frame has if none is missing.
    pub expected_counter: Option<u8>,
    /// Position of the next measurement.
    pub next_sample: u64,
}

impl AccumulatorState {
    /// The state before the first frame.
    pub open spec fn initial() -> AccumulatorState {
        AccumulatorState {
            prev_range: None,
            after_spike: 0,
            consecutive_range_sample: 0,
            expected_counter: None,
            next_sample: 0,
        }
    }

    /// The state before the first frame.
    pub fn new() -> (r: Self)
        ensures
            r == AccumulatorState::initial(),
    {
        AccumulatorState {
            prev_range: None,
            after_spike: 0,
            consecutive_range_sample: 0,
            expected_counter: None,
            next_sample: 0,
        }
    }

    /// Whether a reading in `range` follows one in another range.
    pub open spec fn range_changes(self, range: usize) -> bool {
        self.prev_range is Some && self.prev_range != Some(range)
    }

    /// Whether the spike filter replaces a reading in `range`.
    pub open spec fn filters(self, range: usize) -> bool {
        self.range_changes(range) || self.after_spike > 0
    }

    /// The state after a reading in `range`. A range change counts up. A reading
    /// that is filtered without one starts the count again and re-arms the filter.
    pub open spec fn after_reading(self, range: usize) -> AccumulatorState {
        let armed = if self.range_changes(range) {
            self.after_spike as int
        } else {
            SPIKE_FILTER_SAMPLES as int
        };
        AccumulatorState {
            prev_range: Some(range),
            after_spike: if !self.filters(range) {
                self.after_spike
            } else if armed > isize::MIN {
                (armed - 1) as isize
            } else {
                isize::MIN
            },
            consecutive_range_sample: if !self.filters(range) {
                self.consecutive_range_sample
            } else if self.range_changes(range) {
                self.consecutive_range_sample.saturating_add(1)
            } else {
                0
            },
            ..self
        }
    }

    /// What the spike filter makes of a reading.
    pub open spec fn adc_result(self, range: usize, adc_val: u32) -> AdcResult {
        AdcResult {
            range,
            adc_val,
            restore_averages: self.filters(range) && range == TOP_RANGE && self.after_reading(
                range,
            ).consecutive_range_sample < 2,
            report: if !self.filters(range) {
                Report::Calibrated
            } else if range == TOP_RANGE {
                Report::RollingAvg4
            } else {
                Report::RollingAvg
            },
        }
    }

    /// What holds of every state that parsing reaches.
    pub open spec fn wf(self) -> bool {
        &&& self.after_spike <= 0
        &&& self.expected_counter matches Some(c) ==> c < 64
        &&& self.prev_range matches Some(r) ==> r <= TOP_RANGE
    }
}

/// Pass a reading through the spike filter.
pub fn get_adc_result(state: &mut AccumulatorState, range: usize, adc_val: u32) -> (r: AdcResult)
    ensures
        r == old(state).adc_result(range, adc_val),
        *final(state) == old(state).after_reading(range),
{
    let same_range = match state.prev_range {
        Some(prev) => prev == range,
        None => true,
    };
    let mut restore_averages = false;
    let mut report = Report::Calibrated;
    if !same_range || state.after_spike > 0 {
        if same_range {
            state.consecutive_range_sample = 0;
            state.after_spike = SPIKE_FILTER_SAMPLES;
        } else {
            state.consecutive_range_sample = state.consecutive_range_sample.saturating_add(1);
        }
        if range == TOP_RANGE {
            restore_averages = state.consecutive_range_sample < 2;
            report = Report::RollingAvg4;
        } else {
            report = Report::RollingAvg;
        }
        if state.after_spike > isize::MIN {
            state.after_spike = state.after_spike - 1;
        }
    }
    state.prev_range = Some(range);
    AdcResult { range, adc_val, restore_averages, report }
}

/// What a run of frames decodes to.
#[verifier::ext_equal]
pub struct Decoded {
    /// The state behind the last frame.
    pub state: AccumulatorState,
    /// The measurements, in order.
    pub samples: Seq<Measurement>,
    /// How many samples the device skipped.
    pub missed: nat,
}

/// How many samples the device skipped between the one it should have sent and
/// one with counter `counter`, modulo the 64 values of the counter.
pub open spec fn counter_gap(expected: u8, counter: nat) -> nat {
    ((counter - expected) % 64) as nat
}

/// What one frame decodes to. A frame whose counter is not the expected one
/// reports the gap and is itself discarded.
pub open spec fn decode_frame(state: AccumulatorState, raw: u32) -> Decoded {
    let counter = frame_counter(raw);
    let synced = AccumulatorState {
        expected_counter: Some(((counter + 1) % 64) as u8),
        ..state
    };
    if state.expected_counter is Some && state.expected_counter != Some(counter as u8) {
        Decoded {
            state: synced,
            samples: Seq::empty(),
            missed: counter_gap(state.expected_counter.unwrap(), counter),
        }
    } else {
        let range: usize = if frame_range(raw) < TOP_RANGE {
            frame_range(raw) as usize
        } else {
            TOP_RANGE
        };
        let adc_val = (frame_adc(raw) * 4) as u32;
        Decoded {
            state: AccumulatorState {
                next_sample: state.next_sample.wrapping_add(1),
                ..synced.after_reading(range)
            },
            samples: seq![
                Measurement {
                    sample: state.next_sample,
                    reading: state.adc_result(range, adc_val),
                    pins: pins_from(|i: int| bit_of(frame_logic(raw) as u32, i)),
                },
            ],
            missed: 0,
        }
    }
}

/// What the frames in `raw` decode to, one after the other.
pub open spec fn decode(state: AccumulatorState, raw: Seq<u32>) -> Decoded
    decreases raw.len(),
{
    if raw.len() == 0 {
        Decoded { state, samples: Seq::empty(), missed: 0 }
    } else {
        let before = decode(state, raw.drop_last());
        let frame = decode_frame(before.state, raw.last());
        Decoded {
            state: frame.state,
            samples: before.samples + frame.samples,
            missed: before.missed + frame.missed,
        }
    }
}

/// What an accumulator holds between two calls.
#[verifier::ext_equal]
pub struct AccumulatorView {
    /// The state behind the last whole frame.
    pub state: AccumulatorState,
    /// The bytes received behind the last whole frame.
    pub rest: Seq<u8>,
}

impl AccumulatorView {
    /// Nothing received.
    pub open spec fn initial() -> AccumulatorView {
        AccumulatorView { state: AccumulatorState::initial(), rest: Seq::empty() }
    }

    /// All the bytes that are not decoded yet once `bytes` have arrived.
    pub open spec fn undecoded(self, bytes: Seq<u8>) -> Seq<u8> {
        self.rest + bytes
    }

    /// What `bytes` decode to behind what was held.
    pub open spec fn decoded(self, bytes: Seq<u8>) -> Decoded {
        decode(self.state, frames(self.undecoded(bytes)))
    }

    /// What is held after `bytes`.
    pub open spec fn fed(self, bytes: Seq<u8>) -> AccumulatorView {
        AccumulatorView {
            state: self.decoded(bytes).state,
            rest: remainder(self.undecoded(bytes)),
        }
    }

    /// Less than a frame is held.
    pub open spec fn wf(self) -> bool {
        self.state.wf() && self.rest.len() < 4
    }
}

/// `n` as far as a `usize` can hold it.
pub open spec fn clamp_usize(n: nat) -> usize {
    if n <= usize::MAX {
        n as usize
    } else {
        usize::MAX
    }
}

/// An accumulator for [`Measurement`]s. Keeps an internal state as well as a byte
/// buffer and builds [`Measurement`]s from bytes that were fed. See
/// [`MeasurementAccumulator::feed_into`] for more details.
pub struct MeasurementAccumulator {
    state: AccumulatorState,
    buf: Vec<u8>,
}

impl View for MeasurementAccumulator {
    type V = AccumulatorView;

    closed spec fn view(&self) -> AccumulatorView {
        AccumulatorView { state: self.state, rest: self.buf@ }
    }
}

impl MeasurementAccumulator {
    /// Create a new accumulator, which has received nothing.
    pub fn new() -> (r: Self)
        ensures
            r@ == AccumulatorView::initial(),
            r@.wf(),
    {
        MeasurementAccumulator { state: AccumulatorState::new(), buf: Vec::with_capacity(4) }
    }

    /// Feed a number of bytes to the accumulator, pushing the [`Measurement`]s onto
    /// the passed ring buffer. Returns how many samples the device skipped, as its
    /// counter shows, saturating at [`usize::MAX`].
    pub fn feed_into(&mut self, bytes: &[u8], buf: &mut VecDeque<Measurement>) -> (r: usize)
        requires
            old(self)@.wf(),
        ensures
            final(self)@ == old(self)@.fed(bytes@),
            final(self)@.wf(),
            final(buf)@ == old(buf)@ + old(self)@.decoded(bytes@).samples,
            r == clamp_usize(old(self)@.decoded(bytes@).missed),
    {
        let mut samples_missed: usize = 0;
        let mut i: usize = 0;
        proof {
            assert(self@.undecoded(bytes@.take(0)) =~= self@.rest);
            assert(remainder(self@.rest) =~= self@.rest);
            assert(frames(self@.rest) =~= Seq::empty());
        }
        while i < bytes.len()
            invariant
                i <= bytes.len(),
                old(self)@.wf(),
                self@ == old(self)@.fed(bytes@.take(i as int)),
                self@.wf(),
                buf@ == old(buf)@ + old(self)@.decoded(bytes@.take(i as int)).samples,
                samples_missed == clamp_usize(old(self)@.decoded(bytes@.take(i as int)).missed),
            decreases bytes.len() - i,
        {
            let ghost seen = old(self)@.undecoded(bytes@.take(i as int));
            let ghost grown = old(self)@.undecoded(bytes@.take(i as int + 1));
            proof {
                assert(grown =~= seen.push(bytes@[i as int]));
                lemma_frames_grow(seen, bytes@[i as int]);
            }
            self.buf.push(bytes[i]);
            if self.buf.len() == 4 {
                let raw: u32 = frame_from_le_bytes(
                    self.buf[0],
                    self.buf[1],
                    self.buf[2],
                    self.buf[3],
                );
                proof {
                    assert(seq![self.buf@[0], self.buf@[1], self.buf@[2], self.buf@[3]]
                        =~= self.buf@);
                    assert(frames(grown).drop_last() =~= frames(seen));
                }
                let missed: usize = self.decode_one(raw, buf);
                samples_missed = samples_missed.saturating_add(missed);
                self.buf.clear();
            }
            i = i + 1;
        }
        proof {
            assert(bytes@.take(i as int) =~= bytes@);
        }
        samples_missed
    }

    /// Decode one frame.
    fn decode_one(&mut self, raw: u32, buf: &mut VecDeque<Measurement>) -> (r: usize)
        requires
            old(self).state.wf(),
        ensures
            final(self).buf == old(self).buf,
            final(self).state == decode_frame(old(self).state, raw).state,
            final(self).state.wf(),
            final(buf)@ == old(buf)@ + decode_frame(old(self).state, raw).samples,
            r == decode_frame(old(self).state, raw).missed,
    {
        let range: u32 = get_range(raw);
        let current_measurement_range: usize = if range < 4 { range as usize } else { TOP_RANGE };
        let counter: u8 = get_counter(raw) as u8;
        let expected = self.state.expected_counter;
        self.state.expected_counter = Some((counter + 1) % 64);
        if let Some(exp) = expected {
            if counter != exp {
                return if counter >= exp {
                    (counter - exp) as usize
                } else {
                    (64 - (exp - counter)) as usize
                };
            }
        }
        let adc_result: u32 = get_adc(raw) * 4;
        let pins = LogicPortPins::from(get_logic(raw));
        let sample: u64 = self.state.next_sample;
        let reading = get_adc_result(&mut self.state, current_measurement_range, adc_result);
        self.state.next_sample = sample.wrapping_add(1);
        buf.push_back(Measurement { sample, reading, pins });
        0
    }
}

/// One more byte either stays in the remainder or completes the frame that the
/// remainder began.
proof fn lemma_frames_grow(seen: Seq<u8>, byte: u8)
    ensures
        remainder(seen).len() == seen.len() % 4,
        seen.len() % 4 < 3 ==> {
            &&& frames(seen.push(byte)) == frames(seen)
            &&& remainder(seen.push(byte)) == remainder(seen).push(byte)
        },
        seen.len() % 4 == 3 ==> {
            &&& frames(seen.push(byte)) == frames(seen).push(
                frame_at(remainder(seen).push(byte), 0),
            )
            &&& remainder(seen.push(byte)) == Seq::<u8>::empty()
        },
{
    let grown = seen.push(byte);
    assert(frames(grown).len() == grown.len() / 4);
    if seen.len() % 4 < 3 {
        assert(frames(grown) =~= frames(seen));
        assert(remainder(grown) =~= remainder(seen).push(byte));
    } else {
        let last = seen.len() as int / 4;
        assert forall|k: int| 0 <= k < 4 implies grown[4 * last + k] == #[trigger] remainder(
            seen,
        ).push(byte)[k] by {}
        assert(frames(grown)[last] == frame_at(remainder(seen).push(byte), 0));
        assert(frames(grown) =~= frames(seen).push(frame_at(remainder(seen).push(byte), 0)));
        assert(remainder(grown) =~= Seq::<u8>::empty());
    }
}

/// The measurement that a set of [`Measurement`]s combines to.
///
/// Its current is the sum of the currents of `samples`, in that order, divided by
/// `divisor`.
#[derive(Debug)]
pub struct CombinedMeasurement {
    /// Positions of the combined measurements.
    pub samples: Vec<u64>,
    /// What the sum of their currents is divided by.
    pub divisor: usize,
    /// Combined logic port bits.
    pub pins: LogicPortPins,
}

/// Indicates whether a set of [`Measurement`]s matched, or that samples were lost.
///
/// `Match` and `NoMatch` carry a `missed` count so that a consumer can reconstruct
/// a correct timeline even when the device dropped samples. It is the number of
/// RAW device samples that were skipped (detected via a sample-counter gap) since
/// the previous emitted one, not a number of decimated output periods.
#[derive(Debug)]
pub enum MeasurementMatch {
    /// A set of [`Measurement`]s did match.
    Match {
        /// The combined (averaged) measurement for this chunk.
        measurement: CombinedMeasurement,
        /// Raw device samples skipped before this one.
        missed: u32,
        /// Capture time of the first raw sample of the chunk.
        read_at: WallNanos,
    },
    /// No matching [`Measurement`]s in the last chunk.
    NoMatch {
        /// Raw device samples skipped before this one.
        missed: u32,
        /// Capture time of the first raw sample of the chunk.
        read_at: WallNanos,
    },
    /// Samples were discarded: there is a hole in the timeline.
    Dropped {
        /// Edge of the hole.
        at: WallNanos,
        /// Raw samples discarded.
        samples: u64,
    },
    /// Samples were trimmed off the front of a block because they lay in time that
    /// was already delivered. There is no hole in the timeline.
    SeamOverlap {
        /// Where the block would have started.
        at: WallNanos,
        /// Raw samples trimmed.
        samples_trimmed: u64,
        /// How far the block reached back.
        overlap: Nanos,
    },
}

/// What a [`MeasurementMatch`] says.
#[verifier::ext_equal]
pub enum Emission {
    /// See [`MeasurementMatch::Match`].
    Match { positions: Seq<u64>, divisor: nat, pins: LogicPortPins, missed: u32, read_at: int },
    /// See [`MeasurementMatch::NoMatch`].
    NoMatch { missed: u32, read_at: int },
    /// See [`MeasurementMatch::Dropped`].
    Dropped { at: int, samples: nat },
    /// See [`MeasurementMatch::SeamOverlap`].
    SeamOverlap { at: int, samples_trimmed: nat, overlap: int },
}

impl View for MeasurementMatch {
    type V = Emission;

    open spec fn view(&self) -> Emission {
        match *self {
            MeasurementMatch::Match { measurement, missed, read_at } => Emission::Match {
                positions: measurement.samples@,
                divisor: measurement.divisor as nat,
                pins: measurement.pins,
                missed,
                read_at: read_at as int,
            },
            MeasurementMatch::NoMatch { missed, read_at } => Emission::NoMatch {
                missed,
                read_at: read_at as int,
            },
            MeasurementMatch::Dropped { at, samples } => Emission::Dropped {
                at: at as int,
                samples: samples as nat,
            },
            MeasurementMatch::SeamOverlap { at, samples_trimmed, overlap } => Emission::SeamOverlap {
                at: at as int,
                samples_trimmed: samples_trimmed as nat,
                overlap: overlap as int,
            },
        }
    }
}

/// `missed` as far as a `u32` can hold it.
pub open spec fn clamp_u32(missed: nat) -> u32 {
    if missed <= u32::MAX {
        missed as u32
    } else {
        u32::MAX
    }
}

/// Saturating cast of an accumulated skipped-sample count to the width it is
/// reported in. Counts beyond `u32::MAX` (which would require about 12 hours of a
/// fully dropped 100 kHz stream between two emitted measurements) clamp.
pub fn saturating_missed(missed: usize) -> (r: u32)
    ensures
        r == clamp_u32(missed as nat),
{
    if missed <= u32::MAX as usize {
        missed as u32
    } else {
        u32::MAX
    }
}

/// How many of `items` have `pin` high.
pub open spec fn high_count(items: Seq<Measurement>, pin: int) -> nat {
    items.filter(|m: Measurement| m.pins@[pin] == Level::High).len()
}

/// The items whose logic port is compatible with `pattern`.
pub open spec fn matching(items: Seq<Measurement>, pattern: LogicPortPins) -> Seq<Measurement> {
    items.filter(|m: Measurement| m.pins.compatible(pattern))
}

/// The positions of `items`.
pub open spec fn positions(items: Seq<Measurement>) -> Seq<u64> {
    items.map_values(|m: Measurement| m.sample)
}

/// What `items` combine to. A pin is high if and only if it was high in more than
/// half of them. Missed samples are taken off the divisor, which stays positive.
pub open spec fn combined(items: Seq<Measurement>, missed: nat, read_at: int) -> Emission {
    if items.len() == 0 {
        Emission::NoMatch { missed: clamp_u32(missed), read_at }
    } else {
        Emission::Match {
            positions: positions(items),
            divisor: if items.len() > missed {
                (items.len() - missed) as nat
            } else {
                1
            },
            pins: pins_from(|i: int| 2 * high_count(items, i) > items.len()),
            missed: clamp_u32(missed),
            read_at,
        }
    }
}

/// Extension trait for collections of [`Measurement`]s.
pub trait MeasurementIterExt: Sized {
    /// The measurements, in order.
    spec fn items(&self) -> Seq<Measurement>;

    /// Combine items into a single [`MeasurementMatch::Match`], if there are items.
    /// If there are none, [`MeasurementMatch::NoMatch`] is returned.
    /// Set combined logic port pin high if and only if more than half
    /// of the measurements indicate the pin was high.
    ///
    /// `missed` is the number of RAW device samples that were skipped (detected via
    /// a sample-counter gap) since the previous emitted [`MeasurementMatch`]. It is
    /// handed on (saturating at [`u32::MAX`]) also where there are no items, so that
    /// no pending count is lost. `read_at` is the capture time of the first raw
    /// sample, and is handed on too.
    fn combine(self, missed: usize, read_at: WallNanos) -> (r: MeasurementMatch)
        ensures
            r@ == combined(self.items(), missed as nat, read_at as int),
    ;

    /// Combine the items whose logic port matches `matching_pins`, as
    /// [`MeasurementIterExt::combine`] does.
    fn combine_matching(
        self,
        missed: usize,
        read_at: WallNanos,
        matching_pins: LogicPortPins,
    ) -> (r: MeasurementMatch)
        ensures
            r@ == combined(matching(self.items(), matching_pins), missed as nat, read_at as int),
    ;
}

impl MeasurementIterExt for Vec<Measurement> {
    open spec fn items(&self) -> Seq<Measurement> {
        self@
    }

    fn combine(self, missed: usize, read_at: WallNanos) -> (r: MeasurementMatch) {
        let count: usize = self.len();
        if count == 0 {
            return MeasurementMatch::NoMatch { missed: saturating_missed(missed), read_at };
        }
        let mut pin_high_count: [usize; 8] = [0; 8];
        let mut samples: Vec<u64> = Vec::with_capacity(count);
        let mut n: usize = 0;
        while n < count
            invariant
                n <= count == self@.len(),
                samples@ == positions(self@.take(n as int)),
                forall|i: int|
                    0 <= i < 8 ==> #[trigger] pin_high_count@[i] == high_count(
                        self@.take(n as int),
                        i,
                    ),
                forall|i: int| 0 <= i < 8 ==> #[trigger] pin_high_count@[i] <= n,
            decreases count - n,
        {
            let m = self[n];
            let ghost before = pin_high_count@;
            let mut i: usize = 0;
            while i < 8
                invariant
                    n < count == self@.len(),
                    m == self@[n as int],
                    i <= 8,
                    before.len() == 8,
                    forall|k: int| 0 <= k < 8 ==> #[trigger] before[k] <= n,
                    forall|k: int|
                        0 <= k < 8 ==> #[trigger] pin_high_count@[k] == before[k] + (if k < i
                            && m.pins@[k] == Level::High {
                            1int
                        } else {
                            0int
                        }),
                decreases 8 - i,
            {
                assert(pin_high_count@[i as int] == before[i as int]);
                if m.pins.levels[i].is_high() {
                    pin_high_count[i] = pin_high_count[i] + 1;
                }
                i = i + 1;
            }
            samples.push(m.sample);
            proof {
                let grown = self@.take(n as int + 1);
                assert(grown.drop_last() =~= self@.take(n as int));
                assert(samples@ =~= positions(grown));
                assert forall|i: int| 0 <= i < 8 implies #[trigger] pin_high_count@[i]
                    == high_count(grown, i) by {
                    reveal(Seq::filter);
                    assert(before[i] == high_count(self@.take(n as int), i));
                }
            }
            n = n + 1;
        }
        proof {
            assert(self@.take(n as int) =~= self@);
        }
        let mut pins: [bool; 8] = [false; 8];
        let mut i: usize = 0;
        while i < 8
            invariant
                i <= 8,
                count == self@.len(),
                forall|k: int|
                    0 <= k < 8 ==> #[trigger] pin_high_count@[k] == high_count(self@, k),
                forall|k: int|
                    0 <= k < i ==> #[trigger] pins@[k] == (2 * high_count(self@, k)
                        > self@.len()),
            decreases 8 - i,
        {
            assert(pin_high_count@[i as int] == high_count(self@, i as int));
            pins[i] = pin_high_count[i] > count / 2;
            i = i + 1;
        }
        let pins = LogicPortPins::from(pins);
        let divisor: usize = if count > missed { count - missed } else { 1 };
        let measurement = CombinedMeasurement { samples, divisor, pins };
        MeasurementMatch::Match { measurement, missed: saturating_missed(missed), read_at }
    }

    fn combine_matching(
        self,
        missed: usize,
        read_at: WallNanos,
        matching_pins: LogicPortPins,
    ) -> (r: MeasurementMatch) {
        let mut kept: Vec<Measurement> = Vec::new();
        let mut n: usize = 0;
        while n < self.len()
            invariant
                n <= self@.len(),
                kept@ == matching(self@.take(n as int), matching_pins),
            decreases self@.len() - n,
        {
            let m = self[n];
            proof {
                reveal(Seq::filter);
                assert(self@.take(n as int + 1).drop_last() =~= self@.take(n as int));
            }
            if m.pins.matches(&matching_pins) {
                kept.push(m);
            }
            n = n + 1;
        }
        proof {
            assert(self@.take(n as int) =~= self@);
        }
        kept.combine(missed, read_at)
    }
}

} // verus!
