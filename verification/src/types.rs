//! Logic port levels and patterns, and what the device is configured with.

use vstd::prelude::*;
use vstd::arithmetic::power2::pow2;
use vstd::bits::lemma_u32_shr_is_div;
use vstd::std_specs::convert::FromSpecImpl;

verus! {

/// State of one logic port pin, or a pattern for it.
#[derive(Clone, Copy, Debug, PartialEq, Eq, Structural)]
pub enum Level {
    /// The pin is low.
    Low,
    /// The pin is high.
    High,
    /// The pin may be either.
    Either,
}

impl Level {
    /// Whether the level is definitely high.
    pub fn is_high(self) -> (r: bool)
        ensures
            r == (self == Level::High),
    {
        self == Level::High
    }

    /// Whether two levels are compatible: equal, or one of them is
    /// [`Level::Either`].
    pub open spec fn compatible(self, other: Level) -> bool {
        self == other || self == Level::Either || other == Level::Either
    }

    /// Whether two levels are compatible: equal, or one of them is
    /// [`Level::Either`].
    pub fn matches(self, other: Level) -> (r: bool)
        ensures
            r == self.compatible(other),
    {
        self == other || self == Level::Either || other == Level::Either
    }
}

/// The level of a pin read as a bit.
pub open spec fn level_of(high: bool) -> Level {
    if high {
        Level::High
    } else {
        Level::Low
    }
}

/// State of the eight logic port pins, or a pattern for them. Pin `i` stands at
/// index `i`.
#[derive(Clone, Copy, Debug)]
pub struct LogicPortPins {
    /// One level per pin.
    pub levels: [Level; 8],
}

impl View for LogicPortPins {
    type V = Seq<Level>;

    open spec fn view(&self) -> Seq<Level> {
        self.levels@
    }
}

/// The pins for which `high` says of each whether it is high.
pub open spec fn pins_from(high: spec_fn(int) -> bool) -> LogicPortPins {
    LogicPortPins {
        levels: [
            level_of(high(0)),
            level_of(high(1)),
            level_of(high(2)),
            level_of(high(3)),
            level_of(high(4)),
            level_of(high(5)),
            level_of(high(6)),
            level_of(high(7)),
        ],
    }
}

/// Bit `i` of `bits`.
pub open spec fn bit_of(bits: u32, i: int) -> bool {
    bits as int / pow2(i as nat) as int % 2 == 1
}

impl LogicPortPins {
    /// The level of each pin.
    pub fn inner(&self) -> (r: &[Level; 8])
        ensures
            r@ == self@,
    {
        &self.levels
    }

    /// Whether every pin is compatible with the same pin of `pattern`.
    pub open spec fn compatible(self, pattern: LogicPortPins) -> bool {
        forall|i: int| 0 <= i < 8 ==> (#[trigger] self@[i]).compatible(pattern@[i])
    }

    /// Whether every pin is compatible with the same pin of `pattern`.
    pub fn matches(&self, pattern: &LogicPortPins) -> (r: bool)
        ensures
            r == self.compatible(*pattern),
    {
        let mut i: usize = 0;
        while i < 8
            invariant
                i <= 8,
                forall|k: int| 0 <= k < i ==> (#[trigger] self@[k]).compatible(pattern@[k]),
            decreases 8 - i,
        {
            if !self.levels[i].matches(pattern.levels[i]) {
                assert(!self@[i as int].compatible(pattern@[i as int]));
                return false;
            }
            i = i + 1;
        }
        true
    }
}

impl Default for LogicPortPins {
    /// The pattern that every state of the port is compatible with.
    fn default() -> (r: Self)
        ensures
            r@ == Seq::new(8, |i: int| Level::Either),
    {
        LogicPortPins { levels: [Level::Either; 8] }
    }
}

impl FromSpecImpl<[bool; 8]> for LogicPortPins {
    open spec fn obeys_from_spec() -> bool {
        true
    }

    open spec fn from_spec(v: [bool; 8]) -> LogicPortPins {
        pins_from(|i: int| v@[i])
    }
}

impl From<[bool; 8]> for LogicPortPins {
    fn from(v: [bool; 8]) -> (r: Self) {
        let mut levels = [Level::Low; 8];
        let mut i: usize = 0;
        while i < 8
            invariant
                i <= 8,
                forall|k: int| 0 <= k < i ==> levels@[k] == level_of(v@[k]),
            decreases 8 - i,
        {
            levels[i] = if v[i] { Level::High } else { Level::Low };
            i = i + 1;
        }
        let r = LogicPortPins { levels };
        proof {
            assert(r.levels =~= pins_from(|i: int| v@[i]).levels);
        }
        r
    }
}

impl FromSpecImpl<u32> for LogicPortPins {
    open spec fn obeys_from_spec() -> bool {
        true
    }

    open spec fn from_spec(v: u32) -> LogicPortPins {
        pins_from(|i: int| bit_of(v, i))
    }
}

impl From<u32> for LogicPortPins {
    /// Pin `i` is high when bit `i` is set.
    fn from(v: u32) -> (r: Self) {
        let mut levels = [Level::Low; 8];
        let mut i: u32 = 0;
        while i < 8
            invariant
                i <= 8,
                forall|k: int| 0 <= k < i ==> levels@[k] == level_of(bit_of(v, k)),
            decreases 8 - i,
        {
            proof {
                lemma_u32_shr_is_div(v, i);
                let shifted = v >> i;
                assert(shifted & 1 == shifted % 2) by (bit_vector);
            }
            levels[i as usize] = if (v >> i) & 1 == 1 { Level::High } else { Level::Low };
            i = i + 1;
        }
        let r = LogicPortPins { levels };
        proof {
            assert(r.levels =~= pins_from(|i: int| bit_of(v, i)).levels);
        }
        r
    }
}

/// Whether the device under test is powered.
#[derive(Clone, Copy, Debug, PartialEq, Eq, Structural)]
pub enum DevicePower {
    /// The device under test has no power.
    Disabled,
    /// The device under test is powered.
    Enabled,
}

/// What the kit is used as.
#[derive(Clone, Copy, Debug, PartialEq, Eq, Structural)]
pub enum MeasurementMode {
    /// The kit measures the current of a device that has its own supply.
    Ampere,
    /// The kit supplies the device.
    Source,
}

/// Lowest voltage of the kit's own source, in millivolts.
pub const VDD_MIN: u16 = 800;

/// Highest voltage of the kit's own source, in millivolts.
pub const VDD_MAX: u16 = 5000;

/// Voltage of the kit's own source.
#[derive(Clone, Copy, Debug, PartialEq, Eq, Structural)]
pub struct SourceVoltage {
    /// The voltage in millivolts.
    pub millivolts: u16,
}

impl SourceVoltage {
    /// A voltage given in millivolts.
    pub fn from_millivolts(millivolts: u16) -> (r: Self)
        ensures
            r.millivolts == millivolts,
    {
        SourceVoltage { millivolts }
    }

    /// The voltage that the kit can give.
    pub open spec fn limited(self) -> u16 {
        if self.millivolts < VDD_MIN {
            VDD_MIN
        } else if self.millivolts > VDD_MAX {
            VDD_MAX
        } else {
            self.millivolts
        }
    }

    /// The voltage as the kit takes it: millivolts with the high byte first.
    /// A voltage that the kit cannot give is replaced by the nearest it can.
    pub fn raw(&self) -> (r: (u8, u8))
        ensures
            r.0 == self.limited() / 256,
            r.1 == self.limited() % 256,
    {
        let limited: u16 = if self.millivolts < VDD_MIN {
            VDD_MIN
        } else if self.millivolts > VDD_MAX {
            VDD_MAX
        } else {
            self.millivolts
        };
        ((limited / 256) as u8, (limited % 256) as u8)
    }
}

} // verus!
