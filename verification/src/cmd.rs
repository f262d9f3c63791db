//! The commands that the device takes, how they are written, and when a response to
//! one is complete.

use vstd::prelude::*;

use crate::types::{DevicePower, MeasurementMode, SourceVoltage};

verus! {

/// Length of the text that answers [`Command::GetMetaData`], as far as it is known
/// beforehand.
pub const METADATA_RESPONSE_LEN: usize = 512;

/// A command to the device.
#[derive(Clone, Copy, Debug, PartialEq, Eq, Structural)]
pub enum Command {
    /// Start streaming measurements.
    AverageStart,
    /// Stop streaming measurements.
    AverageStop,
    /// Switch the power of the device under test.
    DeviceRunningSet(DevicePower),
    /// Set the source voltage.
    RegulatorSet(SourceVoltage),
    /// Choose what the kit is used as.
    SetPowerMode(MeasurementMode),
    /// Ask for the metadata, the one command that is answered.
    GetMetaData,
    /// Reset the kit.
    Reset,
}

/// Whether a text ends in the line that closes the metadata, `END`.
pub open spec fn ends_metadata(response: Seq<u8>) -> bool {
    &&& response.len() >= 4
    &&& response.skip(response.len() - 4) == seq![0x45u8, 0x4e, 0x44, 0x0a]
}

impl Command {
    /// How many bytes the device answers with.
    pub open spec fn response_len(self) -> usize {
        if self == Command::GetMetaData {
            METADATA_RESPONSE_LEN
        } else {
            0
        }
    }

    /// Whether nothing more has to be read once `response` has arrived.
    pub open spec fn complete(self, response: Seq<u8>) -> bool {
        if self == Command::GetMetaData {
            ends_metadata(response)
        } else {
            self.response_len() >= response.len()
        }
    }

    /// The bytes of the command: its opcode, and what it sets.
    pub open spec fn encoded(self) -> Seq<u8> {
        match self {
            Command::AverageStart => seq![0x06u8],
            Command::AverageStop => seq![0x07u8],
            Command::DeviceRunningSet(power) => seq![
                0x0cu8,
                if power == DevicePower::Enabled {
                    1
                } else {
                    0
                },
            ],
            Command::RegulatorSet(vdd) => seq![
                0x0du8,
                (vdd.limited() / 256) as u8,
                (vdd.limited() % 256) as u8,
            ],
            Command::SetPowerMode(mode) => seq![
                0x11u8,
                if mode == MeasurementMode::Ampere {
                    1
                } else {
                    2
                },
            ],
            Command::GetMetaData => seq![0x19u8],
            Command::Reset => seq![0x20u8],
        }
    }

    /// The bytes of the command.
    pub fn bytes(&self) -> (r: Vec<u8>)
        ensures
            r@ == self.encoded(),
    {
        match *self {
            Command::AverageStart => vec![0x06],
            Command::AverageStop => vec![0x07],
            Command::DeviceRunningSet(power) => match power {
                DevicePower::Disabled => vec![0x0c, 0],
                DevicePower::Enabled => vec![0x0c, 1],
            },
            Command::RegulatorSet(vdd) => {
                let (high, low) = vdd.raw();
                vec![0x0d, high, low]
            },
            Command::SetPowerMode(mode) => match mode {
                MeasurementMode::Ampere => vec![0x11, 1],
                MeasurementMode::Source => vec![0x11, 2],
            },
            Command::GetMetaData => vec![0x19],
            Command::Reset => vec![0x20],
        }
    }

    /// How many bytes the device answers with; zero where it does not answer.
    pub fn expected_response_len(&self) -> (r: usize)
        ensures
            r == self.response_len(),
    {
        if *self == Command::GetMetaData {
            METADATA_RESPONSE_LEN
        } else {
            0
        }
    }

    /// Whether nothing more has to be read once `response` has arrived. The metadata
    /// is a text that ends in the line `END`. No other command is answered.
    pub fn response_complete(&self, response: &[u8]) -> (r: bool)
        ensures
            r == self.complete(response@),
    {
        if *self == Command::GetMetaData {
            let n: usize = response.len();
            if n < 4 {
                return false;
            }
            let r = response[n - 4] == 0x45 && response[n - 3] == 0x4e && response[n - 2] == 0x44
                && response[n - 1] == 0x0a;
            proof {
                let tail = response@.skip(n - 4);
                let end = seq![0x45u8, 0x4e, 0x44, 0x0a];
                if r {
                    assert(tail =~= end);
                } else {
                    assert(tail[0] == response@[n - 4]);
                    assert(tail[1] == response@[n - 3]);
                    assert(tail[2] == response@[n - 2]);
                    assert(tail[3] == response@[n - 1]);
                    assert(end[0] == 0x45 && end[1] == 0x4e && end[2] == 0x44 && end[3] == 0x0a);
                }
            }
            r
        } else {
            self.expected_response_len() >= response.len()
        }
    }
}

/// A command that was written, and what the device has answered so far.
pub struct Exchange {
    /// The command.
    pub command: Command,
    /// The bytes that arrived.
    pub response: Vec<u8>,
}

impl Exchange {
    /// Whether nothing more has to be read.
    pub open spec fn done(self) -> bool {
        self.command.complete(self.response@)
    }

    /// The exchange as `command` is written.
    pub fn new(command: Command) -> (r: Self)
        ensures
            r.command == command,
            r.response@ == Seq::<u8>::empty(),
    {
        let response = Vec::with_capacity(command.expected_response_len());
        Exchange { command, response }
    }

    /// Whether nothing more has to be read.
    pub fn is_done(&self) -> (r: bool)
        ensures
            r == self.done(),
    {
        self.command.response_complete(self.response.as_slice())
    }

    /// Take in bytes that were read.
    pub fn on_bytes(&mut self, bytes: &[u8])
        ensures
            final(self).command == old(self).command,
            final(self).response@ == old(self).response@ + bytes@,
    {
        self.response.extend_from_slice(bytes);
    }
}

/// Setting the source voltage takes three bytes, and switching the power takes two. Two
/// writers must not interleave within them.
pub proof fn law_length_of_commands_while_measuring(vdd: SourceVoltage, power: DevicePower)
    ensures
        Command::RegulatorSet(vdd).encoded().len() == 3,
        Command::DeviceRunningSet(power).encoded().len() == 2,
{
}

/// A command that is not answered is complete before anything is read, so that
/// writing it is the entire exchange.
pub proof fn law_unanswered_commands_read_nothing(command: Command)
    requires
        command.response_len() == 0,
    ensures
        command.complete(Seq::empty()),
        forall|exchange: Exchange|
            exchange.command == command && exchange.response@.len() == 0
                ==> #[trigger] exchange.done(),
{
}

/// Setting the source voltage and switching the power, the two commands that may be
/// issued while measurements are streaming, read nothing, so that they cannot take
/// bytes out of the stream.
pub proof fn law_commands_while_measuring_read_nothing(vdd: SourceVoltage, power: DevicePower)
    ensures
        Command::RegulatorSet(vdd).response_len() == 0,
        Command::RegulatorSet(vdd).complete(Seq::empty()),
        Command::DeviceRunningSet(power).response_len() == 0,
        Command::DeviceRunningSet(power).complete(Seq::empty()),
{
}

} // verus!
