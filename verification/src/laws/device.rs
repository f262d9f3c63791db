//! What commands look like, which port is the kit's, and which step follows which.

use vstd::prelude::*;

use crate::clock::MonoNanos;
use crate::cmd::{ends_metadata, Command, Exchange};
use crate::port::{
    is_ppk2, PortInfo, UsbId, PROBE_TIMEOUT, USB_READ_BUF_BYTES, WIN_READ_COALESCE_MS,
    WIN_READ_LEN_BYTES,
};
use crate::session::{
    OpenStep, Opening, StartStep, Starting, StepOutcome, StopStep, BAUD_RATE, DRAIN_BUF_BYTES,
    DRAIN_TIMEOUT, DRAIN_WINDOW, METADATA_ATTEMPTS, PORT_TIMEOUT, SETTLE_TIME,
};
use crate::stream::{
    DEAD_STREAM_EMPTY_READS, DEAD_STREAM_MIN_SILENCE, RAW_SAMPLE_PERIOD, RING_CAPACITY_SAMPLES,
    SEAM_MAX_OVERLAP, STALL_GUARD,
};
use crate::types::{DevicePower, MeasurementMode, SourceVoltage};
use crate::SPS_MAX;

verus! {

/// The source voltage is written in millivolts, as two bytes behind an opcode, with the high
/// one first. One that the kit can give is written as it is. Others are written as the
/// nearest that it can.
pub proof fn law_voltage_is_written_in_millivolts(vdd: SourceVoltage)
    ensures
        ({
            let bytes = Command::RegulatorSet(vdd).encoded();
            let written = 256 * bytes[1] + bytes[2];
            &&& bytes.len() == 3
            &&& bytes[0] == 0x0d
            &&& 800 <= vdd.millivolts <= 5000 ==> written == vdd.millivolts
            &&& vdd.millivolts < 800 ==> written == 800
            &&& vdd.millivolts > 5000 ==> written == 5000
            &&& written == vdd.limited()
        }),
{
}

/// Different commands are written differently, but for voltages that the kit cannot give.
pub proof fn law_commands_are_told_apart(one: Command, other: Command)
    requires
        one != other,
        one matches Command::RegulatorSet(vdd) ==> 800 <= vdd.millivolts <= 5000,
        other matches Command::RegulatorSet(vdd) ==> 800 <= vdd.millivolts <= 5000,
    ensures
        one.encoded() != other.encoded(),
{
    if one is RegulatorSet && other is RegulatorSet {
        law_voltage_is_written_in_millivolts(one->RegulatorSet_0);
        law_voltage_is_written_in_millivolts(other->RegulatorSet_0);
    } else {
        let (a, b) = (one.encoded(), other.encoded());
        assert(a[0] != b[0] || a[1] != b[1]);
    }
}

/// Each command has its own opcode, and what it sets behind it.
pub proof fn law_commands_start_with_their_opcode()
    ensures
        Command::AverageStart.encoded() == seq![0x06u8],
        Command::AverageStop.encoded() == seq![0x07u8],
        Command::GetMetaData.encoded() == seq![0x19u8],
        Command::Reset.encoded() == seq![0x20u8],
        Command::DeviceRunningSet(DevicePower::Disabled).encoded() == seq![0x0cu8, 0],
        Command::DeviceRunningSet(DevicePower::Enabled).encoded() == seq![0x0cu8, 1],
        Command::SetPowerMode(MeasurementMode::Ampere).encoded() == seq![0x11u8, 1],
        Command::SetPowerMode(MeasurementMode::Source).encoded() == seq![0x11u8, 2],
{
}

/// The metadata is complete exactly when the last four bytes are those of `END` and the end
/// of its line, whatever stands before them.
pub proof fn law_metadata_ends_with_its_last_line(text: Seq<u8>, a: u8, b: u8, c: u8, d: u8)
    ensures
        Command::GetMetaData.complete(text.push(a).push(b).push(c).push(d)) <==> a == 69 && b == 78
            && c == 68 && d == 10,
        text.len() < 4 ==> !Command::GetMetaData.complete(text),
        ends_metadata(text) == Command::GetMetaData.complete(text),
        Command::GetMetaData.response_len() == 512,
{
    let all = text.push(a).push(b).push(c).push(d);
    let tail = all.skip(all.len() - 4);
    assert(tail =~= seq![a, b, c, d]);
    let end = seq![0x45u8, 0x4e, 0x44, 0x0a];
    assert(end[0] == 69 && end[1] == 78 && end[2] == 68 && end[3] == 10);
    if tail == end {
        assert(tail[0] == a && tail[1] == b && tail[2] == c && tail[3] == d);
    }
}

/// Every other command is complete as long as nothing has arrived, and expects nothing.
pub proof fn law_other_commands_are_not_answered(command: Command, response: Seq<u8>)
    requires
        command != Command::GetMetaData,
    ensures
        command.response_len() == 0,
        command.complete(response) <==> response.len() == 0,
{
}

/// An exchange is done when what has arrived completes its command.
pub proof fn law_exchange_is_done_when_complete(exchange: Exchange)
    ensures
        exchange.done() == exchange.command.complete(exchange.response@),
{
}

/// A port is the kit's exactly if it is a USB port with both of its numbers.
pub proof fn law_kit_is_known_by_both_numbers(port: PortInfo, vid: u16, pid: u16)
    ensures
        port.usb is None ==> !is_ppk2(port),
        port.usb == Some(UsbId { vid, pid }) ==> (is_ppk2(port) <==> vid == 0x1915 && pid
            == 0xc00a),
{
}

/// Opening fails exactly at the port itself, the metadata and the mode. Any other step leads
/// on to the one behind it, whatever it came to, and what is over stays over.
pub proof fn law_opening_goes_on_unless_essential(
    opening: Opening,
    outcome: StepOutcome,
    now: MonoNanos,
)
    ensures
        ({
            let next = opening.after(outcome, now).step;
            let failed = outcome == StepOutcome::Failed;
            match opening.step {
                OpenStep::OpenPort => next == (if failed {
                    OpenStep::Aborted
                } else {
                    OpenStep::ClearBuffers
                }),
                OpenStep::ClearBuffers => next == OpenStep::RaiseDtr,
                OpenStep::RaiseDtr => next == OpenStep::StopAveraging,
                OpenStep::StopAveraging => next == OpenStep::Settle,
                OpenStep::Settle => next == OpenStep::ShortenTimeout,
                OpenStep::ShortenTimeout => next == OpenStep::Drain,
                OpenStep::Drain => next == OpenStep::Drain || next == OpenStep::RestoreTimeout,
                OpenStep::RestoreTimeout => next == OpenStep::FetchMetadata,
                OpenStep::FetchMetadata => next == (if failed {
                    OpenStep::Aborted
                } else {
                    OpenStep::SetPowerMode
                }),
                OpenStep::SetPowerMode => next == (if failed {
                    OpenStep::Aborted
                } else {
                    OpenStep::Ready
                }),
                OpenStep::Ready => next == OpenStep::Ready,
                OpenStep::Aborted => next == OpenStep::Aborted,
            }
        }),
{
}

/// Draining goes on behind every read that brought bytes before the deadline, and behind no
/// other. Half a second is set for it where it begins. What it reads is counted, and nothing
/// else is.
pub proof fn law_draining_takes_half_a_second(
    opening: Opening,
    outcome: StepOutcome,
    now: MonoNanos,
)
    requires
        now + 500_000_000 <= u128::MAX,
        outcome matches StepOutcome::Read(n) ==> opening.drained + n <= usize::MAX,
    ensures
        ({
            let next = opening.after(outcome, now);
            let brought: int = match outcome {
                StepOutcome::Read(n) => n as int,
                _ => 0,
            };
            &&& opening.step == OpenStep::Drain ==> {
                &&& next.step == OpenStep::Drain <==> brought > 0 && now < opening.drain_deadline
                &&& next.drained == opening.drained + brought
                &&& next.drain_deadline == opening.drain_deadline
            }
            &&& opening.step != OpenStep::Drain ==> next.drained == opening.drained
            &&& opening.step == OpenStep::ShortenTimeout ==> next.drain_deadline == now
                + 500_000_000
            &&& opening.step != OpenStep::ShortenTimeout ==> next.drain_deadline
                == opening.drain_deadline
        }),
{
}

/// Starting fails exactly at the port's handle, the input buffer and the stream. Whether the
/// driver batches reads is remembered, and does not matter otherwise.
pub proof fn law_starting_goes_on_unless_essential(starting: Starting, succeeded: bool)
    ensures
        ({
            let next = starting.after(succeeded);
            &&& match starting.step {
                StartStep::ClonePort => next.step == (if succeeded {
                    StartStep::CoalesceReads
                } else {
                    StartStep::Aborted
                }),
                StartStep::CoalesceReads => next.step == StartStep::SpawnWorker,
                StartStep::SpawnWorker => next.step == StartStep::ClearInput,
                StartStep::ClearInput => next.step == (if succeeded {
                    StartStep::ReleaseWorker
                } else {
                    StartStep::Aborted
                }),
                StartStep::ReleaseWorker => next.step == StartStep::StartAveraging,
                StartStep::StartAveraging => next.step == (if succeeded {
                    StartStep::Running
                } else {
                    StartStep::Aborted
                }),
                StartStep::Running => next.step == StartStep::Running,
                StartStep::Aborted => next.step == StartStep::Aborted,
            }
            &&& starting.step == StartStep::CoalesceReads ==> next.native_read_coalescing
                == succeeded
            &&& starting.step != StartStep::CoalesceReads ==> next.native_read_coalescing
                == starting.native_read_coalescing
        }),
{
}

/// Stopping goes from the signal over the worker's end to the device, which is told to stop
/// streaming before it is handed back. The port's timeouts are restored on the way exactly if
/// the driver was made to batch reads.
pub proof fn law_stopping_leads_to_the_device(native_read_coalescing: bool)
    ensures
        StopStep::SignalWorker.after(native_read_coalescing) == StopStep::JoinWorker,
        native_read_coalescing ==> StopStep::JoinWorker.after(native_read_coalescing)
            == StopStep::RestoreTimeouts,
        !native_read_coalescing ==> StopStep::JoinWorker.after(native_read_coalescing)
            == StopStep::StopAveraging,
        StopStep::RestoreTimeouts.after(native_read_coalescing) == StopStep::StopAveraging,
        StopStep::StopAveraging.after(native_read_coalescing) == StopStep::ReturnDevice,
        StopStep::ReturnDevice.after(native_read_coalescing) == StopStep::ReturnDevice,
{
}

/// The times that opening takes, in nanoseconds, and what the port is asked for.
pub proof fn law_port_is_asked_for_what_the_kit_needs()
    ensures
        BAUD_RATE == 9600,
        PORT_TIMEOUT == 500 * 1_000_000,
        SETTLE_TIME == 50 * 1_000_000,
        DRAIN_TIMEOUT == 20 * 1_000_000,
        DRAIN_WINDOW == PORT_TIMEOUT,
        DRAIN_BUF_BYTES == 256,
        METADATA_ATTEMPTS == 3,
        PROBE_TIMEOUT == 0,
        USB_READ_BUF_BYTES == 4 * 1024,
        2 * WIN_READ_LEN_BYTES == USB_READ_BUF_BYTES,
        WIN_READ_COALESCE_MS == 5,
{
}

/// The sizes and spans of the timebase fit each other: a hundred thousand samples are a
/// second, which is what the ring holds, how long a gap may be, and how far a block may
/// reach back. Ten empty reads of a port are its dead time.
pub proof fn law_timebase_fits_together()
    ensures
        SPS_MAX == 100_000,
        RING_CAPACITY_SAMPLES == SPS_MAX,
        RAW_SAMPLE_PERIOD * SPS_MAX == 1_000_000_000,
        STALL_GUARD == 1_000_000_000,
        SEAM_MAX_OVERLAP == STALL_GUARD,
        DEAD_STREAM_EMPTY_READS == 10,
        DEAD_STREAM_MIN_SILENCE == DEAD_STREAM_EMPTY_READS * PORT_TIMEOUT,
{
}

} // verus!
