//! Rules for the serial port: finding it, timing its reads, and judging what a read
//! returned.

use vstd::prelude::*;

use crate::clock::Nanos;
use crate::error::Error;

verus! {

/// USB vendor of the kit.
pub const PPK2_VID: u16 = 0x1915;

/// USB product of the kit.
pub const PPK2_PID: u16 = 0xc00a;

/// Size of the reusable USB read buffer for the measurement worker, in bytes.
pub const USB_READ_BUF_BYTES: usize = 4096;

/// Bytes requested per read while native read coalescing is active. It makes the
/// BYTE count the binding constraint, whatever the granularity of the timer that
/// governs the coalescing window.
pub const WIN_READ_LEN_BYTES: usize = 2048;

/// How long a read may block while the serial driver coalesces bytes into a single
/// read, in milliseconds.
pub const WIN_READ_COALESCE_MS: u32 = 5;

/// Read timeout used for the follow-up drain probe.
///
/// The probe asks whether anything was still buffered at the instant the read
/// returned. Any other value would ask whether anything arrives within that time,
/// and at the device's rate something nearly always does.
pub const PROBE_TIMEOUT: Nanos = 0;

/// USB identity of a port.
#[derive(Clone, Copy, Debug, PartialEq, Eq, Structural)]
pub struct UsbId {
    /// Vendor.
    pub vid: u16,
    /// Product.
    pub pid: u16,
}

/// A serial port of the host.
#[derive(Debug)]
pub struct PortInfo {
    /// The name under which it is opened.
    pub port_name: String,
    /// Its USB identity, if it is a USB port.
    pub usb: Option<UsbId>,
}

/// Whether a port is the kit's.
pub open spec fn is_ppk2(port: PortInfo) -> bool {
    port.usb == Some(UsbId { vid: PPK2_VID, pid: PPK2_PID })
}

/// Try to find the serial port the kit is connected to: the first of `ports` that
/// is a USB port of the kit.
pub fn try_find_ppk2_port(ports: &Vec<PortInfo>) -> (r: Result<String, Error>)
    ensures
        r matches Err(e) ==> e is Ppk2NotFound,
        r is Err <==> forall|i: int| 0 <= i < ports@.len() ==> !is_ppk2(#[trigger] ports@[i]),
        r matches Ok(name) ==> exists|i: int|
            #![trigger ports@[i]]
            {
                &&& 0 <= i < ports@.len()
                &&& is_ppk2(ports@[i])
                &&& forall|k: int| 0 <= k < i ==> !is_ppk2(#[trigger] ports@[k])
                &&& name@ == ports@[i].port_name@
            },
{
    let mut i: usize = 0;
    while i < ports.len()
        invariant
            i <= ports@.len(),
            forall|k: int| 0 <= k < i ==> !is_ppk2(#[trigger] ports@[k]),
        decreases ports@.len() - i,
    {
        if let Some(usb) = ports[i].usb {
            if usb.vid == PPK2_VID && usb.pid == PPK2_PID {
                assert(is_ppk2(ports@[i as int]));
                return Ok(ports[i].port_name.clone());
            }
        }
        i = i + 1;
    }
    Err(Error::Ppk2NotFound)
}

/// Why a read failed, as far as it makes a difference.
#[derive(Clone, Copy, Debug, PartialEq, Eq, Structural)]
pub enum ReadFault {
    /// The timeout ran out.
    TimedOut,
    /// Nothing could be read without blocking.
    WouldBlock,
    /// A signal interrupted the read.
    Interrupted,
    /// Anything else: the port is broken.
    Other,
}

/// Whether a failed read means "nothing was waiting" rather than "the port is
/// broken".
///
/// All three kinds mean the same thing here: the read consumed nothing and the
/// caller may simply go round again. `TimedOut` in particular is ROUTINE, not
/// exceptional.
pub fn is_empty_read(fault: &ReadFault) -> (r: bool)
    ensures
        r == (*fault != ReadFault::Other),
{
    match *fault {
        ReadFault::TimedOut => true,
        ReadFault::WouldBlock => true,
        ReadFault::Interrupted => true,
        ReadFault::Other => false,
    }
}

/// What a drain probe came to, with the bytes it read and the first thing that went
/// wrong. Both may be meaningful at once.
pub struct ProbeOutcome<E> {
    /// Bytes that the probe read.
    pub filled: usize,
    /// What went wrong first, if anything did.
    pub error: Option<E>,
}

/// What the read of a drain probe came to.
pub enum ProbeRead<E> {
    /// The timeout could not be shortened, so nothing was read.
    NotReady(E),
    /// The read returned this many bytes.
    Filled(usize),
    /// The read failed.
    Failed(ReadFault, E),
}

/// What a drain probe came to. "Nothing was waiting" is its SUCCESS case: the
/// preceding read drained the port. An error in restoring the timeout is reported
/// where nothing else went wrong, and the bytes are still the caller's to keep.
pub fn probe_outcome<E>(read: ProbeRead<E>, restore_error: Option<E>) -> (r: ProbeOutcome<E>)
    ensures
        r.filled == (match read {
            ProbeRead::Filled(n) => n,
            _ => 0,
        }),
        r.error == (match read {
            ProbeRead::NotReady(e) => Some(e),
            ProbeRead::Failed(ReadFault::Other, e) => Some(e),
            _ => restore_error,
        }),
{
    match read {
        ProbeRead::NotReady(e) => ProbeOutcome { filled: 0, error: Some(e) },
        ProbeRead::Filled(n) => ProbeOutcome { filled: n, error: restore_error },
        ProbeRead::Failed(fault, e) => if is_empty_read(&fault) {
            ProbeOutcome { filled: 0, error: restore_error }
        } else {
            ProbeOutcome { filled: 0, error: Some(e) }
        },
    }
}

/// How many bytes to ask for per read. Where the driver coalesces, asking for
/// exactly the batch that is wanted makes the byte count the binding constraint.
pub fn read_len(native_read_coalescing: bool) -> (r: usize)
    ensures
        r == (if native_read_coalescing {
            WIN_READ_LEN_BYTES
        } else {
            USB_READ_BUF_BYTES
        }),
        0 < r <= USB_READ_BUF_BYTES,
{
    if native_read_coalescing {
        WIN_READ_LEN_BYTES
    } else {
        USB_READ_BUF_BYTES
    }
}

/// Timeouts of a serial port as Windows keeps them, in milliseconds.
#[derive(Clone, Copy, Debug, PartialEq, Eq, Structural)]
pub struct CommTimeouts {
    /// Longest pause between two bytes of a read; zero for none.
    pub read_interval_timeout: u32,
    /// Read time allowed per byte.
    pub read_total_timeout_multiplier: u32,
    /// Read time allowed in any case.
    pub read_total_timeout_constant: u32,
    /// Write time allowed per byte.
    pub write_total_timeout_multiplier: u32,
    /// Write time allowed in any case.
    pub write_total_timeout_constant: u32,
}

/// Timeouts for read coalescing: a read completes when the caller's buffer is full or
/// `coalesce_ms` have passed. Writes keep `write_timeout_ms`.
pub fn coalescing_timeouts(coalesce_ms: u32, write_timeout_ms: u32) -> (r: CommTimeouts)
    ensures
        r.read_interval_timeout == 0,
        r.read_total_timeout_multiplier == 0,
        r.read_total_timeout_constant == coalesce_ms,
        r.write_total_timeout_multiplier == 0,
        r.write_total_timeout_constant == write_timeout_ms,
{
    CommTimeouts {
        read_interval_timeout: 0,
        read_total_timeout_multiplier: 0,
        read_total_timeout_constant: coalesce_ms,
        write_total_timeout_multiplier: 0,
        write_total_timeout_constant: write_timeout_ms,
    }
}

/// Timeouts with which a read returns IMMEDIATELY with whatever is already buffered,
/// even if that is nothing. Writes keep `write_timeout_ms`.
pub fn immediate_timeouts(write_timeout_ms: u32) -> (r: CommTimeouts)
    ensures
        r.read_interval_timeout == u32::MAX,
        r.read_total_timeout_multiplier == 0,
        r.read_total_timeout_constant == 0,
        r.write_total_timeout_multiplier == 0,
        r.write_total_timeout_constant == write_timeout_ms,
{
    CommTimeouts {
        read_interval_timeout: u32::MAX,
        read_total_timeout_multiplier: 0,
        read_total_timeout_constant: 0,
        write_total_timeout_multiplier: 0,
        write_total_timeout_constant: write_timeout_ms,
    }
}

/// A timeout in whole milliseconds, saturating at [`u32::MAX`].
pub fn timeout_millis(timeout: Nanos) -> (r: u32)
    ensures
        r == (if timeout / 1_000_000 <= u32::MAX {
            (timeout / 1_000_000) as u32
        } else {
            u32::MAX
        }),
{
    let millis: u128 = timeout / 1_000_000;
    if millis <= u32::MAX as u128 {
        millis as u32
    } else {
        u32::MAX
    }
}

} // verus!
