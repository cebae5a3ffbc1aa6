//! The programmer on the USB bus: identification, requests, connection retries.
use vstd::prelude::*;

use crate::error::Error;
use crate::programmer::Programmer;

verus! {

pub const VID_EC: u16 = 0x16C0;

pub const PID_CLASSIC: u16 = 0x05DE;

pub const PID_PRO: u16 = 0x05E0;

pub const PID_MACH1: u16 = 0x05E1;

/// Attempts to find and open the device.  A programmer that was just powered down can
/// be off the bus for a moment.
pub const CONNECT_ATTEMPTS: u32 = 6;

pub const CONNECT_BACKOFF_MS: u64 = 150;

/// Time limit of a control transfer.
pub const TRANSFER_TIMEOUT_MS: u64 = 5000;

/// Pause after a control transfer that settles.
pub const SETTLE_MS: u64 = 25;

/// Pause after an abort.
pub const ABORT_MS: u64 = 100;

pub const EP_BULK_IN: u8 = 0x81;

pub const EP_BULK_OUT: u8 = 0x02;

/// The word the programmer is asked to echo.
pub const ECHO_WORD: u32 = 0x454D_4243;

/// Vendor requests of the programmer firmware.
#[derive(Debug, Clone, Copy, PartialEq, Eq, Structural)]
pub enum UsbReq {
    Abort,
    Echo,
    Version,
    SpiInit,
    SpiSsEnable,
    SpiSsDisable,
    SpiRdData,
    SpiWrData,
    SpiReadFlash,
    SpiWriteFlash,
    SqiSetup,
    SqiRdFlash,
    VccOn,
    VccOff,
    Vcc3v,
    Vcc5v,
    LogicStatus,
    LogicOff,
    Logic1v8,
    Logic3v3,
    LogicStart,
    PulseReset,
}

/// The programmer that a vendor and product id stand for.
pub open spec fn programmer_of(vid: u16, pid: u16) -> Option<Programmer> {
    if vid != VID_EC {
        None
    } else if pid == PID_CLASSIC {
        Some(Programmer::Classic)
    } else if pid == PID_PRO {
        Some(Programmer::Pro5)
    } else if pid == PID_MACH1 {
        Some(Programmer::Mach1)
    } else {
        None
    }
}

/// Recognises a programmer on the bus.
pub fn identify(vid: u16, pid: u16) -> (r: Option<Programmer>)
    ensures
        r == programmer_of(vid, pid),
{
    if vid != VID_EC {
        None
    } else if pid == PID_CLASSIC {
        Some(Programmer::Classic)
    } else if pid == PID_PRO {
        Some(Programmer::Pro5)
    } else if pid == PID_MACH1 {
        Some(Programmer::Mach1)
    } else {
        None
    }
}

/// The alternate setting that holds the bulk endpoints, where one must be selected.
pub fn bulk_alt_setting(kind: Programmer) -> (r: Option<u8>)
    ensures
        r == if kind.with_fpga() {
            Some(1u8)
        } else {
            None
        },
{
    if kind.has_fpga() {
        Some(1)
    } else {
        None
    }
}

/// What to do after the `failures`-th attempt failed.
#[derive(Debug, Clone, Copy, PartialEq, Eq, Structural)]
pub enum Retry {
    /// Wait this long, and try again.
    After(u64),
    /// Wait this long, and give up with the last error.
    GiveUpAfter(u64),
}

/// Decides whether to try once more: `limit` attempts in all, with a pause after each
/// failure.
pub fn retry_after_failure(failures: u32, limit: u32, pause_ms: u64) -> (r: Retry)
    ensures
        failures < limit ==> r == Retry::After(pause_ms),
        failures >= limit ==> r == Retry::GiveUpAfter(pause_ms),
{
    if failures < limit {
        Retry::After(pause_ms)
    } else {
        Retry::GiveUpAfter(pause_ms)
    }
}

/// The `value` and `index` words that carry a 32-bit request argument.
pub open spec fn request_words(data: u32) -> (u16, u16) {
    ((data as int / 0x1_0000) as u16, (data as int % 0x1_0000) as u16)
}

/// The `value` and `index` words that carry a 32-bit request argument.
pub fn setup_words(data: u32) -> (r: (u16, u16))
    ensures
        r.0 == data / 0x1_0000,
        r.1 == data % 0x1_0000,
        r == request_words(data),
{
    ((data / 0x1_0000) as u16, (data % 0x1_0000) as u16)
}

/// A request argument is recovered from its two setup words, so no two arguments share
/// their words.
pub proof fn law_setup_words_carry_the_argument(data: u32)
    ensures
        (data / 0x1_0000) * 0x1_0000 + data % 0x1_0000 == data,
        data / 0x1_0000 <= u16::MAX,
        data % 0x1_0000 <= u16::MAX,
{
}

/// `len` rounded up to whole packets of `packet` bytes.
pub fn packet_aligned(len: usize, packet: usize) -> (r: usize)
    requires
        packet > 0,
        len + packet <= usize::MAX,
    ensures
        r as int % packet as int == 0,
        len <= r < len + packet,
{
    let rest: usize = len % packet;
    if rest == 0 {
        len
    } else {
        proof {
            let q = len as int / packet as int;
            vstd::arithmetic::div_mod::lemma_fundamental_div_mod(len as int, packet as int);
            assert(len + (packet - rest) == packet * (q + 1)) by (nonlinear_arith)
                requires
                    len == packet * q + rest,
            ;
            vstd::arithmetic::div_mod::lemma_mod_multiples_basic(q + 1, packet as int);
            assert(packet * (q + 1) == (q + 1) * packet) by (nonlinear_arith);
        }
        len + (packet - rest)
    }
}

/// Checks the answer to an echo request: the word's bytes, most significant first.
pub fn check_echo(reply: &[u8]) -> (r: Result<(), Error>)
    ensures
        r == if reply@ == seq![0x45u8, 0x4D, 0x42, 0x43] {
            Ok::<(), Error>(())
        } else {
            Err(Error::EchoMismatch)
        },
{
    if reply.len() == 4 && reply[0] == 0x45 && reply[1] == 0x4D && reply[2] == 0x42 && reply[3]
        == 0x43 {
        assert(reply@ =~= seq![0x45u8, 0x4D, 0x42, 0x43]);
        Ok(())
    } else {
        Err(Error::EchoMismatch)
    }
}

/// The version text in a version reply: a board byte, then major, and two minor digits.
pub open spec fn version_text(reply: Seq<u8>) -> Seq<char> {
    seq![reply[1] as char, '.', reply[2] as char, reply[3] as char]
}

/// Decodes a version reply.
pub fn firmware_version(reply: &[u8]) -> (r: Result<String, Error>)
    ensures
        match r {
            Ok(s) => reply@.len() >= 4 && s@ == version_text(reply@),
            Err(e) => reply@.len() < 4 && e == Error::ShortVersion,
        },
{
    if reply.len() < 4 {
        return Err(Error::ShortVersion);
    }
    let mut s = String::new();
    s.push(reply[1] as char);
    s.push('.');
    s.push(reply[2] as char);
    s.push(reply[3] as char);
    assert(s@ =~= version_text(reply@));
    Ok(s)
}

/// The two words of a request argument carry all of it: the high half and the low half.
pub proof fn law_request_words_are_the_halves(data: u32)
    ensures
        ({
            let (value, index) = request_words(data);
            value * 0x1_0000 + index == data
        }),
{
}

/// A device is a programmer just where it has the vendor identifier and one of the three product
/// identifiers, which tell the variants apart.
pub proof fn law_programmer_is_known_by_its_identifiers(vid: u16, pid: u16)
    ensures
        programmer_of(vid, pid) is Some <==> vid == 0x16C0 && (pid == 0x05DE || pid == 0x05E0 || pid
            == 0x05E1),
        programmer_of(vid, pid) matches Some(kind) ==> (kind.with_fpga() <==> pid != 0x05DE) && (kind
            is Mach1 <==> pid == 0x05E1),
{
}

/// The version text has the three digits of the reply in order, with a point behind the first.
pub proof fn law_version_shows_the_digits_in_order(reply: Seq<u8>)
    requires
        reply.len() >= 4,
    ensures
        version_text(reply).len() == 4,
        version_text(reply)[0] as int == reply[1],
        version_text(reply)[1] == '.',
        version_text(reply)[2] as int == reply[2],
        version_text(reply)[3] as int == reply[3],
{
}

} // verus!
