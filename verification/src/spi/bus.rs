//! SPI bus primitives: addresses, status polling, deep power-down.
use vstd::prelude::*;

use crate::error::Error;
use crate::host::{arm, command, push_command, push_op, script_of, HostOp, OpModel};
use crate::usb::UsbReq;

verus! {

pub const CMD_DEEP_POWER_DOWN: u8 = 0xB9;

pub const CMD_READ_STATUS: u8 = 0x05;

pub const CMD_WRITE_ENABLE: u8 = 0x06;

pub const STATUS_WIP: u8 = 0x01;

pub const DEEP_POWER_DOWN_ENTRY_MS: u64 = 1;

pub const DEEP_POWER_DOWN_POLL_MS: u64 = 5;

pub const DEEP_POWER_DOWN_POLLS: u64 = 20;

/// Whether the bit of the given weight is set in a register.
pub open spec fn bit_set(reg: u8, weight: u8) -> bool {
    (reg as int / weight as int) % 2 == 1
}

/// Whether the bit of the given weight is set in a register.
pub fn has_bit(reg: u8, weight: u8) -> (r: bool)
    requires
        weight > 0,
    ensures
        r == bit_set(reg, weight),
{
    (reg / weight) % 2 == 1
}

/// Byte `k` of a word, counted from the least significant.
pub open spec fn byte_of(word: u32, k: nat) -> u8 {
    ((if k == 0 {
        word as int
    } else if k == 1 {
        word as int / 0x100
    } else if k == 2 {
        word as int / 0x1_0000
    } else {
        word as int / 0x100_0000
    }) % 0x100) as u8
}

/// A word as four bytes, most significant first.
pub open spec fn be4(word: u32) -> Seq<u8> {
    seq![byte_of(word, 3), byte_of(word, 2), byte_of(word, 1), byte_of(word, 0)]
}

/// The low three bytes of a word, most significant first.
pub open spec fn be3(word: u32) -> Seq<u8> {
    seq![byte_of(word, 2), byte_of(word, 1), byte_of(word, 0)]
}

/// An address as a chip takes it: four bytes where it has 4-byte addresses, else three.
pub open spec fn address_bytes(addr_bytes: u8, addr: u32) -> Seq<u8> {
    if addr_bytes == 4 {
        be4(addr)
    } else {
        be3(addr)
    }
}

/// The number that bytes spell, most significant first.
pub open spec fn be_value(bytes: Seq<u8>) -> int
    decreases bytes.len(),
{
    if bytes.len() == 0 {
        0
    } else {
        be_value(bytes.drop_last()) * 0x100 + bytes.last()
    }
}

/// Four address bytes spell the address; three spell it modulo 16 MiB, hence exactly for
/// every address a 3-byte chip has.
pub proof fn law_address_bytes_spell_the_address(addr_bytes: u8, addr: u32)
    ensures
        be_value(address_bytes(addr_bytes, addr)) == if addr_bytes == 4 {
            addr as int
        } else {
            addr as int % 0x100_0000
        },
{
    reveal_with_fuel(be_value, 5);
    if addr_bytes == 4 {
        let s = be4(addr);
        assert(s.drop_last() =~= seq![byte_of(addr, 3), byte_of(addr, 2), byte_of(addr, 1)]);
        assert(s.drop_last().drop_last() =~= seq![byte_of(addr, 3), byte_of(addr, 2)]);
        assert(s.drop_last().drop_last().drop_last() =~= seq![byte_of(addr, 3)]);
    } else {
        let s = be3(addr);
        assert(s.drop_last() =~= seq![byte_of(addr, 2), byte_of(addr, 1)]);
        assert(s.drop_last().drop_last() =~= seq![byte_of(addr, 2)]);
    }
}

/// Byte `k` of a word, counted from the least significant.
pub fn word_byte(word: u32, k: u32) -> (b: u8)
    requires
        k < 4,
    ensures
        b == byte_of(word, k as nat),
{
    let shifted: u32 = if k == 0 {
        word
    } else if k == 1 {
        word / 0x100
    } else if k == 2 {
        word / 0x1_0000
    } else {
        word / 0x100_0000
    };
    (shifted % 0x100) as u8
}

/// Appends an address as a chip takes it.
pub fn push_address(out: &mut Vec<u8>, addr_bytes: u8, addr: u32)
    ensures
        final(out)@ == old(out)@ + address_bytes(addr_bytes, addr),
{
    if addr_bytes == 4 {
        out.push(word_byte(addr, 3));
    }
    out.push(word_byte(addr, 2));
    out.push(word_byte(addr, 1));
    out.push(word_byte(addr, 0));
    assert(out@ =~= old(out)@ + address_bytes(addr_bytes, addr));
}

/// An opcode followed by an address.
pub fn address_command(opcode: u8, addr_bytes: u8, addr: u32) -> (tx: Vec<u8>)
    ensures
        tx@ == seq![opcode] + address_bytes(addr_bytes, addr),
{
    let mut tx: Vec<u8> = Vec::new();
    tx.push(opcode);
    push_address(&mut tx, addr_bytes, addr);
    assert(tx@ =~= seq![opcode] + address_bytes(addr_bytes, addr));
    tx
}

/// The script that sends bytes to a selected chip.
pub open spec fn send_script(data: Seq<u8>) -> Seq<OpModel> {
    seq![arm(UsbReq::SpiWrData, data.len() as u32), OpModel::BulkOut { bytes: data }]
}

/// The script that receives bytes from a selected chip.
pub open spec fn fetch_script(len: u32) -> Seq<OpModel> {
    seq![arm(UsbReq::SpiRdData, len), OpModel::BulkIn { len }]
}

/// The script that sends bytes to a selected chip: the length is announced, then the bytes
/// follow without delay.
pub fn spibus_write(data: Vec<u8>) -> (script: Vec<HostOp>)
    requires
        data@.len() <= u32::MAX,
    ensures
        script_of(script@) == send_script(data@),
{
    let mut script: Vec<HostOp> = Vec::new();
    let payload: Vec<u8> = Vec::new();
    push_op(
        &mut script,
        HostOp::Control {
            req: UsbReq::SpiWrData,
            data: data.len() as u32,
            payload,
            settle: false,
        },
    );
    push_op(&mut script, HostOp::BulkOut { bytes: data });
    assert(script_of(script@) =~~= send_script(data@));
    script
}

/// The script that receives bytes from a selected chip.
pub fn spibus_read(len: u32) -> (script: Vec<HostOp>)
    ensures
        script_of(script@) == fetch_script(len),
{
    let mut script: Vec<HostOp> = Vec::new();
    let payload: Vec<u8> = Vec::new();
    push_op(
        &mut script,
        HostOp::Control { req: UsbReq::SpiRdData, data: len, payload, settle: false },
    );
    push_op(&mut script, HostOp::BulkIn { len });
    assert(script_of(script@) =~~= fetch_script(len));
    script
}

/// The script that selects the chip.
pub fn ss_enable() -> (script: Vec<HostOp>)
    ensures
        script_of(script@) == seq![command(UsbReq::SpiSsEnable, 0)],
{
    let mut script: Vec<HostOp> = Vec::new();
    push_command(&mut script, UsbReq::SpiSsEnable, 0);
    assert(script_of(script@) =~= seq![command(UsbReq::SpiSsEnable, 0)]);
    script
}

/// The script that releases the chip.
pub fn ss_disable() -> (script: Vec<HostOp>)
    ensures
        script_of(script@) == seq![command(UsbReq::SpiSsDisable, 0)],
{
    let mut script: Vec<HostOp> = Vec::new();
    push_command(&mut script, UsbReq::SpiSsDisable, 0);
    assert(script_of(script@) =~= seq![command(UsbReq::SpiSsDisable, 0)]);
    script
}

/// The one-byte deep power-down command.
pub fn deep_power_down_packet() -> (r: [u8; 1])
    ensures
        r@ == seq![CMD_DEEP_POWER_DOWN],
{
    let r: [u8; 1] = [CMD_DEEP_POWER_DOWN];
    assert(r@ =~= seq![CMD_DEEP_POWER_DOWN]);
    r
}

/// What a status reply says; an empty reply counts as busy.
pub open spec fn status_busy(reply: Seq<u8>) -> bool {
    reply.len() == 0 || reply[0] & STATUS_WIP != 0
}

/// Whether a status reply says that the chip is busy.
pub fn is_busy(reply: &[u8]) -> (r: bool)
    ensures
        r == status_busy(reply@),
{
    reply.len() == 0 || reply[0] & STATUS_WIP != 0
}

/// What a poller does next.
#[derive(Debug, Clone, Copy, PartialEq, Eq, Structural)]
pub enum PollNext {
    /// Wait the interval, then read the status register.
    Poll,
    Ready,
    TimedOut,
}

/// Polls the status register until the chip is ready, a bounded number of times.
#[derive(Debug, Clone, Copy, PartialEq, Eq, Structural)]
pub struct WipPoll {
    pub max_polls: u64,
    /// Polls made so far.
    pub polls: u64,
}

impl WipPoll {
    pub open spec fn wf(self) -> bool {
        self.polls <= self.max_polls
    }

    /// The decision after `polls` polls, the last of which gave `reply`.
    pub open spec fn decision(self, reply: Option<Seq<u8>>) -> PollNext {
        if reply matches Some(r) && !status_busy(r) {
            PollNext::Ready
        } else if self.polls < self.max_polls {
            PollNext::Poll
        } else {
            PollNext::TimedOut
        }
    }

    /// A poller that makes at most `max_polls` polls.
    pub fn new(max_polls: u64) -> (p: WipPoll)
        ensures
            p == (WipPoll { max_polls, polls: 0 }),
            p.wf(),
    {
        WipPoll { max_polls, polls: 0 }
    }

    /// Takes the reply to the last poll (`None` before the first) and decides what to do
    /// next.
    pub fn step(&mut self, reply: Option<&[u8]>) -> (next: PollNext)
        requires
            old(self).wf(),
        ensures
            final(self).wf(),
            final(self).max_polls == old(self).max_polls,
            next == old(self).decision(
                match reply {
                    Some(r) => Some(r@),
                    None => None,
                },
            ),
            final(self).polls == old(self).polls + if next == PollNext::Poll {
                1int
            } else {
                0
            },
    {
        if let Some(r) = reply {
            if !is_busy(r) {
                return PollNext::Ready;
            }
        }
        if self.polls < self.max_polls {
            self.polls = self.polls + 1;
            PollNext::Poll
        } else {
            PollNext::TimedOut
        }
    }
}

/// What a poller that starts before the first poll ends with, given all the replies it
/// would ever get: whether it sees the chip ready, and after how many polls.
pub open spec fn poll_run(p: WipPoll, replies: spec_fn(nat) -> Seq<u8>) -> (PollNext, nat)
    decreases p.max_polls - p.polls,
{
    let reply = if p.polls == 0 {
        None
    } else {
        Some(replies((p.polls - 1) as nat))
    };
    match p.decision(reply) {
        PollNext::Poll => poll_run(WipPoll { polls: (p.polls + 1) as u64, ..p }, replies),
        end => (end, p.polls as nat),
    }
}

proof fn lemma_poll_run(p: WipPoll, replies: spec_fn(nat) -> Seq<u8>)
    requires
        p.wf(),
        forall|j: nat| j + 1 < p.polls ==> status_busy(#[trigger] replies(j)),
    ensures
        ({
            let (end, n) = poll_run(p, replies);
            &&& n <= p.max_polls
            &&& end == PollNext::Ready || end == PollNext::TimedOut
            &&& end == PollNext::Ready ==> n > 0 && !status_busy(replies((n - 1) as nat)) && forall|
                j: nat,
            |
                j + 1 < n ==> status_busy(#[trigger] replies(j))
            &&& end == PollNext::TimedOut ==> n == p.max_polls && forall|j: nat|
                j < n ==> status_busy(#[trigger] replies(j))
        }),
    decreases p.max_polls - p.polls,
{
    let reply = if p.polls == 0 {
        None
    } else {
        Some(replies((p.polls - 1) as nat))
    };
    if p.decision(reply) == PollNext::Poll {
        let q = WipPoll { polls: (p.polls + 1) as u64, ..p };
        assert forall|j: nat| j + 1 < q.polls implies status_busy(#[trigger] replies(j)) by {
            if j + 1 == p.polls {
                assert(j == (p.polls - 1) as nat);
            }
        }
        lemma_poll_run(q, replies);
    }
}

/// A wait polls at most `max_polls` times.  It ends ready at the first reply that is not
/// busy, and times out only if every one of the `max_polls` replies was busy.
pub proof fn law_wait_is_bounded_and_ends_at_first_ready(
    max_polls: u64,
    replies: spec_fn(nat) -> Seq<u8>,
)
    ensures
        ({
            let (end, n) = poll_run(WipPoll { max_polls, polls: 0 }, replies);
            &&& n <= max_polls
            &&& end == PollNext::Ready || end == PollNext::TimedOut
            &&& end == PollNext::Ready ==> n > 0 && !status_busy(replies((n - 1) as nat)) && forall|
                j: nat,
            |
                j + 1 < n ==> status_busy(#[trigger] replies(j))
            &&& end == PollNext::TimedOut ==> n == max_polls && forall|j: nat|
                j < n ==> status_busy(#[trigger] replies(j))
        }),
{
    lemma_poll_run(WipPoll { max_polls, polls: 0 }, replies);
}

/// The failure a wait that timed out reports.
pub fn poll_timeout(max_polls: u64, interval_ms: u64) -> (e: Error)
    ensures
        e == (Error::WipTimeout {
            ms: if max_polls * interval_ms <= u64::MAX {
                (max_polls * interval_ms) as u64
            } else {
                u64::MAX
            },
        }),
{
    let ms: u64 = match max_polls.checked_mul(interval_ms) {
        Some(ms) => ms,
        None => u64::MAX,
    };
    Error::WipTimeout { ms }
}

/// The opcode of a deep power-down, and the time that it takes.
pub open spec fn power_down_script() -> Seq<OpModel> {
    seq![
        crate::host::send(seq![CMD_DEEP_POWER_DOWN]),
        OpModel::Sleep { ms: DEEP_POWER_DOWN_ENTRY_MS },
    ]
}

/// The script for the end of a deep power-down, once the chip is ready.
pub fn deep_power_down_script() -> (script: Vec<HostOp>)
    ensures
        script_of(script@) == power_down_script(),
{
    let mut script: Vec<HostOp> = Vec::new();
    let packet: [u8; 1] = deep_power_down_packet();
    crate::host::push_opcode(&mut script, packet[0]);
    push_op(&mut script, HostOp::Sleep { ms: DEEP_POWER_DOWN_ENTRY_MS });
    assert(script_of(script@) =~~= power_down_script());
    script
}

/// A chip is busy while the lowest bit of its status register is set, or while it says nothing.
pub proof fn law_busy_is_the_lowest_bit(reply: Seq<u8>)
    ensures
        reply.len() == 0 ==> status_busy(reply),
        reply.len() > 0 ==> (status_busy(reply) <==> reply[0] as int % 2 == 1),
{
    if reply.len() > 0 {
        let v: u8 = reply[0];
        assert((v & 1 != 0) == (v % 2 == 1)) by (bit_vector);
    }
}

/// What is sent to or received from a selected chip is announced with its length, and nothing comes
/// between; a chip is powered down by its one opcode, and then left alone.
pub proof fn law_bus_transfers_are_announced(data: Seq<u8>, len: u32)
    requires
        data.len() <= u32::MAX,
    ensures
        send_script(data).len() == 2,
        send_script(data)[0] matches OpModel::Control { req, data: n, payload, settle } && req
            == UsbReq::SpiWrData && n == data.len() && payload.len() == 0 && !settle,
        send_script(data)[1] matches OpModel::BulkOut { bytes } && bytes == data,
        fetch_script(len).len() == 2,
        fetch_script(len)[0] matches OpModel::Control { req, data: n, payload, settle } && req
            == UsbReq::SpiRdData && n == len && payload.len() == 0 && !settle,
        fetch_script(len)[1] matches OpModel::BulkIn { len: n } && n == len,
        power_down_script().len() == 2,
        power_down_script()[0] matches OpModel::Transfer { tx, rx_len } && tx == seq![0xB9u8]
            && rx_len == 0,
        power_down_script()[1] matches OpModel::Sleep { ms } && ms > 0,
{
}

} // verus!
