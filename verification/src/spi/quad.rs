//! Quad mode: enabling it, and reading over four lines.
use vstd::prelude::*;

use crate::chip::{
    ChipModel, ResolvedChip, MFR_EON, MFR_GIGADEVICE, MFR_ISSI, MFR_MACRONIX, MFR_MICRON, MFR_SPANSION,
    MFR_WINBOND,
};
use crate::error::Error;
use crate::host::{
    command, push_command, push_op, push_opcode, push_send, script_of, send, HostOp, OpModel,
};
use crate::spi::bus::{be3, be4, word_byte, CMD_WRITE_ENABLE};
use crate::spi::read::{receive_script, setup_then_receive};
use crate::usb::UsbReq;

verus! {

/// Commands on one line, data on four.
pub const SPI_QUAD_IO_MODE: u8 = 3;

/// Quad Output Fast Read.
pub const CMD_QUAD_OUT_FAST_READ: u8 = 0x6B;

/// Dummy clocks of Quad Output Fast Read.
pub const QUAD_DUMMY_CLOCKS: u8 = 8;

/// Polls for the end of a register write, and the interval: 700 ms in all.
pub const QUAD_POLLS: u64 = 140;

pub const QUAD_POLL_MS: u64 = 5;

/// The clock divisor for a clock in MHz: a power of two below the 32 MHz base clock.
pub fn sqi_clock_div(mhz: u8) -> (r: Result<u8, Error>)
    ensures
        mhz == 8 ==> r == Ok::<u8, Error>(2u8),
        mhz == 16 ==> r == Ok::<u8, Error>(1u8),
        mhz == 32 ==> r == Ok::<u8, Error>(0u8),
        mhz != 8 && mhz != 16 && mhz != 32 ==> r == Err::<u8, _>(Error::SqiClock { mhz }),
{
    if mhz == 8 {
        Ok(2)
    } else if mhz == 16 {
        Ok(1)
    } else if mhz == 32 {
        Ok(0)
    } else {
        Err(Error::SqiClock { mhz })
    }
}

/// The script that sets the quad interface up for a clock, where there is such a clock.
pub open spec fn sqi_script(mhz: u8) -> Option<Seq<OpModel>> {
    if mhz == 8 || mhz == 16 || mhz == 32 {
        Some(
            seq![
                command(
                    UsbReq::SqiSetup,
                    if mhz == 8 {
                        2
                    } else if mhz == 16 {
                        1
                    } else {
                        0
                    },
                ),
                OpModel::Sleep { ms: 10 },
            ],
        )
    } else {
        None
    }
}

/// The script that sets the quad interface up for a clock of 8, 16 or 32 MHz.
pub fn sqi_setup(mhz: u8) -> (r: Result<Vec<HostOp>, Error>)
    ensures
        match r {
            Ok(script) => sqi_script(mhz) == Some(script_of(script@)),
            Err(e) => sqi_script(mhz) is None && e == (Error::SqiClock { mhz }),
        },
{
    let div: u8 = match sqi_clock_div(mhz) {
        Ok(d) => d,
        Err(e) => return Err(e),
    };
    let mut script: Vec<HostOp> = Vec::new();
    push_command(&mut script, UsbReq::SqiSetup, div as u32);
    push_op(&mut script, HostOp::Sleep { ms: 10 });
    assert(script_of(script@) =~= seq![
        command(UsbReq::SqiSetup, div as u32),
        OpModel::Sleep { ms: 10 },
    ]);
    Ok(script)
}

/// Where a manufacturer keeps its quad enable bit.
#[derive(Debug, Clone, Copy, PartialEq, Eq, Structural)]
pub enum QuadMethod {
    /// SR2 bit 1.
    Sr2,
    /// SR1 bit 6; a write of SR1 also writes CR1.
    Sr1,
    /// EVCR bit 7, enabled by 0; volatile.
    Evcr,
    /// CR1 bit 1; written together with SR1.
    Cr1,
    /// Function register bit 1.
    FunctionRegister,
}

/// The method of a manufacturer.
pub open spec fn method_of(mfr: u8) -> Option<QuadMethod> {
    if mfr == MFR_WINBOND || mfr == MFR_GIGADEVICE {
        Some(QuadMethod::Sr2)
    } else if mfr == MFR_MICRON {
        Some(QuadMethod::Evcr)
    } else if mfr == MFR_SPANSION {
        Some(QuadMethod::Cr1)
    } else if mfr == MFR_ISSI {
        Some(QuadMethod::FunctionRegister)
    } else if mfr == MFR_MACRONIX || mfr == MFR_EON {
        Some(QuadMethod::Sr1)
    } else {
        None
    }
}

/// Where enabling quad mode stands.
#[derive(Debug, Clone, Copy, PartialEq, Eq, Structural)]
pub enum QuadState {
    /// Waiting for the first register.
    First(QuadMethod),
    /// Waiting for CR1; SR1 was read before.
    Second(QuadMethod, u8),
}

impl QuadState {
    /// The opcode that reads the register the state waits for.
    pub open spec fn opcode(self) -> u8 {
        match self {
            QuadState::First(QuadMethod::Sr2) => 0x35,
            QuadState::First(QuadMethod::Sr1) => 0x05,
            QuadState::First(QuadMethod::Evcr) => 0x65,
            QuadState::First(QuadMethod::Cr1) => 0x05,
            QuadState::First(QuadMethod::FunctionRegister) => 0x48,
            QuadState::Second(QuadMethod::Cr1, _) => 0x35,
            QuadState::Second(_, _) => 0x15,
        }
    }

    /// The opcode that reads the register the state waits for.
    pub fn read_opcode(self) -> (r: u8)
        ensures
            r == self.opcode(),
    {
        match self {
            QuadState::First(QuadMethod::Sr2) => 0x35,
            QuadState::First(QuadMethod::Sr1) => 0x05,
            QuadState::First(QuadMethod::Evcr) => 0x65,
            QuadState::First(QuadMethod::Cr1) => 0x05,
            QuadState::First(QuadMethod::FunctionRegister) => 0x48,
            QuadState::Second(QuadMethod::Cr1, _) => 0x35,
            QuadState::Second(_, _) => 0x15,
        }
    }
}

/// What enabling quad mode does next.
#[derive(Debug)]
pub enum QuadNext {
    /// Read the register that the state waits for.
    Read(QuadState),
    AlreadyEnabled,
    /// Run the script; quad mode is enabled then.
    Write(Vec<HostOp>),
}

/// The contents of a [`QuadNext`].
#[verifier::ext_equal]
pub enum QuadModel {
    Read(QuadState),
    AlreadyEnabled,
    Write(Seq<OpModel>),
}

impl View for QuadNext {
    type V = QuadModel;

    open spec fn view(&self) -> QuadModel {
        match *self {
            QuadNext::Read(s) => QuadModel::Read(s),
            QuadNext::AlreadyEnabled => QuadModel::AlreadyEnabled,
            QuadNext::Write(script) => QuadModel::Write(script_of(script@)),
        }
    }
}

/// A register write behind a write enable, and the wait for its end.
pub open spec fn latched_write(tx: Seq<u8>) -> Seq<OpModel> {
    seq![
        send(seq![CMD_WRITE_ENABLE]),
        send(tx),
        OpModel::WaitReady { polls: QUAD_POLLS, interval_ms: QUAD_POLL_MS },
    ]
}

/// A volatile register write, which no write enable may precede, and the wait for its end.
pub open spec fn volatile_write(tx: Seq<u8>) -> Seq<OpModel> {
    seq![send(tx), OpModel::WaitReady { polls: QUAD_POLLS, interval_ms: QUAD_POLL_MS }]
}

/// What follows from the value of a register.
pub open spec fn quad_step(state: QuadState, value: u8) -> QuadModel {
    match state {
        QuadState::First(QuadMethod::Sr2) => if value & 0x02 != 0 {
            QuadModel::AlreadyEnabled
        } else {
            QuadModel::Write(latched_write(seq![0x31u8, value | 0x02]))
        },
        QuadState::First(QuadMethod::Sr1) => if value & 0x40 != 0 {
            QuadModel::AlreadyEnabled
        } else {
            QuadModel::Read(QuadState::Second(QuadMethod::Sr1, value))
        },
        QuadState::First(QuadMethod::Evcr) => if value & 0x80 == 0 {
            QuadModel::AlreadyEnabled
        } else {
            QuadModel::Write(volatile_write(seq![0x61u8, value & !0x80u8]))
        },
        QuadState::First(QuadMethod::Cr1) => QuadModel::Read(
            QuadState::Second(QuadMethod::Cr1, value),
        ),
        QuadState::First(QuadMethod::FunctionRegister) => if value & 0x02 != 0 {
            QuadModel::AlreadyEnabled
        } else {
            QuadModel::Write(latched_write(seq![0x42u8, value | 0x02]))
        },
        QuadState::Second(QuadMethod::Cr1, sr1) => if value & 0x02 != 0 {
            QuadModel::AlreadyEnabled
        } else {
            QuadModel::Write(latched_write(seq![0x01u8, sr1, value | 0x02]))
        },
        QuadState::Second(_, sr1) => QuadModel::Write(
            latched_write(seq![0x01u8, sr1 | 0x40, value]),
        ),
    }
}

/// What an empty reply counts as: a cleared register, but all ones where 0 enables.
pub open spec fn quad_value(state: QuadState, reply: Seq<u8>) -> u8 {
    if reply.len() > 0 {
        reply[0]
    } else if state == QuadState::First(QuadMethod::Evcr) {
        0xFF
    } else {
        0
    }
}

fn latched_script(tx: Vec<u8>) -> (script: Vec<HostOp>)
    ensures
        script_of(script@) == latched_write(tx@),
{
    let mut script: Vec<HostOp> = Vec::new();
    push_opcode(&mut script, CMD_WRITE_ENABLE);
    push_send(&mut script, tx);
    push_op(
        &mut script,
        HostOp::WaitReady { polls: QUAD_POLLS, interval_ms: QUAD_POLL_MS },
    );
    assert(script_of(script@) =~~= latched_write(tx@));
    script
}

fn two_bytes(a: u8, b: u8) -> (tx: Vec<u8>)
    ensures
        tx@ == seq![a, b],
{
    let mut tx: Vec<u8> = Vec::new();
    tx.push(a);
    tx.push(b);
    assert(tx@ =~= seq![a, b]);
    tx
}

fn three_bytes(a: u8, b: u8, c: u8) -> (tx: Vec<u8>)
    ensures
        tx@ == seq![a, b, c],
{
    let mut tx: Vec<u8> = Vec::new();
    tx.push(a);
    tx.push(b);
    tx.push(c);
    assert(tx@ =~= seq![a, b, c]);
    tx
}

/// Starts enabling quad mode the way the manufacturer has it.
pub fn enable_quad(mfr: u8) -> (r: Result<QuadState, Error>)
    ensures
        r == match method_of(mfr) {
            Some(m) => Ok::<QuadState, Error>(QuadState::First(m)),
            None => Err(Error::QuadUnsupported { mfr }),
        },
{
    if mfr == MFR_WINBOND || mfr == MFR_GIGADEVICE {
        Ok(QuadState::First(QuadMethod::Sr2))
    } else if mfr == MFR_MICRON {
        Ok(QuadState::First(QuadMethod::Evcr))
    } else if mfr == MFR_SPANSION {
        Ok(QuadState::First(QuadMethod::Cr1))
    } else if mfr == MFR_ISSI {
        Ok(QuadState::First(QuadMethod::FunctionRegister))
    } else if mfr == MFR_MACRONIX || mfr == MFR_EON {
        Ok(QuadState::First(QuadMethod::Sr1))
    } else {
        Err(Error::QuadUnsupported { mfr })
    }
}

/// Takes the reply to the register read that `state` waits for and decides what to do next.
pub fn quad_next(state: QuadState, reply: &[u8]) -> (r: QuadNext)
    ensures
        r@ == quad_step(state, quad_value(state, reply@)),
{
    let value: u8 = if reply.len() > 0 {
        reply[0]
    } else {
        match state {
            QuadState::First(QuadMethod::Evcr) => 0xFF,
            _ => 0,
        }
    };
    match state {
        QuadState::First(QuadMethod::Sr2) => if value & 0x02 != 0 {
            QuadNext::AlreadyEnabled
        } else {
            QuadNext::Write(latched_script(two_bytes(0x31, value | 0x02)))
        },
        QuadState::First(QuadMethod::Sr1) => if value & 0x40 != 0 {
            QuadNext::AlreadyEnabled
        } else {
            QuadNext::Read(QuadState::Second(QuadMethod::Sr1, value))
        },
        QuadState::First(QuadMethod::Evcr) => if value & 0x80 == 0 {
            QuadNext::AlreadyEnabled
        } else {
            let mut script: Vec<HostOp> = Vec::new();
            push_send(&mut script, two_bytes(0x61, value & !0x80u8));
            push_op(
                &mut script,
                HostOp::WaitReady { polls: QUAD_POLLS, interval_ms: QUAD_POLL_MS },
            );
            assert(script_of(script@) =~~= volatile_write(seq![0x61u8, value & !0x80u8]));
            QuadNext::Write(script)
        },
        QuadState::First(QuadMethod::Cr1) => QuadNext::Read(
            QuadState::Second(QuadMethod::Cr1, value),
        ),
        QuadState::First(QuadMethod::FunctionRegister) => if value & 0x02 != 0 {
            QuadNext::AlreadyEnabled
        } else {
            QuadNext::Write(latched_script(two_bytes(0x42, value | 0x02)))
        },
        QuadState::Second(QuadMethod::Cr1, sr1) => if value & 0x02 != 0 {
            QuadNext::AlreadyEnabled
        } else {
            QuadNext::Write(latched_script(three_bytes(0x01, sr1, value | 0x02)))
        },
        QuadState::Second(_, sr1) => QuadNext::Write(
            latched_script(three_bytes(0x01, sr1 | 0x40, value)),
        ),
    }
}

/// Setting a quad enable bit keeps the other bits of its register, and once the new value is
/// in place there is nothing more to do.
pub proof fn law_enabling_quad_keeps_other_bits_and_is_idempotent(value: u8, other: u8)
    ensures
        // The new values differ from the old ones in the enable bit only.
        (value | 0x02) & !0x02u8 == value & !0x02u8,
        (value | 0x40) & !0x40u8 == value & !0x40u8,
        (value & !0x80u8) | 0x80 == value | 0x80,
        // With the new value read back, quad mode is found enabled.
        quad_step(QuadState::First(QuadMethod::Sr2), value | 0x02) == QuadModel::AlreadyEnabled,
        quad_step(QuadState::First(QuadMethod::FunctionRegister), value | 0x02)
            == QuadModel::AlreadyEnabled,
        quad_step(QuadState::First(QuadMethod::Sr1), value | 0x40) == QuadModel::AlreadyEnabled,
        quad_step(QuadState::First(QuadMethod::Evcr), value & !0x80u8)
            == QuadModel::AlreadyEnabled,
        quad_step(QuadState::Second(QuadMethod::Cr1, other), value | 0x02)
            == QuadModel::AlreadyEnabled,
{
    assert((value | 0x02) & !0x02u8 == value & !0x02u8) by (bit_vector);
    assert((value | 0x40) & !0x40u8 == value & !0x40u8) by (bit_vector);
    assert((value & !0x80u8) | 0x80 == value | 0x80) by (bit_vector);
    assert((value | 0x02) & 0x02 != 0) by (bit_vector);
    assert((value | 0x40) & 0x40 != 0) by (bit_vector);
    assert((value & !0x80u8) & 0x80 == 0) by (bit_vector);
}

/// The setup packet of a quad read.
pub open spec fn sqi_read_setup(addr_bytes: u8, offset: u32, count: u32) -> Seq<u8> {
    seq![CMD_QUAD_OUT_FAST_READ, addr_bytes] + be4(offset) + be3(count) + seq![
        QUAD_DUMMY_CLOCKS,
        SPI_QUAD_IO_MODE,
    ]
}

/// Builds the setup packet of a quad read: like that of a plain read, but with dummy clocks
/// and the line mode at the end.
pub fn sqi_read_setup_packet(addr_bytes: u8, offset: u32, count: u32) -> (r: [u8; 11])
    ensures
        r@ == sqi_read_setup(addr_bytes, offset, count),
{
    let r: [u8; 11] = [
        CMD_QUAD_OUT_FAST_READ,
        addr_bytes,
        word_byte(offset, 3),
        word_byte(offset, 2),
        word_byte(offset, 1),
        word_byte(offset, 0),
        word_byte(count, 2),
        word_byte(count, 1),
        word_byte(count, 0),
        QUAD_DUMMY_CLOCKS,
        SPI_QUAD_IO_MODE,
    ];
    assert(r@ =~= sqi_read_setup(addr_bytes, offset, count));
    r
}

impl ChipModel {
    /// The script that reads one block over four lines.
    pub open spec fn quad_script(self, addr: u32, len: u32) -> Seq<OpModel> {
        setup_then_receive(UsbReq::SqiRdFlash, sqi_read_setup(self.addr_bytes, addr, len), len)
    }
}

/// The script for one attempt at a block over four lines.
pub fn try_read_quad_block(chip: &ResolvedChip, addr: u32, len: u32) -> (script: Vec<HostOp>)
    ensures
        script_of(script@) == chip@.quad_script(addr, len),
{
    let setup: [u8; 11] = sqi_read_setup_packet(chip.addr_bytes, addr, len);
    receive_script(UsbReq::SqiRdFlash, setup.as_slice(), len)
}

/// Whether a script writes a register behind a write enable, and waits up to 700 ms.
pub open spec fn writes_latched(script: Seq<OpModel>, tx: Seq<u8>) -> bool {
    &&& script.len() == 3
    &&& script[0] == OpModel::Transfer { tx: seq![0x06u8], rx_len: 0 }
    &&& script[1] == OpModel::Transfer { tx, rx_len: 0 }
    &&& script[2] matches OpModel::WaitReady { polls, interval_ms } && polls * interval_ms == 700
}

/// Each manufacturer's enable bit ends up as it must, and every other bit stays: SR2 bit 1 of
/// Winbond and GigaDevice parts, SR1 bit 6 of Macronix and EON parts (written with CR1), CR1 bit 1
/// of Spansion parts (written with SR1) and bit 1 of ISSI's function register are set, and EVCR bit
/// 7 of Micron parts is cleared, without a write enable.  Nothing is written where the bit is in
/// place.
pub proof fn law_quad_enable_bit_is_put_in_place(mfr: u8, first: u8, second: u8)
    ensures
        method_of(mfr) is Some <==> mfr == 0xEF || mfr == 0xC8 || mfr == 0x20 || mfr == 0x01 || mfr
            == 0x9D || mfr == 0xC2 || mfr == 0x1C,
        method_of(mfr) matches Some(m) ==> {
            let start = QuadState::First(m);
            let next = quad_step(start, first);
            let bit1 = (first as int / 2) % 2 == 1;
            let bit6 = (first as int / 64) % 2 == 1;
            let bit7 = first >= 128;
            &&& mfr == 0xEF || mfr == 0xC8 ==> {
                &&& start.opcode() == 0x35
                &&& bit1 ==> next == QuadModel::AlreadyEnabled
                &&& !bit1 ==> (next matches QuadModel::Write(s) && writes_latched(
                    s,
                    seq![0x31u8, (first + 2) as u8],
                ))
            }
            &&& mfr == 0x9D ==> {
                &&& start.opcode() == 0x48
                &&& bit1 ==> next == QuadModel::AlreadyEnabled
                &&& !bit1 ==> (next matches QuadModel::Write(s) && writes_latched(
                    s,
                    seq![0x42u8, (first + 2) as u8],
                ))
            }
            &&& mfr == 0x20 ==> {
                &&& start.opcode() == 0x65
                &&& !bit7 ==> next == QuadModel::AlreadyEnabled
                &&& bit7 ==> (next matches QuadModel::Write(s) && s.len() == 2 && s[0] == (
                OpModel::Transfer { tx: seq![0x61u8, (first - 128) as u8], rx_len: 0 })
                    && s[1] is WaitReady)
            }
            &&& mfr == 0xC2 || mfr == 0x1C ==> {
                &&& start.opcode() == 0x05
                &&& bit6 ==> next == QuadModel::AlreadyEnabled
                &&& !bit6 ==> (next matches QuadModel::Read(then) && then.opcode() == 0x15 && (
                quad_step(then, second) matches QuadModel::Write(s) && writes_latched(
                    s,
                    seq![0x01u8, (first + 64) as u8, second],
                )))
            }
            &&& mfr == 0x01 ==> {
                &&& start.opcode() == 0x05
                &&& next matches QuadModel::Read(then) && then.opcode() == 0x35 && {
                    &&& (second as int / 2) % 2 == 1 ==> quad_step(then, second)
                        == QuadModel::AlreadyEnabled
                    &&& (second as int / 2) % 2 == 0 ==> (quad_step(
                        then,
                        second,
                    ) matches QuadModel::Write(s) && writes_latched(
                        s,
                        seq![0x01u8, first, (second + 2) as u8],
                    ))
                }
            }
        },
{
    lemma_enable_bits(first);
    lemma_enable_bits(second);
    assert(latched_write(seq![0x31u8, first | 0x02])[0]->tx =~= seq![0x06u8]);
    assert(latched_write(seq![0x42u8, first | 0x02])[0]->tx =~= seq![0x06u8]);
    assert(latched_write(seq![0x01u8, first | 0x40, second])[0]->tx =~= seq![0x06u8]);
    assert(latched_write(seq![0x01u8, first, second | 0x02])[0]->tx =~= seq![0x06u8]);
}

proof fn lemma_enable_bits(v: u8)
    ensures
        v & 0x02 != 0 <==> (v as int / 2) % 2 == 1,
        v & 0x40 != 0 <==> (v as int / 64) % 2 == 1,
        v & 0x80 != 0 <==> v >= 128,
        v & 0x02 == 0 ==> v | 0x02 == v + 2,
        v & 0x40 == 0 ==> v | 0x40 == v + 64,
        v & 0x80 != 0 ==> v & !0x80u8 == v - 128,
{
    assert((v & 0x02 != 0) == ((v / 2) % 2 == 1) && (v & 0x40 != 0) == ((v / 64) % 2 == 1) && (v
        & 0x80 != 0) == (v >= 128) && (v & 0x02 == 0 ==> v | 0x02 == v + 2) && (v & 0x40 == 0 ==> v
        | 0x40 == v + 64) && (v & 0x80 != 0 ==> v & !0x80u8 == v - 128)) by (bit_vector);
}

/// The quad interface runs at 32 MHz divided by a power of two: the clocks 8, 16 and 32 MHz, whose
/// divisor is sent, and no other.
pub proof fn law_quad_clock_is_divided_by_a_power_of_two(mhz: u8)
    ensures
        sqi_script(mhz) is Some <==> mhz == 8 || mhz == 16 || mhz == 32,
        sqi_script(mhz) matches Some(script) ==> {
            &&& script.len() == 2
            &&& script[0] matches OpModel::Control { req, data, payload, settle } && req
                == UsbReq::SqiSetup && payload.len() == 0 && settle
                && vstd::arithmetic::power2::pow2(data as nat) * mhz == 32
        },
{
    vstd::arithmetic::power2::lemma2_to64();
}

/// A register that does not answer never counts as one that has quad mode enabled.
pub proof fn law_silent_register_is_not_taken_as_enabled(state: QuadState)
    ensures
        quad_step(state, quad_value(state, Seq::empty())) !is AlreadyEnabled,
{
    assert(0u8 & 0x02 == 0 && 0u8 & 0x40 == 0 && 0xFFu8 & 0x80 != 0) by (bit_vector);
}

/// A register that answers is taken by its first byte.
pub proof fn law_register_is_taken_by_its_first_byte(state: QuadState, reply: Seq<u8>, more: Seq<u8>)
    requires
        reply.len() > 0,
    ensures
        quad_value(state, reply) == reply[0],
        quad_value(state, reply + more) == quad_value(state, reply),
{
}

} // verus!
