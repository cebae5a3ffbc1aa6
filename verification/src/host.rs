//! What the host asks of the programmer, as plain data.
use vstd::prelude::*;

use crate::usb::UsbReq;

verus! {

/// One step of a script.
#[derive(Debug)]
pub enum HostOp {
    /// Select the chip, send `tx`, receive `rx_len` bytes, release the chip.
    Transfer { tx: Vec<u8>, rx_len: u32 },
    /// A control transfer to the programmer; `settle` asks for the pause after it.
    Control { req: UsbReq, data: u32, payload: Vec<u8>, settle: bool },
    /// A control transfer from the programmer.
    ControlIn { req: UsbReq, data: u32, len: u32 },
    BulkOut { bytes: Vec<u8> },
    BulkIn { len: u32 },
    Sleep { ms: u64 },
    /// Read the status register every `interval_ms`, at most `polls` times, until the chip
    /// is no longer busy.
    WaitReady { polls: u64, interval_ms: u64 },
}

/// The contents of a [`HostOp`].
#[verifier::ext_equal]
pub enum OpModel {
    Transfer { tx: Seq<u8>, rx_len: u32 },
    Control { req: UsbReq, data: u32, payload: Seq<u8>, settle: bool },
    ControlIn { req: UsbReq, data: u32, len: u32 },
    BulkOut { bytes: Seq<u8> },
    BulkIn { len: u32 },
    Sleep { ms: u64 },
    WaitReady { polls: u64, interval_ms: u64 },
}

impl View for HostOp {
    type V = OpModel;

    open spec fn view(&self) -> OpModel {
        match *self {
            HostOp::Transfer { tx, rx_len } => OpModel::Transfer { tx: tx@, rx_len },
            HostOp::Control { req, data, payload, settle } => OpModel::Control {
                req,
                data,
                payload: payload@,
                settle,
            },
            HostOp::ControlIn { req, data, len } => OpModel::ControlIn { req, data, len },
            HostOp::BulkOut { bytes } => OpModel::BulkOut { bytes: bytes@ },
            HostOp::BulkIn { len } => OpModel::BulkIn { len },
            HostOp::Sleep { ms } => OpModel::Sleep { ms },
            HostOp::WaitReady { polls, interval_ms } => OpModel::WaitReady { polls, interval_ms },
        }
    }
}

/// The contents of a script.
pub open spec fn script_of(ops: Seq<HostOp>) -> Seq<OpModel> {
    Seq::new(ops.len(), |i: int| ops[i]@)
}

/// A control transfer without payload that settles.
pub open spec fn command(req: UsbReq, data: u32) -> OpModel {
    OpModel::Control { req, data, payload: Seq::empty(), settle: true }
}

/// A control transfer without payload that a bulk transfer follows at once.
pub open spec fn arm(req: UsbReq, data: u32) -> OpModel {
    OpModel::Control { req, data, payload: Seq::empty(), settle: false }
}

/// A transfer that sends and receives nothing back.
pub open spec fn send(tx: Seq<u8>) -> OpModel {
    OpModel::Transfer { tx, rx_len: 0 }
}

/// Appends one step to a script.
pub fn push_op(script: &mut Vec<HostOp>, op: HostOp)
    ensures
        script_of(final(script)@) == script_of(old(script)@).push(op@),
{
    script.push(op);
    assert(script_of(script@) =~= script_of(old(script)@).push(op@));
}

/// Appends a control transfer without payload that settles.
pub fn push_command(script: &mut Vec<HostOp>, req: UsbReq, data: u32)
    ensures
        script_of(final(script)@) == script_of(old(script)@).push(command(req, data)),
{
    let payload: Vec<u8> = Vec::new();
    push_op(script, HostOp::Control { req, data, payload, settle: true });
    assert(script_of(script@) =~= script_of(old(script)@).push(command(req, data)));
}

/// Appends a transfer that only sends.
pub fn push_send(script: &mut Vec<HostOp>, tx: Vec<u8>)
    ensures
        script_of(final(script)@) == script_of(old(script)@).push(send(tx@)),
{
    push_op(script, HostOp::Transfer { tx, rx_len: 0 });
}

/// Appends a transfer that sends one opcode.
pub fn push_opcode(script: &mut Vec<HostOp>, opcode: u8)
    ensures
        script_of(final(script)@) == script_of(old(script)@).push(send(seq![opcode])),
{
    let mut tx: Vec<u8> = Vec::new();
    tx.push(opcode);
    assert(tx@ =~= seq![opcode]);
    push_send(script, tx);
}

/// A script is seen step by step, each step as it stands.
pub proof fn law_script_is_seen_step_by_step(ops: Seq<HostOp>, i: int)
    requires
        0 <= i < ops.len(),
    ensures
        script_of(ops).len() == ops.len(),
        ops[i] matches HostOp::Transfer { tx, rx_len } ==> script_of(ops)[i]
            == (OpModel::Transfer { tx: tx@, rx_len }),
        ops[i] matches HostOp::Control { req, data, payload, settle } ==> script_of(ops)[i]
            == (OpModel::Control { req, data, payload: payload@, settle }),
        ops[i] matches HostOp::ControlIn { req, data, len } ==> script_of(ops)[i]
            == (OpModel::ControlIn { req, data, len }),
        ops[i] matches HostOp::BulkOut { bytes } ==> script_of(ops)[i] == (OpModel::BulkOut {
            bytes: bytes@,
        }),
        ops[i] matches HostOp::BulkIn { len } ==> script_of(ops)[i] == (OpModel::BulkIn { len }),
        ops[i] matches HostOp::Sleep { ms } ==> script_of(ops)[i] == (OpModel::Sleep { ms }),
        ops[i] matches HostOp::WaitReady { polls, interval_ms } ==> script_of(ops)[i]
            == (OpModel::WaitReady { polls, interval_ms }),
{
}

/// The shorthands: a command settles and an announcement does not, neither has a payload, and
/// what is sent only brings nothing back.
pub proof fn law_shorthands_say_what_they_stand_for(req: UsbReq, data: u32, tx: Seq<u8>)
    ensures
        command(req, data) matches OpModel::Control { req: r, data: d, payload, settle } && r == req
            && d == data && payload.len() == 0 && settle,
        arm(req, data) matches OpModel::Control { req: r, data: d, payload, settle } && r == req
            && d == data && payload.len() == 0 && !settle,
        send(tx) matches OpModel::Transfer { tx: t, rx_len } && t == tx && rx_len == 0,
{
}

} // verus!
