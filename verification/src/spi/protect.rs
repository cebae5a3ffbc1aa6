//! Write protection by the block protect bits.
use vstd::arithmetic::power2::pow2;
use vstd::prelude::*;

use crate::chip::{
    ChipModel, ResolvedChip, MFR_EON, MFR_GIGADEVICE, MFR_MACRONIX, MFR_WINBOND,
};
use crate::error::Error;
use crate::host::{push_op, push_opcode, push_send, script_of, send, HostOp, OpModel};
use crate::spi::bus::{bit_set, has_bit, CMD_WRITE_ENABLE};
use crate::text::{dec_text, hex_text, push_dec, push_hex};
use crate::units::MB_16;

verus! {

/// Polls for the end of a status register write, and the interval: 500 ms in all.
pub const SR_WRITE_POLLS: u64 = 100;

pub const SR_WRITE_POLL_MS: u64 = 5;

/// Write protection as the status registers state it.
#[derive(Debug)]
pub struct WpStatus {
    pub sr1: u8,
    pub sr2: Option<u8>,
    pub sr3: Option<u8>,
    /// The protected address range, in words.
    pub range: String,
    /// How the protection is enforced.
    pub mode: &'static str,
    /// Blocks are locked one by one instead of by range.
    pub block_lock_mode: bool,
}

/// Where the protection bits stand in SR1.  The BP field begins at bit 2.
#[derive(Debug, Clone, Copy, PartialEq, Eq, Structural)]
pub enum BpLayout {
    /// Three BP bits, TB at bit 5, SEC at bit 6.
    Three,
    /// Four BP bits, TB at bit 6.
    FourTb,
    /// Four BP bits; bit 6 has no part in the protection.
    Four,
    /// Five BP bits, of which BP3 and BP4 choose the side and the unit as TB and SEC do.
    Five,
}

impl BpLayout {
    /// The BP bits.
    pub open spec fn bp_mask(self) -> u8 {
        match self {
            BpLayout::Three => 0x1C,
            BpLayout::FourTb => 0x3C,
            BpLayout::Four => 0x3C,
            BpLayout::Five => 0x7C,
        }
    }

    /// The bits that have no part in which range is protected.
    pub open spec fn other_bits(self) -> u8 {
        match self {
            BpLayout::Four => 0xC3,
            _ => 0x83,
        }
    }

    /// The BP bits.
    fn mask(self) -> (r: u8)
        ensures
            r == self.bp_mask(),
    {
        match self {
            BpLayout::Three => 0x1C,
            BpLayout::FourTb => 0x3C,
            BpLayout::Four => 0x3C,
            BpLayout::Five => 0x7C,
        }
    }

    /// The bits that have no part in which range is protected.
    fn rest(self) -> (r: u8)
        ensures
            r == self.other_bits(),
    {
        match self {
            BpLayout::Four => 0xC3,
            _ => 0x83,
        }
    }
}

impl ChipModel {
    /// Where the protection bits stand: four BP bits and TB on Winbond parts above 16 MiB and on
    /// the GD25Q256D, five BP bits on other GigaDevice parts, four on Macronix and EON parts,
    /// three, TB and SEC on all others.
    pub open spec fn bp_layout(self) -> BpLayout {
        if self.mfr == MFR_WINBOND && self.size_bytes > MB_16 {
            BpLayout::FourTb
        } else if self.mfr == MFR_GIGADEVICE {
            if self.is_gd25q256d() {
                BpLayout::FourTb
            } else {
                BpLayout::Five
            }
        } else if self.mfr == MFR_MACRONIX || self.mfr == MFR_EON {
            BpLayout::Four
        } else {
            BpLayout::Three
        }
    }

    /// Whether the chip has the second and third status register in Winbond's places.
    pub open spec fn has_sr23(self) -> bool {
        self.mfr == MFR_WINBOND || self.mfr == MFR_GIGADEVICE
    }

    /// Whether SR2 has a complement bit, at bit 6.
    pub open spec fn has_complement(self) -> bool {
        self.has_sr23() && !self.is_gd25q256d()
    }

    /// What SR2 states of SRP1: bit 0, on the GD25Q256D bit 6.
    pub open spec fn states_srp1(self, sr2: u8) -> bool {
        if self.is_gd25q256d() {
            bit_set(sr2, 64)
        } else {
            bit_set(sr2, 1)
        }
    }
}

fn has_sr23(chip: &ResolvedChip) -> (r: bool)
    ensures
        r == chip@.has_sr23(),
{
    chip.mfr == MFR_WINBOND || chip.mfr == MFR_GIGADEVICE
}

/// Where the protection bits of a chip stand.
pub fn bp_layout(chip: &ResolvedChip) -> (r: BpLayout)
    ensures
        r == chip@.bp_layout(),
{
    if chip.mfr == MFR_WINBOND && chip.size_bytes > MB_16 {
        BpLayout::FourTb
    } else if chip.mfr == MFR_GIGADEVICE {
        if chip.is_gd25q256d() {
            BpLayout::FourTb
        } else {
            BpLayout::Five
        }
    } else if chip.mfr == MFR_MACRONIX || chip.mfr == MFR_EON {
        BpLayout::Four
    } else {
        BpLayout::Three
    }
}

/// How many bytes a BP value selects: none for 0, else 2^(bp-1) units of 64KB, or of 4KB in
/// sector mode, up to the whole chip.  Where the selection is not inverted, the value with every
/// bit set selects the whole chip.
pub open spec fn selected_bytes(size: u32, bp: u8, full: u8, sec: bool, inverted: bool) -> int {
    let unit: int = if sec {
        4096
    } else {
        65536
    };
    if bp == 0 {
        0
    } else if (bp == full && !inverted) || pow2((bp - 1) as nat) * unit > size {
        size as int
    } else {
        pow2((bp - 1) as nat) * unit
    }
}

/// A protected range in words.
pub open spec fn range_text(size: u32, bytes: int, from_top: bool) -> Seq<char> {
    if bytes == 0 {
        "none"@
    } else if bytes >= size {
        "all ("@ + dec_text((size / 1024) as nat) + " KB)"@
    } else {
        (if from_top {
            "upper "@
        } else {
            "lower "@
        }) + dec_text((bytes / 1024) as nat) + " KB"@
    }
}

/// The protected range that the protection bits select.
pub open spec fn selected_range(
    size: u32,
    bp: u8,
    full: u8,
    tb: bool,
    sec: bool,
    inverted: bool,
) -> Seq<char> {
    let base = range_text(size, selected_bytes(size, bp, full, sec, inverted), !tb);
    if inverted {
        "complement of "@ + base
    } else {
        base
    }
}

fn decode_range(size: u32, bp: u8, full: u8, tb: bool, sec: bool, inverted: bool) -> (s: String)
    requires
        bp <= 32,
    ensures
        s@ == selected_range(size, bp, full, tb, sec, inverted),
{
    let unit: u64 = if sec {
        4096
    } else {
        65536
    };
    let mut bytes: u64 = 0;
    if bp != 0 {
        proof {
            vstd::bits::lemma_u64_pow2_no_overflow((bp - 1) as nat);
            vstd::arithmetic::power2::lemma2_to64();
            if bp < 32 {
                vstd::arithmetic::power2::lemma_pow2_strictly_increases((bp - 1) as nat, 31);
            }
            vstd::bits::lemma_u64_shl_is_mul(1, (bp - 1) as u64);
            assert(pow2((bp - 1) as nat) * unit <= 0x8000_0000 * 65536) by (nonlinear_arith)
                requires
                    pow2((bp - 1) as nat) <= 0x8000_0000,
                    unit <= 65536,
            ;
        }
        bytes = (1u64 << (bp - 1) as u64) * unit;
        if (bp == full && !inverted) || bytes > size as u64 {
            bytes = size as u64;
        }
    }
    let mut s = String::new();
    if inverted {
        s.append("complement of ");
    }
    if bytes == 0 {
        s.append("none");
    } else if bytes >= size as u64 {
        s.append("all (");
        push_dec(&mut s, (size / 1024) as u64);
        s.append(" KB)");
    } else {
        if tb {
            s.append("lower ");
        } else {
            s.append("upper ");
        }
        push_dec(&mut s, bytes / 1024);
        s.append(" KB");
    }
    assert(s@ =~= selected_range(size, bp, full, tb, sec, inverted));
    s
}

/// The protected range of a chip with a 3-bit BP field, in words.
///
/// BP=0 selects nothing, otherwise BP selects 2^(bp-1) units from the top (TB=0) or the bottom
/// (TB=1).  The last argument says whether the complement of that is protected instead; where it
/// is not, BP=7 stands for the entire chip.
pub fn decode_range_spi25(size: u32, bp: u8, tb: u8, sec: u8, inverted: u8) -> (s: String)
    requires
        bp <= 32,
    ensures
        s@ == selected_range(size, bp, 7, tb != 0, sec == 1, inverted == 1),
{
    decode_range(size, bp, 7, tb != 0, sec == 1, inverted == 1)
}

/// The opcodes of the registers that state the write protection.
pub open spec fn wp_opcodes(chip: ChipModel) -> Seq<u8> {
    if chip.has_sr23() {
        seq![0x05u8, 0x35, 0x15]
    } else {
        seq![0x05u8]
    }
}

/// The opcodes of the registers to read for the write protection status: SR2 and SR3 only
/// where the chip has them.
pub fn wp_registers(chip: &ResolvedChip) -> (r: Vec<u8>)
    ensures
        r@ == wp_opcodes(chip@),
{
    let mut r: Vec<u8> = Vec::new();
    r.push(0x05);
    if has_sr23(chip) {
        r.push(0x35);
        r.push(0x15);
    }
    assert(r@ =~= wp_opcodes(chip@));
    r
}

/// The protected range that the registers state.  Four BP bits without a TB bit beside them
/// count from the top.
pub open spec fn stated_range(chip: ChipModel, sr1: u8, inverted: bool) -> Seq<char> {
    let size = chip.size_bytes;
    match chip.bp_layout() {
        BpLayout::FourTb => selected_range(
            size,
            (sr1 / 4) % 16,
            15,
            bit_set(sr1, 64),
            false,
            inverted,
        ),
        BpLayout::Four => selected_range(size, (sr1 / 4) % 16, 15, false, false, inverted),
        _ => selected_range(
            size,
            (sr1 / 4) % 8,
            7,
            bit_set(sr1, 32),
            bit_set(sr1, 64),
            inverted,
        ),
    }
}

/// How the protection is enforced.
pub open spec fn mode_text(srp0: bool, srp1: bool) -> Seq<char> {
    if !srp0 && !srp1 {
        "software"@
    } else if srp0 && !srp1 {
        "hardware (WP# pin)"@
    } else if !srp0 && srp1 {
        "power-cycle"@
    } else {
        "permanent (OTP)"@
    }
}

/// Decodes the write protection status from the registers of [`wp_registers`].
pub fn read_wp_status(chip: &ResolvedChip, regs: &[u8]) -> (r: WpStatus)
    requires
        regs@.len() == wp_opcodes(chip@).len(),
    ensures
        r.sr1 == regs@[0],
        chip@.has_sr23() ==> r.sr2 == Some(regs@[1]) && r.sr3 == Some(regs@[2]),
        !chip@.has_sr23() ==> r.sr2 is None && r.sr3 is None,
        r.range@ == stated_range(
            chip@,
            regs@[0],
            chip@.has_complement() && bit_set(regs@[1], 64),
        ),
        r.mode@ == mode_text(
            bit_set(regs@[0], 128),
            chip@.has_sr23() && chip@.states_srp1(regs@[1]),
        ),
        r.block_lock_mode == (chip.mfr == MFR_WINBOND && bit_set(regs@[2], 4)),
{
    let sr1: u8 = regs[0];
    let mut sr2: Option<u8> = None;
    let mut sr3: Option<u8> = None;
    let mut inverted = false;
    let mut srp1 = false;
    let mut block_lock_mode = false;
    if has_sr23(chip) {
        sr2 = Some(regs[1]);
        sr3 = Some(regs[2]);
        if chip.is_gd25q256d() {
            srp1 = has_bit(regs[1], 64);
        } else {
            inverted = has_bit(regs[1], 64);
            srp1 = has_bit(regs[1], 1);
        }
        block_lock_mode = chip.mfr == MFR_WINBOND && has_bit(regs[2], 4);
    }
    let size: u32 = chip.size_bytes;
    let range = match bp_layout(chip) {
        BpLayout::FourTb => decode_range(
            size,
            (sr1 / 4) % 16,
            15,
            has_bit(sr1, 64),
            false,
            inverted,
        ),
        BpLayout::Four => decode_range(size, (sr1 / 4) % 16, 15, false, false, inverted),
        _ => decode_range(
            size,
            (sr1 / 4) % 8,
            7,
            has_bit(sr1, 32),
            has_bit(sr1, 64),
            inverted,
        ),
    };
    let srp0 = has_bit(sr1, 128);
    let mode = if !srp0 && !srp1 {
        "software"
    } else if srp0 && !srp1 {
        "hardware (WP# pin)"
    } else if !srp0 && srp1 {
        "power-cycle"
    } else {
        "permanent (OTP)"
    };
    WpStatus { sr1, sr2, sr3, range, mode, block_lock_mode }
}

impl WpStatus {
    /// The one-line summary.
    pub open spec fn summary_text(self) -> Seq<char> {
        self.range@ + " ("@ + self.mode@ + ")"@ + (if self.block_lock_mode {
            " [block-lock mode]"@
        } else {
            Seq::empty()
        }) + "  [SR1="@ + hex_text(self.sr1 as nat, 2) + (match self.sr2 {
            Some(v) => " SR2="@ + hex_text(v as nat, 2),
            None => Seq::empty(),
        }) + (match self.sr3 {
            Some(v) => " SR3="@ + hex_text(v as nat, 2),
            None => Seq::empty(),
        }) + "]"@
    }

    /// A one-line summary.
    pub fn summary(&self) -> (s: String)
        ensures
            s@ == self.summary_text(),
    {
        let mut s = String::new();
        s.append(self.range.as_str());
        s.append(" (");
        s.append(self.mode);
        s.append(")");
        if self.block_lock_mode {
            s.append(" [block-lock mode]");
        }
        s.append("  [SR1=");
        push_hex(&mut s, self.sr1 as u64, 2);
        if let Some(v) = self.sr2 {
            s.append(" SR2=");
            push_hex(&mut s, v as u64, 2);
        }
        if let Some(v) = self.sr3 {
            s.append(" SR3=");
            push_hex(&mut s, v as u64, 2);
        }
        s.append("]");
        assert(s@ =~= self.summary_text());
        s
    }
}

/// What shall become of the protection.
#[derive(Debug, Clone, Copy, PartialEq, Eq, Structural)]
pub enum WpGoal {
    Protect,
    Unprotect,
}

/// Where a change of the protection stands.
#[derive(Debug, Clone, Copy, PartialEq, Eq, Structural)]
pub enum WpState {
    /// Waiting for SR1.
    Sr1,
    /// Waiting for SR2, SR1 is written.
    Sr2,
    /// Waiting for SR1, all is written.
    Verify,
}

/// What a change of the protection does next.
#[derive(Debug)]
pub enum WpNext {
    /// Run the script, then read the register and go on in the state.
    Run { script: Vec<HostOp>, read: u8, state: WpState },
    Done,
    Stop(Error),
}

/// The contents of a [`WpNext`].
#[verifier::ext_equal]
pub enum WpModel {
    Run { script: Seq<OpModel>, read: u8, state: WpState },
    Done,
    Stop(Error),
}

impl View for WpNext {
    type V = WpModel;

    open spec fn view(&self) -> WpModel {
        match *self {
            WpNext::Run { script, read, state } => WpModel::Run {
                script: script_of(script@),
                read,
                state,
            },
            WpNext::Done => WpModel::Done,
            WpNext::Stop(e) => WpModel::Stop(e),
        }
    }
}

/// A status register write, and the wait for its end.
pub open spec fn sr_write(opcode: u8, value: u8) -> Seq<OpModel> {
    seq![
        send(seq![CMD_WRITE_ENABLE]),
        send(seq![opcode, value]),
        OpModel::WaitReady { polls: SR_WRITE_POLLS, interval_ms: SR_WRITE_POLL_MS },
    ]
}

/// The script that writes one status register; the value survives a power cycle.
pub fn write_sr(opcode: u8, value: u8) -> (script: Vec<HostOp>)
    ensures
        script_of(script@) == sr_write(opcode, value),
{
    let mut script: Vec<HostOp> = Vec::new();
    push_opcode(&mut script, CMD_WRITE_ENABLE);
    let mut tx: Vec<u8> = Vec::new();
    tx.push(opcode);
    tx.push(value);
    assert(tx@ =~= seq![opcode, value]);
    push_send(&mut script, tx);
    push_op(
        &mut script,
        HostOp::WaitReady { polls: SR_WRITE_POLLS, interval_ms: SR_WRITE_POLL_MS },
    );
    assert(script_of(script@) =~~= sr_write(opcode, value));
    script
}

/// The value of SR1 that reaches a goal: all BP bits set or cleared, TB and SEC cleared, and what
/// has no part in the protected range as it was: SRP0, WEL and WIP, and on some chips bit 6.
pub open spec fn goal_sr1(chip: ChipModel, goal: WpGoal, sr1: u8) -> u8 {
    let layout = chip.bp_layout();
    match goal {
        WpGoal::Protect => (sr1 & layout.other_bits()) | layout.bp_mask(),
        WpGoal::Unprotect => sr1 & layout.other_bits(),
    }
}

/// What follows from the value of a register.
pub open spec fn wp_step(chip: ChipModel, goal: WpGoal, state: WpState, value: u8) -> WpModel {
    match state {
        WpState::Sr1 => if value & 0x80 != 0 {
            WpModel::Stop(Error::StatusLocked)
        } else {
            WpModel::Run {
                script: sr_write(0x01, goal_sr1(chip, goal, value)),
                read: if chip.has_sr23() {
                    0x35
                } else {
                    0x05
                },
                state: if chip.has_sr23() {
                    WpState::Sr2
                } else {
                    WpState::Verify
                },
            }
        },
        WpState::Sr2 => WpModel::Run {
            script: if chip.has_complement() && value & 0x40 != 0 {
                sr_write(0x31, value & !0x40u8)
            } else {
                Seq::empty()
            },
            read: 0x05,
            state: WpState::Verify,
        },
        WpState::Verify => match goal {
            WpGoal::Protect => if value & chip.bp_layout().bp_mask()
                == chip.bp_layout().bp_mask() {
                WpModel::Done
            } else {
                WpModel::Stop(Error::ProtectRejected { readback: value })
            },
            WpGoal::Unprotect => if value & chip.bp_layout().bp_mask() == 0 {
                WpModel::Done
            } else {
                WpModel::Stop(Error::UnprotectRejected { readback: value })
            },
        },
    }
}

fn change_protection(chip: &ResolvedChip, goal: WpGoal, state: WpState, value: u8) -> (r: WpNext)
    ensures
        r@ == wp_step(chip@, goal, state, value),
{
    let layout = bp_layout(chip);
    let (mask, rest): (u8, u8) = (layout.mask(), layout.rest());
    match state {
        WpState::Sr1 => {
            if value & 0x80 != 0 {
                return WpNext::Stop(Error::StatusLocked);
            }
            let new: u8 = match goal {
                WpGoal::Protect => (value & rest) | mask,
                WpGoal::Unprotect => value & rest,
            };
            let script = write_sr(0x01, new);
            if has_sr23(chip) {
                WpNext::Run { script, read: 0x35, state: WpState::Sr2 }
            } else {
                WpNext::Run { script, read: 0x05, state: WpState::Verify }
            }
        },
        WpState::Sr2 => {
            let complement = has_sr23(chip) && !chip.is_gd25q256d() && value & 0x40 != 0;
            let script = if complement {
                write_sr(0x31, value & !0x40u8)
            } else {
                Vec::new()
            };
            assert(!complement ==> script_of(script@) =~= Seq::empty());
            WpNext::Run { script, read: 0x05, state: WpState::Verify }
        },
        WpState::Verify => match goal {
            WpGoal::Protect => if value & mask == mask {
                WpNext::Done
            } else {
                WpNext::Stop(Error::ProtectRejected { readback: value })
            },
            WpGoal::Unprotect => if value & mask == 0 {
                WpNext::Done
            } else {
                WpNext::Stop(Error::UnprotectRejected { readback: value })
            },
        },
    }
}

/// Protects the whole chip: takes the value of the register that `state` waits for and
/// decides what to do next.  SR1 is read first.
pub fn protect_chip(chip: &ResolvedChip, state: WpState, value: u8) -> (r: WpNext)
    ensures
        r@ == wp_step(chip@, WpGoal::Protect, state, value),
{
    change_protection(chip, WpGoal::Protect, state, value)
}

/// Removes the protection of the whole chip, in the same steps.
pub fn unprotect_chip(chip: &ResolvedChip, state: WpState, value: u8) -> (r: WpNext)
    ensures
        r@ == wp_step(chip@, WpGoal::Unprotect, state, value),
{
    change_protection(chip, WpGoal::Unprotect, state, value)
}

/// What protecting writes to SR1 has every BP bit set and states that all of the chip is
/// protected, what unprotecting writes has none set and states that none of it is, both keep what
/// has no part in the protected range, SRP0 among it, and both pass their own check when read
/// back.
pub proof fn law_protection_states_all_or_nothing(chip: ChipModel, sr1: u8)
    requires
        chip.size_bytes > 0,
    ensures
        stated_range(chip, goal_sr1(chip, WpGoal::Protect, sr1), false) == range_text(
            chip.size_bytes,
            chip.size_bytes as int,
            true,
        ),
        stated_range(chip, goal_sr1(chip, WpGoal::Unprotect, sr1), false) == "none"@,
        ({
            let layout = chip.bp_layout();
            let protected = goal_sr1(chip, WpGoal::Protect, sr1);
            let unprotected = goal_sr1(chip, WpGoal::Unprotect, sr1);
            &&& protected & layout.bp_mask() == layout.bp_mask()
            &&& unprotected & layout.bp_mask() == 0
            &&& protected & layout.other_bits() == sr1 & layout.other_bits()
            &&& unprotected & layout.other_bits() == sr1 & layout.other_bits()
            &&& wp_step(chip, WpGoal::Protect, WpState::Verify, protected) == WpModel::Done
            &&& wp_step(chip, WpGoal::Unprotect, WpState::Verify, unprotected) == WpModel::Done
        }),
{
    assert(((sr1 & 0x83) | 0x1C) / 4 % 8 == 7 && ((sr1 & 0x83) | 0x3C) / 4 % 16 == 15 && ((sr1
        & 0xC3) | 0x3C) / 4 % 16 == 15 && ((sr1 & 0x83) | 0x7C) / 4 % 8 == 7) by (bit_vector);
    assert((sr1 & 0x83) / 4 % 8 == 0 && (sr1 & 0x83) / 4 % 16 == 0 && (sr1 & 0xC3) / 4 % 16
        == 0) by (bit_vector);
    assert(((sr1 & 0x83) | 0x1C) & 0x1C == 0x1C && ((sr1 & 0x83) | 0x3C) & 0x3C == 0x3C && ((sr1
        & 0xC3) | 0x3C) & 0x3C == 0x3C && ((sr1 & 0x83) | 0x7C) & 0x7C == 0x7C) by (bit_vector);
    assert((sr1 & 0x83) & 0x1C == 0 && (sr1 & 0x83) & 0x3C == 0 && (sr1 & 0xC3) & 0x3C == 0 && (
    sr1 & 0x83) & 0x7C == 0) by (bit_vector);
    assert(((sr1 & 0x83) | 0x1C) & 0x83 == sr1 & 0x83 && ((sr1 & 0x83) | 0x3C) & 0x83 == sr1
        & 0x83 && ((sr1 & 0xC3) | 0x3C) & 0xC3 == sr1 & 0xC3 && ((sr1 & 0x83) | 0x7C) & 0x83
        == sr1 & 0x83 && (sr1 & 0x83) & 0x83 == sr1 & 0x83 && (sr1 & 0xC3) & 0xC3 == sr1
        & 0xC3) by (bit_vector);
}

/// Where there is no complement bit, a change of the protection leaves SR2 alone.
pub proof fn law_second_register_is_left_alone_without_complement(
    chip: ChipModel,
    goal: WpGoal,
    sr2: u8,
)
    requires
        !chip.has_complement(),
    ensures
        wp_step(chip, goal, WpState::Sr2, sr2) == (WpModel::Run {
            script: Seq::empty(),
            read: 0x05,
            state: WpState::Verify,
        }),
{
}

/// A status register that is locked by SRP0 is never written.
pub proof fn law_locked_status_register_is_left_alone(chip: ChipModel, goal: WpGoal, sr1: u8)
    requires
        sr1 & 0x80 != 0,
    ensures
        wp_step(chip, goal, WpState::Sr1, sr1) == WpModel::Stop(Error::StatusLocked),
{
}

/// Which bits protect blocks, by manufacturer and size: bits 2 to 5 on Winbond parts above 16 MiB,
/// on the GD25Q256D and on Macronix and EON parts, bits 2 to 6 on other GigaDevice parts, bits 2
/// to 4 on all others.
pub proof fn law_protection_bits_go_by_the_part(chip: ChipModel)
    ensures
        ({
            let mask = chip.bp_layout().bp_mask();
            let rest = chip.bp_layout().other_bits();
            &&& chip.mfr == 0xEF && chip.size_bytes > 16 * 1024 * 1024 ==> mask == 0x3C && rest
                == 0x83
            &&& chip.mfr == 0xEF && chip.size_bytes <= 16 * 1024 * 1024 ==> mask == 0x1C && rest
                == 0x83
            &&& chip.mfr == 0xC8 && chip.is_gd25q256d() ==> mask == 0x3C && rest == 0x83
            &&& chip.mfr == 0xC8 && !chip.is_gd25q256d() ==> mask == 0x7C && rest == 0x83
            &&& chip.mfr == 0xC2 || chip.mfr == 0x1C ==> mask == 0x3C && rest == 0xC3
            &&& chip.mfr != 0xEF && chip.mfr != 0xC8 && chip.mfr != 0xC2 && chip.mfr != 0x1C
                ==> mask == 0x1C && rest == 0x83
        }),
{
}

/// The BP value 1 selects one unit, and each next value twice as much, up to the whole chip; 0
/// selects nothing, and the highest value, where the selection is not inverted, everything.
pub proof fn law_each_protection_step_doubles(
    size: u32,
    bp: u8,
    full: u8,
    sec: bool,
    inverted: bool,
)
    requires
        bp < 255,
    ensures
        selected_bytes(size, 0, full, sec, inverted) == 0,
        full > 0 ==> selected_bytes(size, full, full, sec, false) == size,
        full != 1 || inverted ==> selected_bytes(size, 1, full, sec, inverted) == {
            let unit: int = if sec {
                4096
            } else {
                65536
            };
            if unit < size {
                unit
            } else {
                size as int
            }
        },
        0 < bp && (inverted || bp + 1 < full) ==> selected_bytes(
            size,
            (bp + 1) as u8,
            full,
            sec,
            inverted,
        ) == {
            let twice = 2 * selected_bytes(size, bp, full, sec, inverted);
            if twice < size {
                twice
            } else {
                size as int
            }
        },
        0 <= selected_bytes(size, bp, full, sec, inverted) <= size,
{
    vstd::arithmetic::power2::lemma2_to64();
    let unit: int = if sec {
        4096
    } else {
        65536
    };
    if bp > 0 {
        let p = pow2((bp - 1) as nat) as int;
        vstd::arithmetic::power2::lemma_pow2_unfold(bp as nat);
        vstd::arithmetic::power2::lemma_pow2_pos((bp - 1) as nat);
        assert(pow2(bp as nat) == 2 * p);
        assert((2 * p) * unit == 2 * (p * unit)) by (nonlinear_arith);
        assert(p * unit > 0) by (nonlinear_arith)
            requires
                p > 0,
                unit > 0,
        ;
    }
}

/// A selected range is told as nothing, as everything, or as so many KB from the top, or from the
/// bottom where the TB bit is set; an inverted one as the complement of that.
pub proof fn law_protected_range_is_told_in_words(
    size: u32,
    bp: u8,
    full: u8,
    tb: bool,
    sec: bool,
)
    ensures
        ({
            let bytes = selected_bytes(size, bp, full, sec, false);
            let text = selected_range(size, bp, full, tb, sec, false);
            &&& bytes == 0 ==> text == "none"@
            &&& 0 < bytes && bytes == size ==> text == "all ("@ + dec_text(size as nat / 1024)
                + " KB)"@
            &&& 0 < bytes < size && tb ==> text == "lower "@ + dec_text((bytes / 1024) as nat)
                + " KB"@
            &&& 0 < bytes < size && !tb ==> text == "upper "@ + dec_text((bytes / 1024) as nat)
                + " KB"@
        }),
        selected_range(size, bp, full, tb, sec, true) == "complement of "@ + range_text(
            size,
            selected_bytes(size, bp, full, sec, true),
            !tb,
        ),
{
}

/// The first two status registers after a script: a register takes a value that is written to it
/// behind a write enable.
pub open spec fn registers_after(sr1: u8, sr2: u8, script: Seq<OpModel>) -> (u8, u8) {
    if script.len() == 3 && script[0] == (OpModel::Transfer { tx: seq![0x06u8], rx_len: 0 }) {
        match script[1] {
            OpModel::Transfer { tx, rx_len } => if rx_len == 0 && tx.len() == 2 && tx[0] == 0x01 {
                (tx[1], sr2)
            } else if rx_len == 0 && tx.len() == 2 && tx[0] == 0x31 {
                (sr1, tx[1])
            } else {
                (sr1, sr2)
            },
            _ => (sr1, sr2),
        }
    } else {
        (sr1, sr2)
    }
}

/// Whether a script is empty or ends with a wait of half a second.
pub open spec fn waits(script: Seq<OpModel>) -> bool {
    script.len() > 0 ==> (script.last() matches OpModel::WaitReady { polls, interval_ms } && polls
        * interval_ms == 500)
}

/// A change of the protection of a chip whose status register is not locked takes its course:
/// SR1 gets all of its BP bits, or none, and keeps what has no part in the protection; the
/// complement bit of SR2 is cleared where there is one, and the rest of SR2 stays; then SR1 is read
/// back, and the change is done.
pub proof fn law_change_of_protection_takes_its_course(
    chip: ChipModel,
    goal: WpGoal,
    sr1: u8,
    sr2: u8,
)
    requires
        sr1 < 128,
    ensures
        ({
            let mask = chip.bp_layout().bp_mask();
            let rest = chip.bp_layout().other_bits();
            let two = chip.mfr == 0xEF || chip.mfr == 0xC8;
            &&& wp_step(chip, goal, WpState::Sr1, sr1) matches WpModel::Run {
                script: first,
                read: then,
                state: next,
            }
            &&& wp_step(chip, goal, WpState::Sr2, sr2) matches WpModel::Run {
                script: second,
                read: last,
                state: end,
            }
            &&& then == if two {
                0x35u8
            } else {
                0x05u8
            }
            &&& next == if two {
                WpState::Sr2
            } else {
                WpState::Verify
            }
            &&& last == 0x05 && end == WpState::Verify
            &&& waits(first) && waits(second)
            &&& registers_after(sr1, sr2, first).1 == sr2
            &&& {
                let new = registers_after(sr1, sr2, first).0;
                &&& goal == WpGoal::Protect ==> new & mask == mask
                &&& goal == WpGoal::Unprotect ==> new & mask == 0
                &&& new & rest == sr1 & rest
                &&& registers_after(new, sr2, second).0 == new
                &&& wp_step(chip, goal, WpState::Verify, new) == WpModel::Done
            }
            &&& {
                let new = registers_after(sr1, sr2, second).1;
                if two && !chip.is_gd25q256d() && (sr2 / 64) % 2 == 1 {
                    new == sr2 - 64
                } else {
                    new == sr2
                }
            }
        }),
{
    assert(sr1 < 128 ==> sr1 & 0x80 == 0) by (bit_vector);
    assert(sr2 & 0x40 != 0 <==> (sr2 / 64) % 2 == 1) by (bit_vector);
    assert(sr2 & 0x40 != 0 ==> sr2 & !0x40u8 == sr2 - 64) by (bit_vector);
    assert(((sr1 & 0x83) | 0x1C) & 0x1C == 0x1C && ((sr1 & 0x83) | 0x3C) & 0x3C == 0x3C && ((sr1
        & 0xC3) | 0x3C) & 0x3C == 0x3C && ((sr1 & 0x83) | 0x7C) & 0x7C == 0x7C && (sr1 & 0x83)
        & 0x1C == 0 && (sr1 & 0x83) & 0x3C == 0 && (sr1 & 0xC3) & 0x3C == 0 && (sr1 & 0x83) & 0x7C
        == 0) by (bit_vector);
    assert(((sr1 & 0x83) | 0x1C) & 0x83 == sr1 & 0x83 && ((sr1 & 0x83) | 0x3C) & 0x83 == sr1
        & 0x83 && ((sr1 & 0xC3) | 0x3C) & 0xC3 == sr1 & 0xC3 && ((sr1 & 0x83) | 0x7C) & 0x83
        == sr1 & 0x83 && (sr1 & 0x83) & 0x83 == sr1 & 0x83 && (sr1 & 0xC3) & 0xC3 == sr1
        & 0xC3) by (bit_vector);
    let a = sr_write(0x01, goal_sr1(chip, goal, sr1));
    let b = sr_write(0x31, sr2 & !0x40u8);
    assert(a[0]->tx =~= seq![0x06u8]);
    assert(b[0]->tx =~= seq![0x06u8]);
}

/// A read-back that does not show what was asked for is refused, and shown.
pub proof fn law_rejected_change_is_told(chip: ChipModel, value: u8)
    ensures
        ({
            let mask = chip.bp_layout().bp_mask();
            &&& value & mask != mask ==> wp_step(chip, WpGoal::Protect, WpState::Verify, value)
                == WpModel::Stop(Error::ProtectRejected { readback: value })
            &&& value & mask != 0 ==> wp_step(chip, WpGoal::Unprotect, WpState::Verify, value)
                == WpModel::Stop(Error::UnprotectRejected { readback: value })
        }),
{
}

/// What the registers state goes by the bits of the part: the BP field counts from the top or, by
/// the TB bit, from the bottom; in units of 64KB or, by the SEC bit, of 4KB.
pub proof fn law_stated_range_goes_by_the_bits(chip: ChipModel, sr1: u8, inverted: bool)
    ensures
        chip.mfr == 0xEF && chip.size_bytes > 16 * 1024 * 1024 ==> stated_range(chip, sr1, inverted)
            == selected_range(
            chip.size_bytes,
            ((sr1 as int / 4) % 16) as u8,
            15,
            (sr1 as int / 64) % 2 == 1,
            false,
            inverted,
        ),
        chip.mfr == 0xC2 || chip.mfr == 0x1C ==> stated_range(chip, sr1, inverted)
            == selected_range(
            chip.size_bytes,
            ((sr1 as int / 4) % 16) as u8,
            15,
            false,
            false,
            inverted,
        ),
        chip.mfr == 0xEF && chip.size_bytes <= 16 * 1024 * 1024 ==> stated_range(
            chip,
            sr1,
            inverted,
        ) == selected_range(
            chip.size_bytes,
            ((sr1 as int / 4) % 8) as u8,
            7,
            (sr1 as int / 32) % 2 == 1,
            (sr1 as int / 64) % 2 == 1,
            inverted,
        ),
{
}

/// The summary begins with the range and, in brackets, the mode; behind it the registers stand in
/// square brackets, each that was read, by two hexadecimal digits.
pub proof fn law_summary_shows_range_mode_and_registers(wp: WpStatus)
    ensures
        ({
            let text = wp.summary_text();
            let r = wp.range@.len() as int;
            let m = wp.mode@.len() as int;
            let n = text.len() as int;
            &&& text.take(r) == wp.range@
            &&& text.subrange(r, r + 2) == " ("@
            &&& text.subrange(r + 2, r + 2 + m) == wp.mode@
            &&& text[n - 1] == ']'
            &&& wp.sr3 matches Some(v) ==> text.subrange(n - 5, n - 1) == hex_text(v as nat, 2)
            &&& wp.sr3 is None ==> (wp.sr2 matches Some(v) ==> text.subrange(n - 5, n - 1)
                == hex_text(v as nat, 2))
            &&& wp.sr3 is None && wp.sr2 is None ==> text.subrange(n - 5, n - 1) == hex_text(
                wp.sr1 as nat,
                2,
            )
        }),
{
    reveal_strlit(" (");
    reveal_strlit(")");
    reveal_strlit("]");
    reveal_strlit("0x");
    let text = wp.summary_text();
    let r = wp.range@.len() as int;
    let m = wp.mode@.len() as int;
    let n = text.len() as int;
    crate::text::law_byte_takes_two_digits(wp.sr1, false);
    assert(text.take(r) =~= wp.range@);
    assert(text.subrange(r, r + 2) =~= " ("@);
    assert(text.subrange(r + 2, r + 2 + m) =~= wp.mode@);
    match wp.sr3 {
        Some(v) => {
            crate::text::law_byte_takes_two_digits(v, false);
            assert(text.subrange(n - 5, n - 1) =~= hex_text(v as nat, 2));
        },
        None => match wp.sr2 {
            Some(v) => {
                crate::text::law_byte_takes_two_digits(v, false);
                assert(text.subrange(n - 5, n - 1) =~= hex_text(v as nat, 2));
            },
            None => {
                assert(text.subrange(n - 5, n - 1) =~= hex_text(wp.sr1 as nat, 2));
            },
        },
    }
}

/// The protection is enforced by software alone just where neither protect bit is set, for good just
/// where both are, by the pin where only the first is, and until power is cut where only the second
/// is; the second is the lowest bit of the second register, but bit 6 on the GD25Q256D.
pub proof fn law_mode_goes_by_the_protect_bits(chip: ChipModel, sr1: u8, sr2: u8)
    ensures
        ({
            let first = sr1 >= 128;
            let second = if chip.is_gd25q256d() {
                (sr2 as int / 64) % 2 == 1
            } else {
                sr2 as int % 2 == 1
            };
            let mode = mode_text(bit_set(sr1, 128), chip.states_srp1(sr2));
            &&& mode == "software"@ <==> !first && !second
            &&& mode == "permanent (OTP)"@ <==> first && second
            &&& mode == "hardware (WP# pin)"@ <==> first && !second
            &&& mode == "power-cycle"@ <==> !first && second
        }),
{
    reveal_strlit("software");
    reveal_strlit("permanent (OTP)");
    reveal_strlit("hardware (WP# pin)");
    reveal_strlit("power-cycle");
    assert("software"@.len() == 8 && "permanent (OTP)"@.len() == 15);
    assert("hardware (WP# pin)"@.len() == 18 && "power-cycle"@.len() == 11);
    assert(bit_set(sr1, 128) <==> sr1 >= 128);
    assert(bit_set(sr2, 64) <==> (sr2 as int / 64) % 2 == 1);
    assert(bit_set(sr2, 1) <==> sr2 as int % 2 == 1);
}

/// The registers that are read are the first, and the other two just where the chip has them.
pub proof fn law_registers_are_read_by_their_opcodes(chip: ChipModel)
    ensures
        wp_opcodes(chip)[0] == 0x05,
        wp_opcodes(chip).len() == if chip.has_sr23() {
            3int
        } else {
            1
        },
        chip.has_sr23() ==> wp_opcodes(chip)[1] == 0x35 && wp_opcodes(chip)[2] == 0x15,
{
}

} // verus!
