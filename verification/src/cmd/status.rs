//! Status register reports.
use vstd::prelude::*;

use crate::chip::{ResolvedChip, MFR_EON, MFR_GIGADEVICE, MFR_MACRONIX, MFR_WINBOND};
use crate::error::Error;
use crate::spi::bus::{bit_set, has_bit};
use crate::text::{
    begins_with, hex_text, lines_of, push_dec, push_hex, push_line, push_radix, push_text,
    radix_text, starts_with,
};
use crate::units::{MB_16, MB_32};

verus! {

/// The status register layouts that are known.
#[derive(Debug, Clone, Copy, PartialEq, Eq, Structural)]
pub enum StatusDecoder {
    /// W25Q parts of 256Mb and more.
    W25q4BitBp,
    /// Smaller W25Q parts.
    W25q3BitBp,
    Gd25q256d,
    /// Other GD25Q parts.
    Gd25q5BitBp,
    /// F-grade MX25L parts of 128Mb and more.
    Mx25lF { has_4byte_bit: bool },
    Mx25lLegacy,
    En25qh,
}

/// The layout of a chip's status registers, where it is known.
pub open spec fn layout_of(mfr: u8, size_bytes: u32, name: Seq<char>) -> Option<StatusDecoder> {
    if mfr == MFR_WINBOND {
        Some(
            if size_bytes >= MB_32 {
                StatusDecoder::W25q4BitBp
            } else {
                StatusDecoder::W25q3BitBp
            },
        )
    } else if mfr == MFR_GIGADEVICE {
        Some(
            if size_bytes >= MB_32 && begins_with(name, "GD25Q256D"@) {
                StatusDecoder::Gd25q256d
            } else {
                StatusDecoder::Gd25q5BitBp
            },
        )
    } else if mfr == MFR_MACRONIX {
        Some(
            if size_bytes >= MB_16 {
                StatusDecoder::Mx25lF { has_4byte_bit: size_bytes >= MB_32 }
            } else {
                StatusDecoder::Mx25lLegacy
            },
        )
    } else if mfr == MFR_EON {
        Some(StatusDecoder::En25qh)
    } else {
        None
    }
}

/// Chooses the decoder for a chip.
pub fn status_decoder(mfr: u8, size_bytes: u32, name: &str) -> (r: Option<StatusDecoder>)
    ensures
        r == layout_of(mfr, size_bytes, name@),
{
    if mfr == MFR_WINBOND {
        if size_bytes >= MB_32 {
            Some(StatusDecoder::W25q4BitBp)
        } else {
            Some(StatusDecoder::W25q3BitBp)
        }
    } else if mfr == MFR_GIGADEVICE {
        if size_bytes >= MB_32 && starts_with(name, "GD25Q256D") {
            Some(StatusDecoder::Gd25q256d)
        } else {
            Some(StatusDecoder::Gd25q5BitBp)
        }
    } else if mfr == MFR_MACRONIX {
        if size_bytes >= MB_16 {
            Some(StatusDecoder::Mx25lF { has_4byte_bit: size_bytes >= MB_32 })
        } else {
            Some(StatusDecoder::Mx25lLegacy)
        }
    } else if mfr == MFR_EON {
        Some(StatusDecoder::En25qh)
    } else {
        None
    }
}

/// A register as two groups of four binary digits.
pub open spec fn bits_text(reg: u8) -> Seq<char> {
    radix_text((reg / 16) as nat, 2, 4, false) + " "@ + radix_text((reg % 16) as nat, 2, 4, false)
}

/// A register as two groups of four binary digits.
pub fn bits(reg: u8) -> (s: String)
    ensures
        s@ == bits_text(reg),
{
    let mut s = String::new();
    push_radix(&mut s, (reg / 16) as u64, 2, 4, false);
    s.append(" ");
    push_radix(&mut s, (reg % 16) as u64, 2, 4, false);
    assert(s@ =~= bits_text(reg));
    s
}

/// The line that shows a whole register.
pub open spec fn register(title: Seq<char>, reg: u8) -> Seq<char> {
    title + hex_text(reg as nat, 2) + "  "@ + bits_text(reg)
}

fn push_register(out: &mut Vec<String>, title: &str, reg: u8)
    ensures
        lines_of(final(out)@) == lines_of(old(out)@).push(register(title@, reg)),
{
    let mut s = String::new();
    s.append(title);
    push_hex(&mut s, reg as u64, 2);
    s.append("  ");
    let b = bits(reg);
    s.append(b.as_str());
    assert(s@ =~= register(title@, reg));
    push_line(out, s);
}

/// The line that shows one bit: its value, and one of two texts.
pub open spec fn flag(
    head: Seq<char>,
    reg: u8,
    weight: u8,
    mid: Seq<char>,
    off: Seq<char>,
    on: Seq<char>,
    tail: Seq<char>,
) -> Seq<char> {
    head + (if bit_set(reg, weight) {
        "1"@ + mid + on
    } else {
        "0"@ + mid + off
    }) + tail
}

fn push_flag(
    out: &mut Vec<String>,
    head: &str,
    reg: u8,
    weight: u8,
    mid: &str,
    off: &str,
    on: &str,
    tail: &str,
)
    requires
        weight > 0,
    ensures
        lines_of(final(out)@) == lines_of(old(out)@).push(
            flag(head@, reg, weight, mid@, off@, on@, tail@),
        ),
{
    let mut s = String::new();
    s.append(head);
    if has_bit(reg, weight) {
        s.append("1");
        s.append(mid);
        s.append(on);
    } else {
        s.append("0");
        s.append(mid);
        s.append(off);
    }
    s.append(tail);
    assert(s@ =~= flag(head@, reg, weight, mid@, off@, on@, tail@));
    push_line(out, s);
}

/// The line that shows a field of several bits.
pub open spec fn field(
    head: Seq<char>,
    value: u8,
    width: nat,
    mid: Seq<char>,
    text: Seq<char>,
) -> Seq<char> {
    head + radix_text(value as nat, 2, width, false) + mid + text
}

fn push_field(out: &mut Vec<String>, head: &str, value: u8, width: u32, mid: &str, text: &str)
    ensures
        lines_of(final(out)@) == lines_of(old(out)@).push(
            field(head@, value, width as nat, mid@, text@),
        ),
{
    let mut s = String::new();
    s.append(head);
    push_radix(&mut s, value as u64, 2, width, false);
    s.append(mid);
    s.append(text);
    assert(s@ =~= field(head@, value, width as nat, mid@, text@));
    push_line(out, s);
}

/// What a BP field says.
pub open spec fn bp_text(bp: u8) -> Seq<char> {
    if bp == 0 {
        "no block protect"@
    } else {
        "block protect active (see datasheet table for exact range)"@
    }
}

fn bp_summary(bp: u8) -> (r: &'static str)
    ensures
        r@ == bp_text(bp),
{
    if bp == 0 {
        "no block protect"
    } else {
        "block protect active (see datasheet table for exact range)"
    }
}

/// What a 3-bit BP field says.
pub open spec fn bp_short(bp: u8) -> Seq<char> {
    if bp == 0 {
        "no block protect"@
    } else {
        "block protect active"@
    }
}

fn bp_short_summary(bp: u8) -> (r: &'static str)
    ensures
        r@ == bp_short(bp),
{
    if bp == 0 {
        "no block protect"
    } else {
        "block protect active"
    }
}

/// Output driver strength of Winbond and GigaDevice parts.
pub open spec fn drv_text(drv: u8) -> Seq<char> {
    if drv == 0 {
        "100% (default)"@
    } else if drv == 1 {
        "75%"@
    } else if drv == 2 {
        "50%"@
    } else {
        "25%"@
    }
}

fn drv_strength(drv: u8) -> (r: &'static str)
    ensures
        r@ == drv_text(drv),
{
    if drv == 0 {
        "100% (default)"
    } else if drv == 1 {
        "75%"
    } else if drv == 2 {
        "50%"
    } else {
        "25%"
    }
}

/// Output driver strength of Macronix parts.
pub open spec fn ods_text(ods: u8) -> Seq<char> {
    if ods == 1 {
        "90 Ω"@
    } else if ods == 2 {
        "60 Ω"@
    } else if ods == 3 {
        "45 Ω"@
    } else if ods == 5 {
        "20 Ω"@
    } else if ods == 6 {
        "15 Ω"@
    } else if ods == 7 {
        "30 Ω (default)"@
    } else {
        "reserved"@
    }
}

fn mx_ods(ods: u8) -> (r: &'static str)
    ensures
        r@ == ods_text(ods),
{
    if ods == 1 {
        "90 Ω"
    } else if ods == 2 {
        "60 Ω"
    } else if ods == 3 {
        "45 Ω"
    } else if ods == 5 {
        "20 Ω"
    } else if ods == 6 {
        "15 Ω"
    } else if ods == 7 {
        "30 Ω (default)"
    } else {
        "reserved"
    }
}

/// Fast-read dummy cycles of Macronix parts.
pub open spec fn dc_text(dc: u8) -> Seq<char> {
    if dc == 0 {
        "8 (default, ≤104MHz)"@
    } else if dc == 1 {
        "6"@
    } else if dc == 2 {
        "8"@
    } else {
        "10 (≤166MHz)"@
    }
}

fn mx_dc(dc: u8) -> (r: &'static str)
    ensures
        r@ == dc_text(dc),
{
    if dc == 0 {
        "8 (default, ≤104MHz)"
    } else if dc == 1 {
        "6"
    } else if dc == 2 {
        "8"
    } else {
        "10 (≤166MHz)"
    }
}

/// A line that is only there on a condition.
pub open spec fn line_if(cond: bool, line: Seq<char>) -> Seq<Seq<char>> {
    if cond {
        seq![line]
    } else {
        Seq::empty()
    }
}

fn push_if(out: &mut Vec<String>, cond: bool, line: &str)
    ensures
        lines_of(final(out)@) == lines_of(old(out)@) + line_if(cond, line@),
{
    if cond {
        push_text(out, line);
    }
    assert(lines_of(out@) =~= lines_of(old(out)@) + line_if(cond, line@));
}

/// A warning set off by an empty line, that is only there on a condition.
pub open spec fn warning_if(cond: bool, line: Seq<char>) -> Seq<Seq<char>> {
    if cond {
        seq![""@, line]
    } else {
        Seq::empty()
    }
}

fn push_warning(out: &mut Vec<String>, cond: bool, line: &str)
    ensures
        lines_of(final(out)@) == lines_of(old(out)@) + warning_if(cond, line@),
{
    if cond {
        push_text(out, "");
        push_text(out, line);
    }
    assert(lines_of(out@) =~= lines_of(old(out)@) + warning_if(cond, line@));
}

/// The warning about a locked status register: permanently, until the power is cycled, or
/// depending on a pin.
pub open spec fn lock_warning(srp0: bool, srp1: bool, both: Seq<char>, power: Seq<char>) -> Seq<
    Seq<char>,
> {
    warning_if(srp0 && srp1, both) + warning_if(!srp0 && srp1, power) + warning_if(
        srp0 && !srp1,
        "  \x1b[33m! SRP0=1: status register write depends on WP# pin level. \x1b[0m"@,
    )
}

fn push_lock_warning(out: &mut Vec<String>, srp0: bool, srp1: bool, both: &str, power: &str)
    ensures
        lines_of(final(out)@) == lines_of(old(out)@) + lock_warning(srp0, srp1, both@, power@),
{
    push_warning(out, srp0 && srp1, both);
    push_warning(out, !srp0 && srp1, power);
    push_warning(
        out,
        srp0 && !srp1,
        "  \x1b[33m! SRP0=1: status register write depends on WP# pin level. \x1b[0m",
    );
    assert(lines_of(out@) =~= lines_of(old(out)@) + lock_warning(srp0, srp1, both@, power@));
}

/// SR1 with a 4-bit BP field: 4-bit BP, TB, SRP0.
pub open spec fn sr1_4bit_lines(sr1: u8) -> Seq<Seq<char>> {
    seq![
        ""@,
        register("SR1 (0x05) = "@, sr1),
        flag("  BUSY    [0] = "@, sr1, 1, "   "@, "idle"@, "program/erase in progress"@, ""@),
        flag("  WEL     [1] = "@, sr1, 2, "   "@, "write-disabled"@, "write-enabled"@, ""@),
        field("  BP[3:0] [5:2] = "@, (sr1 / 4) % 16, 4, "  "@, bp_text((sr1 / 4) % 16)),
        flag("  TB      [6] = "@, sr1, 64, "   protect from "@, "TOP"@, "BOTTOM"@, ""@),
        flag(
            "  SRP0    [7] = "@,
            sr1,
            128,
            "   "@,
            "status reg writable (software protect)"@,
            "status reg locked (hardware/WP# protect)"@,
            ""@,
        ),
    ]
}

fn push_sr1_4bit(out: &mut Vec<String>, sr1: u8)
    ensures
        lines_of(final(out)@) == lines_of(old(out)@) + sr1_4bit_lines(sr1),
{
    push_text(out, "");
    push_register(out, "SR1 (0x05) = ", sr1);
    push_flag(out, "  BUSY    [0] = ", sr1, 1, "   ", "idle", "program/erase in progress", "");
    push_flag(out, "  WEL     [1] = ", sr1, 2, "   ", "write-disabled", "write-enabled", "");
    push_field(out, "  BP[3:0] [5:2] = ", (sr1 / 4) % 16, 4, "  ", bp_summary((sr1 / 4) % 16));
    push_flag(out, "  TB      [6] = ", sr1, 64, "   protect from ", "TOP", "BOTTOM", "");
    push_flag(
        out,
        "  SRP0    [7] = ",
        sr1,
        128,
        "   ",
        "status reg writable (software protect)",
        "status reg locked (hardware/WP# protect)",
        "",
    );
    assert(lines_of(out@) =~= lines_of(old(out)@) + sr1_4bit_lines(sr1));
}

/// SR1 with a 3-bit BP field: BP, TB, SEC, SRP0.
pub open spec fn sr1_3bit_lines(sr1: u8) -> Seq<Seq<char>> {
    seq![
        ""@,
        register("SR1 (0x05) = "@, sr1),
        flag("  BUSY    [0] = "@, sr1, 1, "   "@, "idle"@, "program/erase in progress"@, ""@),
        flag("  WEL     [1] = "@, sr1, 2, "   "@, "write-disabled"@, "write-enabled"@, ""@),
        field("  BP[2:0] [4:2] = "@, (sr1 / 4) % 8, 3, "  "@, bp_short((sr1 / 4) % 8)),
        flag("  TB      [5] = "@, sr1, 32, "   protect from "@, "TOP"@, "BOTTOM"@, ""@),
        flag(
            "  SEC     [6] = "@,
            sr1,
            64,
            "   protect unit: "@,
            "64KB blocks"@,
            "4KB sectors"@,
            ""@,
        ),
        flag(
            "  SRP0    [7] = "@,
            sr1,
            128,
            "   "@,
            "status reg writable (software protect)"@,
            "status reg locked (hardware/WP# protect)"@,
            ""@,
        ),
    ]
}

fn push_sr1_3bit(out: &mut Vec<String>, sr1: u8)
    ensures
        lines_of(final(out)@) == lines_of(old(out)@) + sr1_3bit_lines(sr1),
{
    push_text(out, "");
    push_register(out, "SR1 (0x05) = ", sr1);
    push_flag(out, "  BUSY    [0] = ", sr1, 1, "   ", "idle", "program/erase in progress", "");
    push_flag(out, "  WEL     [1] = ", sr1, 2, "   ", "write-disabled", "write-enabled", "");
    push_field(out, "  BP[2:0] [4:2] = ", (sr1 / 4) % 8, 3, "  ", bp_short_summary((sr1 / 4) % 8));
    push_flag(out, "  TB      [5] = ", sr1, 32, "   protect from ", "TOP", "BOTTOM", "");
    push_flag(
        out,
        "  SEC     [6] = ",
        sr1,
        64,
        "   protect unit: ",
        "64KB blocks",
        "4KB sectors",
        "",
    );
    push_flag(
        out,
        "  SRP0    [7] = ",
        sr1,
        128,
        "   ",
        "status reg writable (software protect)",
        "status reg locked (hardware/WP# protect)",
        "",
    );
    assert(lines_of(out@) =~= lines_of(old(out)@) + sr1_3bit_lines(sr1));
}

/// SR1 with a 5-bit BP field.
pub open spec fn sr1_5bit_lines(sr1: u8) -> Seq<Seq<char>> {
    seq![
        ""@,
        register("SR1 (0x05) = "@, sr1),
        flag("  BUSY    [0] = "@, sr1, 1, "   "@, "idle"@, "program/erase in progress"@, ""@),
        flag("  WEL     [1] = "@, sr1, 2, "   "@, "write-disabled"@, "write-enabled"@, ""@),
        field("  BP[4:0] [6:2] = "@, (sr1 / 4) % 32, 5, "  "@, bp_text((sr1 / 4) % 32)),
        flag(
            "  SRP0    [7] = "@,
            sr1,
            128,
            "   "@,
            "status reg writable (software protect)"@,
            "status reg locked (hardware/WP# protect)"@,
            ""@,
        ),
    ]
}

fn push_sr1_5bit(out: &mut Vec<String>, sr1: u8)
    ensures
        lines_of(final(out)@) == lines_of(old(out)@) + sr1_5bit_lines(sr1),
{
    push_text(out, "");
    push_register(out, "SR1 (0x05) = ", sr1);
    push_flag(out, "  BUSY    [0] = ", sr1, 1, "   ", "idle", "program/erase in progress", "");
    push_flag(out, "  WEL     [1] = ", sr1, 2, "   ", "write-disabled", "write-enabled", "");
    push_field(out, "  BP[4:0] [6:2] = ", (sr1 / 4) % 32, 5, "  ", bp_summary((sr1 / 4) % 32));
    push_flag(
        out,
        "  SRP0    [7] = ",
        sr1,
        128,
        "   ",
        "status reg writable (software protect)",
        "status reg locked (hardware/WP# protect)",
        "",
    );
    assert(lines_of(out@) =~= lines_of(old(out)@) + sr1_5bit_lines(sr1));
}

/// SR2 of the W25Q series.
pub open spec fn sr2_w25q_lines(sr2: u8) -> Seq<Seq<char>> {
    seq![
        ""@,
        register("SR2 (0x35) = "@, sr2),
        flag(
            "  SRL     [0] = "@,
            sr2,
            1,
            "   "@,
            "not power-cycle locked"@,
            "POWER-CYCLE LOCKED (SRP1)"@,
            ""@,
        ),
        flag("  QE      [1] = "@, sr2, 2, "   quad mode "@, "disabled"@, "ENABLED"@, ""@),
        flag("  LB1     [3] = "@, sr2, 8, "   security reg 1 "@, "unlocked"@, "OTP-LOCKED"@, ""@),
        flag("  LB2     [4] = "@, sr2, 16, "   security reg 2 "@, "unlocked"@, "OTP-LOCKED"@, ""@),
        flag("  LB3     [5] = "@, sr2, 32, "   security reg 3 "@, "unlocked"@, "OTP-LOCKED"@, ""@),
        flag(
            "  CMP     [6] = "@,
            sr2,
            64,
            "   protection "@,
            "normal"@,
            "INVERTED (complement)"@,
            ""@,
        ),
        flag(
            "  SUS     [7] = "@,
            sr2,
            128,
            "   "@,
            "no operation suspended"@,
            "ERASE/PROGRAM SUSPENDED"@,
            ""@,
        ),
    ]
}

fn push_sr2_w25q(out: &mut Vec<String>, sr2: u8)
    ensures
        lines_of(final(out)@) == lines_of(old(out)@) + sr2_w25q_lines(sr2),
{
    push_text(out, "");
    push_register(out, "SR2 (0x35) = ", sr2);
    push_flag(
        out,
        "  SRL     [0] = ",
        sr2,
        1,
        "   ",
        "not power-cycle locked",
        "POWER-CYCLE LOCKED (SRP1)",
        "",
    );
    push_flag(out, "  QE      [1] = ", sr2, 2, "   quad mode ", "disabled", "ENABLED", "");
    push_flag(out, "  LB1     [3] = ", sr2, 8, "   security reg 1 ", "unlocked", "OTP-LOCKED", "");
    push_flag(out, "  LB2     [4] = ", sr2, 16, "   security reg 2 ", "unlocked", "OTP-LOCKED", "");
    push_flag(out, "  LB3     [5] = ", sr2, 32, "   security reg 3 ", "unlocked", "OTP-LOCKED", "");
    push_flag(
        out,
        "  CMP     [6] = ",
        sr2,
        64,
        "   protection ",
        "normal",
        "INVERTED (complement)",
        "",
    );
    push_flag(
        out,
        "  SUS     [7] = ",
        sr2,
        128,
        "   ",
        "no operation suspended",
        "ERASE/PROGRAM SUSPENDED",
        "",
    );
    assert(lines_of(out@) =~= lines_of(old(out)@) + sr2_w25q_lines(sr2));
}

/// SR2 of the GD25Q series below 256Mb.
pub open spec fn sr2_gd25q_lines(sr2: u8) -> Seq<Seq<char>> {
    seq![
        ""@,
        register("SR2 (0x35) = "@, sr2),
        flag(
            "  SRL     [0] = "@,
            sr2,
            1,
            "   "@,
            "not power-cycle locked"@,
            "POWER-CYCLE LOCKED (SRP1)"@,
            ""@,
        ),
        flag("  QE      [1] = "@, sr2, 2, "   quad mode "@, "disabled"@, "ENABLED"@, ""@),
        flag(
            "  SUS2    [2] = "@,
            sr2,
            4,
            "   "@,
            "no program suspended"@,
            "PROGRAM SUSPENDED"@,
            ""@,
        ),
        flag("  LB1     [3] = "@, sr2, 8, "   security reg 1 "@, "unlocked"@, "OTP-LOCKED"@, ""@),
        flag("  LB2     [4] = "@, sr2, 16, "   security reg 2 "@, "unlocked"@, "OTP-LOCKED"@, ""@),
        flag("  LB3     [5] = "@, sr2, 32, "   security reg 3 "@, "unlocked"@, "OTP-LOCKED"@, ""@),
        flag(
            "  CMP     [6] = "@,
            sr2,
            64,
            "   protection "@,
            "normal"@,
            "INVERTED (complement)"@,
            ""@,
        ),
        flag("  SUS1    [7] = "@, sr2, 128, "   "@, "no erase suspended"@, "ERASE SUSPENDED"@, ""@),
    ]
}

fn push_sr2_gd25q(out: &mut Vec<String>, sr2: u8)
    ensures
        lines_of(final(out)@) == lines_of(old(out)@) + sr2_gd25q_lines(sr2),
{
    push_text(out, "");
    push_register(out, "SR2 (0x35) = ", sr2);
    push_flag(
        out,
        "  SRL     [0] = ",
        sr2,
        1,
        "   ",
        "not power-cycle locked",
        "POWER-CYCLE LOCKED (SRP1)",
        "",
    );
    push_flag(out, "  QE      [1] = ", sr2, 2, "   quad mode ", "disabled", "ENABLED", "");
    push_flag(
        out,
        "  SUS2    [2] = ",
        sr2,
        4,
        "   ",
        "no program suspended",
        "PROGRAM SUSPENDED",
        "",
    );
    push_flag(out, "  LB1     [3] = ", sr2, 8, "   security reg 1 ", "unlocked", "OTP-LOCKED", "");
    push_flag(out, "  LB2     [4] = ", sr2, 16, "   security reg 2 ", "unlocked", "OTP-LOCKED", "");
    push_flag(out, "  LB3     [5] = ", sr2, 32, "   security reg 3 ", "unlocked", "OTP-LOCKED", "");
    push_flag(
        out,
        "  CMP     [6] = ",
        sr2,
        64,
        "   protection ",
        "normal",
        "INVERTED (complement)",
        "",
    );
    push_flag(
        out,
        "  SUS1    [7] = ",
        sr2,
        128,
        "   ",
        "no erase suspended",
        "ERASE SUSPENDED",
        "",
    );
    assert(lines_of(out@) =~= lines_of(old(out)@) + sr2_gd25q_lines(sr2));
}

/// SR2 of the GD25Q256D.
pub open spec fn sr2_gd25q256d_lines(sr2: u8) -> Seq<Seq<char>> {
    seq![
        ""@,
        register("SR2 (0x35) = "@, sr2),
        flag("  ADS     [0] = "@, sr2, 1, "   currently in "@, "3"@, "4"@, "-byte address mode"@),
        flag("  QE      [1] = "@, sr2, 2, "   quad mode "@, "disabled"@, "ENABLED"@, ""@),
        flag(
            "  SUS2    [2] = "@,
            sr2,
            4,
            "   "@,
            "no program suspended"@,
            "PROGRAM SUSPENDED"@,
            ""@,
        ),
        flag("  LB1     [3] = "@, sr2, 8, "   security reg 1 "@, "unlocked"@, "OTP-LOCKED"@, ""@),
        flag("  LB2     [4] = "@, sr2, 16, "   security reg 2 "@, "unlocked"@, "OTP-LOCKED"@, ""@),
        flag("  LB3     [5] = "@, sr2, 32, "   security reg 3 "@, "unlocked"@, "OTP-LOCKED"@, ""@),
        flag(
            "  SRP1    [6] = "@,
            sr2,
            64,
            "   "@,
            "not power-cycle locked"@,
            "POWER-CYCLE LOCKED"@,
            ""@,
        ),
        flag("  SUS1    [7] = "@, sr2, 128, "   "@, "no erase suspended"@, "ERASE SUSPENDED"@, ""@),
    ]
}

fn push_sr2_gd25q256d(out: &mut Vec<String>, sr2: u8)
    ensures
        lines_of(final(out)@) == lines_of(old(out)@) + sr2_gd25q256d_lines(sr2),
{
    push_text(out, "");
    push_register(out, "SR2 (0x35) = ", sr2);
    push_flag(out, "  ADS     [0] = ", sr2, 1, "   currently in ", "3", "4", "-byte address mode");
    push_flag(out, "  QE      [1] = ", sr2, 2, "   quad mode ", "disabled", "ENABLED", "");
    push_flag(
        out,
        "  SUS2    [2] = ",
        sr2,
        4,
        "   ",
        "no program suspended",
        "PROGRAM SUSPENDED",
        "",
    );
    push_flag(out, "  LB1     [3] = ", sr2, 8, "   security reg 1 ", "unlocked", "OTP-LOCKED", "");
    push_flag(out, "  LB2     [4] = ", sr2, 16, "   security reg 2 ", "unlocked", "OTP-LOCKED", "");
    push_flag(out, "  LB3     [5] = ", sr2, 32, "   security reg 3 ", "unlocked", "OTP-LOCKED", "");
    push_flag(
        out,
        "  SRP1    [6] = ",
        sr2,
        64,
        "   ",
        "not power-cycle locked",
        "POWER-CYCLE LOCKED",
        "",
    );
    push_flag(
        out,
        "  SUS1    [7] = ",
        sr2,
        128,
        "   ",
        "no erase suspended",
        "ERASE SUSPENDED",
        "",
    );
    assert(lines_of(out@) =~= lines_of(old(out)@) + sr2_gd25q256d_lines(sr2));
}

/// SR3 of W25Q parts with 4-byte addresses.
pub open spec fn sr3_4bit_lines(sr3: u8) -> Seq<Seq<char>> {
    seq![
        ""@,
        register("SR3 (0x15) = "@, sr3),
        flag("  ADS     [0] = "@, sr3, 1, "   currently in "@, "3"@, "4"@, "-byte address mode"@),
        flag("  ADP     [1] = "@, sr3, 2, "   powers up in "@, "3"@, "4"@, "-byte address mode"@),
        flag(
            "  WPS     [2] = "@,
            sr3,
            4,
            "   protection scheme: "@,
            "BP/TB (status register)"@,
            "individual block lock"@,
            ""@,
        ),
        field(
            "  DRV[1:0] [6:5] = "@,
            (sr3 / 32) % 4,
            2,
            "  output driver strength: "@,
            drv_text((sr3 / 32) % 4),
        ),
    ]
}

fn push_sr3_4bit(out: &mut Vec<String>, sr3: u8)
    ensures
        lines_of(final(out)@) == lines_of(old(out)@) + sr3_4bit_lines(sr3),
{
    push_text(out, "");
    push_register(out, "SR3 (0x15) = ", sr3);
    push_flag(out, "  ADS     [0] = ", sr3, 1, "   currently in ", "3", "4", "-byte address mode");
    push_flag(out, "  ADP     [1] = ", sr3, 2, "   powers up in ", "3", "4", "-byte address mode");
    push_flag(
        out,
        "  WPS     [2] = ",
        sr3,
        4,
        "   protection scheme: ",
        "BP/TB (status register)",
        "individual block lock",
        "",
    );
    push_field(
        out,
        "  DRV[1:0] [6:5] = ",
        (sr3 / 32) % 4,
        2,
        "  output driver strength: ",
        drv_strength((sr3 / 32) % 4),
    );
    assert(lines_of(out@) =~= lines_of(old(out)@) + sr3_4bit_lines(sr3));
}

/// SR3 of W25Q parts with 3-byte addresses.
pub open spec fn sr3_3bit_lines(sr3: u8) -> Seq<Seq<char>> {
    seq![
        ""@,
        register("SR3 (0x15) = "@, sr3),
        flag(
            "  WPS     [2] = "@,
            sr3,
            4,
            "   protection scheme: "@,
            "BP/TB/SEC (status register)"@,
            "individual block lock"@,
            ""@,
        ),
        field(
            "  DRV[1:0] [6:5] = "@,
            (sr3 / 32) % 4,
            2,
            "  output driver strength: "@,
            drv_text((sr3 / 32) % 4),
        ),
        flag("  HOLD/RST [7] = "@, sr3, 128, "   pin function: "@, "HOLD#"@, "RESET#"@, ""@),
    ]
}

fn push_sr3_3bit(out: &mut Vec<String>, sr3: u8)
    ensures
        lines_of(final(out)@) == lines_of(old(out)@) + sr3_3bit_lines(sr3),
{
    push_text(out, "");
    push_register(out, "SR3 (0x15) = ", sr3);
    push_flag(
        out,
        "  WPS     [2] = ",
        sr3,
        4,
        "   protection scheme: ",
        "BP/TB/SEC (status register)",
        "individual block lock",
        "",
    );
    push_field(
        out,
        "  DRV[1:0] [6:5] = ",
        (sr3 / 32) % 4,
        2,
        "  output driver strength: ",
        drv_strength((sr3 / 32) % 4),
    );
    push_flag(out, "  HOLD/RST [7] = ", sr3, 128, "   pin function: ", "HOLD#", "RESET#", "");
    assert(lines_of(out@) =~= lines_of(old(out)@) + sr3_3bit_lines(sr3));
}

/// SR3 of the GD25Q series below 256Mb: bit 0 configures dummy cycles, and there is no WPS.
pub open spec fn sr3_gd25q_lines(sr3: u8) -> Seq<Seq<char>> {
    seq![
        ""@,
        register("SR3 (0x15) = "@, sr3),
        flag("  DC      [0] = "@, sr3, 1, "   dummy cycles "@, "default"@, "configured"@, ""@),
        field(
            "  DRV[1:0] [6:5] = "@,
            (sr3 / 32) % 4,
            2,
            "  output driver strength: "@,
            drv_text((sr3 / 32) % 4),
        ),
        flag("  HOLD/RST [7] = "@, sr3, 128, "   pin function: "@, "HOLD#"@, "RESET#"@, ""@),
    ]
}

fn push_sr3_gd25q(out: &mut Vec<String>, sr3: u8)
    ensures
        lines_of(final(out)@) == lines_of(old(out)@) + sr3_gd25q_lines(sr3),
{
    push_text(out, "");
    push_register(out, "SR3 (0x15) = ", sr3);
    push_flag(out, "  DC      [0] = ", sr3, 1, "   dummy cycles ", "default", "configured", "");
    push_field(
        out,
        "  DRV[1:0] [6:5] = ",
        (sr3 / 32) % 4,
        2,
        "  output driver strength: ",
        drv_strength((sr3 / 32) % 4),
    );
    push_flag(out, "  HOLD/RST [7] = ", sr3, 128, "   pin function: ", "HOLD#", "RESET#", "");
    assert(lines_of(out@) =~= lines_of(old(out)@) + sr3_gd25q_lines(sr3));
}

/// SR3 of the GD25Q256D.
pub open spec fn sr3_gd25q256d_lines(sr3: u8) -> Seq<Seq<char>> {
    seq![
        ""@,
        register("SR3 (0x15) = "@, sr3),
        field(
            "  LC[1:0] [1:0] = "@,
            sr3 % 4,
            2,
            "  DTR latency code (DTR-capable parts only)"@,
            ""@,
        ),
        flag("  PE      [2] = "@, sr3, 4, "   "@, "last program OK"@, "PROGRAM ERROR"@, ""@),
        flag("  EE      [3] = "@, sr3, 8, "   "@, "last erase OK"@, "ERASE ERROR"@, ""@),
        flag("  ADP     [4] = "@, sr3, 16, "   powers up in "@, "3"@, "4"@, "-byte address mode"@),
        field(
            "  DRV[1:0] [6:5] = "@,
            (sr3 / 32) % 4,
            2,
            "  output driver strength: "@,
            drv_text((sr3 / 32) % 4),
        ),
        flag("  HOLD/RST [7] = "@, sr3, 128, "   pin function: "@, "HOLD#"@, "RESET#"@, ""@),
    ]
}

fn push_sr3_gd25q256d(out: &mut Vec<String>, sr3: u8)
    ensures
        lines_of(final(out)@) == lines_of(old(out)@) + sr3_gd25q256d_lines(sr3),
{
    push_text(out, "");
    push_register(out, "SR3 (0x15) = ", sr3);
    push_field(
        out,
        "  LC[1:0] [1:0] = ",
        sr3 % 4,
        2,
        "  DTR latency code (DTR-capable parts only)",
        "",
    );
    push_flag(out, "  PE      [2] = ", sr3, 4, "   ", "last program OK", "PROGRAM ERROR", "");
    push_flag(out, "  EE      [3] = ", sr3, 8, "   ", "last erase OK", "ERASE ERROR", "");
    push_flag(out, "  ADP     [4] = ", sr3, 16, "   powers up in ", "3", "4", "-byte address mode");
    push_field(
        out,
        "  DRV[1:0] [6:5] = ",
        (sr3 / 32) % 4,
        2,
        "  output driver strength: ",
        drv_strength((sr3 / 32) % 4),
    );
    push_flag(out, "  HOLD/RST [7] = ", sr3, 128, "   pin function: ", "HOLD#", "RESET#", "");
    assert(lines_of(out@) =~= lines_of(old(out)@) + sr3_gd25q256d_lines(sr3));
}

/// SR of the F-grade MX25L parts.
pub open spec fn sr_mx25l_f_lines(sr: u8) -> Seq<Seq<char>> {
    seq![
        ""@,
        register("SR  (0x05) = "@, sr),
        flag("  WIP     [0] = "@, sr, 1, "   "@, "idle"@, "program/erase in progress"@, ""@),
        flag("  WEL     [1] = "@, sr, 2, "   "@, "write-disabled"@, "write-enabled"@, ""@),
        field("  BP[3:0] [5:2] = "@, (sr / 4) % 16, 4, "  "@, bp_text((sr / 4) % 16)),
        flag("  QE      [6] = "@, sr, 64, "   quad mode "@, "disabled"@, "ENABLED"@, ""@),
        flag(
            "  SRWD    [7] = "@,
            sr,
            128,
            "   "@,
            "status reg writable"@,
            "status reg locked (with WP# pin)"@,
            ""@,
        ),
    ]
}

fn push_sr_mx25l_f(out: &mut Vec<String>, sr: u8)
    ensures
        lines_of(final(out)@) == lines_of(old(out)@) + sr_mx25l_f_lines(sr),
{
    push_text(out, "");
    push_register(out, "SR  (0x05) = ", sr);
    push_flag(out, "  WIP     [0] = ", sr, 1, "   ", "idle", "program/erase in progress", "");
    push_flag(out, "  WEL     [1] = ", sr, 2, "   ", "write-disabled", "write-enabled", "");
    push_field(out, "  BP[3:0] [5:2] = ", (sr / 4) % 16, 4, "  ", bp_summary((sr / 4) % 16));
    push_flag(out, "  QE      [6] = ", sr, 64, "   quad mode ", "disabled", "ENABLED", "");
    push_flag(
        out,
        "  SRWD    [7] = ",
        sr,
        128,
        "   ",
        "status reg writable",
        "status reg locked (with WP# pin)",
        "",
    );
    assert(lines_of(out@) =~= lines_of(old(out)@) + sr_mx25l_f_lines(sr));
}

/// CR of the F-grade MX25L parts, up to bit 4.
pub open spec fn cr_mx25l_f_head_lines(cr: u8) -> Seq<Seq<char>> {
    seq![
        ""@,
        register("CR  (0x15) = "@, cr),
        field("  ODS[2:0] [2:0] = "@, cr % 8, 3, "  output driver: "@, ods_text(cr % 8)),
        flag("  TB      [3] = "@, cr, 8, "   protect from "@, "TOP"@, "BOTTOM"@, " (OTP)"@),
        flag("  reserved [4] = "@, cr, 16, ""@, ""@, ""@, ""@),
    ]
}

fn push_cr_mx25l_f_head(out: &mut Vec<String>, cr: u8)
    ensures
        lines_of(final(out)@) == lines_of(old(out)@) + cr_mx25l_f_head_lines(cr),
{
    push_text(out, "");
    push_register(out, "CR  (0x15) = ", cr);
    push_field(out, "  ODS[2:0] [2:0] = ", cr % 8, 3, "  output driver: ", mx_ods(cr % 8));
    push_flag(out, "  TB      [3] = ", cr, 8, "   protect from ", "TOP", "BOTTOM", " (OTP)");
    push_flag(out, "  reserved [4] = ", cr, 16, "", "", "", "");
    assert(lines_of(out@) =~= lines_of(old(out)@) + cr_mx25l_f_head_lines(cr));
}

/// SR of the legacy MX25L parts.
pub open spec fn sr_mx25l_legacy_lines(sr: u8) -> Seq<Seq<char>> {
    seq![
        ""@,
        register("SR  (0x05) = "@, sr),
        flag("  WIP     [0] = "@, sr, 1, "   "@, "idle"@, "program/erase in progress"@, ""@),
        flag("  WEL     [1] = "@, sr, 2, "   "@, "write-disabled"@, "write-enabled"@, ""@),
        field("  BP[3:0] [5:2] = "@, (sr / 4) % 16, 4, "  "@, bp_text((sr / 4) % 16)),
        flag(
            "  (reserved) [6] = "@,
            sr,
            64,
            "   hard-wired 0 (no QE bit on this generation)"@,
            ""@,
            ""@,
            ""@,
        ),
        flag(
            "  SRWD    [7] = "@,
            sr,
            128,
            "   "@,
            "status reg writable"@,
            "status reg locked (with WP# pin)"@,
            ""@,
        ),
    ]
}

fn push_sr_mx25l_legacy(out: &mut Vec<String>, sr: u8)
    ensures
        lines_of(final(out)@) == lines_of(old(out)@) + sr_mx25l_legacy_lines(sr),
{
    push_text(out, "");
    push_register(out, "SR  (0x05) = ", sr);
    push_flag(out, "  WIP     [0] = ", sr, 1, "   ", "idle", "program/erase in progress", "");
    push_flag(out, "  WEL     [1] = ", sr, 2, "   ", "write-disabled", "write-enabled", "");
    push_field(out, "  BP[3:0] [5:2] = ", (sr / 4) % 16, 4, "  ", bp_summary((sr / 4) % 16));
    push_flag(
        out,
        "  (reserved) [6] = ",
        sr,
        64,
        "   hard-wired 0 (no QE bit on this generation)",
        "",
        "",
        "",
    );
    push_flag(
        out,
        "  SRWD    [7] = ",
        sr,
        128,
        "   ",
        "status reg writable",
        "status reg locked (with WP# pin)",
        "",
    );
    assert(lines_of(out@) =~= lines_of(old(out)@) + sr_mx25l_legacy_lines(sr));
}

/// SR of the EN25QH parts.
pub open spec fn sr_en25qh_lines(sr: u8) -> Seq<Seq<char>> {
    seq![
        ""@,
        register("SR  (0x05) = "@, sr),
        flag("  WIP     [0] = "@, sr, 1, "   "@, "idle"@, "program/erase in progress"@, ""@),
        flag("  WEL     [1] = "@, sr, 2, "   "@, "write-disabled"@, "write-enabled"@, ""@),
        field("  BP[3:0] [5:2] = "@, (sr / 4) % 16, 4, "  "@, bp_text((sr / 4) % 16)),
        flag(
            "  WHDIS   [6] = "@,
            sr,
            64,
            "   WP# and HOLD# pin functions "@,
            "ENABLED (default)"@,
            "DISABLED (pins free for IO2/IO3)"@,
            ""@,
        ),
        flag(
            "  SRP     [7] = "@,
            sr,
            128,
            "   "@,
            "status reg writable"@,
            "status reg locked (with WP# pin) / OTP_LOCK in OTP mode"@,
            ""@,
        ),
    ]
}

fn push_sr_en25qh(out: &mut Vec<String>, sr: u8)
    ensures
        lines_of(final(out)@) == lines_of(old(out)@) + sr_en25qh_lines(sr),
{
    push_text(out, "");
    push_register(out, "SR  (0x05) = ", sr);
    push_flag(out, "  WIP     [0] = ", sr, 1, "   ", "idle", "program/erase in progress", "");
    push_flag(out, "  WEL     [1] = ", sr, 2, "   ", "write-disabled", "write-enabled", "");
    push_field(out, "  BP[3:0] [5:2] = ", (sr / 4) % 16, 4, "  ", bp_summary((sr / 4) % 16));
    push_flag(
        out,
        "  WHDIS   [6] = ",
        sr,
        64,
        "   WP# and HOLD# pin functions ",
        "ENABLED (default)",
        "DISABLED (pins free for IO2/IO3)",
        "",
    );
    push_flag(
        out,
        "  SRP     [7] = ",
        sr,
        128,
        "   ",
        "status reg writable",
        "status reg locked (with WP# pin) / OTP_LOCK in OTP mode",
        "",
    );
    assert(lines_of(out@) =~= lines_of(old(out)@) + sr_en25qh_lines(sr));
}

/// The bits of SR1 that every SPI NOR chip has.
pub open spec fn sr_universal_lines(sr1: u8) -> Seq<Seq<char>> {
    seq![
        ""@,
        register("SR1 (0x05) = "@, sr1),
        flag("  WIP     [0] = "@, sr1, 1, "   "@, "idle"@, "program/erase in progress"@, ""@),
        flag("  WEL     [1] = "@, sr1, 2, "   "@, "write-disabled"@, "write-enabled"@, ""@),
    ]
}

fn push_sr_universal(out: &mut Vec<String>, sr1: u8)
    ensures
        lines_of(final(out)@) == lines_of(old(out)@) + sr_universal_lines(sr1),
{
    push_text(out, "");
    push_register(out, "SR1 (0x05) = ", sr1);
    push_flag(out, "  WIP     [0] = ", sr1, 1, "   ", "idle", "program/erase in progress", "");
    push_flag(out, "  WEL     [1] = ", sr1, 2, "   ", "write-disabled", "write-enabled", "");
    assert(lines_of(out@) =~= lines_of(old(out)@) + sr_universal_lines(sr1));
}

/// The warnings of the W25Q series.
pub open spec fn w25q_warnings(sr1: u8, sr2: u8) -> Seq<Seq<char>> {
    lock_warning(
        bit_set(sr1, 128),
        bit_set(sr2, 1),
        "  \x1b[31m! SRP0=1 and SRL=1: status register permanently locked (OTP). \x1b[0m"@,
        "  \x1b[33m! SRL=1: status register locked until power cycle. \x1b[0m"@,
    ) + line_if(
        bit_set(sr2, 64),
        "  \x1b[33m! CMP=1: protected region is the COMPLEMENT of the BP-defined area. \x1b[0m"@,
    ) + line_if(
        bit_set(sr2, 128),
        "  \x1b[33m! SUS=1: an erase/program is suspended. Issue Resume (0x7A) or power cycle. \x1b[0m"@,
    )
}

fn push_w25q_warnings(out: &mut Vec<String>, sr1: u8, sr2: u8)
    ensures
        lines_of(final(out)@) == lines_of(old(out)@) + w25q_warnings(sr1, sr2),
{
    push_lock_warning(
        out,
        has_bit(sr1, 128),
        has_bit(sr2, 1),
        "  \x1b[31m! SRP0=1 and SRL=1: status register permanently locked (OTP). \x1b[0m",
        "  \x1b[33m! SRL=1: status register locked until power cycle. \x1b[0m",
    );
    push_if(
        out,
        has_bit(sr2, 64),
        "  \x1b[33m! CMP=1: protected region is the COMPLEMENT of the BP-defined area. \x1b[0m",
    );
    push_if(
        out,
        has_bit(sr2, 128),
        "  \x1b[33m! SUS=1: an erase/program is suspended. Issue Resume (0x7A) or power cycle. \x1b[0m",
    );
    assert(lines_of(out@) =~= lines_of(old(out)@) + w25q_warnings(sr1, sr2));
}

/// The report for W25Q parts of 256Mb and more.
pub open spec fn w25q_4bit_report(sr1: u8, sr2: u8, sr3: u8) -> Seq<Seq<char>> {
    sr1_4bit_lines(sr1) + sr2_w25q_lines(sr2) + sr3_4bit_lines(sr3) + w25q_warnings(sr1, sr2)
}

/// Reports the registers of W25Q parts of 256Mb and more: 4-bit BP, TB at SR1\[6\], address
/// mode bits in SR3.
pub fn print_w25q_4bit_bp(sr1: u8, sr2: u8, sr3: u8) -> (out: Vec<String>)
    ensures
        lines_of(out@) == w25q_4bit_report(sr1, sr2, sr3),
{
    let mut out: Vec<String> = Vec::new();
    push_sr1_4bit(&mut out, sr1);
    push_sr2_w25q(&mut out, sr2);
    push_sr3_4bit(&mut out, sr3);
    push_w25q_warnings(&mut out, sr1, sr2);
    assert(lines_of(out@) =~= w25q_4bit_report(sr1, sr2, sr3));
    out
}

/// The report for W25Q parts below 256Mb.
pub open spec fn w25q_3bit_report(sr1: u8, sr2: u8, sr3: u8) -> Seq<Seq<char>> {
    sr1_3bit_lines(sr1) + sr2_w25q_lines(sr2) + sr3_3bit_lines(sr3) + w25q_warnings(sr1, sr2)
}

/// Reports the registers of W25Q parts below 256Mb: 3-bit BP, TB at SR1\[5\], SEC at SR1\[6\],
/// no address mode bits.
pub fn print_w25q_3bit_bp(sr1: u8, sr2: u8, sr3: u8) -> (out: Vec<String>)
    ensures
        lines_of(out@) == w25q_3bit_report(sr1, sr2, sr3),
{
    let mut out: Vec<String> = Vec::new();
    push_sr1_3bit(&mut out, sr1);
    push_sr2_w25q(&mut out, sr2);
    push_sr3_3bit(&mut out, sr3);
    push_w25q_warnings(&mut out, sr1, sr2);
    assert(lines_of(out@) =~= w25q_3bit_report(sr1, sr2, sr3));
    out
}

/// The report for GD25Q parts other than the GD25Q256D.
pub open spec fn gd25q_report(sr1: u8, sr2: u8, sr3: u8) -> Seq<Seq<char>> {
    sr1_5bit_lines(sr1) + sr2_gd25q_lines(sr2) + sr3_gd25q_lines(sr3) + lock_warning(
        bit_set(sr1, 128),
        bit_set(sr2, 1),
        "  \x1b[31m! SRP0=1 and SRL=1: status register permanently locked (OTP). \x1b[0m"@,
        "  \x1b[33m! SRL=1: status register locked until power cycle. \x1b[0m"@,
    ) + line_if(
        bit_set(sr2, 64),
        "  \x1b[33m! CMP=1: protected region is the COMPLEMENT of the BP-defined area. \x1b[0m"@,
    ) + line_if(
        bit_set(sr2, 128) || bit_set(sr2, 4),
        "  \x1b[33m! Suspend active. Issue Resume (0x7A) or power cycle. \x1b[0m"@,
    )
}

/// Reports the registers of GD25Q parts other than the GD25Q256D: 5-bit BP, two suspend
/// bits in SR2, dummy cycle configuration in SR3.
pub fn print_gd25q(sr1: u8, sr2: u8, sr3: u8) -> (out: Vec<String>)
    ensures
        lines_of(out@) == gd25q_report(sr1, sr2, sr3),
{
    let mut out: Vec<String> = Vec::new();
    push_sr1_5bit(&mut out, sr1);
    push_sr2_gd25q(&mut out, sr2);
    push_sr3_gd25q(&mut out, sr3);
    push_lock_warning(
        &mut out,
        has_bit(sr1, 128),
        has_bit(sr2, 1),
        "  \x1b[31m! SRP0=1 and SRL=1: status register permanently locked (OTP). \x1b[0m",
        "  \x1b[33m! SRL=1: status register locked until power cycle. \x1b[0m",
    );
    push_if(
        &mut out,
        has_bit(sr2, 64),
        "  \x1b[33m! CMP=1: protected region is the COMPLEMENT of the BP-defined area. \x1b[0m",
    );
    push_if(
        &mut out,
        has_bit(sr2, 128) || has_bit(sr2, 4),
        "  \x1b[33m! Suspend active. Issue Resume (0x7A) or power cycle. \x1b[0m",
    );
    assert(lines_of(out@) =~= gd25q_report(sr1, sr2, sr3));
    out
}

/// The report for the GD25Q256D.
pub open spec fn gd25q256d_report(sr1: u8, sr2: u8, sr3: u8) -> Seq<Seq<char>> {
    sr1_4bit_lines(sr1) + sr2_gd25q256d_lines(sr2) + sr3_gd25q256d_lines(sr3) + lock_warning(
        bit_set(sr1, 128),
        bit_set(sr2, 64),
        "  \x1b[31m! SRP0=1 and SRP1=1: status register permanently locked (OTP). \x1b[0m"@,
        "  \x1b[33m! SRP1=1: status register locked until power cycle. \x1b[0m"@,
    ) + line_if(
        bit_set(sr3, 4),
        "  \x1b[31m! PE=1: last program operation failed. Clear with Reset. \x1b[0m"@,
    ) + line_if(
        bit_set(sr3, 8),
        "  \x1b[31m! EE=1: last erase operation failed. Clear with Reset. \x1b[0m"@,
    ) + line_if(
        bit_set(sr2, 128) || bit_set(sr2, 4),
        "  \x1b[33m! Suspend active. Issue Resume (0x7A) or power cycle. \x1b[0m"@,
    )
}

/// Reports the registers of the GD25Q256D: SR1 as on large W25Q parts, address mode and SRP1
/// in SR2, error flags and driver strength in SR3.
pub fn print_gd25q256d(sr1: u8, sr2: u8, sr3: u8) -> (out: Vec<String>)
    ensures
        lines_of(out@) == gd25q256d_report(sr1, sr2, sr3),
{
    let mut out: Vec<String> = Vec::new();
    push_sr1_4bit(&mut out, sr1);
    push_sr2_gd25q256d(&mut out, sr2);
    push_sr3_gd25q256d(&mut out, sr3);
    push_lock_warning(
        &mut out,
        has_bit(sr1, 128),
        has_bit(sr2, 64),
        "  \x1b[31m! SRP0=1 and SRP1=1: status register permanently locked (OTP). \x1b[0m",
        "  \x1b[33m! SRP1=1: status register locked until power cycle. \x1b[0m",
    );
    push_if(
        &mut out,
        has_bit(sr3, 4),
        "  \x1b[31m! PE=1: last program operation failed. Clear with Reset. \x1b[0m",
    );
    push_if(
        &mut out,
        has_bit(sr3, 8),
        "  \x1b[31m! EE=1: last erase operation failed. Clear with Reset. \x1b[0m",
    );
    push_if(
        &mut out,
        has_bit(sr2, 128) || has_bit(sr2, 4),
        "  \x1b[33m! Suspend active. Issue Resume (0x7A) or power cycle. \x1b[0m",
    );
    assert(lines_of(out@) =~= gd25q256d_report(sr1, sr2, sr3));
    out
}

/// The report for F-grade MX25L parts.
pub open spec fn mx25l_f_report(sr: u8, cr: u8, has_4byte_bit: bool) -> Seq<Seq<char>> {
    sr_mx25l_f_lines(sr) + cr_mx25l_f_head_lines(cr) + seq![
        if has_4byte_bit {
            flag("  4BYTE   [5] = "@, cr, 32, "   "@, "3"@, "4"@, "-byte address mode"@)
        } else {
            flag("  reserved [5] = "@, cr, 32, ""@, ""@, ""@, ""@)
        },
        field(
            "  DC[1:0] [7:6] = "@,
            (cr / 64) % 4,
            2,
            "  fast-read dummy cycles ("@,
            dc_text((cr / 64) % 4) + ")"@,
        ),
    ] + warning_if(
        bit_set(sr, 128),
        "  \x1b[33m! SRWD=1: hardware-protected mode active when WP# pin is low. \x1b[0m"@,
    ) + line_if(
        bit_set(sr, 64),
        "  \x1b[33m! QE=1: HOLD#/RESET# pin functions disabled; pins act as IO2/IO3. \x1b[0m"@,
    )
}

/// Reports the registers of F-grade MX25L parts: a status and a configuration register.
pub fn print_mx25l_f(sr: u8, cr: u8, has_4byte_bit: bool) -> (out: Vec<String>)
    ensures
        lines_of(out@) == mx25l_f_report(sr, cr, has_4byte_bit),
{
    let mut out: Vec<String> = Vec::new();
    push_sr_mx25l_f(&mut out, sr);
    push_cr_mx25l_f_head(&mut out, cr);
    if has_4byte_bit {
        push_flag(&mut out, "  4BYTE   [5] = ", cr, 32, "   ", "3", "4", "-byte address mode");
    } else {
        push_flag(&mut out, "  reserved [5] = ", cr, 32, "", "", "", "");
    }
    let mut cycles = String::new();
    cycles.append(mx_dc((cr / 64) % 4));
    cycles.append(")");
    assert(cycles@ =~= dc_text((cr / 64) % 4) + ")"@);
    push_field(
        &mut out,
        "  DC[1:0] [7:6] = ",
        (cr / 64) % 4,
        2,
        "  fast-read dummy cycles (",
        cycles.as_str(),
    );
    push_warning(
        &mut out,
        has_bit(sr, 128),
        "  \x1b[33m! SRWD=1: hardware-protected mode active when WP# pin is low. \x1b[0m",
    );
    push_if(
        &mut out,
        has_bit(sr, 64),
        "  \x1b[33m! QE=1: HOLD#/RESET# pin functions disabled; pins act as IO2/IO3. \x1b[0m",
    );
    assert(lines_of(out@) =~= mx25l_f_report(sr, cr, has_4byte_bit));
    out
}

/// The report for legacy MX25L parts.
pub open spec fn mx25l_legacy_report(sr: u8) -> Seq<Seq<char>> {
    sr_mx25l_legacy_lines(sr) + warning_if(
        bit_set(sr, 128),
        "  \x1b[33m! SRWD=1: hardware-protected mode active when WP# pin is low. \x1b[0m"@,
    ) + warning_if(
        bit_set(sr, 64),
        "  \x1b[33m! SR[6]=1 on a part that should hard-wire it to 0 — may be a newer F-grade with QE bit. \x1b[0m"@,
    )
}

/// Reports the register of legacy MX25L parts: one status register, no QE bit.
pub fn print_mx25l_legacy(sr: u8) -> (out: Vec<String>)
    ensures
        lines_of(out@) == mx25l_legacy_report(sr),
{
    let mut out: Vec<String> = Vec::new();
    push_sr_mx25l_legacy(&mut out, sr);
    push_warning(
        &mut out,
        has_bit(sr, 128),
        "  \x1b[33m! SRWD=1: hardware-protected mode active when WP# pin is low. \x1b[0m",
    );
    push_warning(
        &mut out,
        has_bit(sr, 64),
        "  \x1b[33m! SR[6]=1 on a part that should hard-wire it to 0 — may be a newer F-grade with QE bit. \x1b[0m",
    );
    assert(lines_of(out@) =~= mx25l_legacy_report(sr));
    out
}

/// The report for EN25QH parts.
pub open spec fn en25qh_report(sr: u8) -> Seq<Seq<char>> {
    sr_en25qh_lines(sr) + warning_if(
        bit_set(sr, 128) && !bit_set(sr, 64),
        "  \x1b[33m! SRP=1 with WHDIS=0: status reg is hardware-protected when WP# is low. \x1b[0m"@,
    ) + warning_if(
        bit_set(sr, 64),
        "  \x1b[33m! WHDIS=1: WP# and HOLD# pins disabled. Required for quad-mode use of pins 3/7 on 8-pin parts. \x1b[0m"@,
    )
}

/// Reports the register of EN25QH parts: one status register.
pub fn print_en25qh(sr: u8) -> (out: Vec<String>)
    ensures
        lines_of(out@) == en25qh_report(sr),
{
    let mut out: Vec<String> = Vec::new();
    push_sr_en25qh(&mut out, sr);
    push_warning(
        &mut out,
        has_bit(sr, 128) && !has_bit(sr, 64),
        "  \x1b[33m! SRP=1 with WHDIS=0: status reg is hardware-protected when WP# is low. \x1b[0m",
    );
    push_warning(
        &mut out,
        has_bit(sr, 64),
        "  \x1b[33m! WHDIS=1: WP# and HOLD# pins disabled. Required for quad-mode use of pins 3/7 on 8-pin parts. \x1b[0m",
    );
    assert(lines_of(out@) =~= en25qh_report(sr));
    out
}

/// Reports what the status register of every SPI NOR chip says.
pub fn print_universal(sr1: u8) -> (out: Vec<String>)
    ensures
        lines_of(out@) == sr_universal_lines(sr1),
{
    let mut out: Vec<String> = Vec::new();
    push_sr_universal(&mut out, sr1);
    assert(lines_of(out@) =~= sr_universal_lines(sr1));
    out
}

/// The opcodes that read the registers of a layout, in the order they are reported.
pub open spec fn register_opcodes(decoder: Option<StatusDecoder>) -> Seq<u8> {
    match decoder {
        Some(StatusDecoder::W25q4BitBp) => seq![0x05u8, 0x35, 0x15],
        Some(StatusDecoder::W25q3BitBp) => seq![0x05u8, 0x35, 0x15],
        Some(StatusDecoder::Gd25q256d) => seq![0x05u8, 0x35, 0x15],
        Some(StatusDecoder::Gd25q5BitBp) => seq![0x05u8, 0x35, 0x15],
        Some(StatusDecoder::Mx25lF { .. }) => seq![0x05u8, 0x15],
        _ => seq![0x05u8],
    }
}

/// The opcodes that read the registers of a layout.  Of a chip whose layout is not known only
/// the register that every chip has is read.
pub fn registers(decoder: Option<StatusDecoder>) -> (r: Vec<u8>)
    ensures
        r@ == register_opcodes(decoder),
{
    let mut r: Vec<u8> = Vec::new();
    r.push(0x05);
    match decoder {
        Some(StatusDecoder::W25q4BitBp) | Some(StatusDecoder::W25q3BitBp) | Some(
            StatusDecoder::Gd25q256d,
        ) | Some(StatusDecoder::Gd25q5BitBp) => {
            r.push(0x35);
            r.push(0x15);
        },
        Some(StatusDecoder::Mx25lF { .. }) => {
            r.push(0x15);
        },
        _ => {},
    }
    assert(r@ =~= register_opcodes(decoder));
    r
}

/// The report of a layout for the values of its registers.
pub open spec fn report(decoder: Option<StatusDecoder>, regs: Seq<u8>) -> Seq<Seq<char>> {
    match decoder {
        Some(StatusDecoder::W25q4BitBp) => w25q_4bit_report(regs[0], regs[1], regs[2]),
        Some(StatusDecoder::W25q3BitBp) => w25q_3bit_report(regs[0], regs[1], regs[2]),
        Some(StatusDecoder::Gd25q256d) => gd25q256d_report(regs[0], regs[1], regs[2]),
        Some(StatusDecoder::Gd25q5BitBp) => gd25q_report(regs[0], regs[1], regs[2]),
        Some(StatusDecoder::Mx25lF { has_4byte_bit }) => mx25l_f_report(
            regs[0],
            regs[1],
            has_4byte_bit,
        ),
        Some(StatusDecoder::Mx25lLegacy) => mx25l_legacy_report(regs[0]),
        Some(StatusDecoder::En25qh) => en25qh_report(regs[0]),
        None => sr_universal_lines(regs[0]),
    }
}

/// Reports the registers of a chip.
pub fn print(decoder: Option<StatusDecoder>, regs: &[u8]) -> (out: Vec<String>)
    requires
        regs@.len() == register_opcodes(decoder).len(),
    ensures
        lines_of(out@) == report(decoder, regs@),
{
    match decoder {
        Some(StatusDecoder::W25q4BitBp) => print_w25q_4bit_bp(regs[0], regs[1], regs[2]),
        Some(StatusDecoder::W25q3BitBp) => print_w25q_3bit_bp(regs[0], regs[1], regs[2]),
        Some(StatusDecoder::Gd25q256d) => print_gd25q256d(regs[0], regs[1], regs[2]),
        Some(StatusDecoder::Gd25q5BitBp) => print_gd25q(regs[0], regs[1], regs[2]),
        Some(StatusDecoder::Mx25lF { has_4byte_bit }) => print_mx25l_f(
            regs[0],
            regs[1],
            has_4byte_bit,
        ),
        Some(StatusDecoder::Mx25lLegacy) => print_mx25l_legacy(regs[0]),
        Some(StatusDecoder::En25qh) => print_en25qh(regs[0]),
        None => print_universal(regs[0]),
    }
}

/// The value in the reply to a register read.
pub fn register_value(opcode: u8, reply: &[u8]) -> (r: Result<u8, Error>)
    ensures
        r == if reply@.len() > 0 {
            Ok::<u8, Error>(reply@[0])
        } else {
            Err(Error::EmptyStatus { opcode })
        },
{
    if reply.len() > 0 {
        Ok(reply[0])
    } else {
        Err(Error::EmptyStatus { opcode })
    }
}

/// The line that names the chip.
pub open spec fn chip_line(name: Seq<char>, size_bytes: u32) -> Seq<char> {
    "Chip: "@ + name + " ("@ + radix_text((size_bytes / 0x10_0000) as nat, 10, 1, false) + " MB)"@
}

/// The line that names the chip.
pub fn chip_header(chip: &ResolvedChip) -> (s: String)
    ensures
        s@ == chip_line(chip@.name, chip.size_bytes),
{
    let mut s = String::from_str("Chip: ");
    s.append(chip.name.as_str());
    s.append(" (");
    push_dec(&mut s, (chip.size_bytes / 0x10_0000) as u64);
    s.append(" MB)");
    assert(s@ =~= chip_line(chip@.name, chip.size_bytes));
    s
}

/// The line that names the chip tells its size in whole MiB.
pub proof fn law_chip_line_tells_the_size(name: Seq<char>, size: u32, mib: int, rest: int)
    requires
        size == mib * 0x10_0000 + rest,
        0 <= rest < 0x10_0000,
        mib >= 0,
    ensures
        chip_line(name, size) == "Chip: "@ + name + " ("@ + crate::text::dec_text(mib as nat)
            + " MB)"@,
{
    vstd::arithmetic::div_mod::lemma_fundamental_div_mod_converse(
        size as int,
        0x10_0000,
        mib,
        rest,
    );
}

/// The dummy cycles are shown first: six, eight or ten, ten just where both bits are set, and six
/// just where the lower one alone is.
pub proof fn law_dummy_cycles_are_shown_first(dc: u8)
    requires
        dc < 4,
    ensures
        dc_text(dc)[0] == '1' && dc_text(dc)[1] == '0' <==> dc == 3,
        dc_text(dc) == "6"@ <==> dc == 1,
        dc_text(dc)[0] == '8' <==> dc == 0 || dc == 2,
        dc_text(dc).len() == 1 <==> dc == 1 || dc == 2,
{
    reveal_strlit("8 (default, ≤104MHz)");
    reveal_strlit("6");
    reveal_strlit("8");
    reveal_strlit("10 (≤166MHz)");
}

} // verus!
