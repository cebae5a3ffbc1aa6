//! The sfdp command.
use vstd::prelude::*;

use crate::args::VoltageChoice;
use crate::chip::EraseType;
use crate::fpga::Voltage;
use crate::spi::sfdp::{SfdpInfo, SfdpModel};
use crate::text::{dec_text, hex_text, lines_of, push_dec, push_hex, push_line, push_text};

verus! {

/// The voltage for reading SFDP, where one was asked for; else the probe finds it, from 1.8V
/// upwards.
pub fn sfdp_voltage(vc: VoltageChoice) -> (r: Option<Voltage>)
    ensures
        r == match vc {
            VoltageChoice::Auto => None,
            VoltageChoice::Explicit(v) => Some(v),
        },
{
    match vc {
        VoltageChoice::Auto => None,
        VoltageChoice::Explicit(v) => Some(v),
    }
}

/// The word for a yes or no.
pub open spec fn yes_no(b: bool) -> Seq<char> {
    if b {
        "yes"@
    } else {
        "no"@
    }
}

fn yes_or_no(b: bool) -> (r: &'static str)
    ensures
        r@ == yes_no(b),
{
    if b {
        "yes"
    } else {
        "no"
    }
}

/// The line of one erase type: large blocks in KB, others in bytes.
pub open spec fn type_line(t: EraseType) -> Seq<char> {
    "  "@ + hex_text(t.opcode as nat, 2) + "  "@ + (if t.size_bytes >= 65536 {
        dec_text((t.size_bytes / 1024) as nat) + " KB"@
    } else {
        dec_text(t.size_bytes as nat) + " bytes"@
    })
}

/// The lines above the erase types.
pub open spec fn sfdp_head(info: SfdpModel) -> Seq<Seq<char>> {
    seq![
        "SFDP v"@ + dec_text(info.sfdp_rev.0 as nat) + "."@ + dec_text(info.sfdp_rev.1 as nat),
        "Size:       "@ + dec_text((info.size_bytes / 0x10_0000) as nat) + " MB ("@ + dec_text(
            info.size_bytes as nat,
        ) + " bytes)"@,
        "Page:       "@ + dec_text(info.page_size as nat) + " bytes"@,
        "DTR:        "@ + yes_no(info.dtr_supported),
        "Fast Read:  1-1-4="@ + yes_no(info.fast_read_114) + " 1-4-4="@ + yes_no(
            info.fast_read_144,
        ),
        "Erase types:"@,
    ]
}

/// The report, with the first `n` erase types.
pub open spec fn sfdp_lines(info: SfdpModel, n: int) -> Seq<Seq<char>> {
    sfdp_head(info) + Seq::new(n as nat, |i: int| type_line(info.erase_types[i]))
}

/// Reports what SFDP says.
pub fn sfdp_report(info: &SfdpInfo) -> (out: Vec<String>)
    ensures
        lines_of(out@) == sfdp_lines(info@, info@.erase_types.len() as int),
{
    let mut out: Vec<String> = Vec::new();
    let mut s = String::from_str("SFDP v");
    push_dec(&mut s, info.sfdp_rev.0 as u64);
    s.append(".");
    push_dec(&mut s, info.sfdp_rev.1 as u64);
    push_line(&mut out, s);
    let mut s = String::from_str("Size:       ");
    push_dec(&mut s, (info.size_bytes / 0x10_0000) as u64);
    s.append(" MB (");
    push_dec(&mut s, info.size_bytes as u64);
    s.append(" bytes)");
    push_line(&mut out, s);
    let mut s = String::from_str("Page:       ");
    push_dec(&mut s, info.page_size as u64);
    s.append(" bytes");
    push_line(&mut out, s);
    let mut s = String::from_str("DTR:        ");
    s.append(yes_or_no(info.dtr_supported));
    push_line(&mut out, s);
    let mut s = String::from_str("Fast Read:  1-1-4=");
    s.append(yes_or_no(info.fast_read_114));
    s.append(" 1-4-4=");
    s.append(yes_or_no(info.fast_read_144));
    push_line(&mut out, s);
    push_text(&mut out, "Erase types:");
    let mut i: usize = 0;
    assert(lines_of(out@) =~= sfdp_lines(info@, 0));
    while i < info.erase_types.len()
        invariant
            i <= info.erase_types.len(),
            lines_of(out@) =~= sfdp_lines(info@, i as int),
        decreases info.erase_types.len() - i,
    {
        let t = info.erase_types[i];
        let mut s = String::from_str("  ");
        push_hex(&mut s, t.opcode as u64, 2);
        s.append("  ");
        if t.size_bytes >= 65536 {
            push_dec(&mut s, (t.size_bytes / 1024) as u64);
            s.append(" KB");
        } else {
            push_dec(&mut s, t.size_bytes as u64);
            s.append(" bytes");
        }
        assert(s@ =~= type_line(t));
        push_line(&mut out, s);
        i += 1;
    }
    out
}

/// The report of a table tells the size in whole MiB and in bytes, and has one line an erase type,
/// in order: its opcode, and its size in KiB from 64 KiB on, else in bytes.
pub proof fn law_sfdp_report_tells_sizes(info: SfdpModel, mib: int, rest: int, i: int, kib: int)
    requires
        info.size_bytes == mib * 0x10_0000 + rest,
        0 <= rest < 0x10_0000,
        mib >= 0,
        0 <= i < info.erase_types.len(),
        kib >= 0,
    ensures
        ({
            let lines = sfdp_lines(info, info.erase_types.len() as int);
            let t = info.erase_types[i];
            &&& lines.len() == 6 + info.erase_types.len()
            &&& lines[1] == "Size:       "@ + dec_text(mib as nat) + " MB ("@ + dec_text(
                info.size_bytes as nat,
            ) + " bytes)"@
            &&& t.size_bytes == kib * 1024 && kib >= 64 ==> lines[6 + i] == "  "@ + hex_text(
                t.opcode as nat,
                2,
            ) + "  "@ + (dec_text(kib as nat) + " KB"@)
            &&& t.size_bytes < 65536 ==> lines[6 + i] == "  "@ + hex_text(t.opcode as nat, 2)
                + "  "@ + (dec_text(t.size_bytes as nat) + " bytes"@)
        }),
{
    vstd::arithmetic::div_mod::lemma_fundamental_div_mod_converse(
        info.size_bytes as int,
        0x10_0000,
        mib,
        rest,
    );
}

} // verus!
