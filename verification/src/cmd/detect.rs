//! The detect command.
use vstd::prelude::*;

use crate::args::VoltageChoice;
use crate::chip::{ChipModel, ParamSource, ResolvedChip};
use crate::fpga::Voltage;
use crate::spi::detect::is_blank_id;
use crate::spi::sfdp::{SfdpInfo, SfdpModel};
use crate::text::{dec_text, lines_of, push_dec, push_line, push_radix, push_text, radix_text};

verus! {

/// The name of a voltage.
pub open spec fn voltage_text(v: Voltage) -> Seq<char> {
    match v {
        Voltage::V1_8 => "V1_8"@,
        Voltage::V3_3 => "V3_3"@,
        Voltage::V5_0 => "V5_0"@,
    }
}

/// The name of a voltage.
pub fn voltage_name(v: Voltage) -> (r: &'static str)
    ensures
        r@ == voltage_text(v),
{
    match v {
        Voltage::V1_8 => "V1_8",
        Voltage::V3_3 => "V3_3",
        Voltage::V5_0 => "V5_0",
    }
}

/// What is said of a chip's SFDP.
pub open spec fn source_text(source: ParamSource) -> Seq<char> {
    match source {
        ParamSource::DatabaseWithSfdp => "yes"@,
        ParamSource::DatabaseWithPartialSfdp => "partial (pre-JESD216A)"@,
        ParamSource::Sfdp => "yes (no DB match)"@,
        ParamSource::Database => "no"@,
    }
}

fn source_name(source: ParamSource) -> (r: &'static str)
    ensures
        r@ == source_text(source),
{
    match source {
        ParamSource::DatabaseWithSfdp => "yes",
        ParamSource::DatabaseWithPartialSfdp => "partial (pre-JESD216A)",
        ParamSource::Sfdp => "yes (no DB match)",
        ParamSource::Database => "no",
    }
}

/// The report of a chip, with what is to be said of its write protection.
pub open spec fn detect_lines(chip: ChipModel, voltage: Voltage, wp: Seq<char>) -> Seq<Seq<char>> {
    seq![
        "Chip:      "@ + chip.name,
        "Size:      "@ + dec_text((chip.size_bytes / 0x10_0000) as nat) + " MB ("@ + dec_text(
            chip.size_bytes as nat,
        ) + " bytes)"@,
        "Page:      "@ + dec_text(chip.page_size as nat) + " bytes"@,
        "Erase:     "@ + dec_text(chip.erase_size as nat) + " bytes"@,
        "Addr:      "@ + dec_text(chip.addr_bytes as nat) + "-byte"@,
        "Voltage:   "@ + voltage_text(voltage),
        "SFDP:      "@ + source_text(chip.source),
        "WP:        "@ + wp,
    ]
}

/// Reports a chip, with what is to be said of its write protection.
pub fn detect_report(chip: &ResolvedChip, voltage: Voltage, wp: &str) -> (out: Vec<String>)
    ensures
        lines_of(out@) == detect_lines(chip@, voltage, wp@),
{
    let mut out: Vec<String> = Vec::new();
    let mut s = String::from_str("Chip:      ");
    s.append(chip.name.as_str());
    push_line(&mut out, s);
    let mut s = String::from_str("Size:      ");
    push_dec(&mut s, (chip.size_bytes / 0x10_0000) as u64);
    s.append(" MB (");
    push_dec(&mut s, chip.size_bytes as u64);
    s.append(" bytes)");
    push_line(&mut out, s);
    let mut s = String::from_str("Page:      ");
    push_dec(&mut s, chip.page_size as u64);
    s.append(" bytes");
    push_line(&mut out, s);
    let mut s = String::from_str("Erase:     ");
    push_dec(&mut s, chip.erase_size as u64);
    s.append(" bytes");
    push_line(&mut out, s);
    let mut s = String::from_str("Addr:      ");
    push_dec(&mut s, chip.addr_bytes as u64);
    s.append("-byte");
    push_line(&mut out, s);
    let mut s = String::from_str("Voltage:   ");
    s.append(voltage_name(voltage));
    push_line(&mut out, s);
    let mut s = String::from_str("SFDP:      ");
    s.append(source_name(chip.source));
    push_line(&mut out, s);
    let mut s = String::from_str("WP:        ");
    s.append(wp);
    push_line(&mut out, s);
    assert(lines_of(out@) =~= detect_lines(chip@, voltage, wp@));
    out
}

/// The voltages that a diagnostic probe tries: the one that was asked for and no other, or
/// 1.8V before 3.3V.
pub fn diagnostic_voltages(vc: VoltageChoice) -> (r: [Option<Voltage>; 2])
    ensures
        r@ == match vc {
            VoltageChoice::Auto => seq![Some(Voltage::V1_8), Some(Voltage::V3_3)],
            VoltageChoice::Explicit(v) => seq![Some(v), None],
        },
{
    let r: [Option<Voltage>; 2] = match vc {
        VoltageChoice::Auto => [Some(Voltage::V1_8), Some(Voltage::V3_3)],
        VoltageChoice::Explicit(v) => [Some(v), None],
    };
    assert(r@ =~= match vc {
        VoltageChoice::Auto => seq![Some(Voltage::V1_8), Some(Voltage::V3_3)],
        VoltageChoice::Explicit(v) => seq![Some(v), None],
    });
    r
}

/// The name of a manufacturer.
pub open spec fn vendor_text(mfr: u8) -> Seq<char> {
    if mfr == 0x01 {
        "Spansion/Cypress"@
    } else if mfr == 0x1C {
        "EON"@
    } else if mfr == 0x1F {
        "Atmel/Adesto"@
    } else if mfr == 0x20 {
        "Micron/Numonyx"@
    } else if mfr == 0x37 {
        "AMIC"@
    } else if mfr == 0x52 {
        "ESMT"@
    } else if mfr == 0x68 {
        "Boya"@
    } else if mfr == 0x85 {
        "PUYA"@
    } else if mfr == 0x9D {
        "ISSI"@
    } else if mfr == 0xBF {
        "SST/Microchip"@
    } else if mfr == 0xC2 {
        "Macronix"@
    } else if mfr == 0xC8 {
        "GigaDevice"@
    } else if mfr == 0xEF {
        "Winbond"@
    } else {
        "unknown vendor"@
    }
}

/// The name of a manufacturer.
pub fn vendor_name(mfr: u8) -> (r: &'static str)
    ensures
        r@ == vendor_text(mfr),
{
    if mfr == 0x01 {
        "Spansion/Cypress"
    } else if mfr == 0x1C {
        "EON"
    } else if mfr == 0x1F {
        "Atmel/Adesto"
    } else if mfr == 0x20 {
        "Micron/Numonyx"
    } else if mfr == 0x37 {
        "AMIC"
    } else if mfr == 0x52 {
        "ESMT"
    } else if mfr == 0x68 {
        "Boya"
    } else if mfr == 0x85 {
        "PUYA"
    } else if mfr == 0x9D {
        "ISSI"
    } else if mfr == 0xBF {
        "SST/Microchip"
    } else if mfr == 0xC2 {
        "Macronix"
    } else if mfr == 0xC8 {
        "GigaDevice"
    } else if mfr == 0xEF {
        "Winbond"
    } else {
        "unknown vendor"
    }
}

/// The line about an identifier.
pub open spec fn rdid_text(id: Seq<u8>) -> Seq<char> {
    if id[0] == 0xFF && id[1] == 0xFF && id[2] == 0xFF {
        "    RDID = FF FF FF  (no response — chip not powered, mis-seated, or wrong voltage)"@
    } else if id[0] == 0x00 && id[1] == 0x00 && id[2] == 0x00 {
        "    RDID = 00 00 00  (no response — chip floating, missing pull-ups, or dead)"@
    } else {
        "    RDID = "@ + radix_text(id[0] as nat, 16, 2, true) + " "@ + radix_text(
            id[1] as nat,
            16,
            2,
            true,
        ) + " "@ + radix_text(id[2] as nat, 16, 2, true) + "  ("@ + vendor_text(id[0]) + ")"@
    }
}

/// Whether an identifier answers at all, so that SFDP is worth reading.
pub fn answers(id: [u8; 3]) -> (r: bool)
    ensures
        r == !(id@[0] == 0xFF && id@[1] == 0xFF && id@[2] == 0xFF || id@[0] == 0x00 && id@[1]
            == 0x00 && id@[2] == 0x00),
{
    !((id[0] == 0xFF && id[1] == 0xFF && id[2] == 0xFF) || (id[0] == 0x00 && id[1] == 0x00 && id[2]
        == 0x00))
}

/// Whether a diagnostic probe resets the chip and asks again.
pub fn worth_a_reset(id: [u8; 3]) -> (r: bool)
    ensures
        r == (id@[0] == 0xFF || id@[0] == 0x00),
{
    is_blank_id(id[0])
}

/// The line about an identifier.
pub fn rdid_line(id: [u8; 3]) -> (s: String)
    ensures
        s@ == rdid_text(id@),
{
    if id[0] == 0xFF && id[1] == 0xFF && id[2] == 0xFF {
        return "    RDID = FF FF FF  (no response — chip not powered, mis-seated, or wrong voltage)".to_owned();
    }
    if id[0] == 0x00 && id[1] == 0x00 && id[2] == 0x00 {
        return "    RDID = 00 00 00  (no response — chip floating, missing pull-ups, or dead)".to_owned();
    }
    let mut s = String::from_str("    RDID = ");
    push_radix(&mut s, id[0] as u64, 16, 2, true);
    s.append(" ");
    push_radix(&mut s, id[1] as u64, 16, 2, true);
    s.append(" ");
    push_radix(&mut s, id[2] as u64, 16, 2, true);
    s.append("  (");
    s.append(vendor_name(id[0]));
    s.append(")");
    assert(s@ =~= rdid_text(id@));
    s
}

/// The line about SFDP.
pub open spec fn sfdp_text(info: Option<SfdpModel>) -> Seq<char> {
    match info {
        Some(i) => "    SFDP = present (rev "@ + dec_text(i.sfdp_rev.0 as nat) + "."@ + dec_text(
            i.sfdp_rev.1 as nat,
        ) + ", size "@ + dec_text((i.size_bytes / 0x10_0000) as nat) + " MB, page "@ + dec_text(
            i.page_size as nat,
        ) + " B)"@,
        None => "    SFDP = absent or unreadable"@,
    }
}

/// The line about SFDP.
pub fn sfdp_line(info: &Option<SfdpInfo>) -> (s: String)
    ensures
        s@ == sfdp_text(crate::spi::detect::info_view(*info)),
{
    match info {
        Some(i) => {
            let mut s = String::from_str("    SFDP = present (rev ");
            push_dec(&mut s, i.sfdp_rev.0 as u64);
            s.append(".");
            push_dec(&mut s, i.sfdp_rev.1 as u64);
            s.append(", size ");
            push_dec(&mut s, (i.size_bytes / 0x10_0000) as u64);
            s.append(" MB, page ");
            push_dec(&mut s, i.page_size as u64);
            s.append(" B)");
            assert(s@ =~= sfdp_text(Some(i@)));
            s
        },
        None => String::from_str("    SFDP = absent or unreadable"),
    }
}

/// The lines that begin a diagnostic probe at a voltage.
pub fn probe_heading(voltage: Voltage) -> (out: Vec<String>)
    ensures
        lines_of(out@) == seq![""@, "  probe @ "@ + voltage_text(voltage) + ":"@],
{
    let mut out: Vec<String> = Vec::new();
    push_text(&mut out, "");
    let mut s = String::from_str("  probe @ ");
    s.append(voltage_name(voltage));
    s.append(":");
    push_line(&mut out, s);
    assert(lines_of(out@) =~= seq![""@, "  probe @ "@ + voltage_text(voltage) + ":"@]);
    out
}

/// The report of a chip tells its size in whole MiB and in bytes, its page and its sector in bytes,
/// its address width and the voltage.
pub proof fn law_detect_report_tells_the_geometry(
    chip: ChipModel,
    voltage: Voltage,
    wp: Seq<char>,
    mib: int,
    rest: int,
)
    requires
        chip.size_bytes == mib * 0x10_0000 + rest,
        0 <= rest < 0x10_0000,
        mib >= 0,
    ensures
        ({
            let lines = detect_lines(chip, voltage, wp);
            &&& lines.len() == 8
            &&& lines[0] == "Chip:      "@ + chip.name
            &&& lines[1] == "Size:      "@ + dec_text(mib as nat) + " MB ("@ + dec_text(
                chip.size_bytes as nat,
            ) + " bytes)"@
            &&& lines[2] == "Page:      "@ + dec_text(chip.page_size as nat) + " bytes"@
            &&& lines[3] == "Erase:     "@ + dec_text(chip.erase_size as nat) + " bytes"@
            &&& lines[4] == "Addr:      "@ + dec_text(chip.addr_bytes as nat) + "-byte"@
            &&& lines[5] == "Voltage:   "@ + voltage_text(voltage)
            &&& lines[7] == "WP:        "@ + wp
        }),
{
    vstd::arithmetic::div_mod::lemma_fundamental_div_mod_converse(
        chip.size_bytes as int,
        0x10_0000,
        mib,
        rest,
    );
}

/// An identifier is shown byte by byte, whatever it is, and the manufacturer by name just where
/// the bytes are neither all ones nor all zeros.
pub proof fn law_identifier_is_shown_byte_by_byte(id: Seq<u8>)
    requires
        id.len() == 3,
    ensures
        rdid_text(id).subrange(11, 13) == radix_text(id[0] as nat, 16, 2, true),
        rdid_text(id).subrange(14, 16) == radix_text(id[1] as nat, 16, 2, true),
        rdid_text(id).subrange(17, 19) == radix_text(id[2] as nat, 16, 2, true),
        id != seq![0xFFu8, 0xFF, 0xFF] && id != seq![0u8, 0, 0] ==> rdid_text(id).skip(19) == "  ("@
            + vendor_text(id[0]) + ")"@,
        id == seq![0xFFu8, 0xFF, 0xFF] || id == seq![0u8, 0, 0] ==> rdid_text(id).subrange(22, 34)
            == "no response "@,
{
    reveal_strlit(
        "    RDID = FF FF FF  (no response — chip not powered, mis-seated, or wrong voltage)",
    );
    reveal_strlit("    RDID = 00 00 00  (no response — chip floating, missing pull-ups, or dead)");
    reveal_strlit("    RDID = ");
    reveal_strlit(" ");
    reveal_strlit("no response ");
    reveal_with_fuel(radix_text, 3);
    let text = rdid_text(id);
    assert(radix_text(255, 16, 2, true) =~= seq!['F', 'F']);
    assert(radix_text(0, 16, 2, true) =~= seq!['0', '0']);
    if id[0] == 0xFF && id[1] == 0xFF && id[2] == 0xFF {
        assert(id =~= seq![0xFFu8, 0xFF, 0xFF]);
        assert(text.subrange(22, 34) =~= "no response "@);
    } else if id[0] == 0 && id[1] == 0 && id[2] == 0 {
        assert(id =~= seq![0u8, 0, 0]);
        assert(text.subrange(22, 34) =~= "no response "@);
    } else {
        crate::text::law_byte_takes_two_digits(id[0], true);
        crate::text::law_byte_takes_two_digits(id[1], true);
        crate::text::law_byte_takes_two_digits(id[2], true);
        assert(text.skip(19) =~= "  ("@ + vendor_text(id[0]) + ")"@);
    }
    assert(text.subrange(11, 13) =~= radix_text(id[0] as nat, 16, 2, true));
    assert(text.subrange(14, 16) =~= radix_text(id[1] as nat, 16, 2, true));
    assert(text.subrange(17, 19) =~= radix_text(id[2] as nat, 16, 2, true));
}

/// The size that a table states is told in whole MiB.
pub proof fn law_table_line_tells_the_size(info: SfdpModel, mib: int, rest: int)
    requires
        info.size_bytes == mib * 0x10_0000 + rest,
        0 <= rest < 0x10_0000,
        mib >= 0,
    ensures
        sfdp_text(Some(info)) == "    SFDP = present (rev "@ + dec_text(info.sfdp_rev.0 as nat)
            + "."@ + dec_text(info.sfdp_rev.1 as nat) + ", size "@ + dec_text(mib as nat)
            + " MB, page "@ + dec_text(info.page_size as nat) + " B)"@,
        sfdp_text(None) == "    SFDP = absent or unreadable"@,
{
    vstd::arithmetic::div_mod::lemma_fundamental_div_mod_converse(
        info.size_bytes as int,
        0x10_0000,
        mib,
        rest,
    );
}

/// Every manufacturer that a rule of the library singles out is shown by its own name, and two
/// that are known never share one.
pub proof fn law_manufacturers_have_their_names(a: u8, b: u8)
    ensures
        vendor_text(crate::chip::MFR_SPANSION) == "Spansion/Cypress"@,
        vendor_text(crate::chip::MFR_EON) == "EON"@,
        vendor_text(crate::chip::MFR_MICRON) == "Micron/Numonyx"@,
        vendor_text(crate::chip::MFR_ISSI) == "ISSI"@,
        vendor_text(crate::chip::MFR_MACRONIX) == "Macronix"@,
        vendor_text(crate::chip::MFR_GIGADEVICE) == "GigaDevice"@,
        vendor_text(crate::chip::MFR_WINBOND) == "Winbond"@,
        vendor_text(0x1F) == "Atmel/Adesto"@,
        vendor_text(0x37) == "AMIC"@,
        vendor_text(0x52) == "ESMT"@,
        vendor_text(0x68) == "Boya"@,
        vendor_text(0x85) == "PUYA"@,
        vendor_text(0xBF) == "SST/Microchip"@,
        vendor_text(a) == vendor_text(b) ==> a == b || vendor_text(a) == "unknown vendor"@,
{
    reveal_strlit("Spansion/Cypress");
    reveal_strlit("EON");
    reveal_strlit("Atmel/Adesto");
    reveal_strlit("Micron/Numonyx");
    reveal_strlit("AMIC");
    reveal_strlit("ESMT");
    reveal_strlit("Boya");
    reveal_strlit("PUYA");
    reveal_strlit("ISSI");
    reveal_strlit("SST/Microchip");
    reveal_strlit("Macronix");
    reveal_strlit("GigaDevice");
    reveal_strlit("Winbond");
    reveal_strlit("unknown vendor");
    let (s, t) = (vendor_text(a), vendor_text(b));
    assert(s.len() == t.len() && s[0] == t[0] && s[1] == t[1] ==> a == b || s == "unknown vendor"@);
}

} // verus!
