//! The watch command.
use vstd::prelude::*;

use crate::chip::{ChipModel, ResolvedChip};
use crate::cmd::detect::{voltage_name, voltage_text};
use crate::fpga::Voltage;
use crate::text::{dec_text, hex_text, lines_of, push_dec, push_hex, push_line, push_text};

verus! {

/// The lines that announce a programmer that was plugged in.
pub fn connected_report(pid: u16) -> (out: Vec<String>)
    ensures
        lines_of(out@) == seq![
            ""@,
            "FlashcatUSB connected (PID "@ + hex_text(pid as nat, 4) + ")"@,
        ],
{
    let mut out: Vec<String> = Vec::new();
    push_text(&mut out, "");
    let mut s = String::from_str("FlashcatUSB connected (PID ");
    push_hex(&mut s, pid as u64, 4);
    s.append(")");
    push_line(&mut out, s);
    assert(lines_of(out@) =~= seq![
        ""@,
        "FlashcatUSB connected (PID "@ + hex_text(pid as nat, 4) + ")"@,
    ]);
    out
}

/// The report of a chip that was found.
pub open spec fn watch_lines(chip: ChipModel, voltage: Voltage) -> Seq<Seq<char>> {
    seq![
        "Chip:    "@ + chip.name,
        "Size:    "@ + dec_text((chip.size_bytes / 0x10_0000) as nat) + " MB ("@ + dec_text(
            chip.size_bytes as nat,
        ) + " bytes)"@,
        "Erase:   "@ + dec_text(chip.erase_size as nat) + " bytes | Page: "@ + dec_text(
            chip.page_size as nat,
        ) + " bytes | Addr: "@ + dec_text(chip.addr_bytes as nat) + "-byte"@,
        "Voltage: "@ + voltage_text(voltage),
    ]
}

/// Reports a chip that was found.
pub fn watch_report(chip: &ResolvedChip, voltage: Voltage) -> (out: Vec<String>)
    ensures
        lines_of(out@) == watch_lines(chip@, voltage),
{
    let mut out: Vec<String> = Vec::new();
    let mut s = String::from_str("Chip:    ");
    s.append(chip.name.as_str());
    push_line(&mut out, s);
    let mut s = String::from_str("Size:    ");
    push_dec(&mut s, (chip.size_bytes / 0x10_0000) as u64);
    s.append(" MB (");
    push_dec(&mut s, chip.size_bytes as u64);
    s.append(" bytes)");
    push_line(&mut out, s);
    let mut s = String::from_str("Erase:   ");
    push_dec(&mut s, chip.erase_size as u64);
    s.append(" bytes | Page: ");
    push_dec(&mut s, chip.page_size as u64);
    s.append(" bytes | Addr: ");
    push_dec(&mut s, chip.addr_bytes as u64);
    s.append("-byte");
    push_line(&mut out, s);
    let mut s = String::from_str("Voltage: ");
    s.append(voltage_name(voltage));
    push_line(&mut out, s);
    assert(lines_of(out@) =~= watch_lines(chip@, voltage));
    out
}

/// The report of a chip tells its size in whole MiB and in bytes.
pub proof fn law_watch_report_tells_the_size(
    chip: ChipModel,
    voltage: Voltage,
    mib: int,
    rest: int,
)
    requires
        chip.size_bytes == mib * 0x10_0000 + rest,
        0 <= rest < 0x10_0000,
        mib >= 0,
    ensures
        watch_lines(chip, voltage)[1] == "Size:    "@ + dec_text(mib as nat) + " MB ("@ + dec_text(
            chip.size_bytes as nat,
        ) + " bytes)"@,
{
    vstd::arithmetic::div_mod::lemma_fundamental_div_mod_converse(
        chip.size_bytes as int,
        0x10_0000,
        mib,
        rest,
    );
}

} // verus!
