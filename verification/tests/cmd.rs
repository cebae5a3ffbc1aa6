//! What the commands decide and report.
use flashcat::args::VoltageChoice;
use flashcat::bios::layout::{parse_layout, RegionSource};
use flashcat::chip::{EraseType, ParamSource, ResolvedChip, MFR_MACRONIX};
use flashcat::cmd::check::check_report;
use flashcat::cmd::compare::{
    compare, count_diffs, hex, length_to_compare, probable_missing_erase, report_comparison,
};
use flashcat::cmd::detect::{
    answers, detect_report, diagnostic_voltages, probe_heading, rdid_line, sfdp_line, vendor_name,
    worth_a_reset,
};
use flashcat::cmd::erase::{erase_target, erased_line, EraseTarget};
use flashcat::cmd::lock::{lock_report, lock_target, unlock_report, LockTarget};
use flashcat::cmd::protect::protect_report;
use flashcat::cmd::range::{available_regions, effective_range, selection, Selection};
use flashcat::cmd::read::{check_quad, saved_line};
use flashcat::cmd::sfdp::{sfdp_report, sfdp_voltage};
use flashcat::cmd::status::{
    bits, chip_header, print, print_en25qh, print_gd25q, print_gd25q256d, print_mx25l_f,
    print_mx25l_legacy, print_universal, print_w25q_3bit_bp, print_w25q_4bit_bp, register_value,
    registers, status_decoder, StatusDecoder,
};
use flashcat::cmd::uid::{read_uid, uid_report, uid_warning};
use flashcat::cmd::watch::{connected_report, watch_report};
use flashcat::cmd::write::{
    smart_by_default, verify, write_strategy, written_line, Verdict, WriteStrategy,
};
use flashcat::db::ChipVoltage;
use flashcat::error::Error;
use flashcat::fpga::Voltage;
use flashcat::host::HostOp;
use flashcat::programmer::Programmer;
use flashcat::spi::protect::{read_wp_status, WpGoal};
use flashcat::spi::sfdp::SfdpInfo;
use flashcat::units::{MB_16, MB_32, MB_8};

fn chip(mfr: u8, size_bytes: u32) -> ResolvedChip {
    ResolvedChip {
        name: "W25Q128".to_string(),
        mfr,
        id1: 0x40,
        id2: 0x18,
        voltage: ChipVoltage::V3_3,
        size_bytes,
        page_size: 256,
        erase_size: 4096,
        erase_types: vec![EraseType { size_bytes: 4096, opcode: 0x20 }],
        addr_bytes: 3,
        quad: false,
        source: ParamSource::Database,
        chip_erase_max_ms: None,
    }
}

// ── detect ──────────────────────────────────────────────────────────────────

#[test]
fn explicit_diagnostic_voltage_never_escalates() {
    assert_eq!(
        diagnostic_voltages(VoltageChoice::Explicit(Voltage::V1_8)),
        [Some(Voltage::V1_8), None]
    );
}

#[test]
fn auto_diagnostic_voltage_uses_safe_order() {
    assert_eq!(
        diagnostic_voltages(VoltageChoice::Auto),
        [Some(Voltage::V1_8), Some(Voltage::V3_3)]
    );
}

#[test]
fn detect_reports() {
    let mut c = chip(0xEF, MB_16);
    let lines = |c: &ResolvedChip| detect_report(c, Voltage::V3_3, "none (software)");
    assert_eq!(
        lines(&c),
        vec![
            "Chip:      W25Q128",
            "Size:      16 MB (16777216 bytes)",
            "Page:      256 bytes",
            "Erase:     4096 bytes",
            "Addr:      3-byte",
            "Voltage:   V3_3",
            "SFDP:      no",
            "WP:        none (software)",
        ]
    );
    for (source, text) in [
        (ParamSource::DatabaseWithSfdp, "SFDP:      yes"),
        (ParamSource::DatabaseWithPartialSfdp, "SFDP:      partial (pre-JESD216A)"),
        (ParamSource::Sfdp, "SFDP:      yes (no DB match)"),
    ] {
        c.source = source;
        assert_eq!(lines(&c)[6], text);
    }
}

#[test]
fn diagnostic_lines() {
    assert_eq!(probe_heading(Voltage::V1_8), vec!["", "  probe @ V1_8:"]);
    assert_eq!(
        rdid_line([0xFF; 3]),
        "    RDID = FF FF FF  (no response — chip not powered, mis-seated, or wrong voltage)"
    );
    assert_eq!(
        rdid_line([0; 3]),
        "    RDID = 00 00 00  (no response — chip floating, missing pull-ups, or dead)"
    );
    assert_eq!(rdid_line([0xC2, 0x0A, 0xFF]), "    RDID = C2 0A FF  (Macronix)");
    assert!(!answers([0xFF; 3]) && !answers([0; 3]) && answers([0xFF, 0, 0xFF]));
    assert!(worth_a_reset([0xFF, 1, 2]) && worth_a_reset([0, 1, 2]) && !worth_a_reset([1, 0, 0]));
    assert_eq!(sfdp_line(&None), "    SFDP = absent or unreadable");
    assert_eq!(
        sfdp_line(&Some(info())),
        "    SFDP = present (rev 1.6, size 16 MB, page 256 B)"
    );
    let names = [
        (0x01, "Spansion/Cypress"),
        (0x1C, "EON"),
        (0x1F, "Atmel/Adesto"),
        (0x20, "Micron/Numonyx"),
        (0x37, "AMIC"),
        (0x52, "ESMT"),
        (0x68, "Boya"),
        (0x85, "PUYA"),
        (0x9D, "ISSI"),
        (0xBF, "SST/Microchip"),
        (0xC2, "Macronix"),
        (0xC8, "GigaDevice"),
        (0xEF, "Winbond"),
        (0x42, "unknown vendor"),
    ];
    for (mfr, name) in names {
        assert_eq!(vendor_name(mfr), name);
    }
}

// ── status ──────────────────────────────────────────────────────────────────

#[test]
fn routes_mx25l128_to_f_grade_decoder() {
    assert_eq!(
        status_decoder(MFR_MACRONIX, MB_16, "MX25L128"),
        Some(StatusDecoder::Mx25lF { has_4byte_bit: false })
    );
}

#[test]
fn routes_mx25l256_to_f_grade_decoder_with_4byte_bit() {
    assert_eq!(
        status_decoder(MFR_MACRONIX, MB_32, "MX25L256"),
        Some(StatusDecoder::Mx25lF { has_4byte_bit: true })
    );
}

#[test]
fn routes_small_mx25l_parts_to_legacy_decoder() {
    assert_eq!(
        status_decoder(MFR_MACRONIX, MB_8, "MX25L64"),
        Some(StatusDecoder::Mx25lLegacy)
    );
}

#[test]
fn routes_other_vendors() {
    assert_eq!(status_decoder(0xEF, MB_32, ""), Some(StatusDecoder::W25q4BitBp));
    assert_eq!(status_decoder(0xEF, MB_16, ""), Some(StatusDecoder::W25q3BitBp));
    assert_eq!(status_decoder(0xC8, MB_32, "GD25Q256D x"), Some(StatusDecoder::Gd25q256d));
    assert_eq!(status_decoder(0xC8, MB_32, "GD25Q256E"), Some(StatusDecoder::Gd25q5BitBp));
    assert_eq!(status_decoder(0xC8, MB_16, "GD25Q256D"), Some(StatusDecoder::Gd25q5BitBp));
    assert_eq!(status_decoder(0x1C, MB_8, ""), Some(StatusDecoder::En25qh));
    assert_eq!(status_decoder(0x20, MB_8, ""), None);
    assert_eq!(registers(None), vec![0x05]);
    assert_eq!(registers(Some(StatusDecoder::Mx25lF { has_4byte_bit: true })), vec![0x05, 0x15]);
    assert_eq!(registers(Some(StatusDecoder::Mx25lLegacy)), vec![0x05]);
    assert_eq!(registers(Some(StatusDecoder::Gd25q5BitBp)), vec![0x05, 0x35, 0x15]);
    assert_eq!(register_value(0x35, &[7, 8]), Ok(7));
    assert_eq!(register_value(0x35, &[]), Err(Error::EmptyStatus { opcode: 0x35 }));
    assert_eq!(chip_header(&chip(0xEF, MB_16)), "Chip: W25Q128 (16 MB)");
}

#[test]
fn registers_print_in_two_groups() {
    for reg in 0..=255u8 {
        assert_eq!(bits(reg), format!("{:04b} {:04b}", reg >> 4, reg & 0x0F));
    }
}

fn pick<'a>(reg: u8, n: u8, off: &'a str, on: &'a str) -> &'a str {
    if (reg >> n) & 1 == 0 {
        off
    } else {
        on
    }
}

fn bit(reg: u8, n: u8) -> u8 {
    (reg >> n) & 1
}

#[test]
fn w25q_with_four_bp_bits() {
    let (sr1, sr2, sr3) = (0xC6, 0xCB, 0x45);
    let out = print_w25q_4bit_bp(sr1, sr2, sr3);
    assert_eq!(
        out,
        vec![
            "",
            "SR1 (0x05) = 0xc6  1100 0110",
            "  BUSY    [0] = 0   idle",
            "  WEL     [1] = 1   write-enabled",
            "  BP[3:0] [5:2] = 0001  block protect active (see datasheet table for exact range)",
            "  TB      [6] = 1   protect from BOTTOM",
            "  SRP0    [7] = 1   status reg locked (hardware/WP# protect)",
            "",
            "SR2 (0x35) = 0xcb  1100 1011",
            "  SRL     [0] = 1   POWER-CYCLE LOCKED (SRP1)",
            "  QE      [1] = 1   quad mode ENABLED",
            "  LB1     [3] = 1   security reg 1 OTP-LOCKED",
            "  LB2     [4] = 0   security reg 2 unlocked",
            "  LB3     [5] = 0   security reg 3 unlocked",
            "  CMP     [6] = 1   protection INVERTED (complement)",
            "  SUS     [7] = 1   ERASE/PROGRAM SUSPENDED",
            "",
            "SR3 (0x15) = 0x45  0100 0101",
            "  ADS     [0] = 1   currently in 4-byte address mode",
            "  ADP     [1] = 0   powers up in 3-byte address mode",
            "  WPS     [2] = 1   protection scheme: individual block lock",
            "  DRV[1:0] [6:5] = 10  output driver strength: 50%",
            "",
            "  \x1b[31m! SRP0=1 and SRL=1: status register permanently locked (OTP). \x1b[0m",
            "  \x1b[33m! CMP=1: protected region is the COMPLEMENT of the BP-defined area. \x1b[0m",
            "  \x1b[33m! SUS=1: an erase/program is suspended. Issue Resume (0x7A) or power cycle. \x1b[0m",
        ]
    );
    let calm = print_w25q_4bit_bp(0, 0, 0);
    assert_eq!(calm.len(), 22);
    assert_eq!(calm[4], "  BP[3:0] [5:2] = 0000  no block protect");
    assert_eq!(calm[21], "  DRV[1:0] [6:5] = 00  output driver strength: 100% (default)");
}

#[test]
fn w25q_with_three_bp_bits() {
    let out = print_w25q_3bit_bp(0x61, 0x01, 0xE0);
    assert_eq!(
        out,
        vec![
            "",
            "SR1 (0x05) = 0x61  0110 0001",
            "  BUSY    [0] = 1   program/erase in progress",
            "  WEL     [1] = 0   write-disabled",
            "  BP[2:0] [4:2] = 000  no block protect",
            "  TB      [5] = 1   protect from BOTTOM",
            "  SEC     [6] = 1   protect unit: 4KB sectors",
            "  SRP0    [7] = 0   status reg writable (software protect)",
            "",
            "SR2 (0x35) = 0x01  0000 0001",
            "  SRL     [0] = 1   POWER-CYCLE LOCKED (SRP1)",
            "  QE      [1] = 0   quad mode disabled",
            "  LB1     [3] = 0   security reg 1 unlocked",
            "  LB2     [4] = 0   security reg 2 unlocked",
            "  LB3     [5] = 0   security reg 3 unlocked",
            "  CMP     [6] = 0   protection normal",
            "  SUS     [7] = 0   no operation suspended",
            "",
            "SR3 (0x15) = 0xe0  1110 0000",
            "  WPS     [2] = 0   protection scheme: BP/TB/SEC (status register)",
            "  DRV[1:0] [6:5] = 11  output driver strength: 25%",
            "  HOLD/RST [7] = 1   pin function: RESET#",
            "",
            "  \x1b[33m! SRL=1: status register locked until power cycle. \x1b[0m",
        ]
    );
    let out = print_w25q_3bit_bp(0x9C, 0x00, 0x00);
    assert_eq!(out[4], "  BP[2:0] [4:2] = 111  block protect active");
    assert_eq!(
        out.last().unwrap(),
        "  \x1b[33m! SRP0=1: status register write depends on WP# pin level. \x1b[0m"
    );
}

#[test]
fn gd25q256d_layout() {
    let (sr1, sr2, sr3) = (0x80, 0x65, 0xBE);
    let out = print_gd25q256d(sr1, sr2, sr3);
    assert_eq!(
        out,
        vec![
            "",
            "SR1 (0x05) = 0x80  1000 0000",
            "  BUSY    [0] = 0   idle",
            "  WEL     [1] = 0   write-disabled",
            "  BP[3:0] [5:2] = 0000  no block protect",
            "  TB      [6] = 0   protect from TOP",
            "  SRP0    [7] = 1   status reg locked (hardware/WP# protect)",
            "",
            "SR2 (0x35) = 0x65  0110 0101",
            "  ADS     [0] = 1   currently in 4-byte address mode",
            "  QE      [1] = 0   quad mode disabled",
            "  SUS2    [2] = 1   PROGRAM SUSPENDED",
            "  LB1     [3] = 0   security reg 1 unlocked",
            "  LB2     [4] = 0   security reg 2 unlocked",
            "  LB3     [5] = 1   security reg 3 OTP-LOCKED",
            "  SRP1    [6] = 1   POWER-CYCLE LOCKED",
            "  SUS1    [7] = 0   no erase suspended",
            "",
            "SR3 (0x15) = 0xbe  1011 1110",
            "  LC[1:0] [1:0] = 10  DTR latency code (DTR-capable parts only)",
            "  PE      [2] = 1   PROGRAM ERROR",
            "  EE      [3] = 1   ERASE ERROR",
            "  ADP     [4] = 1   powers up in 4-byte address mode",
            "  DRV[1:0] [6:5] = 01  output driver strength: 75%",
            "  HOLD/RST [7] = 1   pin function: RESET#",
            "",
            "  \x1b[31m! SRP0=1 and SRP1=1: status register permanently locked (OTP). \x1b[0m",
            "  \x1b[31m! PE=1: last program operation failed. Clear with Reset. \x1b[0m",
            "  \x1b[31m! EE=1: last erase operation failed. Clear with Reset. \x1b[0m",
            "  \x1b[33m! Suspend active. Issue Resume (0x7A) or power cycle. \x1b[0m",
        ]
    );
    assert_eq!(
        print_gd25q256d(0, 0x40, 0).last().unwrap(),
        "  \x1b[33m! SRP1=1: status register locked until power cycle. \x1b[0m"
    );
}

#[test]
fn macronix_layouts() {
    for (sr, cr, four) in [(0u8, 0u8, false), (0xC7, 0xFF, true), (0x80, 0x2D, false), (0x40, 0x5A, true)] {
        let mut want = vec![
            "".to_string(),
            format!("SR  (0x05) = {sr:#04x}  {}", bits(sr)),
            format!("  WIP     [0] = {}   {}", bit(sr, 0), pick(sr, 0, "idle", "program/erase in progress")),
            format!("  WEL     [1] = {}   {}", bit(sr, 1), pick(sr, 1, "write-disabled", "write-enabled")),
            format!(
                "  BP[3:0] [5:2] = {:04b}  {}",
                (sr >> 2) & 0x0F,
                if (sr >> 2) & 0x0F == 0 {
                    "no block protect"
                } else {
                    "block protect active (see datasheet table for exact range)"
                }
            ),
            format!("  QE      [6] = {}   quad mode {}", bit(sr, 6), pick(sr, 6, "disabled", "ENABLED")),
            format!(
                "  SRWD    [7] = {}   {}",
                bit(sr, 7),
                pick(sr, 7, "status reg writable", "status reg locked (with WP# pin)")
            ),
            "".to_string(),
            format!("CR  (0x15) = {cr:#04x}  {}", bits(cr)),
            format!(
                "  ODS[2:0] [2:0] = {:03b}  output driver: {}",
                cr & 7,
                ["reserved", "90 Ω", "60 Ω", "45 Ω", "reserved", "20 Ω", "15 Ω", "30 Ω (default)"]
                    [(cr & 7) as usize]
            ),
            format!("  TB      [3] = {}   protect from {} (OTP)", bit(cr, 3), pick(cr, 3, "TOP", "BOTTOM")),
            format!("  reserved [4] = {}", bit(cr, 4)),
            if four {
                format!("  4BYTE   [5] = {}   {}-byte address mode", bit(cr, 5), 3 + bit(cr, 5))
            } else {
                format!("  reserved [5] = {}", bit(cr, 5))
            },
            format!(
                "  DC[1:0] [7:6] = {:02b}  fast-read dummy cycles ({})",
                cr >> 6,
                ["8 (default, ≤104MHz)", "6", "8", "10 (≤166MHz)"][(cr >> 6) as usize]
            ),
        ];
        if sr & 0x80 != 0 {
            want.push("".to_string());
            want.push(
                "  \x1b[33m! SRWD=1: hardware-protected mode active when WP# pin is low. \x1b[0m"
                    .to_string(),
            );
        }
        if sr & 0x40 != 0 {
            want.push(
                "  \x1b[33m! QE=1: HOLD#/RESET# pin functions disabled; pins act as IO2/IO3. \x1b[0m"
                    .to_string(),
            );
        }
        assert_eq!(print_mx25l_f(sr, cr, four), want);
        assert_eq!(print(Some(StatusDecoder::Mx25lF { has_4byte_bit: four }), &[sr, cr]), want);
    }
    assert_eq!(
        print_mx25l_legacy(0xC4),
        vec![
            "",
            "SR  (0x05) = 0xc4  1100 0100",
            "  WIP     [0] = 0   idle",
            "  WEL     [1] = 0   write-disabled",
            "  BP[3:0] [5:2] = 0001  block protect active (see datasheet table for exact range)",
            "  (reserved) [6] = 1   hard-wired 0 (no QE bit on this generation)",
            "  SRWD    [7] = 1   status reg locked (with WP# pin)",
            "",
            "  \x1b[33m! SRWD=1: hardware-protected mode active when WP# pin is low. \x1b[0m",
            "",
            "  \x1b[33m! SR[6]=1 on a part that should hard-wire it to 0 — may be a newer F-grade with QE bit. \x1b[0m",
        ]
    );
}

#[test]
fn eon_layout() {
    assert_eq!(
        print_en25qh(0x80),
        vec![
            "",
            "SR  (0x05) = 0x80  1000 0000",
            "  WIP     [0] = 0   idle",
            "  WEL     [1] = 0   write-disabled",
            "  BP[3:0] [5:2] = 0000  no block protect",
            "  WHDIS   [6] = 0   WP# and HOLD# pin functions ENABLED (default)",
            "  SRP     [7] = 1   status reg locked (with WP# pin) / OTP_LOCK in OTP mode",
            "",
            "  \x1b[33m! SRP=1 with WHDIS=0: status reg is hardware-protected when WP# is low. \x1b[0m",
        ]
    );
    let out = print_en25qh(0xC0);
    assert_eq!(out[5], "  WHDIS   [6] = 1   WP# and HOLD# pin functions DISABLED (pins free for IO2/IO3)");
    assert_eq!(
        &out[7..],
        [
            "",
            "  \x1b[33m! WHDIS=1: WP# and HOLD# pins disabled. Required for quad-mode use of pins 3/7 on 8-pin parts. \x1b[0m",
        ]
    );
}

#[test]
fn other_gigadevice_and_unknown_layouts() {
    let out = print_gd25q(0x44, 0x84, 0x01);
    assert_eq!(out[1], "SR1 (0x05) = 0x44  0100 0100");
    assert!(out.iter().any(|l| l.starts_with("  BP[4:0] [6:2] = 10001")));
    assert!(out.iter().any(|l| l.starts_with("  SUS2    [2] = 1")));
    assert!(out.iter().any(|l| l.starts_with("  SUS1    [7] = 1")));
    assert!(out.iter().any(|l| l.starts_with("  DC      [0] = 1")));
    assert!(!out.iter().any(|l| l.contains("WPS")));
    let out = print_universal(0xFE);
    assert_eq!(out[1], "SR1 (0x05) = 0xfe  1111 1110");
    assert_eq!(out.len(), 4);
    assert_eq!(out[2], "  WIP     [0] = 0   idle");
    assert_eq!(out[3], "  WEL     [1] = 1   write-enabled");
    assert_eq!(print(None, &[0xFE]), out);
}

// ── compare ─────────────────────────────────────────────────────────────────

const EMPTY_SHA256: &str = "e3b0c44298fc1c149afbf4c8996fb92427ae41e4649b934ca495991b7852b855";
const ABC_SHA256: &str = "ba7816bf8f01cfea414140de5dae2223b00361a396177a9cb410ff61f20015ad";

#[test]
fn equal_contents_match_by_their_digests() {
    let (out, same) = compare(b"abc", b"abc", "a.bin", 0x40);
    assert!(same);
    assert_eq!(
        out,
        vec![
            format!("File:  {ABC_SHA256}  a.bin"),
            format!("Flash: {ABC_SHA256}  (offset 0x00000040, 3 bytes)"),
            "Match: OK".to_string(),
        ]
    );
    let (out, same) = compare(&[], &[], "e", 0);
    assert!(same);
    assert_eq!(out[0], format!("File:  {EMPTY_SHA256}  e"));
}

#[test]
fn differing_contents_are_listed() {
    let file = vec![0u8; 20];
    let mut flash = file.clone();
    for i in (0..20).step_by(2) {
        flash[i] = 0xA0 + i as u8;
    }
    let (out, same) = compare(&file, &flash, "f", 0x1000);
    assert!(!same);
    assert_eq!(&out[2..4], ["Match: FAIL", "Diffs: 10 bytes differ"]);
    assert_eq!(out[4], "  0x00001000  file=0x00  flash=0xa0");
    assert_eq!(out[11], "  0x0000100e  file=0x00  flash=0xae");
    assert_eq!(out[12], "  ... (2 more)");
    assert_eq!(out.len(), 13);
    let (out, _) = compare(&[1, 2], &[1, 3], "f", 0);
    assert_eq!(&out[4..], ["  0x00000001  file=0x02  flash=0x03"]);
    // The digests decide.
    let (out, same) = report_comparison(&[1], &[2], &[9], &[9], "f", 0);
    assert!(same);
    assert_eq!(out, vec!["File:  09  f", "Flash: 09  (offset 0x00000000, 1 bytes)", "Match: OK"]);
    assert_eq!(count_diffs(&[1, 2, 3], &[1, 0, 0]), 2);
    assert_eq!(hex(&[0x0A, 0xFF]), "0aff");
}

#[test]
fn missing_erase_is_recognised() {
    assert!(probable_missing_erase(&[0xFF, 0x0F], &[0xF0, 0x0F]));
    assert!(!probable_missing_erase(&[0x0F], &[0x1F]));
    assert_eq!(verify(&[1, 2], &[1, 2]), Verdict::Same);
    assert_eq!(verify(&[0xFF, 2], &[0x01, 2]), Verdict::NotErased { count: 1 });
    assert_eq!(verify(&[0xFF, 2], &[0x01, 3]), Verdict::Differs { count: 2 });
    // Programming without an erase only clears bits.
    let (before, data) = ([0x5Au8, 0x00, 0xFF], [0xF0u8, 0x11, 0x22]);
    let after: Vec<u8> = before.iter().zip(data).map(|(b, d)| b & d).collect();
    assert_eq!(verify(&data, &after), Verdict::NotErased { count: 2 });
}

#[test]
fn compare_lengths() {
    let c = chip(0xEF, 0x1000);
    assert_eq!(length_to_compare(&c, 0x800, 0, None), Ok(0x800));
    assert_eq!(length_to_compare(&c, 0x800, 0x800, Some(0x800)), Ok(0x800));
    assert_eq!(
        length_to_compare(&c, 0x801, 0x800, None),
        Err(Error::CompareLength { file: 0x801, len: 0x800 })
    );
    assert_eq!(
        length_to_compare(&c, 4, 0, Some(8)),
        Err(Error::CompareLength { file: 4, len: 8 })
    );
    assert_eq!(
        length_to_compare(&c, 4, 0x1000, None),
        Err(Error::OffsetExceedsChip { offset: 0x1000, size: 0x1000 })
    );
    assert_eq!(
        length_to_compare(&c, 4, 1, Some(0x1000)),
        Err(Error::LengthExceedsChip { len: 0x1000, available: 0xFFF })
    );
}

// ── ranges, reads, writes, erases ───────────────────────────────────────────

#[test]
fn ranges_are_checked_against_the_chip() {
    let c = chip(0xEF, 0x1000);
    assert_eq!(effective_range(&c, 0x10, None), Ok((0x10, 0xFF0)));
    assert_eq!(effective_range(&c, 0x10, Some(0)), Ok((0x10, 0)));
    assert_eq!(
        effective_range(&c, 0x10, Some(0xFF1)),
        Err(Error::LengthExceedsChip { len: 0xFF1, available: 0xFF0 })
    );
    assert_eq!(
        effective_range(&c, 0x1000, Some(0)),
        Err(Error::OffsetExceedsChip { offset: 0x1000, size: 0x1000 })
    );
    assert_eq!(erase_target(&c, None, None), Ok(EraseTarget::Chip));
    assert_eq!(erase_target(&c, None, Some(5)), Ok(EraseTarget::Range { offset: 0, len: 5 }));
    assert_eq!(
        erase_target(&c, Some(0x800), None),
        Ok(EraseTarget::Range { offset: 0x800, len: 0x800 })
    );
    assert!(erase_target(&c, Some(0x1000), None).is_err());
    assert_eq!(erased_line(EraseTarget::Chip), "Erased (chip)");
    assert_eq!(
        erased_line(EraseTarget::Range { offset: 0x800, len: 4096 }),
        "Erased 4096 bytes at 0x00000800"
    );
}

#[test]
fn selections() {
    let some = |s: &str| Some(s.to_string());
    assert!(matches!(selection(None, None), Selection::Direct));
    assert!(matches!(selection(some("l"), None), Selection::LayoutOnly(p) if p == "l"));
    assert!(matches!(selection(None, some("BIOS")),
        Selection::Region { source: RegionSource::FmapScan, name } if name == "BIOS"));
    assert!(matches!(selection(some("l"), some("BIOS")),
        Selection::Region { source: RegionSource::LayoutFile(p), name } if p == "l" && name == "BIOS"));
    let regions = parse_layout("0:1 a\n2:3 b c").unwrap();
    assert_eq!(available_regions(&regions), vec!["Available regions:", "  a", "  b c"]);
}

#[test]
fn quad_reads_need_the_chip_and_the_programmer() {
    let mut c = chip(0xEF, MB_16);
    assert_eq!(check_quad(false, &c, Programmer::Pro5), Ok(()));
    assert_eq!(check_quad(true, &c, Programmer::Mach1), Err(Error::ChipWithoutQuad));
    c.quad = true;
    assert_eq!(check_quad(true, &c, Programmer::Pro5), Err(Error::QuadNeedsMach1));
    assert_eq!(check_quad(true, &c, Programmer::Mach1), Ok(()));
    assert_eq!(saved_line(4096, "out.bin"), "Saved 4096 bytes → out.bin");
}

#[test]
fn write_strategies() {
    let c = chip(0xEF, 0x1000);
    let strategy = |len, offset, region, smart, erase| write_strategy(&c, len, offset, region, smart, erase);
    assert!(smart_by_default(false) && !smart_by_default(true));
    assert_eq!(strategy(0x1000, 0, None, true, false), Ok(WriteStrategy::Smart));
    assert_eq!(strategy(0x1000, 0, None, false, false), Ok(WriteStrategy::EraseChip));
    assert_eq!(strategy(0x800, 0, None, false, true), Ok(WriteStrategy::EraseRange));
    assert_eq!(strategy(0x800, 0x800, Some(0x800), false, false), Ok(WriteStrategy::Raw));
    assert_eq!(
        strategy(0x800, 0x2000, Some(0x801), true, false),
        Err(Error::RegionSizeMismatch { file: 0x800, region: 0x801 })
    );
    assert_eq!(
        strategy(0, 0x1000, None, true, false),
        Err(Error::OffsetExceedsChip { offset: 0x1000, size: 0x1000 })
    );
    assert_eq!(
        strategy(0x801, 0x800, None, true, false),
        Err(Error::FileExceedsChip { file: 0x801, available: 0x800 })
    );
    assert_eq!(written_line(12, true), "Written 12 bytes (smart)");
    assert_eq!(written_line(12, false), "Written 12 bytes");
}

// ── the other reports ───────────────────────────────────────────────────────

fn info() -> SfdpInfo {
    SfdpInfo {
        sfdp_rev: (1, 6),
        size_bytes: MB_16,
        page_size: 256,
        erase_types: vec![
            EraseType { size_bytes: 4096, opcode: 0x20 },
            EraseType { size_bytes: 65536, opcode: 0xD8 },
        ],
        fast_read_114: true,
        fast_read_144: false,
        dtr_supported: true,
        chip_erase_typ_ms: None,
        table_bytes: 64,
        is_partial: false,
    }
}

#[test]
fn sfdp_is_reported() {
    assert_eq!(
        sfdp_report(&info()),
        vec![
            "SFDP v1.6",
            "Size:       16 MB (16777216 bytes)",
            "Page:       256 bytes",
            "DTR:        yes",
            "Fast Read:  1-1-4=yes 1-4-4=no",
            "Erase types:",
            "  0x20  4096 bytes",
            "  0xd8  64 KB",
        ]
    );
    assert_eq!(sfdp_voltage(VoltageChoice::Auto), None);
    assert_eq!(sfdp_voltage(VoltageChoice::Explicit(Voltage::V1_8)), Some(Voltage::V1_8));
}

#[test]
fn unique_ids() {
    for mfr in [0xEF, 0xC8, 0x9D, 0x1C] {
        let s = read_uid(&chip(mfr, MB_16)).unwrap();
        assert!(matches!(&s[0], HostOp::Transfer { tx, rx_len: 8 } if tx == &vec![0x4B, 0, 0, 0, 0]));
    }
    assert_eq!(read_uid(&chip(0xC2, MB_16)).err(), Some(Error::NoUniqueId { mfr: 0xC2 }));
    assert_eq!(
        uid_report(&chip(0xEF, MB_16), &[0xD1, 0x63, 0, 1, 2, 3, 4, 0xFF]),
        vec!["Chip: W25Q128", "UID:  d1630001020304ff"]
    );
    assert_eq!(
        uid_warning(&[0; 8]).unwrap(),
        "\x1b[31m⚠ UID is all zeros — likely counterfeit\x1b[0m"
    );
    assert_eq!(
        uid_warning(&[0xFF; 8]).unwrap(),
        "\x1b[31m⚠ UID is all 0xFF — chip does not support unique ID\x1b[0m"
    );
    assert!(uid_warning(&[0, 0xFF]).is_none());
}

#[test]
fn lock_reports() {
    assert_eq!(lock_target(true, None), Ok(LockTarget::All));
    assert_eq!(lock_target(false, Some(5)), Ok(LockTarget::Block(5)));
    assert_eq!(lock_target(true, Some(5)), Err(Error::GlobalAndAddress));
    assert_eq!(lock_target(false, None), Err(Error::GlobalOrAddress));
    let volatile = "  note: lock bits are volatile — cleared on power cycle or reset";
    let vcc = "  note: flashcat cuts VCC after this command; bits persist only on externally-powered chips";
    assert_eq!(lock_report(LockTarget::All, true, true), vec!["All blocks locked", volatile, vcc]);
    assert_eq!(
        lock_report(LockTarget::All, true, false),
        vec![
            "All blocks locked",
            "  note: WPS=0 — block lock bits set but not active; set SR3.WPS=1 to use per-block protection",
            volatile,
            vcc,
        ]
    );
    assert_eq!(
        lock_report(LockTarget::Block(0x10000), false, false),
        vec![
            "Block at 0x00010000: not locked",
            "  note: WPS=0 — individual block lock bits are set but BP-range protection (SR1) is active",
            "  set SR3.WPS=1 to enable per-block protection",
            volatile,
            vcc,
        ]
    );
    let inactive = "  note: WPS=0 — individual block lock bits are not active (BP-range protection via SR1 is in effect)";
    assert_eq!(
        unlock_report(LockTarget::All, false, false),
        vec!["All blocks unlocked", inactive, volatile, vcc]
    );
    assert_eq!(
        unlock_report(LockTarget::Block(0x10000), false, true),
        vec!["Block at 0x00010000: unlocked", volatile, vcc]
    );
    assert_eq!(
        unlock_report(LockTarget::Block(0x10000), true, false)[..2],
        ["Block at 0x00010000: locked", inactive]
    );
}

#[test]
fn small_reports() {
    assert_eq!(
        check_report("1.19"),
        vec!["Connected: FlashcatUSB Pro", "Firmware:  1.19", "Echo:      OK"]
    );
    assert_eq!(connected_report(0x05E0), vec!["", "FlashcatUSB connected (PID 0x05e0)"]);
    assert_eq!(
        watch_report(&chip(0xEF, MB_16), Voltage::V1_8),
        vec![
            "Chip:    W25Q128",
            "Size:    16 MB (16777216 bytes)",
            "Erase:   4096 bytes | Page: 256 bytes | Addr: 3-byte",
            "Voltage: V1_8",
        ]
    );
    let wp = read_wp_status(&chip(0xC2, MB_16), &[0x3C]);
    assert_eq!(
        protect_report(WpGoal::Protect, &wp),
        vec!["Protected", "Status:  all (16384 KB) (software)  [SR1=0x3c]"]
    );
    assert_eq!(protect_report(WpGoal::Unprotect, &wp)[0], "Unprotected");
}
