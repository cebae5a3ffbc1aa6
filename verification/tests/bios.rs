//! Firmware image formats.
use flashcat::args::NumError;
use flashcat::bios::amd_psp::{
    efs_search_offsets, print_amd_psp, scan_amd_psp, BIOS_COMBO_COOKIE, EFS_COOKIE, PSP_L1_COOKIE,
};
use flashcat::bios::efifv::{format_guid, print_efifv, scan_efifv, FVH_SIGNATURE};
use flashcat::bios::ifd::{print_ifd, scan_ifd, FLVALSIG};
use flashcat::bios::layout::{
    find_region, fmap_scan_limit, fmap_to_regions, name_field, parse_hex_or_dec_u32, parse_layout,
    parse_name_field, resolve_region, scan_fmap, scanned_regions, FmapArea, FmapHeader, LayoutError,
    LineError, Region, FMAP_AREA_SIZE, FMAP_HEADER_SIZE,
};
use flashcat::chip::{ParamSource, ResolvedChip};
use flashcat::cmd::fmap::{format_flags, identify, map_report, scan_length, FirmwareMap};
use flashcat::cmd::regions::regions_report;
use flashcat::db::ChipVoltage;
use flashcat::error::Error;

fn chip(size_bytes: u32) -> ResolvedChip {
    ResolvedChip {
        name: "TestChip".to_string(),
        mfr: 0xEF,
        id1: 0x40,
        id2: 0x18,
        voltage: ChipVoltage::V3_3,
        size_bytes,
        page_size: 256,
        erase_size: 4096,
        erase_types: vec![],
        addr_bytes: 3,
        quad: false,
        source: ParamSource::Database,
        chip_erase_max_ms: None,
    }
}

// ── AMD PSP ─────────────────────────────────────────────────────────────────

#[test]
fn test_scan_amd_psp_all_ff_returns_none() {
    let size = (*efs_search_offsets().last().unwrap() as usize) + 0x100;
    let data = vec![0xFF; size];
    assert!(scan_amd_psp(&data).is_none());
}

#[test]
fn test_scan_amd_psp_detects_minimal_efs() {
    let buf_size = 0x22000usize;
    let mut data = vec![0xFFu8; buf_size];

    let efs_base = 0x20000usize;
    data[efs_base..efs_base + 4].copy_from_slice(&EFS_COOKIE.to_le_bytes());

    let psp_dir_offset = 0x20100usize;
    let psp_dir_ptr = psp_dir_offset as u32;
    data[efs_base + 0x14..efs_base + 0x18].copy_from_slice(&psp_dir_ptr.to_le_bytes());
    data[psp_dir_offset..psp_dir_offset + 4].copy_from_slice(&PSP_L1_COOKIE.to_le_bytes());
    data[psp_dir_offset + 8..psp_dir_offset + 12].copy_from_slice(&3u32.to_le_bytes());

    data[efs_base + 0x28..efs_base + 0x2C].copy_from_slice(&0u32.to_le_bytes());

    let info = scan_amd_psp(&data).expect("should detect EFS");
    assert_eq!(info.efs_offset, 0x20000);

    let psp = info.psp_dir.as_ref().expect("PSP dir should be present");
    assert_eq!(psp.cookie, "$PSP");
    assert_eq!(psp.num_entries, 3);

    assert!(info.bios_dir.is_none());

    assert_eq!(
        print_amd_psp(&info, 0x22_0000),
        vec![
            "AMD Platform Security Processor (PSP)",
            "  EFS at     : 0x00020000",
            "  PSP dir    : 0x00020100  [$PSP, 3 entries]",
            "  BIOS dir   : not found",
            "  Flash size : 2 MB",
        ]
    );
    assert_eq!(print_amd_psp(&info, 0).len(), 4);
}

/// A pointer beyond the image is followed by its low 24 bits; a directory at the very end has
/// no entry count.
#[test]
fn amd_directory_pointers_are_masked() {
    let mut data = vec![0u8; 0x60100];
    data[0x60000..0x60004].copy_from_slice(&EFS_COOKIE.to_le_bytes());
    data[0x60028..0x6002C].copy_from_slice(&0xFF06_00F8u32.to_le_bytes());
    data[0x600F8..0x600FC].copy_from_slice(&BIOS_COMBO_COOKIE.to_le_bytes());
    let info = scan_amd_psp(&data).unwrap();
    assert_eq!(info.efs_offset, 0x60000);
    assert!(info.psp_dir.is_none());
    let dir = info.bios_dir.unwrap();
    assert_eq!((dir.offset, dir.cookie.as_str(), dir.num_entries), (0x600F8, "2BHD", 0));
}

// ── EFI FV ──────────────────────────────────────────────────────────────────

#[test]
fn test_scan_efifv_all_ff_returns_none() {
    assert!(scan_efifv(&[0xFF; 4096]).is_none());
}

fn minimal_fv() -> Vec<u8> {
    let mut data = vec![0u8; 4096];
    data[0x10..0x20].copy_from_slice(&[
        0xD9, 0x54, 0x93, 0x7A, 0x68, 0x04, 0x4A, 0x44, 0x81, 0xCE, 0x0B, 0xF6, 0x17, 0xD8, 0x90,
        0xDF,
    ]);
    let fv_length: u64 = 0x1000;
    data[0x20..0x28].copy_from_slice(&fv_length.to_le_bytes());
    data[0x28..0x2C].copy_from_slice(&FVH_SIGNATURE.to_le_bytes());
    data[0x2C..0x30].copy_from_slice(&0x0004_F6FFu32.to_le_bytes());
    data[0x37] = 2;
    data
}

#[test]
fn test_scan_efifv_detects_minimal_fv() {
    let data = minimal_fv();
    let fv_length: u64 = 0x1000;

    let info = scan_efifv(&data).expect("should detect FV");
    assert_eq!(info.volumes.len(), 1);
    let fv = &info.volumes[0];
    assert_eq!(fv.offset, 0);
    assert_eq!(fv.length, fv_length);
    assert_eq!(fv.revision, 2);
    assert_eq!(fv.attributes, 0x0004_F6FF);

    let lines = print_efifv(&info, 4096);
    assert_eq!(lines[0], "EFI Firmware Volumes");
    assert_eq!(lines[1], "  volumes: 1");
    assert_eq!(lines[3], format!("  {:<3}  {:<10}  {:<10}  {:<36}  REV", "#", "OFFSET", "LENGTH", "GUID"));
    assert_eq!(
        lines[5],
        "  0    0x00000000  0x00001000  7A9354D9-0468-444A-81CE-0BF617D890DF  2"
    );
}

#[test]
fn efi_volumes_must_be_plausible() {
    // Not at a page boundary.
    let mut data = vec![0u8; 8];
    data.extend(minimal_fv());
    assert!(scan_efifv(&data).is_none());
    // Longer than the image.
    let mut data = minimal_fv();
    data[0x21] = 0x20;
    assert!(scan_efifv(&data).is_none());
    // Shorter than a header.
    let mut data = minimal_fv();
    data[0x20..0x28].copy_from_slice(&0x47u64.to_le_bytes());
    assert!(scan_efifv(&data).is_none());
    // At most 32 volumes are listed.
    let one = minimal_fv();
    let mut data = Vec::new();
    for _ in 0..40 {
        data.extend_from_slice(&one);
    }
    assert_eq!(scan_efifv(&data).unwrap().volumes.len(), 32);
}

#[test]
fn guid_fields_are_little_endian_numbers() {
    let g: [u8; 16] = [0, 1, 2, 3, 4, 5, 6, 7, 8, 9, 10, 11, 12, 13, 14, 15];
    assert_eq!(format_guid(&g), "03020100-0504-0706-0809-0A0B0C0D0E0F");
}

// ── Intel IFD ───────────────────────────────────────────────────────────────

#[test]
fn test_scan_no_sig() {
    assert!(scan_ifd(&[0xFF; 256]).is_none());
}

#[test]
fn test_scan_finds_sig() {
    let mut data = vec![0u8; 0x100];
    data[0..4].copy_from_slice(&FLVALSIG.to_le_bytes());
    data[4..8].copy_from_slice(&0x00040000u32.to_le_bytes());
    data[0x40..0x44].copy_from_slice(&0x00000000u32.to_le_bytes());

    let info = scan_ifd(&data).unwrap();
    assert_eq!(info.descriptor_offset, 0);
    assert!(info.regions[0].present);
    assert_eq!(info.nr_regions, 5);
    assert!(!info.regions[1].present);
    assert_eq!(info.regions[0].length(), 0x1000);
    assert_eq!(info.regions[1].length(), 0);
}

#[test]
fn ifd_regions_and_report() {
    let mut data = vec![0xFFu8; 0x100];
    data[0x10..0x14].copy_from_slice(&FLVALSIG.to_le_bytes());
    data[0x14..0x18].copy_from_slice(&0x0504_0000u32.to_le_bytes());
    let regs: [u32; 6] =
        [0x0000_0000, 0x0FFF_0800, 0x07FF_0001, 0x0000_7FFF, 0x0000_0000, 0x0002_0002];
    for (i, r) in regs.iter().enumerate() {
        data[0x40 + i * 4..0x44 + i * 4].copy_from_slice(&r.to_le_bytes());
    }
    let info = scan_ifd(&data).unwrap();
    assert_eq!(info.descriptor_offset, 0x10);
    assert_eq!(info.regions.len(), 6);
    assert_eq!((info.regions[1].start, info.regions[1].end), (0x80_0000, 0xFF_FFFF));
    assert_eq!(info.regions[1].length(), 0x80_0000);
    let lines = print_ifd(&info, Some(16 * 1024 * 1024));
    assert_eq!(lines[1], "  signature at : 0x00000010");
    assert_eq!(lines[2], "  flash size   : 0x01000000 (16 MB)");
    assert_eq!(
        lines[4],
        format!("{:<12} {:<12} {:<12} {:<10}  STATUS", "REGION", "START", "END", "SIZE")
    );
    assert_eq!(lines[5], "-".repeat(64));
    assert_eq!(lines[7], "  BIOS         0x00800000  0x00ffffff  8388608     present");
    assert_eq!(
        lines[9],
        format!("  {:<12} —                             absent", "GbE")
    );
    assert_eq!(print_ifd(&info, None).len(), lines.len() - 1);
}

#[test]
fn ifd_signature_must_be_word_aligned_and_complete() {
    let mut data = vec![0u8; 0x100];
    data[2..6].copy_from_slice(&FLVALSIG.to_le_bytes());
    assert!(scan_ifd(&data).is_none());
    let mut data = vec![0u8; 0x20];
    data[0x14..0x18].copy_from_slice(&FLVALSIG.to_le_bytes());
    assert!(scan_ifd(&data).is_none());
    assert!(scan_ifd(&[]).is_none());
}

// ── layout files ────────────────────────────────────────────────────────────

#[test]
fn test_layout_basic() {
    let regions = parse_layout("0x000000:0x0fffff BIOS\n0x100000:0x1fffff EC\n").unwrap();
    assert_eq!(regions.len(), 2);
    assert_eq!(regions[0].name, "BIOS");
    assert_eq!(regions[0].offset, 0x000000);
    assert_eq!(regions[0].length, 0x100000);
    assert_eq!(regions[1].name, "EC");
    assert_eq!(regions[1].offset, 0x100000);
    assert_eq!(regions[1].length, 0x100000);
}

#[test]
fn test_layout_comment_and_blank() {
    let regions =
        parse_layout("# full map\n\n0x000000:0x0fffff BIOS # main bios region\n").unwrap();
    assert_eq!(regions.len(), 1);
    assert_eq!(regions[0].name, "BIOS");
}

#[test]
fn test_layout_crlf() {
    let content = "0x000000:0x0fffff BIOS\r\n0x100000:0x1fffff EC\r\n";
    let regions = parse_layout(content).unwrap();
    assert_eq!(regions.len(), 2);
    assert_eq!(regions[0].name, "BIOS");
    assert_eq!(regions[1].name, "EC");
}

#[test]
fn test_layout_decimal() {
    let regions = parse_layout("0:65535 BOOT\n").unwrap();
    assert_eq!(regions[0].offset, 0);
    assert_eq!(regions[0].length, 65536);
}

#[test]
fn layout_names_keep_inner_spaces_and_unicode_white_space_separates() {
    let regions = parse_layout("  0:9\u{2003} my region \u{85}\n10:19\tx").unwrap();
    assert_eq!(regions[0].name, "my region");
    assert_eq!((regions[1].offset, regions[1].length), (10, 10));
    assert_eq!(regions[1].end_inclusive(), 19);
}

#[test]
fn layout_errors_name_the_line() {
    let cases: [(&str, usize, LineError); 9] = [
        ("0:1 a\n0:1\n", 2, LineError::MissingName),
        ("0:1 # only a comment", 1, LineError::MissingName),
        ("0-1 a", 1, LineError::BadRange),
        ("\n\nx:1 a", 3, LineError::BadStart(NumError::InvalidDigit)),
        (":1 a", 1, LineError::BadStart(NumError::Empty)),
        ("0:0x a", 1, LineError::BadEnd(NumError::Empty)),
        ("0:4294967296 a", 1, LineError::BadEnd(NumError::Overflow)),
        ("0x10:0xf a", 1, LineError::EndBeforeStart { start: 16, end: 15 }),
        ("0:0xffffffff a", 1, LineError::TooLong),
    ];
    for (text, line, what) in cases {
        assert_eq!(
            parse_layout(text).err(),
            Some(LayoutError { line, what }),
            "text {text:?}"
        );
    }
    assert!(parse_layout("").unwrap().is_empty());
    let top = parse_layout("0xfffff000:0xffffffff top").unwrap();
    assert_eq!(top[0].end_inclusive(), 0xFFFF_FFFF);
}

#[test]
fn layout_numbers() {
    assert_eq!(parse_hex_or_dec_u32("0X1f"), Ok(31));
    assert_eq!(parse_hex_or_dec_u32("+7"), Ok(7));
    assert_eq!(parse_hex_or_dec_u32("-7"), Err(NumError::InvalidDigit));
}

// ── FMAP ────────────────────────────────────────────────────────────────────

fn fmap_header(base: u64, size: u32, name: &[u8], nareas: u16) -> Vec<u8> {
    let mut blob = Vec::new();
    blob.extend_from_slice(b"__FMAP__");
    blob.push(1);
    blob.push(0);
    blob.extend_from_slice(&base.to_le_bytes());
    blob.extend_from_slice(&size.to_le_bytes());
    let mut name_buf = [0u8; 32];
    name_buf[..name.len()].copy_from_slice(name);
    blob.extend_from_slice(&name_buf);
    blob.extend_from_slice(&nareas.to_le_bytes());
    blob
}

fn fmap_area(offset: u32, size: u32, name: &[u8], flags: u16) -> Vec<u8> {
    let mut blob = Vec::new();
    blob.extend_from_slice(&offset.to_le_bytes());
    blob.extend_from_slice(&size.to_le_bytes());
    let mut aname = [0u8; 32];
    aname[..name.len()].copy_from_slice(name);
    blob.extend_from_slice(&aname);
    blob.extend_from_slice(&flags.to_le_bytes());
    blob
}

#[test]
fn test_scan_fmap_basic() {
    let mut blob = Vec::new();
    blob.extend_from_slice(b"__FMAP__");
    blob.push(1);
    blob.push(0);
    blob.extend_from_slice(&0u64.to_le_bytes());
    blob.extend_from_slice(&(8u32 * 1024 * 1024).to_le_bytes());
    let mut name_buf = [0u8; 32];
    name_buf[..9].copy_from_slice(b"TEST_FMAP");
    blob.extend_from_slice(&name_buf);
    blob.extend_from_slice(&1u16.to_le_bytes());

    assert_eq!(blob.len(), FMAP_HEADER_SIZE);

    blob.extend_from_slice(&0u32.to_le_bytes());
    blob.extend_from_slice(&0x10000u32.to_le_bytes());
    let mut aname = [0u8; 32];
    aname[..7].copy_from_slice(b"REGION0");
    blob.extend_from_slice(&aname);
    blob.extend_from_slice(&0u16.to_le_bytes());

    assert_eq!(blob.len(), FMAP_HEADER_SIZE + FMAP_AREA_SIZE);

    let result = scan_fmap(&blob);
    assert!(result.is_some());
    let (hdr, areas) = result.unwrap();

    assert_eq!(hdr.ver_major, 1);
    assert_eq!(hdr.ver_minor, 0);
    assert_eq!(hdr.base, 0);
    assert_eq!(hdr.size, 8 * 1024 * 1024);
    assert_eq!(hdr.name, "TEST_FMAP");
    assert_eq!(hdr.nareas, 1);

    assert_eq!(areas.len(), 1);
    assert_eq!(areas[0].name, "REGION0");
    assert_eq!(areas[0].offset, 0);
    assert_eq!(areas[0].size, 0x10000);
    assert_eq!(areas[0].flags, 0);
}

#[test]
fn test_scan_fmap_with_prefix() {
    let mut blob = vec![0xFFu8; 128];
    blob.extend_from_slice(b"__FMAP__");
    blob.push(1);
    blob.push(0);
    blob.extend_from_slice(&0u64.to_le_bytes());
    blob.extend_from_slice(&(4u32 * 1024 * 1024).to_le_bytes());
    let mut name_buf = [0u8; 32];
    name_buf[..8].copy_from_slice(b"CHROMEOS");
    blob.extend_from_slice(&name_buf);
    blob.extend_from_slice(&0u16.to_le_bytes());

    let result = scan_fmap(&blob);
    assert!(result.is_some());
    let (hdr, areas) = result.unwrap();
    assert_eq!(hdr.name, "CHROMEOS");
    assert_eq!(areas.len(), 0);
}

#[test]
fn test_scan_fmap_too_short() {
    let blob = b"__FMAP__".to_vec();
    assert!(scan_fmap(&blob).is_none());
}

#[test]
fn test_scan_fmap_nareas_sanity_cap() {
    let mut blob = Vec::new();
    blob.extend_from_slice(b"__FMAP__");
    blob.push(1);
    blob.push(0);
    blob.extend_from_slice(&0u64.to_le_bytes());
    blob.extend_from_slice(&0u32.to_le_bytes());
    blob.extend_from_slice(&[0u8; 32]);
    blob.extend_from_slice(&512u16.to_le_bytes());
    assert!(scan_fmap(&blob).is_none());
}

#[test]
fn fmap_with_missing_areas_is_refused() {
    let mut blob = fmap_header(0, 0, b"X", 2);
    blob.extend(fmap_area(0, 1, b"A", 0));
    assert!(scan_fmap(&blob).is_none());
    blob.extend(fmap_area(1, 1, b"B", 0));
    assert_eq!(scan_fmap(&blob).unwrap().1[1].name, "B");
}

/// Bytes that are not UTF-8 are replaced, a name without a zero uses the whole field.
#[test]
fn name_fields_end_at_zero_and_decode_lossily() {
    assert_eq!(name_field(b"AB\0CD"), b"AB");
    assert_eq!(name_field(b"\0"), b"");
    assert_eq!(parse_name_field(b"AB\0CD"), "AB");
    assert_eq!(parse_name_field(b"no zero"), "no zero");
    assert_eq!(parse_name_field("Ω\0".as_bytes()), "Ω");
    assert_eq!(parse_name_field(&[0x41, 0xFF, 0x42, 0]), "A\u{FFFD}B");
}

#[test]
fn fmap_areas_become_regions_relative_to_the_base() {
    let header = FmapHeader {
        ver_major: 1,
        ver_minor: 1,
        base: 0x5_FF00_0000,
        size: 0,
        name: String::new(),
        nareas: 2,
    };
    let areas = vec![
        FmapArea { offset: 0xFF00_1000, size: 0x10, name: "A".to_string(), flags: 0 },
        FmapArea { offset: 0x1000, size: 0x20, name: "B".to_string(), flags: 0 },
    ];
    let regions = fmap_to_regions(&header, &areas);
    assert_eq!((regions[0].offset, regions[0].length), (0x1000, 0x10));
    assert_eq!((regions[1].offset, regions[1].length), (0, 0x20));
    assert_eq!(regions[1].name, "B");
}

#[test]
fn test_find_region_case_insensitive() {
    let regions = vec![Region { name: "BIOS".to_string(), offset: 0, length: 0x10000 }];
    assert!(find_region(&regions, "bios").is_some());
    assert!(find_region(&regions, "BIOS").is_some());
    assert!(find_region(&regions, "missing").is_none());
}

#[test]
fn find_region_takes_the_first_and_folds_only_ascii() {
    let regions = vec![
        Region { name: "É".to_string(), offset: 1, length: 1 },
        Region { name: "a[".to_string(), offset: 2, length: 1 },
        Region { name: "A[".to_string(), offset: 3, length: 1 },
    ];
    assert!(find_region(&regions, "é").is_none());
    assert_eq!(find_region(&regions, "A[").unwrap().offset, 2);
    assert!(find_region(&regions, "A{").is_none());
}

#[test]
fn regions_are_checked_against_the_chip() {
    let regions = vec![
        Region { name: "ok".to_string(), offset: 0x1000, length: 0xF000 },
        Region { name: "long".to_string(), offset: 0x1000, length: 0xF001 },
        Region { name: "wrap".to_string(), offset: 0xFFFF_FFFF, length: 1 },
    ];
    let c = chip(0x10000);
    let r = resolve_region(&regions, "OK", &c).unwrap();
    assert_eq!((r.name.as_str(), r.offset, r.length), ("ok", 0x1000, 0xF000));
    assert_eq!(
        resolve_region(&regions, "long", &c).err(),
        Some(Error::RegionExceedsChip { offset: 0x1000, end: 0x10001, size: 0x10000 })
    );
    assert_eq!(resolve_region(&regions, "wrap", &c).err(), Some(Error::RegionOverflow));
    assert_eq!(resolve_region(&regions, "none", &c).err(), Some(Error::RegionNotFound));
    assert_eq!(fmap_scan_limit(&c), 0x10000);
    assert_eq!(fmap_scan_limit(&chip(0x80_0000)), 0x40_0000);
}

#[test]
fn scanned_regions_come_from_the_map() {
    let mut blob = fmap_header(0, 0x1000, b"MAP", 1);
    blob.extend(fmap_area(0x40, 0x80, b"RW", 4));
    let regions = scanned_regions(&blob).unwrap();
    assert_eq!((regions[0].name.as_str(), regions[0].offset), ("RW", 0x40));
    assert_eq!(scanned_regions(&[0u8; 64]).err(), Some(Error::NoFmap));
}

// ── fmap and regions commands ───────────────────────────────────────────────

#[test]
fn formats_are_tried_in_order() {
    let fv = minimal_fv();
    assert!(matches!(identify(&fv), Some(FirmwareMap::EfiFv(_))));

    let mut amd = vec![0u8; 0x22000];
    amd[..4096].copy_from_slice(&fv);
    amd[0x20000..0x20004].copy_from_slice(&EFS_COOKIE.to_le_bytes());
    amd[0x20014..0x20018].copy_from_slice(&0x2_0100u32.to_le_bytes());
    amd[0x20100..0x20104].copy_from_slice(&PSP_L1_COOKIE.to_le_bytes());
    assert!(matches!(identify(&amd), Some(FirmwareMap::AmdPsp(_))));

    let mut intel = amd.clone();
    intel[0x3000..0x3004].copy_from_slice(&FLVALSIG.to_le_bytes());
    assert!(matches!(identify(&intel), Some(FirmwareMap::Ifd(_))));

    let mut map = intel.clone();
    map[0x10000..0x10000 + FMAP_HEADER_SIZE].copy_from_slice(&fmap_header(0, 0, b"F", 0));
    assert!(matches!(identify(&map), Some(FirmwareMap::Fmap(_, _))));

    assert!(identify(&[0xFF; 512]).is_none());

    let report = map_report(&identify(&amd).unwrap(), "dump.bin", Some(1), amd.len() as u32);
    assert_eq!(report[0], "");
    assert_eq!(report[1], "Format:  AMD PSP (dump.bin)");
    let report = map_report(&identify(&fv).unwrap(), "x", None, 4096);
    assert_eq!(report[1], "Format:  EFI Firmware Volume (x)");
    let report = map_report(&identify(&intel).unwrap(), "x", None, 4096);
    assert_eq!(report[1], "Format:  Intel IFD (x)");
}

#[test]
fn fmap_report_lists_the_areas() {
    let mut blob = fmap_header(0xFF00_0000, 0x1000, b"MAP", 2);
    blob.extend(fmap_area(0x40, 0x80, b"RW", 5));
    blob.extend(fmap_area(0x100, 0x200, b"RO_SECTION", 0x10));
    let report = map_report(&identify(&blob).unwrap(), "chip", None, blob.len() as u32);
    assert_eq!(
        report,
        vec![
            "".to_string(),
            "Format:  FMAP (chip)".to_string(),
            "  version : 1.0".to_string(),
            "  base    : 0x00000000ff000000".to_string(),
            "  size    : 0x00001000 (4096 bytes)".to_string(),
            "  name    : MAP".to_string(),
            "  areas   : 2".to_string(),
            "".to_string(),
            format!("{:<24} {:<12} {:<10}  FLAGS", "NAME", "OFFSET", "SIZE"),
            "-".repeat(64),
            format!("  {:<24} {:#010x}  {:<10}  STATIC|RO", "RW", 0x40, 0x80),
            format!("  {:<24} {:#010x}  {:<10}  0x0010", "RO_SECTION", 0x100, 0x200),
        ]
    );
    let empty = fmap_header(0, 0, b"E", 0);
    let report = map_report(&identify(&empty).unwrap(), "chip", None, 56);
    assert_eq!(report.last().unwrap(), "(no areas defined)");
    assert_eq!(scan_length(0x400000, 0x1000), 0x1000);
    assert_eq!(scan_length(0x400, 0x1000), 0x400);
}

#[test]
fn area_flags() {
    for flags in 0..64u16 {
        let mut parts = Vec::new();
        if flags & 1 != 0 {
            parts.push("STATIC");
        }
        if flags & 2 != 0 {
            parts.push("COMPRESSED");
        }
        if flags & 4 != 0 {
            parts.push("RO");
        }
        let wanted =
            if parts.is_empty() { format!("{flags:#06x}") } else { parts.join("|") };
        assert_eq!(format_flags(flags), wanted);
    }
}

#[test]
fn regions_report_is_a_table() {
    let regions = parse_layout("0:0xfff boot\n0x1000:0x1fff a-very-long-name-of-a-region").unwrap();
    assert_eq!(
        regions_report(&regions, "f.layout"),
        vec![
            format!("{:<24} {:<12} {:<12}  SIZE", "NAME", "START", "END"),
            "-".repeat(60),
            format!("  {:<24} 0x00000000..0x00000fff  (4096 bytes)", "boot"),
            "  a-very-long-name-of-a-region 0x00001000..0x00001fff  (4096 bytes)".to_string(),
        ]
    );
    assert_eq!(regions_report(&[], "f.layout"), vec!["No regions found in f.layout"]);
}
