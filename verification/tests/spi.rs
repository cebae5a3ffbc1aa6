//! Bus, detection, probing, SFDP, quad mode, locks, protection, reading.
use flashcat::chip::{EraseType, ParamSource, ResolvedChip};
use flashcat::db::{lookup, ChipVoltage, SpiNorDef};
use flashcat::error::Error;
use flashcat::fpga::Voltage;
use flashcat::host::HostOp;
use flashcat::programmer::Programmer;
use flashcat::spi::bus::{
    deep_power_down_packet, deep_power_down_script, is_busy, poll_timeout, spibus_read,
    spibus_write, ss_disable, ss_enable, word_byte, PollNext, WipPoll,
};
use flashcat::spi::detect::{
    db_chip_to_resolved, decode_rdid, detect, detect_from_id, enter_4byte_mode, is_blank_id, rdid,
    size_conflict, software_reset, DetectEvent, DetectNext, DetectState,
};
use flashcat::spi::lock::{
    addr_vec, decode_block_lock, global_lock, global_unlock, lock_block, read_block_lock,
    require_winbond, unlock_block,
};
use flashcat::spi::probe::{
    auto_probe, needs_sfdp, resolve_caution, resolve_chip, start_probe, voltage_matches_chip,
    Caution, ProbeEvent, ProbeNext, ProbeState, Resolved,
};
use flashcat::spi::protect::{
    bp_layout, decode_range_spi25, protect_chip, read_wp_status, unprotect_chip, wp_registers,
    BpLayout, WpNext, WpState,
};
use flashcat::spi::quad::{
    enable_quad, quad_next, sqi_clock_div, sqi_read_setup_packet, sqi_setup, try_read_quad_block,
    QuadNext, QuadState,
};
use flashcat::spi::read::{check_read, read, read_setup_packet, try_read_block};
use flashcat::spi::sfdp::{
    density_disagrees, find_basic_table, merge_db_with_sfdp, parse_jedec_basic, read_sfdp,
    sfdp_addr_bytes, sfdp_erase_size, sfdp_read, sfdp_to_resolved, soft_reset, SfdpInfo, SfdpNext,
    SfdpState,
};
use flashcat::spi::{init, SpiSpeed};
use flashcat::usb::UsbReq;

fn make_chip(addr_bytes: u8) -> ResolvedChip {
    ResolvedChip {
        name: "TestChip".to_string(),
        mfr: 0xEF,
        id1: 0x40,
        id2: 0x18,
        voltage: ChipVoltage::V3_3,
        size_bytes: 16 * 1024 * 1024,
        page_size: 256,
        erase_size: 4096,
        erase_types: vec![],
        addr_bytes,
        quad: false,
        source: ParamSource::Database,
        chip_erase_max_ms: None,
    }
}

fn entry(name: &str, id: [u8; 3], size_bytes: u32, voltage: ChipVoltage) -> SpiNorDef {
    SpiNorDef {
        name: name.to_string(),
        mfr: id[0],
        id1: id[1],
        id2: id[2],
        size_bytes,
        page_size: 256,
        erase_size: 4096,
        addr_bytes: if size_bytes > 0x100_0000 { 4 } else { 3 },
        voltage,
        quad: false,
    }
}

/// Whether a step sends exactly these bytes and receives `n`.
fn transfers(op: &HostOp, bytes: &[u8], n: u32) -> bool {
    matches!(op, HostOp::Transfer { tx, rx_len } if tx == bytes && *rx_len == n)
}

/// Whether a step is a control transfer without payload.
fn controls(op: &HostOp, want: UsbReq, arg: u32, pause: bool) -> bool {
    matches!(op, HostOp::Control { req, data, payload, settle }
        if *req == want && *data == arg && payload.is_empty() && *settle == pause)
}

// ── bus ─────────────────────────────────────────────────────────────────────

#[test]
fn test_deep_power_down_packet() {
    assert_eq!(deep_power_down_packet(), [0xB9]);
}

#[test]
fn bus_scripts() {
    let s = spibus_write(vec![1, 2, 3]);
    assert!(controls(&s[0], UsbReq::SpiWrData, 3, false));
    assert!(matches!(&s[1], HostOp::BulkOut { bytes } if bytes == &vec![1, 2, 3]));
    let s = spibus_read(7);
    assert!(controls(&s[0], UsbReq::SpiRdData, 7, false));
    assert!(matches!(s[1], HostOp::BulkIn { len: 7 }));
    assert!(controls(&ss_enable()[0], UsbReq::SpiSsEnable, 0, true));
    assert!(controls(&ss_disable()[0], UsbReq::SpiSsDisable, 0, true));
    let s = deep_power_down_script();
    assert_eq!(s.len(), 2);
    assert!(transfers(&s[0], &[0xB9], 0));
    assert!(matches!(s[1], HostOp::Sleep { ms: 1 }));
    assert_eq!((0..4).map(|k| word_byte(0x1122_3344, k)).collect::<Vec<u8>>(), [0x44, 0x33, 0x22, 0x11]);
}

#[test]
fn waiting_is_bounded_and_ends_at_the_first_ready_reply() {
    assert!(is_busy(&[]));
    assert!(is_busy(&[0x03]));
    assert!(!is_busy(&[0x02]));

    let mut p = WipPoll::new(3);
    assert_eq!(p.step(None), PollNext::Poll);
    assert_eq!(p.step(Some(&[0x01])), PollNext::Poll);
    assert_eq!(p.step(Some(&[0x00])), PollNext::Ready);

    let mut p = WipPoll::new(3);
    let mut reads = 0;
    let mut next = p.step(None);
    while next == PollNext::Poll {
        reads += 1;
        next = p.step(Some(&[]));
    }
    assert_eq!((next, reads), (PollNext::TimedOut, 3));
    assert_eq!(poll_timeout(3, 10), Error::WipTimeout { ms: 30 });
    assert_eq!(WipPoll::new(0).step(None), PollNext::TimedOut);
}

#[test]
fn init_sends_the_clock_only() {
    let s = init(SpiSpeed(24));
    assert!(controls(&s[0], UsbReq::SpiInit, 24, true));
    assert!(matches!(s[1], HostOp::Sleep { ms: 50 }));
    assert_eq!(SpiSpeed::all().map(|s| s.0), [1, 2, 4, 8, 12, 16, 24, 32]);
    assert!(SpiSpeed(12).is_supported());
    assert!(!SpiSpeed(3).is_supported());
}

// ── read ────────────────────────────────────────────────────────────────────

#[test]
fn reads_are_cut_into_blocks() {
    let blocks = read(0x1000, 150_000).unwrap();
    let shape: Vec<(u32, u32)> = blocks.iter().map(|b| (b.addr, b.len)).collect();
    assert_eq!(shape, vec![(0x1000, 65536), (0x11000, 65536), (0x21000, 150_000 - 131_072)]);
    assert!(read(5, 0).unwrap().is_empty());
    assert_eq!(
        read(0xFFFF_FFFF, 1).err(),
        Some(Error::ReadRangeOverflow { offset: 0xFFFF_FFFF, len: 1 })
    );
    assert_eq!(check_read(4, 4), Ok(()));
    assert_eq!(check_read(3, 4), Err(Error::ShortRead { got: 3, want: 4 }));
}

#[test]
fn read_scripts() {
    assert_eq!(
        read_setup_packet(0x0B, 4, 0x1122_3344, 0x55_6677, 1),
        [0x0B, 4, 0x11, 0x22, 0x33, 0x44, 0x55, 0x66, 0x77, 1, 0]
    );
    let c = make_chip(3);
    let s = try_read_block(&c, 0x1234, 16, false);
    assert!(matches!(&s[0], HostOp::Control { req: UsbReq::SpiReadFlash, data: 0, payload, settle: true }
        if payload == &vec![0x0B, 3, 0, 0, 0x12, 0x34, 0, 0, 16, 1, 0]));
    assert!(matches!(s[1], HostOp::BulkIn { len: 16 }));
    let s = try_read_block(&c, 0x1234, 16, true);
    assert!(matches!(&s[0], HostOp::Control { payload, .. }
        if payload == &vec![0x03, 3, 0, 0, 0x12, 0x34, 0, 0, 16, 0, 0]));
}

// ── database and detection ──────────────────────────────────────────────────

#[test]
fn lookup_returns_every_match_in_order() {
    let db = vec![
        entry("a", [1, 2, 3], 1, ChipVoltage::V1_8),
        entry("b", [1, 2, 4], 2, ChipVoltage::V1_8),
        entry("c", [1, 2, 3], 3, ChipVoltage::V3_3),
    ];
    let names: Vec<&str> = lookup(&db, 1, 2, 3).iter().map(|d| d.name.as_str()).collect();
    assert_eq!(names, ["a", "c"]);
    assert!(lookup(&db, 9, 2, 3).is_empty());
}

#[test]
fn blank_rdid_triggers_reset_path() {
    assert!(0xFF_u8 == 0xFF || 0xFF_u8 == 0x00);
    assert!(0x00_u8 == 0xFF || 0x00_u8 == 0x00);
    assert!(!(0xEF_u8 == 0xFF || 0xEF_u8 == 0x00));
    assert!(is_blank_id(0xFF));
    assert!(is_blank_id(0x00));
    assert!(!is_blank_id(0xEF));
    let (state, next) =
        detect(&[], Voltage::V3_3, DetectState::FirstId, DetectEvent::Id([0xFF; 3]));
    assert_eq!(state, DetectState::RetryId);
    assert!(matches!(next, DetectNext::ResetThenReadId));
}

#[test]
fn rdid_and_reset_scripts() {
    assert!(transfers(&rdid()[0], &[0x9F], 3));
    assert_eq!(decode_rdid(&[1, 2, 3, 4]), Ok([1, 2, 3]));
    assert_eq!(decode_rdid(&[1, 2]), Err(Error::ShortRdid { bytes: 2 }));
    for s in [software_reset(), soft_reset()] {
        assert!(transfers(&s[0], &[0x66], 0));
        assert!(transfers(&s[1], &[0x99], 0));
        assert!(matches!(s[2], HostOp::Sleep { ms: 10 }));
    }
    assert!(transfers(&enter_4byte_mode()[0], &[0xB7], 0));
}

#[test]
fn database_entries_resolve_with_the_usual_opcodes() {
    for (erase_size, addr_bytes, opcode) in
        [(4096, 3, 0x20), (65536, 3, 0xD8), (4096, 4, 0x21), (65536, 4, 0xDC)]
    {
        let mut e = entry("x", [1, 2, 3], 0x10_0000, ChipVoltage::V3_3);
        e.erase_size = erase_size;
        e.addr_bytes = addr_bytes;
        e.quad = true;
        let c = db_chip_to_resolved(&e);
        assert_eq!(c.erase_types, vec![EraseType { size_bytes: erase_size, opcode }]);
        assert_eq!((c.source, c.addr_bytes, c.quad), (ParamSource::Database, addr_bytes, true));
        assert_eq!(c.name, "x");
    }
}

#[test]
fn explicit_detection_takes_the_smallest_candidate_for_the_voltage() {
    let id = [0xEF, 0x40, 0x18];
    let db = vec![
        entry("low", id, 0x10_0000, ChipVoltage::V1_8),
        entry("big", id, 0x40_0000, ChipVoltage::V3_3),
        entry("small", id, 0x20_0000, ChipVoltage::V3_3),
    ];
    assert_eq!(detect_from_id(&db, id, Voltage::V3_3).unwrap().unwrap().name, "small");
    assert_eq!(detect_from_id(&db, id, Voltage::V5_0).unwrap().unwrap().name, "small");
    assert_eq!(detect_from_id(&db, id, Voltage::V1_8).unwrap().unwrap().name, "low");
    assert_eq!(
        detect_from_id(&db[..1], id, Voltage::V3_3).err(),
        Some(Error::VoltageMismatch { required: Voltage::V1_8, target: Voltage::V3_3 })
    );
    assert!(detect_from_id(&db, [0xEF, 0, 0], Voltage::V3_3).unwrap().is_none());
    assert!(detect_from_id(&db, [0xFF; 3], Voltage::V3_3).unwrap().is_none());
}

#[test]
fn explicit_detection_falls_back_on_sfdp() {
    let (state, next) =
        detect(&[], Voltage::V1_8, DetectState::FirstId, DetectEvent::Id([0xEF, 1, 2]));
    assert_eq!(state, DetectState::Sfdp([0xEF, 1, 2]));
    assert!(matches!(next, DetectNext::ReadSfdp));
    let (state, next) =
        detect(&[], Voltage::V1_8, state, DetectEvent::Sfdp(Some(info(0x200_0000, false))));
    assert_eq!(state, DetectState::Finished);
    assert!(matches!(next, DetectNext::Done { chip: Some(c), enter_4byte: true }
        if c.name == "Unknown (0xef:0x01:0x02) via SFDP" && c.voltage == ChipVoltage::V1_8));
    let (_, next) = detect(
        &[],
        Voltage::V1_8,
        DetectState::Sfdp([0xEF, 1, 2]),
        DetectEvent::Sfdp(None),
    );
    assert!(matches!(next, DetectNext::Done { chip: None, enter_4byte: false }));
    // A second blank identifier ends without a chip.
    let (_, next) = detect(&[], Voltage::V3_3, DetectState::RetryId, DetectEvent::Id([0; 3]));
    assert!(matches!(next, DetectNext::Done { chip: None, .. }));
    // A chip for another voltage stops the detection.
    let db = vec![entry("x", [1, 2, 3], 0x1000, ChipVoltage::V1_8)];
    let (_, next) = detect(&db, Voltage::V3_3, DetectState::FirstId, DetectEvent::Id([1, 2, 3]));
    assert!(matches!(next, DetectNext::Stop(Error::VoltageMismatch { .. })));
    let (_, next) = detect(&db, Voltage::V1_8, DetectState::FirstId, DetectEvent::Id([1, 2, 3]));
    assert!(matches!(next, DetectNext::Done { chip: Some(_), enter_4byte: false }));
}

// ── SFDP ────────────────────────────────────────────────────────────────────

fn info(size_bytes: u32, is_partial: bool) -> SfdpInfo {
    SfdpInfo {
        sfdp_rev: (1, 6),
        size_bytes,
        page_size: 512,
        erase_types: vec![
            EraseType { size_bytes: 65536, opcode: 0xD8 },
            EraseType { size_bytes: 8192, opcode: 0x40 },
        ],
        fast_read_114: true,
        fast_read_144: false,
        dtr_supported: false,
        chip_erase_typ_ms: Some(1000),
        table_bytes: if is_partial { 8 } else { 64 },
        is_partial,
    }
}

fn table(dwords: &[u32]) -> Vec<u8> {
    dwords.iter().flat_map(|d| d.to_le_bytes()).collect()
}

#[test]
fn jedec_basic_table_of_a_128mbit_chip() {
    let mut dw = [0u32; 11];
    dw[0] = (1 << 22) | (1 << 19);
    dw[1] = 0x07FF_FFFF;
    dw[7] = 0x520F_200C;
    dw[8] = 0x0000_D810;
    // Page size 2^8, chip erase (9 + 1) * 4 s.
    dw[10] = (8 << 4) | (9 << 24) | (2 << 29);
    let i = parse_jedec_basic(&table(&dw), 1, 6).unwrap();
    assert_eq!((i.sfdp_rev, i.size_bytes, i.page_size), ((1, 6), 16 * 1024 * 1024, 256));
    assert_eq!(
        i.erase_types,
        vec![
            EraseType { size_bytes: 4096, opcode: 0x20 },
            EraseType { size_bytes: 32768, opcode: 0x52 },
            EraseType { size_bytes: 65536, opcode: 0xD8 },
        ]
    );
    assert!(i.fast_read_114 && !i.fast_read_144 && i.dtr_supported);
    assert_eq!(i.chip_erase_typ_ms, Some(40_000));
    assert_eq!((i.table_bytes, i.is_partial), (44, false));
    // Every block is made of whole sectors.
    let c = sfdp_to_resolved(&i, [1, 2, 3], Voltage::V3_3);
    assert!(c.erase_types.iter().all(|t| t.size_bytes % c.erase_size == 0));
}

#[test]
fn jedec_basic_table_limits() {
    let parse = |dw1: u32| parse_jedec_basic(&table(&[0, dw1]), 1, 0);
    let i = parse(0x03FF_FFFF).unwrap();
    assert_eq!((i.size_bytes, i.page_size, i.is_partial), (0x80_0000, 256, true));
    assert!(i.erase_types.is_empty() && i.chip_erase_typ_ms.is_none());
    assert_eq!(parse(0x8000_0000 | 34).unwrap().size_bytes, 0x8000_0000);
    assert_eq!(parse(0x8000_0000 | 3).unwrap().size_bytes, 1);
    assert_eq!(parse(0x8000_0000 | 35).err(), Some(Error::SfdpDensityTooLarge { exponent: 35 }));
    assert_eq!(parse(0x8000_0000 | 2).err(), Some(Error::SfdpDensityTooSmall { exponent: 2 }));
    assert_eq!(parse(0xFFFF_FFFF).err(), Some(Error::SfdpDensityBlank));
    assert_eq!(
        parse_jedec_basic(&[0; 7], 1, 0).err(),
        Some(Error::SfdpTableTooShort { bytes: 7 })
    );
    // An implausible page size and an unspecified erase time.
    let mut dw = [0u32; 11];
    dw[10] = 12 << 4;
    let i = parse_jedec_basic(&table(&dw), 1, 0).unwrap();
    assert_eq!((i.page_size, i.chip_erase_typ_ms), (256, None));
}

#[test]
fn sfdp_reader_takes_the_last_basic_table() {
    assert_eq!(SfdpState::Header.request(), (0, 8));
    let state = match read_sfdp(SfdpState::Header, &[0x53, 0x46, 0x44, 0x50, 6, 1, 1, 0xFF]) {
        SfdpNext::Read(s) => s,
        other => panic!("{other:?}"),
    };
    assert_eq!(state.request(), (8, 16));
    let headers = [
        0x00, 0, 1, 9, 0x30, 0, 0, 0xFF, //
        0x00, 0, 1, 2, 0x80, 0x01, 0, 0xFF,
    ];
    assert_eq!(find_basic_table(&headers, 2), Some((0x180, 8)));
    let state = match read_sfdp(state, &headers) {
        SfdpNext::Read(s) => s,
        other => panic!("{other:?}"),
    };
    assert_eq!(state.request(), (0x180, 8));
    match read_sfdp(state, &table(&[0, 0x03FF_FFFF])) {
        SfdpNext::Done(i) => assert_eq!((i.sfdp_rev, i.size_bytes), ((1, 6), 0x80_0000)),
        other => panic!("{other:?}"),
    }
    assert!(matches!(
        read_sfdp(SfdpState::Header, &[0xFF; 8]),
        SfdpNext::Failed(Error::SfdpMagic)
    ));
    assert!(matches!(
        read_sfdp(SfdpState::Header, &[0x53]),
        SfdpNext::Failed(Error::ShortRead { got: 1, want: 8 })
    ));
    assert!(matches!(
        read_sfdp(SfdpState::Params { major: 1, minor: 0, count: 1 }, &[0x84, 0, 0, 0, 0, 0, 0, 0xFF]),
        SfdpNext::Failed(Error::SfdpNoBasicTable)
    ));
    let s = sfdp_read(0x30, 36);
    assert!(matches!(&s[0], HostOp::Control { req: UsbReq::SpiReadFlash, payload, .. }
        if payload == &vec![0x5A, 3, 0, 0, 0, 0x30, 0, 0, 36, 1, 0]));
}

#[test]
fn sfdp_alone_describes_a_chip() {
    let c = sfdp_to_resolved(&info(0x200_0000, false), [0x01, 0xAB, 0xCD], Voltage::V5_0);
    assert_eq!(c.name, "Unknown (0x01:0xab:0xcd) via SFDP");
    assert_eq!((c.mfr, c.id1, c.id2), (0x01, 0xAB, 0xCD));
    assert_eq!((c.voltage, c.addr_bytes, c.quad), (ChipVoltage::V3_3, 4, true));
    assert_eq!((c.erase_size, c.page_size), (8192, 512));
    assert_eq!(c.chip_erase_max_ms, Some(8000));
    assert_eq!(c.source, ParamSource::Sfdp);
    let mut bare = info(0x1000, false);
    bare.erase_types = vec![];
    let c = sfdp_to_resolved(&bare, [1, 2, 3], Voltage::V1_8);
    assert_eq!(c.erase_types, vec![EraseType { size_bytes: 4096, opcode: 0x20 }]);
    assert_eq!(sfdp_erase_size(&bare), 4096);
    assert_eq!((sfdp_addr_bytes(0x100_0000), sfdp_addr_bytes(0x100_0001)), (3, 4));
}

#[test]
fn database_and_sfdp_are_merged() {
    let mut db = entry("W25Q128", [0xEF, 0x40, 0x18], 0x100_0000, ChipVoltage::V3_3);
    let c = merge_db_with_sfdp(&db, &info(0x200_0000, false));
    assert_eq!((c.name.as_str(), c.size_bytes, c.addr_bytes), ("W25Q128", 0x200_0000, 4));
    assert_eq!((c.page_size, c.erase_size, c.source), (512, 8192, ParamSource::DatabaseWithSfdp));
    assert_eq!(c.chip_erase_max_ms, Some(8000));
    // A short table gives no geometry, and a density that disagrees is not adopted.
    let c = merge_db_with_sfdp(&db, &info(0x200_0000, true));
    assert_eq!((c.size_bytes, c.addr_bytes, c.page_size), (0x100_0000, 3, 256));
    assert_eq!(c.source, ParamSource::DatabaseWithPartialSfdp);
    assert_eq!(c.chip_erase_max_ms, None);
    for (size, opcode) in [(4096, 0x20), (32768, 0x52), (65536, 0xD8), (131072, 0xD8), (8192, 0x20)] {
        db.erase_size = size;
        let c = merge_db_with_sfdp(&db, &info(0x100_0000, true));
        assert_eq!(c.erase_types, vec![EraseType { size_bytes: size, opcode }]);
        let mut bare = info(0x100_0000, false);
        bare.erase_types = vec![];
        let c = merge_db_with_sfdp(&db, &bare);
        assert_eq!(c.erase_types, vec![EraseType { size_bytes: size, opcode }]);
        assert_eq!(c.erase_size, size);
    }
}

// ── probing ─────────────────────────────────────────────────────────────────

const ID: [u8; 3] = [0xC2, 0x20, 0x18];

fn ambiguous() -> Vec<SpiNorDef> {
    vec![
        entry("L", ID, 0x100_0000, ChipVoltage::V1_8),
        entry("H", ID, 0x200_0000, ChipVoltage::V3_3),
    ]
}

#[test]
fn chips_are_resolved_by_database_and_sfdp() {
    assert!(voltage_matches_chip(Voltage::V5_0, ChipVoltage::V3_3));
    assert!(!voltage_matches_chip(Voltage::V3_3, ChipVoltage::V1_8));
    let single = vec![entry("S", ID, 0x100_0000, ChipVoltage::V3_3)];

    // Unknown.
    assert!(needs_sfdp(&[], ID, Voltage::V1_8));
    assert!(matches!(resolve_chip(&[], ID, Voltage::V1_8, None), Ok(Resolved::Unknown)));
    assert!(matches!(resolve_chip(&[], ID, Voltage::V1_8, Some(info(0x1000, false))),
        Ok(Resolved::Match(c)) if c.source == ParamSource::Sfdp));

    // One entry.
    assert!(needs_sfdp(&single, ID, Voltage::V3_3));
    assert!(!needs_sfdp(&single, ID, Voltage::V1_8));
    assert!(matches!(resolve_chip(&single, ID, Voltage::V1_8, None),
        Ok(Resolved::WrongVoltage(c)) if c.name == "S"));
    assert!(matches!(resolve_chip(&single, ID, Voltage::V3_3, None),
        Ok(Resolved::Match(c)) if c.source == ParamSource::Database));
    assert!(matches!(resolve_chip(&single, ID, Voltage::V3_3, Some(info(0x1000, false))),
        Ok(Resolved::Match(c)) if c.source == ParamSource::DatabaseWithSfdp));

    // Several entries with one voltage: the first.
    let same = vec![
        entry("A", ID, 0x100_0000, ChipVoltage::V3_3),
        entry("B", ID, 0x200_0000, ChipVoltage::V3_3),
    ];
    assert!(matches!(resolve_chip(&same, ID, Voltage::V3_3, None),
        Ok(Resolved::Match(c)) if c.name == "A"));

    // Several voltages: the size settles it, or nothing does.
    let db = ambiguous();
    assert!(matches!(resolve_chip(&db, ID, Voltage::V1_8, Some(info(0x200_0000, false))),
        Ok(Resolved::WrongVoltage(c)) if c.name == "H"));
    assert!(matches!(resolve_chip(&db, ID, Voltage::V1_8, Some(info(0x100_0000, false))),
        Ok(Resolved::Match(c)) if c.name == "L"));
    assert_eq!(
        resolve_chip(&db, ID, Voltage::V1_8, Some(info(0x1000, false))).err(),
        Some(Error::AmbiguousRdid { mfr: 0xC2, id1: 0x20, id2: 0x18, sfdp: true })
    );
    assert_eq!(
        resolve_chip(&db, ID, Voltage::V1_8, None).err(),
        Some(Error::AmbiguousRdid { mfr: 0xC2, id1: 0x20, id2: 0x18, sfdp: false })
    );
    assert!(matches!(resolve_chip(&db, ID, Voltage::V3_3, Some(info(0x1000, false))),
        Ok(Resolved::Match(c)) if c.source == ParamSource::Sfdp));
    assert!(matches!(resolve_chip(&db, ID, Voltage::V3_3, None),
        Ok(Resolved::Match(c)) if c.name == "H"));
}

#[test]
fn doubtful_chips_are_taken_with_a_caution() {
    let single = vec![entry("S", ID, 0x100_0000, ChipVoltage::V3_3)];
    let fitting = Some(info(0x100_0000, false));
    let other = Some(info(0x200_0000, true));
    assert!(density_disagrees(&single[0], other.as_ref().unwrap()));
    assert!(!density_disagrees(&single[0], fitting.as_ref().unwrap()));
    assert_eq!(resolve_caution(&[], ID, Voltage::V3_3, &None), None);
    assert_eq!(
        resolve_caution(&single, ID, Voltage::V3_3, &None),
        Some(Caution::SfdpAbsent)
    );
    assert_eq!(resolve_caution(&single, ID, Voltage::V3_3, &fitting), None);
    assert_eq!(
        resolve_caution(&single, ID, Voltage::V3_3, &other),
        Some(Caution::DensityDisagrees { sfdp_bytes: 0x200_0000, db_bytes: 0x100_0000 })
    );
    assert_eq!(resolve_caution(&single, ID, Voltage::V1_8, &other), None);

    let db = ambiguous();
    let neither = Some(info(0x1000, false));
    assert_eq!(resolve_caution(&db, ID, Voltage::V3_3, &other), None);
    assert_eq!(resolve_caution(&db, ID, Voltage::V3_3, &neither), Some(Caution::SfdpOnly));
    assert_eq!(resolve_caution(&db, ID, Voltage::V3_3, &None), Some(Caution::Guessed));
    // At 1.8V the chip is refused instead.
    assert_eq!(resolve_caution(&db, ID, Voltage::V1_8, &neither), None);
    assert_eq!(resolve_caution(&db, ID, Voltage::V1_8, &None), None);
}

#[test]
fn entries_of_different_sizes_conflict() {
    let db = vec![
        entry("low", ID, 0x80_0000, ChipVoltage::V1_8),
        entry("A", ID, 0x100_0000, ChipVoltage::V3_3),
        entry("B", ID, 0x200_0000, ChipVoltage::V3_3),
        entry("C", ID, 0x100_0000, ChipVoltage::V3_3),
    ];
    assert_eq!(size_conflict(&db, ID, Voltage::V3_3), Some(3));
    assert_eq!(size_conflict(&db, ID, Voltage::V5_0), Some(3));
    assert_eq!(size_conflict(&db, ID, Voltage::V1_8), None);
    assert_eq!(size_conflict(&db[..2], ID, Voltage::V3_3), None);
    assert_eq!(size_conflict(&db, [0xFF; 3], Voltage::V3_3), None);
}

/// The sector size of a descriptor is the smallest size that it advertises.
#[test]
fn sector_size_is_the_smallest_advertised() {
    let mut db = entry("W", ID, 0x100_0000, ChipVoltage::V3_3);
    db.erase_size = 65536;
    let mut bare = info(0x100_0000, false);
    bare.erase_types = vec![];
    for c in [
        db_chip_to_resolved(&db),
        merge_db_with_sfdp(&db, &bare),
        merge_db_with_sfdp(&db, &info(0x100_0000, false)),
        merge_db_with_sfdp(&db, &info(0x100_0000, true)),
        sfdp_to_resolved(&bare, ID, Voltage::V3_3),
        sfdp_to_resolved(&info(0x100_0000, false), ID, Voltage::V3_3),
    ] {
        let smallest = c.erase_types.iter().map(|t| t.size_bytes).min();
        assert_eq!(smallest, Some(c.erase_size));
    }
}

#[test]
fn probing_starts_low_where_the_programmer_can() {
    let (state, next) = start_probe(Programmer::Pro5);
    assert_eq!(state, ProbeState::AwaitId(Voltage::V1_8));
    assert!(matches!(next, ProbeNext::PowerUp { wait_ms: 0, voltage: Voltage::V1_8 }));
    let (state, next) = start_probe(Programmer::Classic);
    assert_eq!(state, ProbeState::AwaitId(Voltage::V3_3));
    assert!(matches!(next, ProbeNext::PowerUp { wait_ms: 0, voltage: Voltage::V3_3 }));
}

#[test]
fn silence_at_1v8_escalates_after_the_drain() {
    let (state, next) =
        auto_probe(&[], ProbeState::AwaitId(Voltage::V1_8), ProbeEvent::Id([0xFF; 3]));
    assert_eq!(state, ProbeState::AwaitId(Voltage::V3_3));
    assert!(matches!(next, ProbeNext::PowerUp { wait_ms: 300, voltage: Voltage::V3_3 }));
    let (state, next) = auto_probe(&[], state, ProbeEvent::Id([0x00; 3]));
    assert_eq!(state, ProbeState::NoChip);
    assert!(matches!(next, ProbeNext::PowerOff));
}

#[test]
fn known_3v3_chip_at_1v8_escalates_and_is_found() {
    let db = vec![entry("H", ID, 0x200_0000, ChipVoltage::V3_3)];
    let (state, next) =
        auto_probe(&db, ProbeState::AwaitId(Voltage::V1_8), ProbeEvent::Id(ID));
    assert!(matches!(next, ProbeNext::PowerUp { wait_ms: 300, voltage: Voltage::V3_3 }));
    let (state, next) = auto_probe(&db, state, ProbeEvent::Id(ID));
    assert_eq!(state, ProbeState::AwaitSfdp(Voltage::V3_3, ID));
    assert!(matches!(next, ProbeNext::ReadSfdp));
    let (state, next) = auto_probe(&db, state, ProbeEvent::Sfdp(None));
    assert_eq!(state, ProbeState::Identified);
    assert!(matches!(next, ProbeNext::Found { chip, voltage: Voltage::V3_3, enter_4byte: true }
        if chip.name == "H"));
}

#[test]
fn unsettled_chips_at_1v8_are_never_escalated() {
    let (state, next) =
        auto_probe(&[], ProbeState::AwaitSfdp(Voltage::V1_8, ID), ProbeEvent::Sfdp(None));
    assert_eq!(state, ProbeState::Refused);
    assert!(matches!(next,
        ProbeNext::Stop(Error::UnknownAt1v8 { mfr: 0xC2, id1: 0x20, id2: 0x18 })));
    let (state, next) = auto_probe(
        &ambiguous(),
        ProbeState::AwaitSfdp(Voltage::V1_8, ID),
        ProbeEvent::Sfdp(None),
    );
    assert_eq!(state, ProbeState::Refused);
    assert!(matches!(next, ProbeNext::Stop(Error::AmbiguousRdid { .. })));
    let low = vec![entry("L", ID, 0x1000, ChipVoltage::V1_8)];
    let (_, next) = auto_probe(&low, ProbeState::AwaitId(Voltage::V3_3), ProbeEvent::Id(ID));
    assert!(matches!(next,
        ProbeNext::Stop(Error::Requires1v8 { mfr: 0xC2, id1: 0x20, id2: 0x18 })));
    // At 3.3V an unknown chip without SFDP counts as none.
    let (state, next) =
        auto_probe(&[], ProbeState::AwaitSfdp(Voltage::V3_3, ID), ProbeEvent::Sfdp(None));
    assert_eq!(state, ProbeState::NoChip);
    assert!(matches!(next, ProbeNext::PowerOff));
}

// ── quad mode ───────────────────────────────────────────────────────────────

#[test]
fn test_clock_div_encoding() {
    assert_eq!(sqi_clock_div(8).unwrap(), 2);
    assert_eq!(sqi_clock_div(16).unwrap(), 1);
    assert_eq!(sqi_clock_div(32).unwrap(), 0);
}

#[test]
fn test_clock_div_rejects_unsupported_speeds() {
    assert!(sqi_clock_div(1).is_err());
    assert!(sqi_clock_div(2).is_err());
    assert!(sqi_clock_div(4).is_err());
    assert!(sqi_clock_div(12).is_err());
    assert!(sqi_clock_div(24).is_err());
    assert_eq!(sqi_clock_div(24), Err(Error::SqiClock { mhz: 24 }));
}

#[test]
fn test_sqi_read_setup_packet() {
    let pkt = sqi_read_setup_packet(3, 0x00ABC000, 0x10000);
    assert_eq!(pkt[0], 0x6B);
    assert_eq!(pkt[1], 3);
    assert_eq!(pkt[2], 0x00);
    assert_eq!(pkt[3], 0xAB);
    assert_eq!(pkt[4], 0xC0);
    assert_eq!(pkt[5], 0x00);
    assert_eq!(pkt[6], 0x01);
    assert_eq!(pkt[7], 0x00);
    assert_eq!(pkt[8], 0x00);
    assert_eq!(pkt[9], 8);
    assert_eq!(pkt[10], 3);
}

#[test]
fn test_sqi_setup_packet_length() {
    let pkt = sqi_read_setup_packet(3, 0, 1);
    assert_eq!(pkt.len(), 11);
}

#[test]
fn quad_interface_scripts() {
    let s = sqi_setup(8).unwrap();
    assert!(controls(&s[0], UsbReq::SqiSetup, 2, true));
    assert!(matches!(s[1], HostOp::Sleep { ms: 10 }));
    assert_eq!(sqi_setup(12).err(), Some(Error::SqiClock { mhz: 12 }));
    let s = try_read_quad_block(&make_chip(3), 0x100, 64);
    assert!(matches!(&s[0], HostOp::Control { req: UsbReq::SqiRdFlash, payload, .. }
        if payload == &vec![0x6B, 3, 0, 0, 1, 0, 0, 0, 64, 8, 3]));
    assert!(matches!(s[1], HostOp::BulkIn { len: 64 }));
}

/// Runs the quad enable sequence on registers given by their read opcodes, and returns the
/// bytes that are written.
fn enable(mfr: u8, registers: &[(u8, u8)]) -> Option<Vec<Vec<u8>>> {
    let mut state: QuadState = enable_quad(mfr).unwrap();
    loop {
        let opcode = state.read_opcode();
        let value = registers.iter().find(|r| r.0 == opcode).map(|r| r.1);
        let reply: Vec<u8> = value.into_iter().collect();
        match quad_next(state, &reply) {
            QuadNext::Read(s) => state = s,
            QuadNext::AlreadyEnabled => return None,
            QuadNext::Write(script) => {
                assert!(matches!(
                    script.last(),
                    Some(HostOp::WaitReady { polls: 140, interval_ms: 5 })
                ));
                let mut sent = Vec::new();
                for op in &script {
                    if let HostOp::Transfer { tx, rx_len: 0 } = op {
                        sent.push(tx.clone());
                    }
                }
                return Some(sent);
            }
        }
    }
}

#[test]
fn quad_is_enabled_as_the_vendor_has_it() {
    assert_eq!(enable(0xEF, &[(0x35, 0x40)]), Some(vec![vec![0x06], vec![0x31, 0x42]]));
    assert_eq!(enable(0xC8, &[(0x35, 0x02)]), None);
    assert_eq!(enable(0xC8, &[]), Some(vec![vec![0x06], vec![0x31, 0x02]]));
    assert_eq!(enable(0x20, &[(0x65, 0xDF)]), Some(vec![vec![0x61, 0x5F]]));
    assert_eq!(enable(0x20, &[]), Some(vec![vec![0x61, 0x7F]]));
    assert_eq!(enable(0x20, &[(0x65, 0x5F)]), None);
    assert_eq!(
        enable(0x01, &[(0x05, 0x1C), (0x35, 0x20)]),
        Some(vec![vec![0x06], vec![0x01, 0x1C, 0x22]])
    );
    assert_eq!(enable(0x01, &[(0x05, 0x1C), (0x35, 0x02)]), None);
    assert_eq!(enable(0x9D, &[(0x48, 0x01)]), Some(vec![vec![0x06], vec![0x42, 0x03]]));
    assert_eq!(
        enable(0xC2, &[(0x05, 0x04), (0x15, 0x07)]),
        Some(vec![vec![0x06], vec![0x01, 0x44, 0x07]])
    );
    assert_eq!(enable(0x1C, &[(0x05, 0x40)]), None);
    assert_eq!(enable_quad(0xBF), Err(Error::QuadUnsupported { mfr: 0xBF }));
}

// ── block locks ─────────────────────────────────────────────────────────────

#[test]
fn addr_vec_3byte() {
    let chip = make_chip(3);
    assert_eq!(addr_vec(&chip, 0x001234), vec![0x00, 0x12, 0x34]);
}

#[test]
fn addr_vec_4byte() {
    let chip = make_chip(4);
    assert_eq!(addr_vec(&chip, 0x01001234), vec![0x01, 0x00, 0x12, 0x34]);
}

#[test]
fn out_of_range_addr_is_larger_than_size() {
    let chip = make_chip(3);
    assert_eq!(chip.size_bytes, 16 * 1024 * 1024);
    assert!(
        0x0100_0000_u32 >= chip.size_bytes,
        "0x0100_0000 must be >= size_bytes (i.e. out of range)"
    );
    assert!(
        0x00FF_FFFF_u32 < chip.size_bytes,
        "0x00FF_FFFF must be < size_bytes (i.e. in range)"
    );
    let out_of_range = Error::AddressOutOfRange { addr: 0x0100_0000, size: 0x0100_0000 };
    for f in [read_block_lock, lock_block, unlock_block] {
        assert_eq!(f(&chip, 0x0100_0000).err(), Some(out_of_range));
        assert!(f(&chip, 0x00FF_FFFF).is_ok());
    }
}

#[test]
fn lock_scripts() {
    let chip = make_chip(3);
    assert!(transfers(&read_block_lock(&chip, 0x12345).unwrap()[0], &[0x3D, 1, 0x23, 0x45], 1));
    let s = lock_block(&chip, 0x12345).unwrap();
    assert!(transfers(&s[0], &[0x06], 0) && transfers(&s[1], &[0x36, 1, 0x23, 0x45], 0));
    let s = unlock_block(&chip, 0x12345).unwrap();
    assert!(transfers(&s[0], &[0x06], 0) && transfers(&s[1], &[0x39, 1, 0x23, 0x45], 0));
    for (script, opcode) in [(global_lock(&chip), 0x7E), (global_unlock(&chip), 0x98)] {
        let s = script.unwrap();
        assert!(transfers(&s[0], &[0x06], 0) && transfers(&s[1], &[opcode], 0));
        assert!(matches!(s[2], HostOp::Sleep { ms: 1 }));
    }
    assert_eq!(decode_block_lock(&[0x03]), Ok(true));
    assert_eq!(decode_block_lock(&[0xFE]), Ok(false));
    assert_eq!(decode_block_lock(&[]), Err(Error::EmptyBlockLock));
    let mut other = make_chip(3);
    other.mfr = 0xC2;
    assert_eq!(require_winbond(&other), Err(Error::NotWinbond { mfr: 0xC2 }));
    assert_eq!(global_lock(&other).err(), Some(Error::NotWinbond { mfr: 0xC2 }));
}

// ── write protection ────────────────────────────────────────────────────────

const SIZE_4MB: u32 = 4 * 1024 * 1024;

#[test]
fn no_protection() {
    assert_eq!(decode_range_spi25(SIZE_4MB, 0, 0, 0, 0), "none");
}

#[test]
fn all_protected() {
    assert_eq!(decode_range_spi25(SIZE_4MB, 7, 0, 0, 0), "all (4096 KB)");
}

#[test]
fn upper_quarter_bp3() {
    assert_eq!(decode_range_spi25(SIZE_4MB, 3, 0, 0, 0), "upper 256 KB");
}

#[test]
fn lower_half_tb1_bp6() {
    assert_eq!(decode_range_spi25(SIZE_4MB, 6, 1, 0, 0), "lower 2048 KB");
}

#[test]
fn sec_mode_small_sector() {
    assert_eq!(decode_range_spi25(SIZE_4MB, 1, 0, 1, 0), "upper 4 KB");
}

#[test]
fn cmp_inverts_range() {
    let r = decode_range_spi25(SIZE_4MB, 3, 0, 0, 1);
    assert!(r.starts_with("complement of"));
}

#[test]
fn cmp_with_bp0_is_complement_of_none() {
    let r = decode_range_spi25(SIZE_4MB, 0, 0, 0, 1);
    assert_eq!(r, "complement of none");
}

#[test]
fn full_bp_field_protects_large_chips_too() {
    assert_eq!(decode_range_spi25(16 * 1024 * 1024, 7, 0, 0, 0), "all (16384 KB)");
    assert_eq!(decode_range_spi25(65536, 5, 0, 0, 0), "all (64 KB)");
    assert_eq!(
        decode_range_spi25(16 * 1024 * 1024, 7, 0, 0, 1),
        "complement of upper 4096 KB"
    );
}

#[test]
fn wp_status_of_winbond_and_other_chips() {
    let mut c = make_chip(3);
    assert_eq!(wp_registers(&c), vec![0x05, 0x35, 0x15]);
    let wp = read_wp_status(&c, &[0x8C, 0x41, 0x04]);
    assert_eq!(
        wp.summary(),
        "complement of upper 256 KB (permanent (OTP)) [block-lock mode]  [SR1=0x8c SR2=0x41 SR3=0x04]"
    );
    assert_eq!(read_wp_status(&c, &[0x00, 0x01, 0]).mode, "power-cycle");
    // Four BP bits above 16 MiB, TB above them.
    c.size_bytes = 32 * 1024 * 1024;
    assert_eq!(read_wp_status(&c, &[0x3C, 0, 0]).range, "all (32768 KB)");
    assert_eq!(read_wp_status(&c, &[0x64, 0, 0]).range, "lower 16384 KB");
    // GigaDevice has no block lock mode.
    c.mfr = 0xC8;
    assert!(!read_wp_status(&c, &[0, 0, 0x04]).block_lock_mode);
    assert_eq!(read_wp_status(&c, &[0, 0x41, 0]).summary(),
        "complement of none (power-cycle)  [SR1=0x00 SR2=0x41 SR3=0x00]");
    // The GD25Q256D has the address mode at SR2 bit 0, SRP1 at bit 6, and no complement.
    c.name = "GD25Q256D".to_string();
    assert!(c.is_gd25q256d());
    let wp = read_wp_status(&c, &[0, 0x01, 0]);
    assert_eq!((wp.range.as_str(), wp.mode), ("none", "software"));
    let wp = read_wp_status(&c, &[0x80, 0x40, 0]);
    assert_eq!((wp.range.as_str(), wp.mode), ("none", "permanent (OTP)"));
    // Its BP field has four bits, TB above them.
    assert_eq!(read_wp_status(&c, &[0x3C, 0x40, 0]).range, "all (32768 KB)");
    assert_eq!(read_wp_status(&c, &[0x1C, 0, 0]).range, "upper 4096 KB");
    assert_eq!(read_wp_status(&c, &[0x44, 0, 0]).range, "lower 64 KB");
    // Others have one register.
    c.mfr = 0xC2;
    assert_eq!(wp_registers(&c), vec![0x05]);
    let wp = read_wp_status(&c, &[0x80]);
    assert_eq!(wp.summary(), "none (hardware (WP# pin))  [SR1=0x80]");
    // Macronix and EON have four BP bits; bit 6 says nothing of the range.
    for mfr in [0xC2, 0x1C] {
        c.mfr = mfr;
        assert_eq!(read_wp_status(&c, &[0x40]).range, "none");
        assert_eq!(read_wp_status(&c, &[0x7C]).range, "all (32768 KB)");
        assert_eq!(read_wp_status(&c, &[0x60]).range, "upper 8192 KB");
    }
    // On all others TB and SEC stand above three BP bits.
    c.mfr = 0x20;
    assert_eq!(read_wp_status(&c, &[0x64]).range, "lower 4 KB");
    assert_eq!(read_wp_status(&c, &[0x1C]).range, "all (32768 KB)");
}

/// Each vendor's BP bits are set and cleared, and nothing that is not the protection's.
#[test]
fn protection_follows_the_vendor_layout() {
    let gd = "GD25Q256D";
    for (mfr, name, size, sr1, protected, unprotected) in [
        (0xEF, "W25Q128", 16 << 20, 0x62, 0x1E, 0x02),
        (0xEF, "W25Q256", 32 << 20, 0x62, 0x3E, 0x02),
        (0xC8, "GD25Q128E", 16 << 20, 0x02, 0x7E, 0x02),
        (0xC8, gd, 32 << 20, 0x42, 0x3E, 0x02),
        (0xC2, "MX25L12835F", 16 << 20, 0x46, 0x7E, 0x42),
        (0x1C, "EN25QH128", 16 << 20, 0x40, 0x7C, 0x40),
        (0x20, "N25Q128", 16 << 20, 0x60, 0x1C, 0x00),
    ] {
        let mut c = make_chip(3);
        (c.mfr, c.name, c.size_bytes) = (mfr, name.to_string(), size);
        let written = |next: WpNext| match next {
            WpNext::Run { script, .. } => match &script[1] {
                HostOp::Transfer { tx, .. } if tx[0] == 0x01 => tx[1],
                other => panic!("{other:?}"),
            },
            other => panic!("{other:?}"),
        };
        assert_eq!(written(protect_chip(&c, WpState::Sr1, sr1)), protected, "{name}");
        assert_eq!(written(unprotect_chip(&c, WpState::Sr1, sr1)), unprotected, "{name}");
        assert!(matches!(protect_chip(&c, WpState::Verify, protected), WpNext::Done));
        assert!(matches!(unprotect_chip(&c, WpState::Verify, unprotected), WpNext::Done));
    }
    // The fourth and fifth bit count in the check.
    let mut c = make_chip(3);
    c.mfr = 0xC2;
    assert_eq!(bp_layout(&c), BpLayout::Four);
    assert!(matches!(protect_chip(&c, WpState::Verify, 0x1C),
        WpNext::Stop(Error::ProtectRejected { readback: 0x1C })));
    c.mfr = 0xC8;
    assert_eq!(bp_layout(&c), BpLayout::Five);
    assert!(matches!(protect_chip(&c, WpState::Verify, 0x3C),
        WpNext::Stop(Error::ProtectRejected { readback: 0x3C })));
    // The GD25Q256D has SRP1 where others have the complement bit: it is left alone.
    assert!(matches!(protect_chip(&c, WpState::Sr2, 0x40),
        WpNext::Run { script, .. } if transfers(&script[1], &[0x31, 0x00], 0)));
    (c.name, c.size_bytes) = (gd.to_string(), 32 << 20);
    for next in [protect_chip(&c, WpState::Sr2, 0x40), unprotect_chip(&c, WpState::Sr2, 0x40)] {
        assert!(matches!(next,
            WpNext::Run { script, read: 0x05, state: WpState::Verify } if script.is_empty()));
    }
}

#[test]
fn protecting_writes_and_checks_the_bp_bits() {
    let c = make_chip(3);
    let (script, state) = match protect_chip(&c, WpState::Sr1, 0x62) {
        WpNext::Run { script, read: 0x35, state } => (script, state),
        other => panic!("{other:?}"),
    };
    assert_eq!(state, WpState::Sr2);
    assert!(transfers(&script[0], &[0x06], 0) && transfers(&script[1], &[0x01, 0x1E], 0));
    assert!(matches!(script[2], HostOp::WaitReady { polls: 100, interval_ms: 5 }));
    let script = match protect_chip(&c, state, 0x42) {
        WpNext::Run { script, read: 0x05, state: WpState::Verify } => script,
        other => panic!("{other:?}"),
    };
    assert!(transfers(&script[1], &[0x31, 0x02], 0));
    assert!(matches!(protect_chip(&c, WpState::Sr2, 0x02),
        WpNext::Run { script, read: 0x05, state: WpState::Verify } if script.is_empty()));
    assert!(matches!(protect_chip(&c, WpState::Verify, 0x1C), WpNext::Done));
    assert!(matches!(protect_chip(&c, WpState::Verify, 0x0C),
        WpNext::Stop(Error::ProtectRejected { readback: 0x0C })));
    assert!(matches!(protect_chip(&c, WpState::Sr1, 0x80), WpNext::Stop(Error::StatusLocked)));
    assert!(matches!(unprotect_chip(&c, WpState::Sr1, 0x80), WpNext::Stop(Error::StatusLocked)));
}

#[test]
fn unprotecting_clears_the_bp_bits() {
    let mut c = make_chip(3);
    c.mfr = 0xC2;
    assert!(matches!(unprotect_chip(&c, WpState::Sr1, 0x7F),
        WpNext::Run { script, read: 0x05, state: WpState::Verify }
            if transfers(&script[1], &[0x01, 0x43], 0)));
    assert!(matches!(unprotect_chip(&c, WpState::Verify, 0x40), WpNext::Done));
    assert!(matches!(unprotect_chip(&c, WpState::Verify, 0x04),
        WpNext::Stop(Error::UnprotectRejected { readback: 0x04 })));
    // The fourth BP bit counts on large Winbond chips.
    c.mfr = 0xEF;
    c.size_bytes = 32 * 1024 * 1024;
    assert!(matches!(unprotect_chip(&c, WpState::Verify, 0x20),
        WpNext::Stop(Error::UnprotectRejected { readback: 0x20 })));
    assert!(matches!(protect_chip(&c, WpState::Sr1, 0x00),
        WpNext::Run { script, .. } if transfers(&script[1], &[0x01, 0x3C], 0)));
}
