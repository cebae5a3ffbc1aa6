//! Raw and smart writes.
use flashcat::chip::{EraseType, ParamSource, ResolvedChip};
use flashcat::db::ChipVoltage;
use flashcat::error::Error;
use flashcat::host::HostOp;
use flashcat::spi::smart::{
    classify_sector, largest_unit, smart_range, supports_smart_write, write_sector_pages,
    write_smart, SectorClass, SmartPlan, SmartStats,
};
use flashcat::spi::write::{
    rotate_pages_left, wait_wip_write, write_block, write_enable, write_setup_packet,
    WriteBlock,
};

fn chip(erase_types: Vec<EraseType>) -> ResolvedChip {
    ResolvedChip {
        name: "TestChip".to_string(),
        mfr: 0xEF,
        id1: 0x40,
        id2: 0x18,
        voltage: ChipVoltage::V3_3,
        size_bytes: 1024 * 1024,
        page_size: 256,
        erase_size: 4096,
        erase_types,
        addr_bytes: 3,
        quad: false,
        source: ParamSource::Database,
        chip_erase_max_ms: None,
    }
}

fn all_types() -> Vec<EraseType> {
    vec![
        EraseType { size_bytes: 4096, opcode: 0x20 },
        EraseType { size_bytes: 32768, opcode: 0x52 },
        EraseType { size_bytes: 65536, opcode: 0xD8 },
    ]
}

#[test]
fn rotate_single_full_page_left_by_one() {
    let data = vec![0x00, 0x01, 0x02, 0x03];
    let rotated = rotate_pages_left(&data, 4);
    assert_eq!(rotated, vec![0x01, 0x02, 0x03, 0x00]);
}

#[test]
fn rotate_two_pages_independently() {
    let data = vec![0x00, 0x01, 0x02, 0x03, 0x10, 0x11, 0x12, 0x13];
    let rotated = rotate_pages_left(&data, 4);
    assert_eq!(rotated, vec![0x01, 0x02, 0x03, 0x00, 0x11, 0x12, 0x13, 0x10]);
}

#[test]
fn rotate_partial_last_page_within_its_own_length() {
    let data = vec![0x00, 0x01, 0x02, 0x03, 0xA0, 0xA1, 0xA2];
    let rotated = rotate_pages_left(&data, 4);
    assert_eq!(rotated, vec![0x01, 0x02, 0x03, 0x00, 0xA1, 0xA2, 0xA0]);
}

#[test]
fn rotate_all_ff_page_stays_ff() {
    let data = vec![0xFF; 256];
    let rotated = rotate_pages_left(&data, 256);
    assert_eq!(rotated, data);
}

#[test]
fn rotate_with_zero_or_one_byte_pages_changes_nothing() {
    let data = vec![1u8, 2, 3, 4, 5];
    assert_eq!(rotate_pages_left(&data, 0), data);
    assert_eq!(rotate_pages_left(&data, 1), data);
}

/// Write at 0x105 with 256-byte pages: the page buffer is filled up in front with five 0xFF,
/// rotated, and the firmware puts every byte one later, the last one at the page's start.
#[test]
fn rotate_unaligned_start_places_bytes_at_correct_flash_addresses() {
    let page_size: usize = 256;
    let page_offset: usize = 5;

    let data: Vec<u8> = (0u8..=250).collect();

    let mut full_page = vec![0xFFu8; page_offset];
    full_page.extend_from_slice(&data);
    assert_eq!(full_page.len(), page_size);

    let blocks = flashcat::spi::write::write(page_size as u32, 0x105, &data).unwrap();
    assert_eq!(blocks.len(), 1);
    assert_eq!(blocks[0].addr, 0x100);
    assert_eq!(blocks[0].data, full_page);

    let rotated = rotate_pages_left(&full_page, page_size);
    assert_eq!(rotated.len(), page_size);

    let write_addr: usize = 0x100;
    let mut flash = vec![0xFFu8; 0x200];
    for (i, &byte) in rotated.iter().enumerate() {
        let flash_addr =
            if i == page_size - 1 { write_addr } else { write_addr + i + 1 };
        flash[flash_addr] = byte;
    }

    for addr in 0x100..0x100 + page_offset {
        assert_eq!(flash[addr], 0xFF, "filler at {addr:#x} should be 0xFF");
    }
    for (j, &expected) in data.iter().enumerate() {
        let flash_addr = 0x105 + j;
        assert_eq!(
            flash[flash_addr], expected,
            "data[{j}] should be at flash address {flash_addr:#x}"
        );
    }
}

/// A partial buffer is filled up to a whole page before it is rotated.
#[test]
fn rotate_after_write_block_padding_is_correct() {
    let page_size = 4usize;
    let data = vec![0x0Au8, 0x0B, 0x0C];
    let padded_len = data.len().next_multiple_of(page_size);
    let mut padded = data.clone();
    padded.resize(padded_len, 0xFF);

    let rotated = rotate_pages_left(&padded, page_size);
    assert_eq!(rotated, vec![0x0B, 0x0C, 0xFF, 0x0A]);

    let without_padding = rotate_pages_left(&data, page_size);
    assert_eq!(without_padding, vec![0x0B, 0x0C, 0x0A]);

    let mut c = chip(all_types());
    c.page_size = 4;
    let script = write_block(&c, 0, &data).unwrap();
    assert!(matches!(&script[1], HostOp::BulkOut { bytes } if bytes == &rotated));
}

#[test]
fn smart_write_overlay_alignment() {
    let offset: u32 = 0x100;
    let data = vec![0xAAu8; 256];
    let erase_size: u32 = 4096;
    let first_sector = (offset / erase_size) * erase_size;
    let overlay_start = (offset - first_sector) as usize;
    assert_eq!(first_sector, 0);
    assert_eq!(overlay_start, 256);
    let mut merged = vec![0xFFu8; 4096];
    merged[overlay_start..overlay_start + data.len()].copy_from_slice(&data);
    assert_eq!(merged[255], 0xFF);
    assert_eq!(merged[256], 0xAA);
    assert_eq!(merged[511], 0xAA);
    assert_eq!(merged[512], 0xFF);

    let c = chip(vec![EraseType { size_bytes: 4096, opcode: 0x20 }]);
    let range = smart_range(&c, offset, 256).unwrap().unwrap();
    assert_eq!(range.first_sector, first_sector);
    assert_eq!(range.read_end - range.read_start, 4096);
    let plan = write_smart(&c, offset, &data, &[0xFF; 4096]).unwrap();
    assert_eq!(plan.blocks.len(), 1);
    assert_eq!(plan.blocks[0].addr as usize, overlay_start);
    assert_eq!(plan.blocks[0].data, data);
}

/// After an erase, pages that shall hold what they held before must be written again.
#[test]
fn erased_sector_pages_matching_original_are_written_not_skipped() {
    let page_size: usize = 4;

    let orig: Vec<u8> = [
        0xAA, 0xAA, 0xAA, 0xAA, 0xBB, 0xBB, 0xBB, 0xBB, 0xFF, 0xFF, 0xFF, 0xFF,
    ]
    .to_vec();
    let target = orig.clone();

    let mut pages_written: Vec<usize> = Vec::new();
    let mut stats = SmartStats::default();

    let mut page_off = 0usize;
    while page_off < target.len() {
        let page_end = (page_off + page_size).min(target.len());
        let new_page = &target[page_off..page_end];
        let skip = new_page.iter().all(|&b| b == 0xFF);
        if skip {
            stats.pages_skipped += 1;
        } else {
            pages_written.push(page_off);
            stats.pages_written += 1;
        }
        page_off = page_end;
    }

    assert!(
        pages_written.contains(&0),
        "page 0 (0xAA) must be written after erase, but was skipped"
    );
    assert!(
        pages_written.contains(&4),
        "page 1 (0xBB) must be written after erase, but was skipped"
    );
    assert!(
        !pages_written.contains(&8),
        "page 2 (all-FF) should be skipped after erase"
    );
    assert_eq!(stats.pages_written, 2);
    assert_eq!(stats.pages_skipped, 1);

    let mut blocks: Vec<WriteBlock> = Vec::new();
    let mut counted = SmartStats::default();
    write_sector_pages(4, 0x100, &target, &orig, true, &mut blocks, &mut counted);
    assert_eq!(counted.pages_written, 2);
    assert_eq!(counted.pages_skipped, 1);
    assert_eq!(blocks.len(), 1);
    assert_eq!(blocks[0].addr, 0x100);
    assert_eq!(blocks[0].data, &target[0..8]);
}

/// Without an erase, pages identical to the original are skipped.
#[test]
fn unerased_sector_pages_matching_original_are_skipped() {
    let page_size: usize = 4;

    let orig: Vec<u8> = [0xAA, 0xAA, 0xAA, 0xAA, 0x11, 0x22, 0x33, 0x44].to_vec();
    let mut target = orig.clone();
    target[4] = 0x00;

    let mut pages_written: Vec<usize> = Vec::new();
    let mut stats = SmartStats::default();

    let mut page_off = 0usize;
    while page_off < target.len() {
        let page_end = (page_off + page_size).min(target.len());
        let new_page = &target[page_off..page_end];
        let orig_page = &orig[page_off..page_end];
        let skip = new_page == orig_page;
        if skip {
            stats.pages_skipped += 1;
        } else {
            pages_written.push(page_off);
            stats.pages_written += 1;
        }
        page_off = page_end;
    }

    assert!(
        !pages_written.contains(&0),
        "page 0 unchanged — should be skipped when no erase"
    );
    assert!(pages_written.contains(&4), "page 1 changed — must be written");
    assert_eq!(stats.pages_written, 1);
    assert_eq!(stats.pages_skipped, 1);

    let mut blocks: Vec<WriteBlock> = Vec::new();
    let mut counted = SmartStats::default();
    write_sector_pages(4, 0, &target, &orig, false, &mut blocks, &mut counted);
    assert_eq!(counted.pages_written, 1);
    assert_eq!(counted.pages_skipped, 1);
    assert_eq!(blocks.len(), 1);
    assert_eq!(blocks[0].addr, 4);
    assert_eq!(blocks[0].data, vec![0x00, 0x22, 0x33, 0x44]);
}

// ── setup packets and scripts ───────────────────────────────────────────────

#[test]
fn write_setup_packet_layout() {
    let mut c = chip(all_types());
    c.page_size = 0x0203;
    c.addr_bytes = 4;
    assert_eq!(
        write_setup_packet(&c, 0x1122_3344, 0x55_6677),
        [
            0x02, 0x06, 0x05, 0x00, 4, 0x02, 0x03, 0x11, 0x22, 0x33, 0x44, 0x55, 0x66, 0x77, 0
        ]
    );
}

#[test]
fn write_block_script_and_wait() {
    let c = chip(all_types());
    let script = write_block(&c, 0x1000, &[0xAB; 300]).unwrap();
    assert_eq!(script.len(), 3);
    assert!(matches!(&script[0],
        HostOp::Control { data: 0, payload, settle: false, .. }
            if payload[11..14] == [0x00, 0x02, 0x00]));
    assert!(matches!(&script[1], HostOp::BulkOut { bytes }
        if bytes.len() == 512 && bytes[255] == 0xAB && bytes[511] == 0xAB && bytes[298] == 0xAB
            && bytes[299] == 0xFF));
    assert!(matches!(script[2], HostOp::WaitReady { polls: 100, interval_ms: 2 }));
    assert!(matches!(wait_wip_write(256), HostOp::WaitReady { polls: 1280, interval_ms: 2 }));
    assert!(matches!(&write_enable()[0], HostOp::Transfer { tx, rx_len: 0 } if tx == &vec![0x06]));
}

#[test]
fn write_block_limits() {
    let mut c = chip(all_types());
    let data = vec![0u8; 0xFF_FFFF];
    assert_eq!(write_block(&c, 0, &data).err(), Some(Error::WriteBlockTooLong));
    assert!(write_block(&c, 0, &data[..0xFF_FF00]).is_ok());
    c.page_size = 0;
    assert_eq!(write_block(&c, 0, &[1, 2, 3]).err(), Some(Error::ZeroPageSize));
    assert_eq!(flashcat::spi::write::write(0, 0, &[1, 2, 3]).err(), Some(Error::ZeroPageSize));
}

#[test]
fn raw_write_splits_at_the_page_and_at_blocks() {
    let data: Vec<u8> = (0..70000u32).map(|i| (i * 7) as u8).collect();
    let blocks = flashcat::spi::write::write(256, 0x1F0, &data).unwrap();
    let shape: Vec<(u32, usize)> = blocks.iter().map(|b| (b.addr, b.data.len())).collect();
    assert_eq!(
        shape,
        vec![(0x100, 256), (0x200, 65536), (0x10200, 70000 - 16 - 65536)]
    );
    assert!(blocks[0].data[..0xF0].iter().all(|&b| b == 0xFF));
    // Programming the blocks over erased flash leaves exactly the data.
    let mut flash = vec![0xFFu8; 0x20000];
    for b in &blocks {
        for (i, &byte) in b.data.iter().enumerate() {
            flash[b.addr as usize + i] &= byte;
        }
    }
    assert_eq!(&flash[0x1F0..0x1F0 + data.len()], &data[..]);
    assert!(flash[..0x1F0].iter().all(|&b| b == 0xFF));
    assert!(flashcat::spi::write::write(256, 5, &[]).unwrap().is_empty());
}

// ── smart write ─────────────────────────────────────────────────────────────

#[test]
fn sectors_are_classified_by_what_must_change() {
    assert_eq!(classify_sector(&[0x0F, 0xF0], &[0x0F, 0xF0]), SectorClass::Skip);
    assert_eq!(classify_sector(&[0x0F, 0xF0], &[0x0E, 0xF0]), SectorClass::WriteOnly);
    assert_eq!(classify_sector(&[0x0F, 0xF0], &[0x00, 0xF1]), SectorClass::Erase);
}

/// Carries a plan out on a model of the flash.
fn carry_out(flash: &mut [u8], plan: &SmartPlan) {
    for op in &plan.erase_ops {
        for b in &mut flash[op.addr as usize..(op.addr + op.size) as usize] {
            *b = 0xFF;
        }
    }
    for block in &plan.blocks {
        for (i, &byte) in block.data.iter().enumerate() {
            flash[block.addr as usize + i] &= byte;
        }
    }
}

fn smart(c: &ResolvedChip, flash: &mut Vec<u8>, offset: u32, data: &[u8]) -> SmartPlan {
    assert!(supports_smart_write(c, offset, data.len() as u32));
    let original = match smart_range(c, offset, data.len() as u32).unwrap() {
        Some(g) => flash[g.read_start as usize..g.read_end as usize].to_vec(),
        None => vec![],
    };
    let plan = write_smart(c, offset, data, &original).unwrap();
    carry_out(flash, &plan);
    plan
}

#[test]
fn smart_write_leaves_the_flash_overlaid() {
    for types in [all_types(), vec![EraseType { size_bytes: 4096, opcode: 0x20 }], vec![]] {
        let c = chip(types);
        let before: Vec<u8> =
            (0..c.size_bytes).map(|i| ((i / 3) ^ (i >> 9)) as u8).collect();
        for (offset, len) in [(0u32, 1usize), (0x105, 9000), (0xF000, 0x12000), (0xFFF00, 256)] {
            let mut flash = before.clone();
            let data: Vec<u8> = (0..len).map(|i| (i * 13 + 5) as u8).collect();
            let mut wanted = before.clone();
            wanted[offset as usize..offset as usize + len].copy_from_slice(&data);
            smart(&c, &mut flash, offset, &data);
            assert_eq!(flash, wanted, "offset {offset:#x} len {len}");
        }
    }
}

/// Sectors of other sizes than 4KB are planned where an advertised block divides them.
#[test]
fn smart_write_with_large_sectors() {
    let block = |size_bytes: u32, opcode: u8| EraseType { size_bytes, opcode };
    let geometries = [
        (32768, vec![block(32768, 0x52), block(65536, 0xD8)]),
        (65536, vec![block(65536, 0xD8), block(131072, 0xDA)]),
        (8192, vec![block(4096, 0x20), block(8192, 0x40), block(65536, 0xD8)]),
        (131072, vec![block(65536, 0xD8), block(131072, 0xDA)]),
        (131072, vec![block(131072, 0xD8), block(262144, 0xDB)]),
        (2048, vec![block(2048, 0x10), block(8192, 0x40), block(65536, 0xD8)]),
        (12288, vec![block(12288, 0x10), block(49152, 0x40)]),
    ];
    for (erase_size, types) in geometries {
        let mut c = chip(types);
        c.erase_size = erase_size;
        c.size_bytes -= c.size_bytes % (4 * erase_size);
        let before: Vec<u8> = (0..c.size_bytes).map(|i| (i ^ (i >> 11)) as u8).collect();
        let mut flash = before.clone();
        let data: Vec<u8> = (0..0x2_3456u32).map(|i| (i * 5) as u8).collect();
        let mut wanted = before;
        wanted[0x1_2300..0x1_2300 + data.len()].copy_from_slice(&data);
        let plan = smart(&c, &mut flash, 0x1_2300, &data);
        assert_eq!(flash, wanted, "sector size {erase_size}");
        assert!(!plan.erase_ops.is_empty());
    }
}

#[test]
fn full_chip_write_leaves_just_the_data() {
    let data: Vec<u8> = (0..0x1_1000u32).map(|i| (i % 251) as u8).collect();
    let mut flash = vec![0xFFu8; data.len()];
    for b in flashcat::spi::write::write(256, 0, &data).unwrap() {
        for (i, &byte) in b.data.iter().enumerate() {
            flash[b.addr as usize + i] &= byte;
        }
    }
    assert_eq!(flash, data);
}

#[test]
fn smart_write_of_the_same_data_does_nothing() {
    let c = chip(all_types());
    let mut flash: Vec<u8> = (0..c.size_bytes).map(|i| (i * 31) as u8).collect();
    let data = flash[0x1234..0x9000].to_vec();
    let plan = smart(&c, &mut flash, 0x1234, &data);
    assert!(plan.erase_ops.is_empty());
    assert!(plan.blocks.is_empty());
    assert_eq!(plan.stats.sectors_skipped, 8);
}

#[test]
fn smart_write_erases_only_sectors_that_need_it() {
    let c = chip(all_types());
    let mut flash = vec![0xFFu8; c.size_bytes as usize];
    flash[0x3000] = 0x00;
    // Sector 0x2000 is blank, sector 0x3000 holds a cleared byte.
    let plan = smart(&c, &mut flash, 0x2000, &[0x55; 0x2000]);
    assert_eq!(plan.erase_ops.len(), 1);
    assert_eq!(plan.erase_ops[0].addr, 0x3000);
    assert_eq!(plan.erase_ops[0].size, 4096);
    assert_eq!(plan.stats.bytes_erased, 4096);
    assert_eq!(plan.stats.erase_ops, 1);
    assert_eq!(plan.stats.pages_written, 32);
    assert!(plan.blocks.iter().all(|b| b.addr % 256 == 0));
}

#[test]
fn smart_write_programs_only_changed_sectors() {
    let c = chip(all_types());
    let mut flash: Vec<u8> = (0..c.size_bytes).map(|i| (i * 31) as u8).collect();
    let mut data = flash[0x1800..0x4800].to_vec();
    // Sector 0x2000 shall change, its neighbours shall not.
    data[0x900] ^= 0xFF;
    let plan = smart(&c, &mut flash, 0x1800, &data);
    assert!(!plan.blocks.is_empty());
    for b in &plan.blocks {
        assert!(0x2000 <= b.addr && b.addr as usize + b.data.len() <= 0x3000);
    }
    assert_eq!(plan.stats.sectors_skipped, 3);
    assert_eq!(&flash[0x1800..0x4800], &data[..]);
}

#[test]
fn smart_write_without_sector_type_uses_the_usual_opcode() {
    let c = chip(vec![]);
    let plan = write_smart(&c, 0, &[0xFF], &[0u8; 4096]).unwrap();
    assert_eq!(plan.erase_ops[0].opcode, 0x20);
}

#[test]
fn smart_write_uses_the_blocks_that_are_there() {
    // 128KB sectors mixed with 256KB blocks.
    let mut c = chip(vec![
        EraseType { size_bytes: 131072, opcode: 0xD8 },
        EraseType { size_bytes: 262144, opcode: 0xDB },
    ]);
    c.erase_size = 131072;
    let original = vec![0u8; 262144];
    let plan = write_smart(&c, 0, &[0xFF], &original).unwrap();
    assert_eq!((plan.erase_ops.len(), plan.erase_ops[0].opcode), (1, 0xD8));
    let plan = write_smart(&c, 0x1FFFF, &[0xFF, 0xFF], &original).unwrap();
    assert_eq!((plan.erase_ops.len(), plan.erase_ops[0].opcode), (1, 0xDB));
}

/// Blocks that are not made of whole sectors do not count for what is read either.
#[test]
fn smart_write_leaves_uneven_blocks_aside() {
    let mut c = chip(vec![
        EraseType { size_bytes: 4096, opcode: 0x20 },
        EraseType { size_bytes: 6144, opcode: 0x30 },
    ]);
    c.size_bytes = 12288;
    assert_eq!(largest_unit(&c), 4096);
    let g = smart_range(&c, 8192, 1).unwrap().unwrap();
    assert_eq!((g.read_start, g.read_end), (8192, 12288));
    for before in [vec![0u8; 12288], (0..12288).map(|i| (i * 7) as u8).collect()] {
        for offset in [0u32, 4095, 8192] {
            let mut flash = before.clone();
            let mut wanted = before.clone();
            wanted[offset as usize..offset as usize + 2].copy_from_slice(&[0xFF, 0xFE]);
            smart(&c, &mut flash, offset, &[0xFF, 0xFE]);
            assert_eq!(flash, wanted);
        }
    }
}

#[test]
fn smart_write_of_nothing_does_nothing() {
    let mut c = chip(all_types());
    assert_eq!(smart_range(&c, 0x1234, 0), Ok(None));
    let mut flash: Vec<u8> = (0..c.size_bytes).map(|i| (i * 31) as u8).collect();
    let before = flash.clone();
    let plan = smart(&c, &mut flash, 0x1234, &[]);
    assert!(plan.erase_ops.is_empty() && plan.blocks.is_empty());
    assert_eq!(plan.stats, SmartStats::default());
    assert_eq!(flash, before);
    // Not even the geometry matters.
    (c.erase_size, c.page_size) = (0, 0);
    assert!(supports_smart_write(&c, u32::MAX, 0));
    assert!(write_smart(&c, u32::MAX, &[], &[]).unwrap().blocks.is_empty());
}

#[test]
fn smart_write_past_the_address_space_is_refused() {
    let c = chip(all_types());
    assert_eq!(
        write_smart(&c, u32::MAX, &[1, 2], &[]).err(),
        Some(Error::WriteRangeOverflow { offset: u32::MAX, len: 2 })
    );
}

#[test]
fn smart_range_widens_to_the_largest_block() {
    let c = chip(all_types());
    assert_eq!(largest_unit(&c), 65536);
    assert_eq!(largest_unit(&chip(vec![])), 4096);
    let g = smart_range(&c, 0x1F123, 0x1000).unwrap().unwrap();
    assert_eq!(
        (g.first_sector, g.last_sector, g.read_start, g.read_end),
        (0x1F000, 0x20000, 0x10000, 0x30000)
    );
    assert_eq!(
        smart_range(&c, 0xFFFF_FFFF, 2).err(),
        Some(Error::WriteRangeOverflow { offset: 0xFFFF_FFFF, len: 2 })
    );
    assert!(!supports_smart_write(&c, c.size_bytes - 1, 2));
    assert!(supports_smart_write(&c, 0, 0));
    let mut broken = c.clone();
    broken.erase_size = 0;
    assert!(!supports_smart_write(&broken, 0, 1));
}
