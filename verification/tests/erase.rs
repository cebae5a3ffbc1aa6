//! Erase planning.
use flashcat::chip::{EraseType, ParamSource, ResolvedChip};
use flashcat::db::ChipVoltage;
use flashcat::error::Error;
use flashcat::host::HostOp;
use flashcat::spi::erase::{
    erase_chip, erase_op_script, erase_range, erase_range_bounds, erase_unit, erases_mixed,
    find_erase_type, pick_erase_op, plan_erase_ops, EraseOp,
};

const SECTOR: u32 = 4096;
const BLOCK64: u32 = 65536;

/// Standard 3-byte 4KB chip: 4KB + 32KB + 64KB erase types.
fn all_types() -> Vec<EraseType> {
    vec![
        EraseType { size_bytes: 4096, opcode: 0x20 },
        EraseType { size_bytes: 32768, opcode: 0x52 },
        EraseType { size_bytes: 65536, opcode: 0xD8 },
    ]
}

/// A chip that only advertises 4KB sector erase.
fn sector_only() -> Vec<EraseType> {
    vec![EraseType { size_bytes: 4096, opcode: 0x20 }]
}

fn chip(erase_size: u32, erase_types: Vec<EraseType>, addr_bytes: u8) -> ResolvedChip {
    ResolvedChip {
        name: "TestChip".to_string(),
        mfr: 0xEF,
        id1: 0x40,
        id2: 0x18,
        voltage: ChipVoltage::V3_3,
        size_bytes: 16 * 1024 * 1024,
        page_size: 256,
        erase_size,
        erase_types,
        addr_bytes,
        quad: false,
        source: ParamSource::Database,
        chip_erase_max_ms: None,
    }
}

#[test]
fn aligned_single_sector() {
    let (first, count) = erase_range_bounds(SECTOR, 0x0000_1000, 4096).unwrap();
    assert_eq!(first, 0x0000_1000);
    assert_eq!(count, 1);
}

#[test]
fn unaligned_spans_two_sectors() {
    let (first, count) = erase_range_bounds(SECTOR, 0x0000_0FFF, 2).unwrap();
    assert_eq!(first, 0x0000_0000);
    assert_eq!(count, 2);
}

#[test]
fn offset_zero_full_chip_16mb() {
    let (first, count) = erase_range_bounds(SECTOR, 0, 16 * 1024 * 1024).unwrap();
    assert_eq!(first, 0);
    assert_eq!(count, 4096);
}

#[test]
fn block64_aligned() {
    let (first, count) = erase_range_bounds(BLOCK64, 0x0002_0000, 65536).unwrap();
    assert_eq!(first, 0x0002_0000);
    assert_eq!(count, 1);
}

#[test]
fn block64_unaligned_three_blocks() {
    let (first, count) = erase_range_bounds(BLOCK64, 0x0000_8000, 128 * 1024).unwrap();
    assert_eq!(first, 0x0000_0000);
    assert_eq!(count, 3);
}

#[test]
fn zero_len_is_error() {
    assert!(erase_range_bounds(SECTOR, 0x1000, 0).is_err());
}

#[test]
fn overflow_is_error() {
    assert!(erase_range_bounds(SECTOR, 0xFFFF_F000, 0x2000).is_err());
}

#[test]
fn pick_64k_at_64k_boundary() {
    assert_eq!(pick_erase_op(0x10000, 65536, &all_types()).unwrap(), (0xD8, 65536));
}

#[test]
fn pick_32k_not_64k_aligned() {
    assert_eq!(pick_erase_op(0x8000, 32768, &all_types()).unwrap(), (0x52, 32768));
}

#[test]
fn pick_4k_when_not_aligned() {
    assert_eq!(pick_erase_op(0x1000, 65536, &all_types()).unwrap(), (0x20, 4096));
}

#[test]
fn pick_4k_when_insufficient_remaining() {
    assert_eq!(pick_erase_op(0x10000, 32767, &all_types()).unwrap(), (0x20, 4096));
}

#[test]
fn prefer_64k_over_32k_at_64k_boundary() {
    assert_eq!(pick_erase_op(0x10000, 65536, &all_types()).unwrap(), (0xD8, 65536));
}

/// Must fall back to 4KB even at a 64KB-aligned address with enough remaining bytes.
#[test]
fn pick_falls_back_to_4k_when_only_4k_advertised() {
    assert_eq!(pick_erase_op(0x10000, 65536, &sector_only()).unwrap(), (0x20, 4096));
}

#[test]
fn pick_takes_any_advertised_size() {
    let block = |size_bytes: u32, opcode: u8| EraseType { size_bytes, opcode };
    assert_eq!(pick_erase_op(0, 8192, &[block(8192, 0x40)]), Ok((0x40, 8192)));
    let types = vec![block(131072, 0xDA), block(256, 0x81), block(8192, 0x40), block(8192, 0x41)];
    assert_eq!(pick_erase_op(0x20000, 0x20000, &types), Ok((0xDA, 131072)));
    assert_eq!(pick_erase_op(0x20000, 0x1FFFF, &types), Ok((0x40, 8192)));
    assert_eq!(pick_erase_op(0x1100, 0x20000, &types), Ok((0x81, 256)));
}

/// Where nothing is aligned or fits, the smallest advertised size is left.
#[test]
fn pick_falls_back_to_the_smallest() {
    let types = vec![
        EraseType { size_bytes: 65536, opcode: 0xD8 },
        EraseType { size_bytes: 32768, opcode: 0x52 },
    ];
    assert_eq!(pick_erase_op(0x1000, 65536, &types), Ok((0x52, 32768)));
    assert_eq!(pick_erase_op(0x8000, 4096, &types), Ok((0x52, 32768)));
}

#[test]
fn pick_without_erase_types_is_error() {
    assert_eq!(pick_erase_op(0, 65536, &[]), Err(Error::NoEraseTypes));
}

/// Last 4KB sector of a 4GB chip.
#[test]
fn range_bounds_at_top_of_u32() {
    let (first, count) = erase_range_bounds(4096, 0xFFFF_F000, 4096).unwrap();
    assert_eq!(first, 0xFFFF_F000);
    assert_eq!(count, 1);
}

/// The loop over the last sector of a near-4GB chip executes exactly once.
#[test]
fn erase_range_at_top_of_u32_terminates() {
    let unit: u32 = 4096;
    let (first, count) = erase_range_bounds(unit, 0xFFFF_F000, 4096).unwrap();
    assert_eq!(first, 0xFFFF_F000);
    assert_eq!(count, 1);

    let last = first + (count - 1) * unit;
    let mut addr = first;
    let mut iterations: u32 = 0;
    while addr <= last {
        iterations += 1;
        addr = match addr.checked_add(unit) {
            Some(a) => a,
            None => break,
        };
    }
    assert_eq!(iterations, count, "loop must execute exactly count={count} time(s)");

    let mut big = chip(unit, sector_only(), 4);
    big.size_bytes = u32::MAX;
    let ops = erase_range(&big, 0xFFFF_F000, 4096).unwrap();
    assert_eq!(ops, vec![EraseOp { addr: 0xFFFF_F000, size: 4096, opcode: 0x20 }]);
    let mixed = chip(unit, all_types(), 3);
    let ops = erase_range(&mixed, 0xFFFF_F000, 4096).unwrap();
    assert_eq!(ops, vec![EraseOp { addr: 0xFFFF_F000, size: 4096, opcode: 0x20 }]);
}

#[test]
fn pick_falls_back_to_4k_opcode_from_types() {
    let types = vec![
        EraseType { size_bytes: 4096, opcode: 0x20 },
        EraseType { size_bytes: 65536, opcode: 0xD8 },
    ];
    assert_eq!(pick_erase_op(0x5000, 65536, &types).unwrap(), (0x20, 4096));
}

/// Erase types may carry non-standard opcodes, e.g. 0xDC for 64KB with 4-byte addresses.
#[test]
fn pick_uses_correct_opcode_from_erase_types() {
    let types = vec![
        EraseType { size_bytes: 4096, opcode: 0x21 },
        EraseType { size_bytes: 65536, opcode: 0xDC },
    ];
    assert_eq!(pick_erase_op(0x10000, 65536, &types).unwrap(), (0xDC, 65536));
}

#[test]
fn erase_unit_uses_opcode_from_erase_types() {
    let types = vec![
        EraseType { size_bytes: 4096, opcode: 0x20 },
        EraseType { size_bytes: 65536, opcode: 0xD8 },
    ];
    let found = types.iter().find(|e| e.size_bytes == 65536).unwrap();
    assert_eq!(found.opcode, 0xD8);
    let found = types.iter().find(|e| e.size_bytes == 4096).unwrap();
    assert_eq!(found.opcode, 0x20);
    assert_eq!(find_erase_type(&types, 65536).unwrap().opcode, 0xD8);
    assert_eq!(find_erase_type(&types, 4096).unwrap().opcode, 0x20);
    assert!(find_erase_type(&types, 32768).is_none());

    let script = erase_unit(&chip(65536, types, 3), 0x0123_0000).unwrap();
    assert_eq!(script.len(), 3);
    assert!(matches!(&script[0], HostOp::Transfer { tx, rx_len: 0 } if tx == &vec![0x06]));
    assert!(matches!(&script[1], HostOp::Transfer { tx, rx_len: 0 }
        if tx == &vec![0xD8, 0x23, 0x00, 0x00]));
    assert!(matches!(script[2], HostOp::WaitReady { polls: 500, interval_ms: 10 }));
}

#[test]
fn erase_unit_without_matching_type_is_error() {
    let c = chip(4096, vec![EraseType { size_bytes: 65536, opcode: 0xD8 }], 3);
    assert_eq!(erase_unit(&c, 0).err(), Some(Error::NoEraseType { size: 4096 }));
}

#[test]
fn erase_script_has_four_address_bytes_on_large_chips() {
    let c = chip(4096, sector_only(), 4);
    let op = EraseOp { addr: 0x0100_2000, size: 4096, opcode: 0x21 };
    let script = erase_op_script(&c, op);
    assert!(matches!(&script[1], HostOp::Transfer { tx, rx_len: 0 }
        if tx == &vec![0x21, 0x01, 0x00, 0x20, 0x00]));
    assert!(matches!(script[2], HostOp::WaitReady { polls: 1000, interval_ms: 2 }));
}

#[test]
fn chip_erase_waits_as_long_as_the_chip_states() {
    let mut c = chip(4096, sector_only(), 3);
    c.chip_erase_max_ms = Some(25_001);
    let script = erase_chip(&c);
    assert!(matches!(&script[1], HostOp::Transfer { tx, rx_len: 0 } if tx == &vec![0xC7]));
    assert!(matches!(script[2], HostOp::WaitReady { polls: 2501, interval_ms: 10 }));
    c.chip_erase_max_ms = None;
    assert!(matches!(erase_chip(&c)[2], HostOp::WaitReady { polls: 20_000, interval_ms: 10 }));
    assert_eq!(c.chip_erase_timeout_secs(), 200);
    c.size_bytes = 16 * 1024 * 1024 + 1;
    assert_eq!(c.chip_erase_timeout_ms(), 400_000);
    c.chip_erase_max_ms = Some(1_500);
    assert_eq!(c.chip_erase_timeout_secs(), 2);
}

// ── plan_erase_ops ──────────────────────────────────────────────────────────

#[test]
fn plan_single_dirty_sector_at_64k_boundary() {
    let ops = plan_erase_ops(&[0x10000], &all_types(), 4096).unwrap();
    assert_eq!(ops.len(), 1);
    assert_eq!(ops[0], EraseOp { addr: 0x10000, size: 4096, opcode: 0x20 });
}

#[test]
fn plan_eight_adjacent_sectors_coalesce_to_one_32k() {
    let addrs: Vec<u32> = (0..8).map(|i| 0x8000_u32 + i * 4096).collect();
    let ops = plan_erase_ops(&addrs, &all_types(), 4096).unwrap();
    assert_eq!(ops.len(), 1);
    assert_eq!(ops[0], EraseOp { addr: 0x8000, size: 32768, opcode: 0x52 });
}

#[test]
fn plan_sixteen_adjacent_sectors_coalesce_to_one_64k() {
    let addrs: Vec<u32> = (0..16).map(|i| 0x10000_u32 + i * 4096).collect();
    let ops = plan_erase_ops(&addrs, &all_types(), 4096).unwrap();
    assert_eq!(ops.len(), 1);
    assert_eq!(ops[0], EraseOp { addr: 0x10000, size: 65536, opcode: 0xD8 });
}

#[test]
fn plan_non_contiguous_sectors_produce_separate_groups() {
    let ops = plan_erase_ops(&[0x0000, 0x20000], &all_types(), 4096).unwrap();
    assert_eq!(ops.len(), 2);
    assert_eq!(ops[0].addr, 0x0000);
    assert_eq!(ops[1].addr, 0x20000);
}

#[test]
fn plan_4k_only_chip_always_4k_ops() {
    let addrs: Vec<u32> = (0..16).map(|i| 0x10000_u32 + i * 4096).collect();
    let ops = plan_erase_ops(&addrs, &sector_only(), 4096).unwrap();
    assert_eq!(ops.len(), 16);
    assert!(ops.iter().all(|op| op.size == 4096 && op.opcode == 0x20));
}

#[test]
fn plan_two_sectors_prefer_4k_when_run_too_small_for_32k() {
    let ops = plan_erase_ops(&[0x8000, 0x9000], &all_types(), 4096).unwrap();
    assert_eq!(ops.len(), 2);
    assert!(ops.iter().all(|op| op.size == 4096));
}

#[test]
fn plan_empty_dirty_addrs_returns_empty() {
    let ops = plan_erase_ops(&[], &all_types(), 4096).unwrap();
    assert!(ops.is_empty());
}

#[test]
fn plan_missing_min_erase_type_is_error() {
    let types = vec![EraseType { size_bytes: 65536, opcode: 0xD8 }];
    assert!(plan_erase_ops(&[0x10000], &types, 4096).is_err());
    assert_eq!(
        plan_erase_ops(&[0x10000], &types, 4096),
        Err(Error::NoEraseType { size: 4096 })
    );
}

/// Blocks that are not made of whole sectors are left aside: with them a rest of the run would
/// remain that no block fits.
#[test]
fn plan_leaves_uneven_blocks_aside() {
    let uneven = vec![
        EraseType { size_bytes: 4096, opcode: 0x20 },
        EraseType { size_bytes: 6144, opcode: 0x30 },
        EraseType { size_bytes: 0, opcode: 0x31 },
        EraseType { size_bytes: 2048, opcode: 0x32 },
    ];
    let ops = plan_erase_ops(&[0, 0x1000, 0x2000], &uneven, 4096).unwrap();
    assert!(ops.iter().all(|op| op.size == 4096 && op.opcode == 0x20));
    assert_eq!(ops.len(), 3);
    let ops = erase_range(&chip(4096, uneven, 3), 0, 0x3000).unwrap();
    assert!(ops.iter().all(|op| op.size == 4096 && op.opcode == 0x20));
    assert_eq!(ops.len(), 3);
}

/// A sector that ends at the top of the address space is planned.
#[test]
fn plan_at_the_top_of_the_address_space() {
    let types = vec![
        EraseType { size_bytes: 256, opcode: 0x81 },
        EraseType { size_bytes: 4096, opcode: 0x20 },
    ];
    assert_eq!(
        plan_erase_ops(&[0xFFFF_F800], &types, 256),
        Ok(vec![EraseOp { addr: 0xFFFF_F800, size: 256, opcode: 0x81 }])
    );
}

#[test]
fn plan_uses_blocks_of_unusual_sizes() {
    let types = vec![
        EraseType { size_bytes: 2048, opcode: 0x10 },
        EraseType { size_bytes: 8192, opcode: 0x40 },
        EraseType { size_bytes: 131072, opcode: 0xDA },
    ];
    let dirty: Vec<u32> = (0..69).map(|i| 0x1F800 + i * 2048).collect();
    let got: Vec<(u32, u32)> =
        plan_erase_ops(&dirty, &types, 2048).unwrap().iter().map(|op| (op.addr, op.size)).collect();
    assert_eq!(
        got,
        vec![(0x1F800, 2048), (0x20000, 131072), (0x40000, 8192)]
    );
}

#[test]
fn erased_coverage_expansion_64k_op_gives_16_sectors() {
    let op = EraseOp { addr: 0x10000, size: 65536, opcode: 0xD8 };
    let erase_size: u32 = 4096;
    let mut coverage: Vec<u32> =
        (op.addr..op.addr + op.size).step_by(erase_size as usize).collect();
    coverage.sort_unstable();
    coverage.dedup();
    assert_eq!(coverage.len(), 16);
    assert_eq!(coverage[0], 0x10000);
    assert_eq!(coverage[15], 0x1F000);
}

/// The plan for scattered dirty sectors erases exactly their bytes.
#[test]
fn plan_covers_exactly_the_dirty_sectors() {
    let mut dirty: Vec<u32> = vec![0x1000, 0x3000, 0x4000];
    dirty.extend((0..20).map(|i| 0x8000_u32 + i * 4096));
    let ops = plan_erase_ops(&dirty, &all_types(), 4096).unwrap();
    for sector in 0..0x40u32 {
        let addr = sector * 4096;
        let covered = ops.iter().any(|op| op.addr <= addr && addr < op.addr + op.size);
        assert_eq!(covered, dirty.contains(&addr), "sector {addr:#x}");
    }
    assert!(ops.iter().all(|op| op.addr % op.size == 0));
}

// ── erase_range ─────────────────────────────────────────────────────────────

#[test]
fn mixed_range_uses_large_blocks_inside_and_sectors_at_the_ends() {
    let c = chip(4096, all_types(), 3);
    assert!(erases_mixed(&c));
    let ops = erase_range(&c, 0xF001, 0x11000).unwrap();
    let got: Vec<(u32, u32)> = ops.iter().map(|op| (op.addr, op.size)).collect();
    assert_eq!(got, vec![(0xF000, 4096), (0x10000, 65536), (0x20000, 4096)]);
}

#[test]
fn four_byte_chips_erase_uniformly() {
    let c = chip(65536, all_types(), 4);
    assert!(!erases_mixed(&c));
    let ops = erase_range(&c, 0x18000, 0x10000).unwrap();
    assert_eq!(
        ops,
        vec![
            EraseOp { addr: 0x10000, size: 65536, opcode: 0xD8 },
            EraseOp { addr: 0x20000, size: 65536, opcode: 0xD8 },
        ]
    );
}

#[test]
fn erase_range_errors() {
    for c in [chip(4096, all_types(), 3), chip(4096, sector_only(), 4)] {
        assert_eq!(erase_range(&c, 0x1000, 0), Err(Error::EraseLengthZero));
        assert_eq!(
            erase_range(&c, 0xFFFF_F000, 0x2000),
            Err(Error::EraseRangeOverflow { offset: 0xFFFF_F000, len: 0x2000 })
        );
    }
    let c = chip(4096, vec![EraseType { size_bytes: 65536, opcode: 0xD8 }], 3);
    assert_eq!(erase_range(&c, 0, 1), Err(Error::NoEraseType { size: 4096 }));
    // The sector size is of no account where block sizes are mixed, nor for a refused range.
    let ops = erase_range(&chip(0, all_types(), 3), 0x1000, 1).unwrap();
    assert_eq!(ops, vec![EraseOp { addr: 0x1000, size: 4096, opcode: 0x20 }]);
    assert_eq!(erase_range(&chip(0, sector_only(), 4), 0x1000, 0), Err(Error::EraseLengthZero));
}

#[test]
fn whole_address_space_is_erased_in_large_blocks() {
    let mut c = chip(4096, all_types(), 3);
    c.size_bytes = u32::MAX;
    let ops = erase_range(&c, 0, u32::MAX).unwrap();
    assert_eq!(ops[0], EraseOp { addr: 0, size: 65536, opcode: 0xD8 });
    assert_eq!(ops.len(), 65536);
    assert_eq!(ops.iter().map(|op| op.size as u64).sum::<u64>(), 0x1_0000_0000);
}
