//! Erase planning.
use vstd::prelude::*;

use crate::chip::{
    lemma_smallest_size, smallest_erase_size, smallest_size, ChipModel, EraseType, ResolvedChip,
};
use crate::error::Error;
use crate::flash::erased;
use crate::host::{push_op, push_opcode, push_send, script_of, send, HostOp, OpModel};
use crate::spi::bus::{address_bytes, address_command, CMD_WRITE_ENABLE};
use crate::spi::write::{wait_wip, wait_wip_block, wait_wip_chip_erase, write_enable};

verus! {

/// A single planned erase with a specific opcode and size.
#[derive(Debug, Clone, Copy, PartialEq, Eq, Structural)]
pub struct EraseOp {
    pub addr: u32,
    pub size: u32,
    pub opcode: u8,
}

/// The first entry at or after `i` that erases `size` bytes.
pub open spec fn type_from(types: Seq<EraseType>, size: int, i: int) -> Option<EraseType>
    decreases types.len() - i,
{
    if i < 0 || i >= types.len() {
        None
    } else if types[i].size_bytes == size {
        Some(types[i])
    } else {
        type_from(types, size, i + 1)
    }
}

/// The first entry that erases `size` bytes.
pub open spec fn type_of_size(types: Seq<EraseType>, size: int) -> Option<EraseType> {
    type_from(types, size, 0)
}

/// Finds the first erase type of the given size.
pub fn find_erase_type(types: &[EraseType], size: u32) -> (r: Option<EraseType>)
    ensures
        r == type_of_size(types@, size as int),
{
    let mut i: usize = 0;
    while i < types.len()
        invariant
            i <= types.len(),
            type_of_size(types@, size as int) == type_from(types@, size as int, i as int),
        decreases types.len() - i,
    {
        if types[i].size_bytes == size {
            return Some(types[i]);
        }
        i += 1;
    }
    None
}

/// Whether a block of `size` bytes is aligned at `addr` and fits in `remaining` bytes.
pub open spec fn fits(size: int, addr: int, remaining: int) -> bool {
    size > 0 && addr % size == 0 && size <= remaining
}

/// The largest advertised size that is aligned and fits; 0 where none is.
pub open spec fn largest_fitting(addr: int, remaining: int, types: Seq<EraseType>) -> u32
    decreases types.len(),
{
    if types.len() == 0 {
        0
    } else {
        let rest = largest_fitting(addr, remaining, types.drop_last());
        let size = types.last().size_bytes;
        if fits(size as int, addr, remaining) && rest < size {
            size
        } else {
            rest
        }
    }
}

/// The opcode and size of the largest advertised block that is aligned at `addr` and fits in
/// `remaining` bytes; the smallest advertised one is the fallback.
pub open spec fn best_block(addr: int, remaining: int, types: Seq<EraseType>) -> Result<
    (u8, u32),
    Error,
> {
    if types.len() == 0 {
        Err(Error::NoEraseTypes)
    } else {
        let largest = largest_fitting(addr, remaining, types);
        let size = if largest > 0 {
            largest
        } else {
            smallest_size(types)
        };
        Ok((type_of_size(types, size as int)->0.opcode, size))
    }
}

/// Whether a block is the one to erase at `addr`: advertised, and the largest that is aligned
/// and fits, or where none does, the smallest of all.
pub open spec fn is_best(
    addr: int,
    remaining: int,
    types: Seq<EraseType>,
    opcode: u8,
    size: u32,
) -> bool {
    &&& type_of_size(types, size as int) == Some(EraseType { size_bytes: size, opcode })
    &&& if exists|k: int|
        0 <= k < types.len() && fits(
            (#[trigger] types[k]).size_bytes as int,
            addr,
            remaining,
        ) {
        &&& fits(size as int, addr, remaining)
        &&& forall|k: int|
            0 <= k < types.len() && fits(
                (#[trigger] types[k]).size_bytes as int,
                addr,
                remaining,
            ) ==> types[k].size_bytes <= size
    } else {
        forall|k: int| 0 <= k < types.len() ==> size <= (#[trigger] types[k]).size_bytes
    }
}

/// A block found by size has that size.
pub proof fn lemma_type_has_size(types: Seq<EraseType>, size: int, i: int)
    ensures
        type_from(types, size, i) matches Some(t) ==> t.size_bytes == size && types.contains(t),
    decreases types.len() - i,
{
    if 0 <= i < types.len() && types[i].size_bytes != size {
        lemma_type_has_size(types, size, i + 1);
    }
}

/// A size that is listed is found.
pub proof fn lemma_type_found(types: Seq<EraseType>, k: int, i: int)
    requires
        0 <= i <= k < types.len(),
    ensures
        type_from(types, types[k].size_bytes as int, i) is Some,
    decreases types.len() - i,
{
    if types[i].size_bytes != types[k].size_bytes {
        lemma_type_found(types, k, i + 1);
    }
}

proof fn lemma_largest_fitting(addr: int, remaining: int, types: Seq<EraseType>)
    ensures
        ({
            let size = largest_fitting(addr, remaining, types);
            &&& forall|k: int|
                0 <= k < types.len() && fits(
                    (#[trigger] types[k]).size_bytes as int,
                    addr,
                    remaining,
                ) ==> types[k].size_bytes <= size
            &&& size > 0 ==> fits(size as int, addr, remaining) && exists|k: int|
                0 <= k < types.len() && (#[trigger] types[k]).size_bytes == size
        }),
    decreases types.len(),
{
    if types.len() > 0 {
        let rest = types.drop_last();
        let before = largest_fitting(addr, remaining, rest);
        let size = largest_fitting(addr, remaining, types);
        lemma_largest_fitting(addr, remaining, rest);
        assert(types[types.len() - 1] == types.last());
        assert forall|k: int|
            0 <= k < types.len() && fits(
                (#[trigger] types[k]).size_bytes as int,
                addr,
                remaining,
            ) implies types[k].size_bytes <= size by {
            if k < rest.len() {
                assert(rest[k] == types[k]);
            }
        }
        if size > 0 && size == before {
            let k = choose|k: int|
                0 <= k < rest.len() && (#[trigger] rest[k]).size_bytes == before;
            assert(types[k].size_bytes == size);
        }
    }
}

/// What the best block is, without recursion.
pub proof fn lemma_best_block(addr: int, remaining: int, types: Seq<EraseType>)
    ensures
        best_block(addr, remaining, types) is Ok <==> types.len() > 0,
        best_block(addr, remaining, types) matches Ok((opcode, size)) ==> is_best(
            addr,
            remaining,
            types,
            opcode,
            size,
        ),
{
    if types.len() > 0 {
        lemma_largest_fitting(addr, remaining, types);
        lemma_smallest_size(types);
        let (opcode, size) = best_block(addr, remaining, types)->Ok_0;
        let k = choose|k: int| 0 <= k < types.len() && (#[trigger] types[k]).size_bytes == size;
        lemma_type_found(types, k, 0);
        lemma_type_has_size(types, size as int, 0);
    }
}

/// Returns (opcode, block size) of the largest aligned erase that fits at `addr`, among the
/// sizes in `erase_types`; falls back to the smallest of them.
pub fn pick_erase_op(addr: u32, remaining_bytes: u32, erase_types: &[EraseType]) -> (r: Result<
    (u8, u32),
    Error,
>)
    ensures
        r == best_block(addr as int, remaining_bytes as int, erase_types@),
        match r {
            Ok((opcode, size)) => is_best(
                addr as int,
                remaining_bytes as int,
                erase_types@,
                opcode,
                size,
            ),
            Err(e) => e == Error::NoEraseTypes && erase_types@.len() == 0,
        },
{
    proof {
        lemma_best_block(addr as int, remaining_bytes as int, erase_types@);
    }
    if erase_types.len() == 0 {
        return Err(Error::NoEraseTypes);
    }
    let mut size: u32 = 0;
    let mut i: usize = 0;
    while i < erase_types.len()
        invariant
            i <= erase_types.len(),
            size == largest_fitting(
                addr as int,
                remaining_bytes as int,
                erase_types@.take(i as int),
            ),
        decreases erase_types.len() - i,
    {
        assert(erase_types@.take(i + 1).drop_last() =~= erase_types@.take(i as int));
        let s: u32 = erase_types[i].size_bytes;
        if s > 0 && addr % s == 0 && s <= remaining_bytes && size < s {
            size = s;
        }
        i += 1;
    }
    assert(erase_types@.take(i as int) =~= erase_types@);
    if size == 0 {
        size = smallest_erase_size(erase_types);
    }
    match find_erase_type(erase_types, size) {
        Some(t) => Ok((t.opcode, size)),
        None => Err(Error::NoEraseTypes),
    }
}

/// The advertised blocks that are made of whole sectors of `unit` bytes.
pub open spec fn whole_types(types: Seq<EraseType>, unit: int) -> Seq<EraseType>
    decreases types.len(),
{
    if types.len() == 0 {
        Seq::empty()
    } else {
        let rest = whole_types(types.drop_last(), unit);
        let t = types.last();
        if unit > 0 && t.size_bytes > 0 && t.size_bytes as int % unit == 0 {
            rest.push(t)
        } else {
            rest
        }
    }
}

/// Whether no block is empty.
pub open spec fn none_empty(types: Seq<EraseType>) -> bool {
    forall|k: int| 0 <= k < types.len() ==> (#[trigger] types[k]).size_bytes > 0
}

/// Whether every block is made of whole sectors of `unit` bytes.
pub open spec fn all_whole(types: Seq<EraseType>, unit: int) -> bool {
    forall|k: int|
        0 <= k < types.len() ==> (#[trigger] types[k]).size_bytes as int % unit == 0
}

/// The blocks of whole sectors are advertised blocks, and the sector is among them if it is
/// advertised.
pub proof fn lemma_whole_types(types: Seq<EraseType>, unit: int)
    ensures
        none_empty(whole_types(types, unit)),
        all_whole(whole_types(types, unit), unit),
        forall|k: int|
            0 <= k < whole_types(types, unit).len() ==> types.contains(
                #[trigger] whole_types(types, unit)[k],
            ),
        forall|k: int|
            0 <= k < types.len() && 0 < (#[trigger] types[k]).size_bytes == unit ==> whole_types(
                types,
                unit,
            ).contains(types[k]),
    decreases types.len(),
{
    if types.len() > 0 {
        let front = types.drop_last();
        let rest = whole_types(front, unit);
        let all = whole_types(types, unit);
        lemma_whole_types(front, unit);
        assert(types[types.len() - 1] == types.last());
        assert forall|k: int| 0 <= k < all.len() implies types.contains(#[trigger] all[k])
            && all[k].size_bytes > 0 && all[k].size_bytes as int % unit == 0 by {
            if k < rest.len() {
                assert(all[k] == rest[k]);
                let j = choose|j: int| 0 <= j < front.len() && front[j] == rest[k];
                assert(types[j] == rest[k]);
            } else {
                assert(types.contains(types.last()));
            }
        }
        assert forall|k: int|
            0 <= k < types.len() && 0 < (#[trigger] types[k]).size_bytes
                == unit implies all.contains(types[k]) by {
            vstd::arithmetic::div_mod::lemma_mod_self_0(unit);
            if k < front.len() {
                assert(front[k] == types[k]);
                let j = choose|j: int| 0 <= j < rest.len() && rest[j] == types[k];
                assert(all[j] == types[k]);
            } else {
                assert(all[rest.len() as int] == types[k]);
            }
        }
    }
}

/// Keeps the blocks that are made of whole sectors: with any other, some rest of a run of sectors
/// could be left that no block fits.
pub fn whole_erase_types(types: &[EraseType], unit: u32) -> (r: Vec<EraseType>)
    ensures
        r@ == whole_types(types@, unit as int),
{
    let mut out: Vec<EraseType> = Vec::new();
    let mut i: usize = 0;
    assert(out@ =~= whole_types(types@.take(0), unit as int));
    while i < types.len()
        invariant
            i <= types.len(),
            out@ == whole_types(types@.take(i as int), unit as int),
        decreases types.len() - i,
    {
        assert(types@.take(i + 1).drop_last() =~= types@.take(i as int));
        let t = types[i];
        if unit > 0 && t.size_bytes > 0 && t.size_bytes % unit == 0 {
            out.push(t);
        }
        i += 1;
    }
    assert(types@.take(i as int) =~= types@);
    out
}

/// `x` rounded down to a multiple of `unit`.
pub open spec fn floor_to(x: int, unit: int) -> int {
    (x / unit) * unit
}

/// First unit and number of units that an erase of `len` bytes at `offset` touches.
pub fn erase_range_bounds(unit: u32, offset: u32, len: u32) -> (r: Result<(u32, u32), Error>)
    requires
        len > 0 && offset + len - 1 <= u32::MAX ==> unit > 0,
    ensures
        len == 0 ==> r == Err::<(u32, u32), _>(Error::EraseLengthZero),
        len > 0 && offset + len - 1 > u32::MAX ==> r == Err::<(u32, u32), _>(
            Error::EraseRangeOverflow { offset, len },
        ),
        len > 0 && offset + len - 1 <= u32::MAX ==> (r matches Ok((first, count)) && {
            &&& first == floor_to(offset as int, unit as int)
            &&& count == (offset + len - 1) / unit as int - offset as int / unit as int + 1
        }),
{
    if len == 0 {
        return Err(Error::EraseLengthZero);
    }
    let end_inclusive: u32 = match offset.checked_add(len - 1) {
        Some(e) => e,
        None => return Err(Error::EraseRangeOverflow { offset, len }),
    };
    proof {
        lemma_floor(offset as int, unit as int);
        lemma_floor(end_inclusive as int, unit as int);
        lemma_floor_gap(offset as int, end_inclusive as int, unit as int);
    }
    let first: u32 = (offset / unit) * unit;
    let last: u32 = (end_inclusive / unit) * unit;
    let count: u32 = (last - first) / unit + 1;
    Ok((first, count))
}

pub proof fn lemma_floor(x: int, unit: int)
    by (nonlinear_arith)
    requires
        x >= 0,
        unit > 0,
    ensures
        0 <= floor_to(x, unit) <= x < floor_to(x, unit) + unit,
        floor_to(x, unit) % unit == 0,
{
}

pub proof fn lemma_floor_gap(x: int, y: int, unit: int)
    requires
        0 <= x <= y,
        unit > 0,
    ensures
        floor_to(x, unit) <= floor_to(y, unit),
        (floor_to(y, unit) - floor_to(x, unit)) / unit == y / unit - x / unit,
        x / unit <= y / unit,
        y / unit <= y,
        y / unit - x / unit + 1 <= y - x + 1,
{
    let a = x / unit;
    let b = y / unit;
    vstd::arithmetic::div_mod::lemma_div_is_ordered(x, y, unit);
    assert(b * unit - a * unit == (b - a) * unit) by (nonlinear_arith);
    vstd::arithmetic::div_mod::lemma_div_by_multiple(b - a, unit);
    assert(a * unit <= b * unit) by (nonlinear_arith)
        requires
            a <= b,
            unit > 0,
    ;
    vstd::arithmetic::div_mod::lemma_div_is_ordered_by_denominator(y, 1, unit);
    assert(y / unit <= y) by (nonlinear_arith)
        requires
            y >= 0,
            unit > 0,
    ;
    assert(b - a <= y - x) by (nonlinear_arith)
        requires
            0 <= x <= y,
            unit > 0,
            a == x / unit,
            b == y / unit,
    ;
}

/// `first` in front of a list of operations, where there is one.
pub open spec fn prepend(first: Seq<EraseOp>, rest: Result<Seq<EraseOp>, Error>) -> Result<
    Seq<EraseOp>,
    Error,
> {
    match rest {
        Ok(ops) => Ok(first + ops),
        Err(e) => Err(e),
    }
}

/// A list without empty blocks has no empty best block.
pub proof fn lemma_best_not_empty(addr: int, remaining: int, types: Seq<EraseType>)
    requires
        none_empty(types),
    ensures
        best_block(addr, remaining, types) matches Ok((_, size)) ==> size > 0,
{
    lemma_best_block(addr, remaining, types);
    if let Ok((opcode, size)) = best_block(addr, remaining, types) {
        lemma_type_has_size(types, size as int, 0);
        let found = EraseType { size_bytes: size, opcode };
        let k = choose|k: int| 0 <= k < types.len() && types[k] == found;
        assert(types[k].size_bytes > 0);
    }
}

/// Greedy tiling of `[cursor, end)` with the best block at each position.
pub open spec fn tile(cursor: int, end: int, types: Seq<EraseType>) -> Result<Seq<EraseOp>, Error>
    decreases
            (if cursor < end {
                end - cursor
            } else {
                0
            }),
    when none_empty(types)
{
    if cursor >= end {
        Ok(Seq::empty())
    } else {
        proof {
            lemma_best_not_empty(cursor, end - cursor, types);
        }
        match best_block(cursor, end - cursor, types) {
            Err(e) => Err(e),
            Ok((opcode, size)) => if cursor + size > u32::MAX {
                Err(Error::EraseAddressOverflow { addr: cursor as u32, size })
            } else {
                prepend(
                    seq![EraseOp { addr: cursor as u32, size, opcode }],
                    tile(cursor + size, end, types),
                )
            },
        }
    }
}

/// Tiles the run of sectors from `run_start` to `run_end` inclusive.
fn tile_run(
    run_start: u32,
    run_end: u32,
    erase_size: u32,
    erase_types: &[EraseType],
    ops: &mut Vec<EraseOp>,
) -> (r: Result<(), Error>)
    requires
        run_end + erase_size <= u32::MAX,
        none_empty(erase_types@),
    ensures
        match tile(run_start as int, run_end + erase_size, erase_types@) {
            Ok(tiles) => r is Ok && final(ops)@ == old(ops)@ + tiles,
            Err(e) => r == Err::<(), _>(e),
        },
{
    let run_bytes_end: u32 = run_end + erase_size;
    let mut cursor: u32 = run_start;
    while cursor < run_bytes_end
        invariant
            run_bytes_end == run_end + erase_size,
            none_empty(erase_types@),
            prepend(ops@, tile(cursor as int, run_bytes_end as int, erase_types@)) == prepend(
                old(ops)@,
                tile(run_start as int, run_bytes_end as int, erase_types@),
            ),
        decreases
                (if cursor < run_bytes_end {
                    run_bytes_end - cursor
                } else {
                    0
                }),
    {
        let remaining: u32 = run_bytes_end - cursor;
        let (opcode, size) = match pick_erase_op(cursor, remaining, erase_types) {
            Ok(p) => p,
            Err(e) => return Err(e),
        };
        proof {
            lemma_best_not_empty(cursor as int, remaining as int, erase_types@);
        }
        let next: u32 = match cursor.checked_add(size) {
            Some(n) => n,
            None => return Err(Error::EraseAddressOverflow { addr: cursor, size }),
        };
        let ghost done = ops@;
        let op = EraseOp { addr: cursor, size, opcode };
        ops.push(op);
        proof {
            let rest = tile(next as int, run_bytes_end as int, erase_types@);
            if let Ok(more) = rest {
                assert(done + (seq![op] + more) =~= ops@ + more);
            }
        }
        cursor = next;
    }
    proof {
        assert(ops@ + Seq::<EraseOp>::empty() =~= ops@);
    }
    Ok(())
}

/// The plan for the dirty sectors from `i` on, behind a run that spans the sectors from
/// `start` to `end` inclusive.
pub open spec fn plan_from(
    dirty: Seq<u32>,
    i: int,
    start: int,
    end: int,
    erase_size: int,
    types: Seq<EraseType>,
) -> Result<Seq<EraseOp>, Error>
    decreases dirty.len() - i,
{
    if i < 0 || i >= dirty.len() {
        tile(start, end + erase_size, types)
    } else if dirty[i] == end + erase_size {
        plan_from(dirty, i + 1, start, dirty[i] as int, erase_size, types)
    } else {
        match tile(start, end + erase_size, types) {
            Err(e) => Err(e),
            Ok(ops) => prepend(
                ops,
                plan_from(dirty, i + 1, dirty[i] as int, dirty[i] as int, erase_size, types),
            ),
        }
    }
}

/// The plan for a list of dirty sectors: maximal runs of adjacent sectors, each tiled on
/// its own with blocks of whole sectors.
pub open spec fn erase_plan(dirty: Seq<u32>, types: Seq<EraseType>, erase_size: int) -> Result<
    Seq<EraseOp>,
    Error,
> {
    if dirty.len() == 0 {
        Ok(Seq::empty())
    } else if type_of_size(types, erase_size) is None {
        Err(Error::NoEraseType { size: erase_size as u32 })
    } else {
        let blocks = whole_types(types, erase_size);
        plan_from(dirty, 1, dirty[0] as int, dirty[0] as int, erase_size, blocks)
    }
}

/// Whether a fallible computation of a list gave what a specification says.
pub open spec fn yields(r: Result<Vec<EraseOp>, Error>, s: Result<Seq<EraseOp>, Error>) -> bool {
    match s {
        Ok(ops) => r matches Ok(v) && v@ == ops,
        Err(e) => r == Err::<Vec<EraseOp>, _>(e),
    }
}

/// Plans the erase of a sorted list of dirty sectors: groups adjacent sectors into runs
/// and tiles each run with the largest advertised blocks of whole sectors.  A gap between two
/// dirty sectors is never bridged.
pub fn plan_erase_ops(
    dirty_addrs: &[u32],
    erase_types: &[EraseType],
    erase_size: u32,
) -> (r: Result<Vec<EraseOp>, Error>)
    requires
        forall|k: int|
            0 <= k < dirty_addrs@.len() ==> #[trigger] dirty_addrs@[k] + erase_size <= u32::MAX,
    ensures
        yields(r, erase_plan(dirty_addrs@, erase_types@, erase_size as int)),
{
    let mut ops: Vec<EraseOp> = Vec::new();
    if dirty_addrs.len() == 0 {
        return Ok(ops);
    }
    if find_erase_type(erase_types, erase_size).is_none() {
        return Err(Error::NoEraseType { size: erase_size });
    }
    let ghost plan = erase_plan(dirty_addrs@, erase_types@, erase_size as int);
    let blocks = whole_erase_types(erase_types, erase_size);
    proof {
        lemma_whole_types(erase_types@, erase_size as int);
    }
    let mut run_start: u32 = dirty_addrs[0];
    let mut run_end: u32 = dirty_addrs[0];
    let mut i: usize = 1;
    assert(plan matches Ok(all) ==> ops@ + all =~= all);
    while i < dirty_addrs.len()
        invariant
            1 <= i <= dirty_addrs.len(),
            run_end + erase_size <= u32::MAX,
            forall|k: int|
                0 <= k < dirty_addrs@.len() ==> #[trigger] dirty_addrs@[k] + erase_size
                    <= u32::MAX,
            none_empty(blocks@),
            plan == erase_plan(dirty_addrs@, erase_types@, erase_size as int),
            plan == prepend(
                ops@,
                plan_from(
                    dirty_addrs@,
                    i as int,
                    run_start as int,
                    run_end as int,
                    erase_size as int,
                    blocks@,
                ),
            ),
        decreases dirty_addrs.len() - i,
    {
        let addr: u32 = dirty_addrs[i];
        if addr == run_end + erase_size {
            run_end = addr;
        } else {
            let ghost done = ops@;
            match tile_run(run_start, run_end, erase_size, blocks.as_slice(), &mut ops) {
                Ok(()) => {},
                Err(e) => return Err(e),
            }
            proof {
                let tiles = tile(run_start as int, run_end + erase_size, blocks@)->Ok_0;
                let rest = plan_from(
                    dirty_addrs@,
                    i + 1,
                    addr as int,
                    addr as int,
                    erase_size as int,
                    blocks@,
                );
                if let Ok(more) = rest {
                    assert(done + (tiles + more) =~= ops@ + more);
                }
            }
            run_start = addr;
            run_end = addr;
        }
        i += 1;
    }
    match tile_run(run_start, run_end, erase_size, blocks.as_slice(), &mut ops) {
        Ok(()) => Ok(ops),
        Err(e) => Err(e),
    }
}

/// The blocks of a mixed erase from `addr` to `end`: the best block at each position, up
/// to the end of the 32-bit address space.
pub open spec fn mixed_from(addr: int, end: int, types: Seq<EraseType>) -> Result<
    Seq<EraseOp>,
    Error,
>
    decreases
            (if addr < end {
                end - addr
            } else {
                0
            }),
    when none_empty(types)
{
    if addr + 4096 > end {
        Ok(Seq::empty())
    } else {
        proof {
            lemma_best_not_empty(addr, end - addr, types);
        }
        match best_block(addr, end - addr, types) {
            Err(e) => Err(e),
            Ok((opcode, size)) => {
                let op = EraseOp { addr: addr as u32, size, opcode };
                if addr + size > u32::MAX {
                    Ok(seq![op])
                } else {
                    prepend(seq![op], mixed_from(addr + size, end, types))
                }
            },
        }
    }
}

/// `count` blocks of one size, one after the other.
pub open spec fn uniform_ops(first: int, count: int, size: u32, opcode: u8) -> Seq<EraseOp> {
    Seq::new(
        if count > 0 {
            count as nat
        } else {
            0
        },
        |k: int| EraseOp { addr: (first + k * size) as u32, size, opcode },
    )
}

impl ChipModel {
    /// Whether a range erase mixes block sizes: a chip with 3-byte addresses that
    /// advertises 4KB erase and at least one more size.
    pub open spec fn erases_mixed(self) -> bool {
        self.addr_bytes == 3 && type_of_size(self.erase_types, 4096) is Some
            && self.erase_types.len() > 1
    }

    /// The erase operations for every unit that overlaps `[offset, offset + len)`.
    pub open spec fn range_plan(self, offset: int, len: int) -> Result<Seq<EraseOp>, Error> {
        if len == 0 {
            Err(Error::EraseLengthZero)
        } else if offset + len - 1 > u32::MAX {
            Err(Error::EraseRangeOverflow { offset: offset as u32, len: len as u32 })
        } else if self.erases_mixed() {
            mixed_from(
                floor_to(offset, 4096),
                floor_to(offset + len - 1, 4096) + 4096,
                whole_types(self.erase_types, 4096),
            )
        } else {
            let unit = self.erase_size as int;
            match type_of_size(self.erase_types, unit) {
                None => Err(Error::NoEraseType { size: self.erase_size }),
                Some(t) => Ok(
                    uniform_ops(
                        floor_to(offset, unit),
                        (offset + len - 1) / unit - offset / unit + 1,
                        self.erase_size,
                        t.opcode,
                    ),
                ),
            }
        }
    }
}

/// Whether a range erase of this chip mixes block sizes.
pub fn erases_mixed(chip: &ResolvedChip) -> (r: bool)
    ensures
        r == chip@.erases_mixed(),
{
    chip.addr_bytes == 3 && find_erase_type(chip.erase_types.as_slice(), 4096).is_some()
        && chip.erase_types.len() > 1
}

/// Plans the erase of all erase units that overlap `[offset, offset + len)`.
pub fn erase_range(chip: &ResolvedChip, offset: u32, len: u32) -> (r: Result<
    Vec<EraseOp>,
    Error,
>)
    requires
        !chip@.erases_mixed() && len > 0 && offset + len - 1 <= u32::MAX ==> chip.erase_size > 0,
    ensures
        yields(r, chip@.range_plan(offset as int, len as int)),
{
    if erases_mixed(chip) {
        return erase_range_mixed(chip, offset, len);
    }
    let unit: u32 = chip.erase_size;
    let (first, count) = match erase_range_bounds(unit, offset, len) {
        Ok(b) => b,
        Err(e) => return Err(e),
    };
    let et = match find_erase_type(chip.erase_types.as_slice(), unit) {
        Some(t) => t,
        None => return Err(Error::NoEraseType { size: unit }),
    };
    let mut ops: Vec<EraseOp> = Vec::new();
    let mut k: u32 = 0;
    let mut addr: u32 = first;
    proof {
        lemma_floor_gap(offset as int, offset + len - 1, unit as int);
        lemma_last_unit(offset as int, len as int, unit as int);
        assert(first + 0 * unit == first);
    }
    while k < count
        invariant
            unit > 0,
            k <= count,
            count >= 1,
            k < count ==> addr == first + k * unit,
            first + (count - 1) * unit <= u32::MAX,
            ops@ =~= uniform_ops(first as int, k as int, unit, et.opcode),
        decreases count - k,
    {
        ops.push(EraseOp { addr, size: unit, opcode: et.opcode });
        k += 1;
        if k < count {
            assert(first + (k - 1) * unit + unit == first + k * unit) by (nonlinear_arith);
            assert(k * unit <= (count - 1) * unit) by (nonlinear_arith)
                requires
                    k < count,
                    unit > 0,
            ;
            addr = addr + unit;
        }
    }
    Ok(ops)
}

proof fn lemma_last_unit(offset: int, len: int, unit: int)
    by (nonlinear_arith)
    requires
        offset >= 0,
        len > 0,
        unit > 0,
    ensures
        floor_to(offset, unit) + ((offset + len - 1) / unit - offset / unit) * unit == floor_to(
            offset + len - 1,
            unit,
        ),
        floor_to(offset + len - 1, unit) <= offset + len - 1,
{
}

/// No block is larger than a 32-bit size, so more room than that changes nothing.
proof fn lemma_no_larger_block(addr: int, left: int, remaining: int, types: Seq<EraseType>)
    requires
        left == remaining || left >= remaining >= u32::MAX,
    ensures
        best_block(addr, left, types) == best_block(addr, remaining, types),
        largest_fitting(addr, left, types) == largest_fitting(addr, remaining, types),
    decreases types.len(),
{
    if types.len() > 0 {
        lemma_no_larger_block(addr, left, remaining, types.drop_last());
    }
}

/// Plans a mixed erase: the largest blocks of whole 4KB sectors that fit.
fn erase_range_mixed(chip: &ResolvedChip, offset: u32, len: u32) -> (r: Result<
    Vec<EraseOp>,
    Error,
>)
    requires
        chip@.erases_mixed(),
    ensures
        yields(r, chip@.range_plan(offset as int, len as int)),
{
    if len == 0 {
        return Err(Error::EraseLengthZero);
    }
    let end_inclusive: u32 = match offset.checked_add(len - 1) {
        Some(e) => e,
        None => return Err(Error::EraseRangeOverflow { offset, len }),
    };
    let first: u32 = (offset / 4096) * 4096;
    let last: u32 = (end_inclusive / 4096) * 4096;
    let end: u64 = last as u64 + 4096;
    let blocks = whole_erase_types(chip.erase_types.as_slice(), 4096);
    let types = blocks.as_slice();
    proof {
        lemma_whole_types(chip.erase_types@, 4096);
    }
    let ghost plan = mixed_from(first as int, end as int, types@);
    let mut ops: Vec<EraseOp> = Vec::new();
    let mut addr: u32 = first;
    assert(plan matches Ok(all) ==> ops@ + all =~= all);
    while addr as u64 + 4096 <= end
        invariant
            end <= 0x1_0000_0000,
            plan == prepend(ops@, mixed_from(addr as int, end as int, types@)),
            plan == chip@.range_plan(offset as int, len as int),
            none_empty(types@),
        decreases
                (if addr < end {
                    end - addr
                } else {
                    0
                }),
    {
        let left: u64 = end - addr as u64;
        let remaining: u32 = if left > u32::MAX as u64 {
            u32::MAX
        } else {
            left as u32
        };
        proof {
            lemma_no_larger_block(addr as int, left as int, remaining as int, types@);
        }
        let (opcode, size) = match pick_erase_op(addr, remaining, types) {
            Ok(p) => p,
            Err(e) => return Err(e),
        };
        proof {
            lemma_best_not_empty(addr as int, remaining as int, types@);
        }
        let ghost done = ops@;
        let op = EraseOp { addr, size, opcode };
        ops.push(op);
        match addr.checked_add(size) {
            Some(next) => {
                proof {
                    let rest = mixed_from(next as int, end as int, types@);
                    if let Ok(more) = rest {
                        assert(done + (seq![op] + more) =~= ops@ + more);
                    }
                }
                addr = next;
            },
            None => {
                assert(done + seq![op] =~= ops@);
                return Ok(ops);
            },
        }
    }
    assert(ops@ + Seq::<EraseOp>::empty() =~= ops@);
    Ok(ops)
}

/// The script that erases one block: write enable, opcode and address, wait.
pub open spec fn erase_script(addr_bytes: u8, addr: u32, opcode: u8, long: bool) -> Seq<OpModel> {
    seq![
        send(seq![CMD_WRITE_ENABLE]),
        send(seq![opcode] + address_bytes(addr_bytes, addr)),
        if long {
            OpModel::WaitReady { polls: 500, interval_ms: 10 }
        } else {
            OpModel::WaitReady { polls: 1000, interval_ms: 2 }
        },
    ]
}

/// The script that erases one block with a given opcode; `use_block_timeout` allows for the
/// longer erase time of blocks.
pub fn erase_unit_opcode(
    chip: &ResolvedChip,
    addr: u32,
    opcode: u8,
    use_block_timeout: bool,
) -> (script: Vec<HostOp>)
    ensures
        script_of(script@) == erase_script(chip.addr_bytes, addr, opcode, use_block_timeout),
{
    let mut script = write_enable();
    push_send(&mut script, address_command(opcode, chip.addr_bytes, addr));
    if use_block_timeout {
        push_op(&mut script, wait_wip_block());
    } else {
        push_op(&mut script, wait_wip());
    }
    assert(script_of(script@) =~~= erase_script(chip.addr_bytes, addr, opcode, use_block_timeout));
    script
}

/// The script that erases one sector, with the opcode that the chip advertises for its
/// sector size.
pub fn erase_unit(chip: &ResolvedChip, addr: u32) -> (r: Result<Vec<HostOp>, Error>)
    requires
        if chip.erase_size > 0 {
            addr as int % chip.erase_size as int == 0
        } else {
            addr == 0
        },
    ensures
        match type_of_size(chip@.erase_types, chip.erase_size as int) {
            Some(t) => r matches Ok(v) && script_of(v@) == erase_script(
                chip.addr_bytes,
                addr,
                t.opcode,
                chip.erase_size > 4096,
            ),
            None => r == Err::<Vec<HostOp>, _>(Error::NoEraseType { size: chip.erase_size }),
        },
{
    match find_erase_type(chip.erase_types.as_slice(), chip.erase_size) {
        Some(t) => Ok(erase_unit_opcode(chip, addr, t.opcode, chip.erase_size > 4096)),
        None => Err(Error::NoEraseType { size: chip.erase_size }),
    }
}

/// The script for one planned operation.
pub fn erase_op_script(chip: &ResolvedChip, op: EraseOp) -> (script: Vec<HostOp>)
    ensures
        script_of(script@) == erase_script(chip.addr_bytes, op.addr, op.opcode, op.size > 4096),
{
    erase_unit_opcode(chip, op.addr, op.opcode, op.size > 4096)
}

pub const CMD_CHIP_ERASE: u8 = 0xC7;

impl ChipModel {
    /// The script that erases the whole chip: write enable, opcode, a wait as long as the chip
    /// may take.
    pub open spec fn chip_erase_script(self) -> Seq<OpModel> {
        seq![
            send(seq![CMD_WRITE_ENABLE]),
            send(seq![CMD_CHIP_ERASE]),
            OpModel::WaitReady {
                polls: ((self.erase_timeout_ms() + 9) / 10) as u64,
                interval_ms: 10,
            },
        ]
    }
}

/// The script that erases the whole chip.
pub fn erase_chip(chip: &ResolvedChip) -> (script: Vec<HostOp>)
    ensures
        script_of(script@) == chip@.chip_erase_script(),
{
    let mut script = write_enable();
    push_opcode(&mut script, CMD_CHIP_ERASE);
    push_op(&mut script, wait_wip_chip_erase(chip));
    assert(script_of(script@) =~~= chip@.chip_erase_script());
    script
}

/// Whether an operation erases byte `b`.
pub open spec fn covers(op: EraseOp, b: int) -> bool {
    op.addr <= b < op.addr + op.size
}

/// Whether some operation of a list erases byte `b`.
pub open spec fn erased_by(ops: Seq<EraseOp>, b: int) -> bool {
    exists|k: int| 0 <= k < ops.len() && covers(#[trigger] ops[k], b)
}

/// Whether byte `b` lies in one of the sectors at the given addresses.
pub open spec fn in_sectors(sectors: Seq<u32>, size: int, b: int) -> bool {
    exists|k: int| 0 <= k < sectors.len() && #[trigger] sectors[k] <= b < sectors[k] + size
}

/// An operation the chip advertises, aligned to its own size.
pub open spec fn op_legal(op: EraseOp, types: Seq<EraseType>) -> bool {
    &&& types.contains(EraseType { size_bytes: op.size, opcode: op.opcode })
    &&& op.size > 0
    &&& op.addr as int % op.size as int == 0
}

/// Every operation is advertised and aligned.
pub open spec fn ops_legal(ops: Seq<EraseOp>, types: Seq<EraseType>) -> bool {
    forall|k: int| 0 <= k < ops.len() ==> op_legal(#[trigger] ops[k], types)
}

/// Every operation spans whole units of `unit` bytes.
pub open spec fn whole_units(ops: Seq<EraseOp>, unit: int) -> bool {
    forall|k: int|
        0 <= k < ops.len() ==> (#[trigger] ops[k]).size as int % unit == 0 && ops[k].addr as int
            % unit == 0
}

proof fn lemma_erased_concat(a: Seq<EraseOp>, b: Seq<EraseOp>)
    ensures
        forall|x: int| #[trigger] erased_by(a + b, x) <==> erased_by(a, x) || erased_by(b, x),
{
    assert forall|x: int| #[trigger] erased_by(a + b, x) <==> erased_by(a, x) || erased_by(
        b,
        x,
    ) by {
        if erased_by(a, x) {
            let k = choose|k: int| 0 <= k < a.len() && covers(#[trigger] a[k], x);
            assert((a + b)[k] == a[k]);
        }
        if erased_by(b, x) {
            let k = choose|k: int| 0 <= k < b.len() && covers(#[trigger] b[k], x);
            assert((a + b)[a.len() + k] == b[k]);
        }
    }
}

/// Two different multiples of a number are at least that number apart.
pub proof fn lemma_same_step(a: int, b: int, unit: int)
    requires
        unit > 0,
        a % unit == 0,
        b % unit == 0,
    ensures
        (a - b) % unit == 0,
        b <= a < b + unit ==> a == b,
{
    vstd::arithmetic::div_mod::lemma_sub_mod_noop(a, b, unit);
    assert(0int % unit == 0) by (nonlinear_arith)
        requires
            unit > 0,
    ;
    if b < a < b + unit {
        vstd::arithmetic::div_mod::lemma_small_mod((a - b) as nat, unit as nat);
    }
}

/// Where sectors of `unit` bytes can be erased and every block is made of whole sectors, the best
/// block at a sector boundary with a sector to go is aligned and fits.
proof fn lemma_whole_best(addr: int, remaining: int, types: Seq<EraseType>, unit: int)
    requires
        0 <= addr <= u32::MAX,
        unit > 0,
        addr % unit == 0,
        remaining >= unit,
        type_of_size(types, unit) is Some,
        all_whole(types, unit),
    ensures
        best_block(addr, remaining, types) matches Ok((opcode, size)) && {
            &&& op_legal(EraseOp { addr: addr as u32, size, opcode }, types)
            &&& unit <= size <= remaining
            &&& size as int % unit == 0
        },
{
    lemma_type_has_size(types, unit, 0);
    let own = type_of_size(types, unit)->0;
    let k = choose|k: int| 0 <= k < types.len() && types[k] == own;
    assert(fits(types[k].size_bytes as int, addr, remaining));
    lemma_best_block(addr, remaining, types);
    let (opcode, size) = best_block(addr, remaining, types)->Ok_0;
    lemma_type_has_size(types, size as int, 0);
    let found = EraseType { size_bytes: size, opcode };
    let j = choose|j: int| 0 <= j < types.len() && types[j] == found;
    assert(types[j].size_bytes == size);
}

/// Tiling whole sectors succeeds and erases exactly them.
proof fn lemma_tile_exact(cursor: int, end: int, types: Seq<EraseType>, unit: int)
    requires
        0 <= cursor <= end <= u32::MAX,
        unit > 0,
        cursor % unit == 0,
        end % unit == 0,
        type_of_size(types, unit) is Some,
        none_empty(types),
        all_whole(types, unit),
    ensures
        tile(cursor, end, types) is Ok,
        ops_legal(tile(cursor, end, types)->Ok_0, types),
        whole_units(tile(cursor, end, types)->Ok_0, unit),
        forall|b: int| #[trigger]
            erased_by(tile(cursor, end, types)->Ok_0, b) <==> cursor <= b < end,
    decreases end - cursor,
{
    if cursor < end {
        lemma_same_step(end, cursor, unit);
        lemma_whole_best(cursor, end - cursor, types, unit);
        let (opcode, size) = best_block(cursor, end - cursor, types)->Ok_0;
        lemma_sum_of_multiples(cursor, size as int, unit);
        lemma_tile_exact(cursor + size, end, types, unit);
        let op = EraseOp { addr: cursor as u32, size, opcode };
        let rest = tile(cursor + size, end, types)->Ok_0;
        lemma_erased_concat(seq![op], rest);
        assert forall|b: int| #[trigger] erased_by(seq![op], b) <==> covers(op, b) by {
            assert(seq![op][0] == op);
        }
    }
}

/// What the blocks of whole sectors allow, the chip allows.
proof fn lemma_whole_sectors(types: Seq<EraseType>, unit: int)
    requires
        unit > 0,
        type_of_size(types, unit) is Some,
    ensures
        type_of_size(whole_types(types, unit), unit) is Some,
        forall|ops: Seq<EraseOp>| #[trigger]
            ops_legal(ops, whole_types(types, unit)) ==> ops_legal(ops, types),
{
    let blocks = whole_types(types, unit);
    lemma_whole_types(types, unit);
    lemma_type_has_size(types, unit, 0);
    let own = type_of_size(types, unit)->0;
    let k = choose|k: int| 0 <= k < types.len() && types[k] == own;
    assert(blocks.contains(types[k]));
    let j = choose|j: int| 0 <= j < blocks.len() && blocks[j] == own;
    lemma_type_found(blocks, j, 0);
    assert forall|ops: Seq<EraseOp>| #[trigger] ops_legal(ops, blocks) implies ops_legal(
        ops,
        types,
    ) by {
        assert forall|i: int| 0 <= i < ops.len() implies op_legal(#[trigger] ops[i], types) by {
            assert(op_legal(ops[i], blocks));
            let t = EraseType { size_bytes: ops[i].size, opcode: ops[i].opcode };
            let n = choose|n: int| 0 <= n < blocks.len() && blocks[n] == t;
            assert(types.contains(blocks[n]));
        }
    }
}

/// Whether sectors of `unit` bytes begin at sector boundaries and end below the top of the
/// address space.
pub open spec fn sector_aligned(dirty: Seq<u32>, unit: int) -> bool {
    forall|k: int|
        0 <= k < dirty.len() ==> #[trigger] dirty[k] as int % unit == 0 && dirty[k] + unit
            <= u32::MAX
}

proof fn lemma_in_sectors_step(dirty: Seq<u32>, i: int, unit: int, b: int)
    requires
        0 <= i < dirty.len(),
    ensures
        in_sectors(dirty.skip(i), unit, b) <==> dirty[i] <= b < dirty[i] + unit || in_sectors(
            dirty.skip(i + 1),
            unit,
            b,
        ),
{
    let all = dirty.skip(i);
    let rest = dirty.skip(i + 1);
    if in_sectors(all, unit, b) {
        let k = choose|k: int| 0 <= k < all.len() && #[trigger] all[k] <= b < all[k] + unit;
        if k > 0 {
            assert(rest[k - 1] == all[k]);
        }
    }
    if in_sectors(rest, unit, b) {
        let k = choose|k: int| 0 <= k < rest.len() && #[trigger] rest[k] <= b < rest[k] + unit;
        assert(rest[k] == all[k + 1]);
    }
    assert(all[0] == dirty[i]);
}

proof fn lemma_plan_from_exact(
    dirty: Seq<u32>,
    i: int,
    start: int,
    end: int,
    unit: int,
    types: Seq<EraseType>,
)
    requires
        unit > 0,
        type_of_size(types, unit) is Some,
        none_empty(types),
        all_whole(types, unit),
        sector_aligned(dirty, unit),
        1 <= i <= dirty.len(),
        0 <= start <= end,
        end + unit <= u32::MAX,
        start % unit == 0,
        end % unit == 0,
    ensures
        ({
            let plan = plan_from(dirty, i, start, end, unit, types);
            &&& plan is Ok
            &&& ops_legal(plan->Ok_0, types)
            &&& whole_units(plan->Ok_0, unit)
            &&& forall|b: int| #[trigger]
                erased_by(plan->Ok_0, b) <==> start <= b < end + unit || in_sectors(
                    dirty.skip(i),
                    unit,
                    b,
                )
        }),
    decreases dirty.len() - i,
{
    let tiles = tile(start, end + unit, types);
    vstd::arithmetic::div_mod::lemma_mod_self_0(unit);
    lemma_sum_of_multiples(end, unit, unit);
    lemma_tile_exact(start, end + unit, types, unit);
    if i < dirty.len() {
        let d = dirty[i] as int;
        if d == end + unit {
            lemma_plan_from_exact(dirty, i + 1, start, d, unit, types);
            let plan = plan_from(dirty, i, start, end, unit, types);
            assert forall|b: int| #[trigger] erased_by(plan->Ok_0, b) <==> start <= b < end + unit
                || in_sectors(dirty.skip(i), unit, b) by {
                lemma_in_sectors_step(dirty, i, unit, b);
            }
        } else {
            lemma_plan_from_exact(dirty, i + 1, d, d, unit, types);
            let more = plan_from(dirty, i + 1, d, d, unit, types)->Ok_0;
            lemma_erased_concat(tiles->Ok_0, more);
            let plan = plan_from(dirty, i, start, end, unit, types);
            assert(plan->Ok_0 == tiles->Ok_0 + more);
            assert forall|b: int| #[trigger] erased_by(plan->Ok_0, b) <==> start <= b < end + unit
                || in_sectors(dirty.skip(i), unit, b) by {
                lemma_in_sectors_step(dirty, i, unit, b);
            }
        }
    } else {
        assert(dirty.skip(i).len() == 0);
    }
}

/// Dirty sectors of an advertised size always have a plan, and it erases exactly them, with
/// advertised and aligned operations only, each of whole sectors.
pub proof fn law_plan_erases_exactly_the_dirty_sectors(
    dirty: Seq<u32>,
    types: Seq<EraseType>,
    unit: int,
)
    requires
        unit > 0,
        type_of_size(types, unit) is Some,
        sector_aligned(dirty, unit),
    ensures
        erase_plan(dirty, types, unit) is Ok,
        ops_legal(erase_plan(dirty, types, unit)->Ok_0, types),
        whole_units(erase_plan(dirty, types, unit)->Ok_0, unit),
        forall|b: int| #[trigger]
            erased_by(erase_plan(dirty, types, unit)->Ok_0, b) <==> in_sectors(dirty, unit, b),
{
    if dirty.len() > 0 {
        let blocks = whole_types(types, unit);
        lemma_whole_types(types, unit);
        lemma_whole_sectors(types, unit);
        lemma_plan_from_exact(dirty, 1, dirty[0] as int, dirty[0] as int, unit, blocks);
        let plan = erase_plan(dirty, types, unit)->Ok_0;
        assert forall|b: int| #[trigger] erased_by(plan, b) <==> in_sectors(dirty, unit, b) by {
            lemma_in_sectors_step(dirty, 0, unit, b);
            assert(dirty.skip(0) =~= dirty);
        }
    }
}

/// The sum of two multiples is one too.
pub proof fn lemma_sum_of_multiples(a: int, b: int, size: int)
    requires
        size > 0,
        a % size == 0,
        b % size == 0,
    ensures
        (a + b) % size == 0,
{
    vstd::arithmetic::div_mod::lemma_add_mod_noop(a, b, size);
    vstd::arithmetic::div_mod::lemma_small_mod(0, size as nat);
}

/// A multiple of a number is one of each of its divisors.
pub proof fn lemma_multiple_of_divisor(x: int, unit: int, size: int)
    requires
        unit > 0,
        size > 0,
        x % unit == 0,
        unit % size == 0,
    ensures
        x % size == 0,
{
    let q = x / unit;
    let m = unit / size;
    vstd::arithmetic::div_mod::lemma_fundamental_div_mod(x, unit);
    vstd::arithmetic::div_mod::lemma_fundamental_div_mod(unit, size);
    assert(x == (q * m) * size) by (nonlinear_arith)
        requires
            x == unit * q,
            unit == size * m,
    ;
    vstd::arithmetic::div_mod::lemma_mod_multiples_basic(q * m, size);
}

proof fn lemma_mixed_exact(addr: int, end: int, types: Seq<EraseType>)
    requires
        type_of_size(types, 4096) is Some,
        none_empty(types),
        all_whole(types, 4096),
        0 <= addr <= end <= 0x1_0000_0000,
        addr % 4096 == 0,
        end % 4096 == 0,
    ensures
        mixed_from(addr, end, types) is Ok,
        ops_legal(mixed_from(addr, end, types)->Ok_0, types),
        whole_units(mixed_from(addr, end, types)->Ok_0, 4096),
        forall|b: int| #[trigger]
            erased_by(mixed_from(addr, end, types)->Ok_0, b) <==> addr <= b < end,
    decreases end - addr,
{
    if addr + 4096 <= end {
        lemma_whole_best(addr, end - addr, types, 4096);
        let (opcode, size) = best_block(addr, end - addr, types)->Ok_0;
        let op = EraseOp { addr: addr as u32, size, opcode };
        assert forall|b: int| #[trigger] erased_by(seq![op], b) <==> covers(op, b) by {
            assert(seq![op][0] == op);
        }
        if addr + size <= u32::MAX {
            lemma_mixed_exact(addr + size, end, types);
            lemma_erased_concat(seq![op], mixed_from(addr + size, end, types)->Ok_0);
        }
    }
}

/// A range erase never touches a byte outside the erase units that overlap the range, and
/// misses none inside them; every operation is advertised by the chip.
pub proof fn law_range_erase_covers_exactly_the_overlapping_units(
    chip: ChipModel,
    offset: int,
    len: int,
)
    requires
        chip.erases_mixed() || (chip.erase_size > 0 && type_of_size(
            chip.erase_types,
            chip.erase_size as int,
        ) is Some),
        0 <= offset,
        len > 0,
        offset + len - 1 <= u32::MAX,
    ensures
        chip.range_plan(offset, len) is Ok,
        ({
            let unit: int = if chip.erases_mixed() {
                4096
            } else {
                chip.erase_size as int
            };
            let ops = chip.range_plan(offset, len)->Ok_0;
            &&& ops_legal(ops, chip.erase_types)
            &&& whole_units(ops, unit)
            &&& forall|b: int| #[trigger]
                erased_by(ops, b) <==> floor_to(offset, unit) <= b < floor_to(
                    offset + len - 1,
                    unit,
                ) + unit
        }),
{
    if chip.erases_mixed() {
        lemma_floor(offset, 4096);
        lemma_floor(offset + len - 1, 4096);
        lemma_whole_types(chip.erase_types, 4096);
        lemma_whole_sectors(chip.erase_types, 4096);
        lemma_mixed_exact(
            floor_to(offset, 4096),
            floor_to(offset + len - 1, 4096) + 4096,
            whole_types(chip.erase_types, 4096),
        );
    } else {
        let unit = chip.erase_size as int;
        let first = floor_to(offset, unit);
        let count = (offset + len - 1) / unit - offset / unit + 1;
        let t = type_of_size(chip.erase_types, unit)->0;
        let ops = chip.range_plan(offset, len)->Ok_0;
        lemma_type_has_size(chip.erase_types, unit, 0);
        lemma_floor(offset, unit);
        lemma_floor(offset + len - 1, unit);
        lemma_floor_gap(offset, offset + len - 1, unit);
        lemma_last_unit(offset, len, unit);
        assert(t == EraseType { size_bytes: unit as u32, opcode: t.opcode });
        assert forall|k: int| 0 <= k < ops.len() implies first + k * unit <= u32::MAX && (first + k
            * unit) % unit == 0 && first + k * unit >= 0 && (#[trigger] ops[k]).addr == first + k
            * unit by {
            assert(k * unit <= (count - 1) * unit && k * unit >= 0) by (nonlinear_arith)
                requires
                    0 <= k <= count - 1,
                    unit > 0,
            ;
            vstd::arithmetic::div_mod::lemma_mod_multiples_vanish(k, first, unit);
            assert(k * unit + first == first + k * unit);
            assert(unit * k == k * unit) by (nonlinear_arith);
        }
        assert(unit % unit == 0) by (nonlinear_arith)
            requires
                unit > 0,
        ;
        assert forall|b: int| #[trigger] erased_by(ops, b) <==> first <= b < floor_to(
            offset + len - 1,
            unit,
        ) + unit by {
            if erased_by(ops, b) {
                let k = choose|k: int| 0 <= k < ops.len() && covers(#[trigger] ops[k], b);
                assert(0 <= k * unit && k * unit <= (count - 1) * unit) by (nonlinear_arith)
                    requires
                        0 <= k <= count - 1,
                        unit > 0,
                ;
            }
            if first <= b < floor_to(offset + len - 1, unit) + unit {
                let k = (b - first) / unit;
                lemma_floor(b - first, unit);
                assert(0 <= k <= count - 1) by (nonlinear_arith)
                    requires
                        k == (b - first) / unit,
                        0 <= b - first < (count - 1) * unit + unit,
                        unit > 0,
                ;
                assert(covers(ops[k], b));
            }
        }
    }
}

/// The array after the operations were carried out one after the other.
pub open spec fn all_erased(cells: Seq<u8>, ops: Seq<EraseOp>) -> Seq<u8>
    decreases ops.len(),
{
    if ops.len() == 0 {
        cells
    } else {
        all_erased(erased(cells, ops[0].addr as int, ops[0].size as int), ops.drop_first())
    }
}

/// A list of operations leaves 0xFF in the bytes it erases and the rest as it was.
pub proof fn lemma_all_erased(cells: Seq<u8>, ops: Seq<EraseOp>)
    ensures
        all_erased(cells, ops).len() == cells.len(),
        forall|b: int|
            0 <= b < cells.len() ==> #[trigger] all_erased(cells, ops)[b] == if erased_by(ops, b) {
                0xFFu8
            } else {
                cells[b]
            },
    decreases ops.len(),
{
    if ops.len() > 0 {
        let next = erased(cells, ops[0].addr as int, ops[0].size as int);
        lemma_all_erased(next, ops.drop_first());
        assert(ops =~= seq![ops[0]] + ops.drop_first());
        lemma_erased_concat(seq![ops[0]], ops.drop_first());
        assert forall|b: int| #[trigger] erased_by(seq![ops[0]], b) <==> covers(ops[0], b) by {
            assert(seq![ops[0]][0] == ops[0]);
        }
        assert forall|b: int| 0 <= b < cells.len() implies #[trigger] all_erased(cells, ops)[b]
            == if erased_by(ops, b) {
            0xFFu8
        } else {
            cells[b]
        } by {
            assert(erased_by(seq![ops[0]] + ops.drop_first(), b) <==> erased_by(seq![ops[0]], b)
                || erased_by(ops.drop_first(), b));
        }
    }
}

/// No advertised block of whole sectors is left aside.
pub proof fn lemma_all_whole_types(types: Seq<EraseType>, unit: int)
    requires
        unit > 0,
    ensures
        forall|k: int|
            0 <= k < types.len() && (#[trigger] types[k]).size_bytes > 0 && types[k].size_bytes as int
                % unit == 0 ==> whole_types(types, unit).contains(types[k]),
    decreases types.len(),
{
    if types.len() > 0 {
        let front = types.drop_last();
        let rest = whole_types(front, unit);
        let all = whole_types(types, unit);
        lemma_all_whole_types(front, unit);
        assert forall|k: int|
            0 <= k < types.len() && (#[trigger] types[k]).size_bytes > 0 && types[k].size_bytes as int
                % unit == 0 implies all.contains(types[k]) by {
            if k < front.len() {
                assert(front[k] == types[k]);
                let j = choose|j: int| 0 <= j < rest.len() && rest[j] == types[k];
                assert(all[j] == types[k]);
            } else {
                assert(all[rest.len() as int] == types[k]);
            }
        }
    }
}

/// Whether operations follow each other between two addresses without overlapping.
pub open spec fn in_order(ops: Seq<EraseOp>, from: int, to: int) -> bool {
    &&& forall|k: int|
        0 <= k < ops.len() ==> from <= (#[trigger] ops[k]).addr && ops[k].addr + ops[k].size <= to
    &&& forall|j: int, k: int|
        0 <= j < k < ops.len() ==> (#[trigger] ops[j]).addr + ops[j].size <= (#[trigger] ops[k]).addr
}

/// Whether a block that is larger than an operation, and aligned where it begins, would pass `end`.
pub open spec fn outgrows(op: EraseOp, t: EraseType, end: int) -> bool {
    t.size_bytes > op.size && op.addr as int % t.size_bytes as int == 0 ==> op.addr + t.size_bytes
        > end
}

/// Whether every operation is the largest that fits before `end`.
pub open spec fn largest_before(ops: Seq<EraseOp>, types: Seq<EraseType>, end: int) -> bool {
    forall|k: int, j: int|
        0 <= k < ops.len() && 0 <= j < types.len() ==> outgrows(
            #[trigger] ops[k],
            #[trigger] types[j],
            end,
        )
}

proof fn lemma_best_is_largest(addr: int, end: int, types: Seq<EraseType>, op: EraseOp)
    requires
        0 <= addr < end,
        addr == op.addr,
        none_empty(types),
        best_block(addr, end - addr, types) == Ok::<(u8, u32), Error>((op.opcode, op.size)),
        fits(op.size as int, addr, end - addr),
    ensures
        forall|j: int| 0 <= j < types.len() ==> outgrows(op, #[trigger] types[j], end),
{
    lemma_best_block(addr, end - addr, types);
    assert(is_best(addr, end - addr, types, op.opcode, op.size));
    assert(type_of_size(types, op.size as int) is Some);
    lemma_type_has_size(types, op.size as int, 0);
    let own = type_of_size(types, op.size as int)->0;
    let i = choose|i: int| 0 <= i < types.len() && types[i] == own;
    assert(fits(types[i].size_bytes as int, addr, end - addr));
    assert forall|j: int| 0 <= j < types.len() implies outgrows(op, #[trigger] types[j], end) by {
        assert(types[j].size_bytes > 0);
        assert(fits(types[j].size_bytes as int, addr, end - addr) ==> types[j].size_bytes
            <= op.size);
    }
}

proof fn lemma_tile_greedy(cursor: int, end: int, types: Seq<EraseType>, unit: int)
    requires
        0 <= cursor <= end <= u32::MAX,
        unit > 0,
        cursor % unit == 0,
        end % unit == 0,
        type_of_size(types, unit) is Some,
        none_empty(types),
        all_whole(types, unit),
    ensures
        tile(cursor, end, types) is Ok,
        in_order(tile(cursor, end, types)->Ok_0, cursor, end),
        largest_before(tile(cursor, end, types)->Ok_0, types, end),
    decreases end - cursor,
{
    if cursor < end {
        lemma_same_step(end, cursor, unit);
        lemma_whole_best(cursor, end - cursor, types, unit);
        let (opcode, size) = best_block(cursor, end - cursor, types)->Ok_0;
        lemma_sum_of_multiples(cursor, size as int, unit);
        lemma_tile_greedy(cursor + size, end, types, unit);
        let op = EraseOp { addr: cursor as u32, size, opcode };
        let rest = tile(cursor + size, end, types)->Ok_0;
        let all = tile(cursor, end, types)->Ok_0;
        lemma_best_is_largest(cursor, end, types, op);
        assert(all =~= seq![op] + rest);
        lemma_one_more(op, rest, types, cursor, end);
    }
}

proof fn lemma_one_more(
    op: EraseOp,
    rest: Seq<EraseOp>,
    types: Seq<EraseType>,
    from: int,
    end: int,
)
    requires
        op.addr == from,
        from + op.size <= end,
        in_order(rest, from + op.size, end),
        largest_before(rest, types, end),
        forall|j: int| 0 <= j < types.len() ==> outgrows(op, #[trigger] types[j], end),
    ensures
        in_order(seq![op] + rest, from, end),
        largest_before(seq![op] + rest, types, end),
{
    let all = seq![op] + rest;
    assert forall|k: int| 0 <= k < all.len() implies from <= (#[trigger] all[k]).addr
        && all[k].addr + all[k].size <= end by {
        if k > 0 {
            assert(all[k] == rest[k - 1]);
        }
    }
    assert forall|j: int, k: int| 0 <= j < k < all.len() implies (#[trigger] all[j]).addr
        + all[j].size <= (#[trigger] all[k]).addr by {
        assert(all[k] == rest[k - 1]);
        if j > 0 {
            assert(all[j] == rest[j - 1]);
        }
    }
    assert forall|k: int, j: int| 0 <= k < all.len() && 0 <= j < types.len() implies outgrows(
        #[trigger] all[k],
        #[trigger] types[j],
        end,
    ) by {
        if k > 0 {
            assert(all[k] == rest[k - 1]);
        }
    }
}

/// Whether sectors are listed in ascending order.
pub open spec fn ascending(sectors: Seq<u32>) -> bool {
    forall|i: int, j: int| 0 <= i < j < sectors.len() ==> #[trigger] sectors[i] < #[trigger] sectors[j]
}

/// Whether a block that is larger than an operation, and aligned where it begins, would erase a
/// byte outside the given sectors.
pub open spec fn would_spill(op: EraseOp, t: EraseType, sectors: Seq<u32>, unit: int) -> bool {
    t.size_bytes > op.size && op.addr as int % t.size_bytes as int == 0 ==> exists|b: int|
        op.addr <= b < op.addr + t.size_bytes && !#[trigger] in_sectors(sectors, unit, b)
}

/// Whether every operation is the largest that does not erase a byte outside the given sectors.
pub open spec fn largest_within(
    ops: Seq<EraseOp>,
    types: Seq<EraseType>,
    sectors: Seq<u32>,
    unit: int,
) -> bool {
    forall|k: int, j: int|
        0 <= k < ops.len() && 0 <= j < types.len() ==> would_spill(
            #[trigger] ops[k],
            #[trigger] types[j],
            sectors,
            unit,
        )
}

proof fn lemma_plan_from_greedy(
    dirty: Seq<u32>,
    i: int,
    start: int,
    end: int,
    unit: int,
    types: Seq<EraseType>,
)
    requires
        unit > 0,
        type_of_size(types, unit) is Some,
        none_empty(types),
        all_whole(types, unit),
        sector_aligned(dirty, unit),
        ascending(dirty),
        1 <= i <= dirty.len(),
        0 <= start <= end,
        end == dirty[i - 1],
        start % unit == 0,
    ensures
        ({
            let plan = plan_from(dirty, i, start, end, unit, types);
            &&& plan is Ok
            &&& in_order(plan->Ok_0, start, u32::MAX as int)
            &&& largest_within(plan->Ok_0, types, dirty, unit)
        }),
    decreases dirty.len() - i,
{
    let tiles = tile(start, end + unit, types);
    assert(dirty[i - 1] as int % unit == 0 && dirty[i - 1] + unit <= u32::MAX);
    vstd::arithmetic::div_mod::lemma_mod_self_0(unit);
    lemma_sum_of_multiples(end, unit, unit);
    lemma_tile_greedy(start, end + unit, types, unit);
    let plan = plan_from(dirty, i, start, end, unit, types);
    let next = i < dirty.len() && dirty[i] == end + unit;
    if next {
        lemma_plan_from_greedy(dirty, i + 1, start, dirty[i] as int, unit, types);
    } else {
        assert(!in_sectors(dirty, unit, end + unit)) by {
            if in_sectors(dirty, unit, end + unit) {
                let m = choose|m: int|
                    0 <= m < dirty.len() && #[trigger] dirty[m] <= end + unit < dirty[m] + unit;
                assert(dirty[m] as int % unit == 0);
                lemma_same_step(end + unit, dirty[m] as int, unit);
                assert(dirty[m] == end + unit);
                if m < i {
                    if m < i - 1 {
                        assert(dirty[m] < dirty[i - 1]);
                    }
                } else {
                    if i < m {
                        assert(dirty[i] < dirty[m]);
                    }
                    assert(dirty[i - 1] < dirty[i]);
                    assert(dirty[i] as int % unit == 0);
                    lemma_same_step(dirty[i] as int, end, unit);
                }
            }
        }
        let ops = tiles->Ok_0;
        assert forall|k: int, j: int| 0 <= k < ops.len() && 0 <= j < types.len() implies would_spill(
            #[trigger] ops[k],
            #[trigger] types[j],
            dirty,
            unit,
        ) by {
            assert(outgrows(ops[k], types[j], end + unit));
            if types[j].size_bytes > ops[k].size && ops[k].addr as int % types[j].size_bytes as int
                == 0 {
                let b = end + unit;
                assert(ops[k].addr + ops[k].size <= end + unit);
                assert(ops[k].addr <= b < ops[k].addr + types[j].size_bytes && !in_sectors(
                    dirty,
                    unit,
                    b,
                ));
            }
        }
        if i < dirty.len() {
            let d = dirty[i] as int;
            assert(dirty[i - 1] < dirty[i]);
            assert(dirty[i] as int % unit == 0);
            lemma_same_step(d, end, unit);
            lemma_plan_from_greedy(dirty, i + 1, d, d, unit, types);
            let more = plan_from(dirty, i + 1, d, d, unit, types)->Ok_0;
            let all = plan->Ok_0;
            assert(all == ops + more);
            assert forall|k: int| 0 <= k < all.len() implies start <= (#[trigger] all[k]).addr
                && all[k].addr + all[k].size <= u32::MAX by {
                if k < ops.len() {
                    assert(all[k] == ops[k]);
                } else {
                    assert(all[k] == more[k - ops.len()]);
                }
            }
            assert forall|j: int, k: int| 0 <= j < k < all.len() implies (#[trigger] all[j]).addr
                + all[j].size <= (#[trigger] all[k]).addr by {
                if k < ops.len() {
                    assert(all[k] == ops[k] && all[j] == ops[j]);
                } else {
                    assert(all[k] == more[k - ops.len()]);
                    if j < ops.len() {
                        assert(all[j] == ops[j]);
                    } else {
                        assert(all[j] == more[j - ops.len()]);
                    }
                }
            }
            assert forall|k: int, j: int|
                0 <= k < all.len() && 0 <= j < types.len() implies would_spill(
                #[trigger] all[k],
                #[trigger] types[j],
                dirty,
                unit,
            ) by {
                if k < ops.len() {
                    assert(all[k] == ops[k]);
                } else {
                    assert(all[k] == more[k - ops.len()]);
                }
            }
        }
    }
}

/// The operations of a plan follow each other in ascending order, so that nothing is erased twice,
/// and none could be replaced by a larger advertised block of whole sectors at its place without
/// erasing a sector that is not dirty.
pub proof fn law_plan_uses_the_largest_blocks(
    dirty: Seq<u32>,
    types: Seq<EraseType>,
    unit: int,
    k: int,
    j: int,
)
    requires
        unit > 0,
        type_of_size(types, unit) is Some,
        sector_aligned(dirty, unit),
        ascending(dirty),
    ensures
        erase_plan(dirty, types, unit) is Ok,
        ({
            let plan = erase_plan(dirty, types, unit)->Ok_0;
            &&& in_order(plan, 0, u32::MAX as int)
            &&& 0 <= k < plan.len() && 0 <= j < types.len() && types[j].size_bytes > 0
                && types[j].size_bytes as int % unit == 0 ==> would_spill(
                plan[k],
                types[j],
                dirty,
                unit,
            )
        }),
{
    if dirty.len() > 0 {
        let blocks = whole_types(types, unit);
        let plan = erase_plan(dirty, types, unit)->Ok_0;
        lemma_whole_types(types, unit);
        lemma_all_whole_types(types, unit);
        lemma_whole_sectors(types, unit);
        assert(dirty[0] as int % unit == 0);
        lemma_plan_from_greedy(dirty, 1, dirty[0] as int, dirty[0] as int, unit, blocks);
        if 0 <= k < plan.len() && 0 <= j < types.len() && types[j].size_bytes > 0
            && types[j].size_bytes as int % unit == 0 {
            assert(blocks.contains(types[j]));
            let i = choose|i: int| 0 <= i < blocks.len() && blocks[i] == types[j];
            assert(would_spill(plan[k], blocks[i], dirty, unit));
        }
    }
}

proof fn lemma_mixed_greedy(addr: int, end: int, types: Seq<EraseType>)
    requires
        0 <= addr <= end,
        end <= u32::MAX + 1,
        addr % 4096 == 0,
        end % 4096 == 0,
        type_of_size(types, 4096) is Some,
        none_empty(types),
        all_whole(types, 4096),
    ensures
        mixed_from(addr, end, types) is Ok,
        in_order(mixed_from(addr, end, types)->Ok_0, addr, end),
        largest_before(mixed_from(addr, end, types)->Ok_0, types, end),
    decreases end - addr,
{
    if addr + 4096 <= end {
        lemma_whole_best(addr, end - addr, types, 4096);
        let (opcode, size) = best_block(addr, end - addr, types)->Ok_0;
        let op = EraseOp { addr: addr as u32, size, opcode };
        lemma_best_is_largest(addr, end, types, op);
        let none = Seq::<EraseOp>::empty();
        if addr + size > u32::MAX {
            lemma_one_more(op, none, types, addr, end);
            assert(seq![op] + none =~= seq![op]);
        } else {
            lemma_mixed_greedy(addr + size, end, types);
            lemma_one_more(op, mixed_from(addr + size, end, types)->Ok_0, types, addr, end);
        }
    }
}

/// A range erase of a chip with 3-byte addresses and several erase sizes, 4KB among them, takes at
/// each place the largest block of whole 4KB sectors that does not pass the last sector of the
/// range, in ascending order; a chip with 4-byte addresses is erased sector by sector.
pub proof fn law_range_erase_uses_the_largest_blocks(
    chip: ChipModel,
    offset: int,
    len: int,
    k: int,
    j: int,
)
    requires
        0 <= offset,
        len > 0,
        offset + len - 1 <= u32::MAX,
    ensures
        chip.addr_bytes == 3 && chip.erase_types.len() > 1 && type_of_size(chip.erase_types, 4096)
            is Some ==> {
            let end = (offset + len - 1) / 4096 * 4096 + 4096;
            &&& chip.range_plan(offset, len) matches Ok(ops)
            &&& in_order(ops, offset / 4096 * 4096, end)
            &&& 0 <= k < ops.len() && 0 <= j < chip.erase_types.len() && (
            chip.erase_types[j].size_bytes > 0 && chip.erase_types[j].size_bytes as int % 4096 == 0)
                ==> outgrows(ops[k], chip.erase_types[j], end)
        },
        chip.addr_bytes == 4 ==> (chip.range_plan(offset, len) matches Ok(ops) ==> 0 <= k < ops.len()
            ==> ops[k].size == chip.erase_size),
{
    if chip.addr_bytes == 3 && chip.erase_types.len() > 1 && type_of_size(chip.erase_types, 4096)
        is Some {
        let types = chip.erase_types;
        let blocks = whole_types(types, 4096);
        let end = floor_to(offset + len - 1, 4096) + 4096;
        lemma_floor(offset, 4096);
        lemma_floor(offset + len - 1, 4096);
        lemma_whole_types(types, 4096);
        lemma_all_whole_types(types, 4096);
        lemma_whole_sectors(types, 4096);
        lemma_mixed_greedy(floor_to(offset, 4096), end, blocks);
        let ops = chip.range_plan(offset, len)->Ok_0;
        if 0 <= k < ops.len() && 0 <= j < types.len() && types[j].size_bytes > 0
            && types[j].size_bytes as int % 4096 == 0 {
            assert(blocks.contains(types[j]));
            let i = choose|i: int| 0 <= i < blocks.len() && blocks[i] == types[j];
            assert(outgrows(ops[k], blocks[i], end));
        }
    }
}

} // verus!
