//! Smart write: read, compare, erase what must be erased, program what differs.
use vstd::prelude::*;

use crate::chip::{ChipModel, EraseType, ResolvedChip};
use crate::error::Error;
use crate::flash::{
    all_programmed, lemma_clear_only_cell, lemma_erased_cell, lemma_programmed_concat, overlaid,
    programmed, BlockModel,
};
use crate::spi::effect::{
    after_script, askable, block_scripts, erase_scripts, idle, law_block_scripts_program_the_blocks,
    law_erase_scripts_erase_the_units, lemma_after_both, opcodes_tell_sizes, sendable,
};
use crate::spi::erase::{
    all_erased, ascending, covers, erase_plan, erased_by, find_erase_type, floor_to, in_order,
    in_sectors, law_plan_erases_exactly_the_dirty_sectors, law_plan_uses_the_largest_blocks,
    lemma_all_erased, lemma_all_whole_types, lemma_floor,
    lemma_multiple_of_divisor, lemma_same_step, lemma_sum_of_multiples, lemma_type_has_size,
    lemma_whole_types, op_legal, plan_erase_ops, sector_aligned, type_of_size, whole_erase_types, whole_types, whole_units,
    would_spill, yields, EraseOp,
};
use crate::spi::write::{blocks_of, push_block, WriteBlock, WRITE_BLOCK};

verus! {

/// What a smart write has to do with one sector.
#[derive(Debug, Clone, Copy, PartialEq, Eq, Structural)]
pub enum SectorClass {
    /// Already as wanted.
    Skip,
    /// Only bits to clear.
    WriteOnly,
    /// A bit must go from 0 to 1.
    Erase,
}

/// Whether some bit of `new` is not set in `old_bytes`.
pub open spec fn sets_bits(old_bytes: Seq<u8>, new: Seq<u8>) -> bool {
    exists|i: int|
        0 <= i < old_bytes.len() && i < new.len() && #[trigger] new[i] & !old_bytes[i] != 0
}

/// The class of a sector that holds `old_bytes` and shall hold `new`.
pub open spec fn sector_class(old_bytes: Seq<u8>, new: Seq<u8>) -> SectorClass {
    if old_bytes == new {
        SectorClass::Skip
    } else if sets_bits(old_bytes, new) {
        SectorClass::Erase
    } else {
        SectorClass::WriteOnly
    }
}

/// Decides what to do with one sector.
pub fn classify_sector(old_bytes: &[u8], new: &[u8]) -> (r: SectorClass)
    requires
        old_bytes@.len() == new@.len(),
    ensures
        r == sector_class(old_bytes@, new@),
{
    let mut same = true;
    let mut i: usize = 0;
    assert(old_bytes@.take(0) =~= new@.take(0));
    while i < new.len()
        invariant
            i <= new.len(),
            old_bytes@.len() == new@.len(),
            same <==> old_bytes@.take(i as int) == new@.take(i as int),
            forall|j: int| 0 <= j < i ==> #[trigger] new@[j] & !old_bytes@[j] == 0,
        decreases new.len() - i,
    {
        let n: u8 = new[i];
        let o: u8 = old_bytes[i];
        proof {
            assert(old_bytes@.take(i + 1) =~= old_bytes@.take(i as int).push(o));
            assert(new@.take(i + 1) =~= new@.take(i as int).push(n));
            assert(old_bytes@.take(i + 1).drop_last() =~= old_bytes@.take(i as int));
            assert(new@.take(i + 1).drop_last() =~= new@.take(i as int));
            assert(n & !n == 0) by (bit_vector);
        }
        if n & !o != 0 {
            assert(new@[i as int] & !old_bytes@[i as int] != 0);
            assert(old_bytes@ != new@);
            return SectorClass::Erase;
        }
        if n != o {
            assert(old_bytes@.take(i + 1).last() != new@.take(i + 1).last());
            same = false;
        }
        i += 1;
    }
    assert(old_bytes@.take(i as int) =~= old_bytes@);
    assert(new@.take(i as int) =~= new@);
    if same {
        SectorClass::Skip
    } else {
        SectorClass::WriteOnly
    }
}

/// Whether a page needs no programming: after an erase, where it shall be all 0xFF; else
/// where it shall stay as it was.
pub open spec fn page_clean(
    target: Seq<u8>,
    orig: Seq<u8>,
    was_erased: bool,
    from: int,
    to: int,
) -> bool {
    forall|i: int|
        from <= i < to ==> #[trigger] target[i] == if was_erased {
            0xFFu8
        } else {
            orig[i]
        }
}

fn is_page_clean(target: &[u8], orig: &[u8], was_erased: bool, from: usize, to: usize) -> (r: bool)
    requires
        from <= to <= target@.len(),
        orig@.len() == target@.len(),
    ensures
        r == page_clean(target@, orig@, was_erased, from as int, to as int),
{
    let mut i: usize = from;
    while i < to
        invariant
            from <= i <= to <= target@.len(),
            orig@.len() == target@.len(),
            page_clean(target@, orig@, was_erased, from as int, i as int),
        decreases to - i,
    {
        let want: u8 = if was_erased {
            0xFF
        } else {
            orig[i]
        };
        if target[i] != want {
            assert(target@[i as int] != want);
            return false;
        }
        i += 1;
    }
    true
}

/// The end of the page that begins at `from`.
pub open spec fn next_page(from: int, page: int, len: int) -> int {
    if from + page < len {
        from + page
    } else {
        len
    }
}

/// How far a run of pages to program that begins at `off` and reaches `end` so far goes on:
/// up to a clean page, the end of the sector, or a full write block.
pub open spec fn run_end(
    target: Seq<u8>,
    orig: Seq<u8>,
    was_erased: bool,
    page: int,
    off: int,
    end: int,
) -> int
    decreases target.len() - end,
{
    let next = next_page(end, page, target.len() as int);
    if end < target.len() && page > 0 && end - off < WRITE_BLOCK && !page_clean(
        target,
        orig,
        was_erased,
        end,
        next,
    ) {
        run_end(target, orig, was_erased, page, off, next)
    } else {
        end
    }
}

/// What a sector's pages come to: the blocks to program and how many pages are programmed
/// and skipped.
#[verifier::ext_equal]
pub struct PageWrites {
    pub blocks: Seq<BlockModel>,
    pub written: nat,
    pub skipped: nat,
}

impl PageWrites {
    pub open spec fn nothing() -> PageWrites {
        PageWrites { blocks: Seq::empty(), written: 0, skipped: 0 }
    }

    pub open spec fn plus(self, other: PageWrites) -> PageWrites {
        PageWrites {
            blocks: self.blocks + other.blocks,
            written: self.written + other.written,
            skipped: self.skipped + other.skipped,
        }
    }
}

/// Pages in `n` bytes, rounded up.
pub open spec fn pages_in(n: int, page: int) -> nat {
    ((n + page - 1) / page) as nat
}

/// The pages of a sector at `base` from offset `off` on: clean pages are skipped, runs of
/// others become one block each.
pub open spec fn sector_pages(
    base: int,
    target: Seq<u8>,
    orig: Seq<u8>,
    was_erased: bool,
    page: int,
    off: int,
) -> PageWrites
    decreases target.len() - off, 0nat,
{
    if off < 0 || off >= target.len() || page <= 0 {
        PageWrites::nothing()
    } else {
        let end = next_page(off, page, target.len() as int);
        if page_clean(target, orig, was_erased, off, end) {
            PageWrites { blocks: Seq::empty(), written: 0, skipped: 1 }.plus(
                sector_pages(base, target, orig, was_erased, page, end),
            )
        } else {
            let stop = run_end(target, orig, was_erased, page, off, end);
            proof {
                lemma_run_end(target, orig, was_erased, page, off, end);
            }
            PageWrites {
                blocks: seq![BlockModel { addr: base + off, data: target.subrange(off, stop) }],
                written: pages_in(stop - off, page),
                skipped: 0,
            }.plus(sector_pages(base, target, orig, was_erased, page, stop))
        }
    }
}

pub proof fn lemma_run_end(
    target: Seq<u8>,
    orig: Seq<u8>,
    was_erased: bool,
    page: int,
    off: int,
    end: int,
)
    requires
        end <= target.len(),
    ensures
        end <= run_end(target, orig, was_erased, page, off, end) <= target.len(),
    decreases target.len() - end,
{
    let next = next_page(end, page, target.len() as int);
    if end < target.len() && page > 0 && end - off < WRITE_BLOCK && !page_clean(
        target,
        orig,
        was_erased,
        end,
        next,
    ) {
        lemma_run_end(target, orig, was_erased, page, off, next);
    }
}

/// Every page that is counted has at least one byte.
pub proof fn lemma_page_count(
    base: int,
    target: Seq<u8>,
    orig: Seq<u8>,
    was_erased: bool,
    page: int,
    off: int,
)
    requires
        0 <= off <= target.len(),
    ensures
        ({
            let w = sector_pages(base, target, orig, was_erased, page, off);
            w.written + w.skipped <= target.len() - off
        }),
    decreases target.len() - off,
{
    if off < target.len() && page > 0 {
        let end = next_page(off, page, target.len() as int);
        if page_clean(target, orig, was_erased, off, end) {
            lemma_page_count(base, target, orig, was_erased, page, end);
        } else {
            let stop = run_end(target, orig, was_erased, page, off, end);
            lemma_run_end(target, orig, was_erased, page, off, end);
            lemma_page_count(base, target, orig, was_erased, page, stop);
            lemma_pages_in(stop - off, page);
        }
    }
}

proof fn lemma_pages_in(n: int, page: int)
    requires
        n > 0,
        page > 0,
    ensures
        0 < pages_in(n, page) <= n,
        (n + page - 1) / page >= 0,
{
    let d = (n + page - 1) / page;
    vstd::arithmetic::div_mod::lemma_fundamental_div_mod(n + page - 1, page);
    assert(d >= 1) by (nonlinear_arith)
        requires
            page * d > 0,
            page > 0,
    ;
    assert(d <= n) by (nonlinear_arith)
        requires
            page * d <= n + page - 1,
            page > 0,
            n > 0,
    ;
}

/// Counts of what a smart write does.
#[derive(Debug, Clone, Copy, PartialEq, Eq, Structural)]
pub struct SmartStats {
    pub sectors_skipped: u64,
    pub erase_ops: u64,
    pub bytes_erased: u64,
    pub pages_skipped: u64,
    pub pages_written: u64,
}

impl Default for SmartStats {
    fn default() -> (s: Self)
        ensures
            s == (SmartStats {
                sectors_skipped: 0,
                erase_ops: 0,
                bytes_erased: 0,
                pages_skipped: 0,
                pages_written: 0,
            }),
    {
        SmartStats {
            sectors_skipped: 0,
            erase_ops: 0,
            bytes_erased: 0,
            pages_skipped: 0,
            pages_written: 0,
        }
    }
}

/// Appends the blocks of one sector and counts its pages.
pub fn write_sector_pages(
    page_size: u32,
    sector_base: u32,
    target: &[u8],
    orig: &[u8],
    was_erased: bool,
    blocks: &mut Vec<WriteBlock>,
    stats: &mut SmartStats,
)
    requires
        page_size > 0,
        target@.len() == orig@.len(),
        sector_base + target@.len() <= u32::MAX,
        old(stats).pages_written + old(stats).pages_skipped + target@.len() <= u64::MAX,
    ensures
        ({
            let w = sector_pages(
                sector_base as int,
                target@,
                orig@,
                was_erased,
                page_size as int,
                0,
            );
            &&& blocks_of(final(blocks)@) == blocks_of(old(blocks)@) + w.blocks
            &&& *final(stats) == (SmartStats {
                pages_written: (old(stats).pages_written + w.written) as u64,
                pages_skipped: (old(stats).pages_skipped + w.skipped) as u64,
                ..*old(stats)
            })
            &&& old(stats).pages_written + w.written + old(stats).pages_skipped + w.skipped
                <= u64::MAX
        }),
{
    let ghost goal = sector_pages(
        sector_base as int,
        target@,
        orig@,
        was_erased,
        page_size as int,
        0,
    );
    proof {
        lemma_page_count(sector_base as int, target@, orig@, was_erased, page_size as int, 0);
    }
    let len: usize = target.len();
    let mut off: usize = 0;
    let ghost mut done = PageWrites::nothing();
    assert(done.plus(goal) =~= goal);
    assert(blocks_of(blocks@) =~= blocks_of(old(blocks)@) + done.blocks);
    while off < len
        invariant
            len == target@.len(),
            page_size > 0,
            off <= len,
            target@.len() == orig@.len(),
            sector_base + target@.len() <= u32::MAX,
            old(stats).pages_written + old(stats).pages_skipped + target@.len() <= u64::MAX,
            goal == sector_pages(
                sector_base as int,
                target@,
                orig@,
                was_erased,
                page_size as int,
                0,
            ),
            goal.written + goal.skipped <= target@.len(),
            goal == done.plus(
                sector_pages(
                    sector_base as int,
                    target@,
                    orig@,
                    was_erased,
                    page_size as int,
                    off as int,
                ),
            ),
            blocks_of(blocks@) == blocks_of(old(blocks)@) + done.blocks,
            *stats == (SmartStats {
                pages_written: (old(stats).pages_written + done.written) as u64,
                pages_skipped: (old(stats).pages_skipped + done.skipped) as u64,
                ..*old(stats)
            }),
        decreases len - off,
    {
        let ghost rest = sector_pages(
            sector_base as int,
            target@,
            orig@,
            was_erased,
            page_size as int,
            off as int,
        );
        let end: usize = if len - off > page_size as usize {
            off + page_size as usize
        } else {
            len
        };
        if is_page_clean(target, orig, was_erased, off, end) {
            stats.pages_skipped = stats.pages_skipped + 1;
            proof {
                let one = PageWrites { blocks: Seq::empty(), written: 0, skipped: 1 };
                let more = sector_pages(
                    sector_base as int,
                    target@,
                    orig@,
                    was_erased,
                    page_size as int,
                    end as int,
                );
                assert(done.plus(one.plus(more)) =~= done.plus(one).plus(more));
                done = done.plus(one);
                assert(done.blocks =~= done.blocks + Seq::<BlockModel>::empty());
            }
            off = end;
            continue ;
        }
        let mut stop: usize = end;
        let mut go = true;
        while go && stop < len && stop - off < WRITE_BLOCK as usize
            invariant
                len == target@.len(),
                page_size > 0,
                off < stop <= len,
                target@.len() == orig@.len(),
                go ==> run_end(
                    target@,
                    orig@,
                    was_erased,
                    page_size as int,
                    off as int,
                    end as int,
                ) == run_end(
                    target@,
                    orig@,
                    was_erased,
                    page_size as int,
                    off as int,
                    stop as int,
                ),
                !go ==> run_end(
                    target@,
                    orig@,
                    was_erased,
                    page_size as int,
                    off as int,
                    end as int,
                ) == stop,
            decreases
                    len - stop,
                    (if go {
                        1int
                    } else {
                        0
                    }),
        {
            let next: usize = if len - stop > page_size as usize {
                stop + page_size as usize
            } else {
                len
            };
            if is_page_clean(target, orig, was_erased, stop, next) {
                go = false;
            } else {
                stop = next;
            }
        }
        let chunk = vstd::slice::slice_subrange(target, off, stop);
        let mut bytes: Vec<u8> = Vec::new();
        bytes.extend_from_slice(chunk);
        assert(bytes@ =~= target@.subrange(off as int, stop as int));
        push_block(blocks, WriteBlock { addr: sector_base + off as u32, data: bytes });
        let count: u64 = ((stop - off) as u64 + page_size as u64 - 1) / page_size as u64;
        proof {
            lemma_pages_in(stop - off, page_size as int);
            let one = PageWrites {
                blocks: seq![
                    BlockModel {
                        addr: sector_base + off,
                        data: target@.subrange(off as int, stop as int),
                    },
                ],
                written: pages_in(stop - off, page_size as int),
                skipped: 0,
            };
            let more = sector_pages(
                sector_base as int,
                target@,
                orig@,
                was_erased,
                page_size as int,
                stop as int,
            );
            assert(rest == one.plus(more));
            assert(done.plus(one.plus(more)) =~= done.plus(one).plus(more));
            assert(done.blocks.push(one.blocks[0]) =~= done.blocks + one.blocks);
            done = done.plus(one);
            assert(blocks_of(blocks@) =~= blocks_of(old(blocks)@) + done.blocks);
        }
        stats.pages_written = stats.pages_written + count;
        off = stop;
    }
    proof {
        assert(done.plus(PageWrites::nothing()) =~= done);
    }
}

/// The largest erase size in a list; 0 for an empty list.
pub open spec fn largest_size(types: Seq<EraseType>) -> u32
    decreases types.len(),
{
    if types.len() == 0 {
        0
    } else {
        let rest = largest_size(types.drop_last());
        if rest < types.last().size_bytes {
            types.last().size_bytes
        } else {
            rest
        }
    }
}

impl ChipModel {
    /// The largest block of whole sectors that the chip can erase; the sector itself where none
    /// is advertised.
    pub open spec fn largest_unit(self) -> int {
        let blocks = whole_types(self.erase_types, self.erase_size as int);
        if blocks.len() == 0 {
            self.erase_size as int
        } else {
            largest_size(blocks) as int
        }
    }

    /// First sector that a write of `len` bytes at `offset` touches.
    pub open spec fn first_sector(self, offset: int) -> int {
        floor_to(offset, self.erase_size as int)
    }

    /// Last sector that it touches.
    pub open spec fn last_sector(self, offset: int, len: int) -> int {
        floor_to(offset + len - 1, self.erase_size as int)
    }

    /// Where reading starts: the touched sectors widened to whole largest blocks.
    pub open spec fn read_start(self, offset: int) -> int {
        floor_to(self.first_sector(offset), self.largest_unit())
    }

    /// Where reading ends.
    pub open spec fn read_end(self, offset: int, len: int) -> int {
        let top = floor_to(
            self.last_sector(offset, len) + self.erase_size - 1,
            self.largest_unit(),
        ) + self.largest_unit();
        if top < self.size_bytes {
            top
        } else {
            self.size_bytes as int
        }
    }

    /// Whether a smart write is possible: there is nothing to write, or the geometry has no
    /// zero sizes, and the touched sectors lie inside the chip and the address space.
    pub open spec fn smart_fits(self, offset: int, len: int) -> bool {
        len == 0 || {
            &&& self.page_size > 0
            &&& self.erase_size > 0
            &&& offset + len <= u32::MAX
            &&& self.last_sector(offset, len) + self.erase_size <= self.size_bytes
            &&& floor_to(
                self.last_sector(offset, len) + self.erase_size - 1,
                self.largest_unit(),
            ) + self.largest_unit() <= u32::MAX
        }
    }
}

/// The largest size is listed, and no other is larger.
proof fn lemma_largest_size(types: Seq<EraseType>)
    ensures
        forall|k: int|
            0 <= k < types.len() ==> (#[trigger] types[k]).size_bytes <= largest_size(types),
        types.len() > 0 ==> exists|k: int|
            0 <= k < types.len() && (#[trigger] types[k]).size_bytes == largest_size(types),
    decreases types.len(),
{
    if types.len() > 0 {
        let rest = types.drop_last();
        lemma_largest_size(rest);
        assert(types[types.len() - 1] == types.last());
        assert forall|k: int| 0 <= k < types.len() implies (#[trigger] types[k]).size_bytes
            <= largest_size(types) by {
            if k < rest.len() {
                assert(rest[k] == types[k]);
            }
        }
        if largest_size(types) == largest_size(rest) && rest.len() > 0 {
            let k = choose|k: int|
                0 <= k < rest.len() && (#[trigger] rest[k]).size_bytes == largest_size(rest);
            assert(types[k].size_bytes == largest_size(types));
        }
    }
}

/// The largest block is made of whole sectors.
proof fn lemma_largest_unit(chip: ChipModel)
    requires
        chip.erase_size > 0,
    ensures
        chip.largest_unit() > 0,
        chip.largest_unit() % (chip.erase_size as int) == 0,
{
    let unit = chip.erase_size as int;
    let blocks = whole_types(chip.erase_types, unit);
    lemma_whole_types(chip.erase_types, unit);
    lemma_largest_size(blocks);
    vstd::arithmetic::div_mod::lemma_mod_self_0(unit);
}

/// The largest block of whole sectors that the chip can erase.
pub fn largest_unit(chip: &ResolvedChip) -> (r: u32)
    ensures
        r == chip@.largest_unit(),
{
    let blocks = whole_erase_types(chip.erase_types.as_slice(), chip.erase_size);
    if blocks.len() == 0 {
        return chip.erase_size;
    }
    let mut best: u32 = 0;
    let mut i: usize = 0;
    while i < blocks.len()
        invariant
            i <= blocks.len(),
            best == largest_size(blocks@.take(i as int)),
        decreases blocks.len() - i,
    {
        assert(blocks@.take(i + 1).drop_last() =~= blocks@.take(i as int));
        let size: u32 = blocks[i].size_bytes;
        if best < size {
            best = size;
        }
        i += 1;
    }
    assert(blocks@.take(i as int) =~= blocks@);
    best
}

fn round_down(x: u64, unit: u64) -> (r: u64)
    requires
        unit > 0,
    ensures
        r == floor_to(x as int, unit as int),
        r <= x < r + unit,
{
    proof {
        lemma_floor(x as int, unit as int);
    }
    (x / unit) * unit
}

/// Whether a smart write of `len` bytes at `offset` is possible.
pub fn supports_smart_write(chip: &ResolvedChip, offset: u32, len: u32) -> (r: bool)
    ensures
        r == chip@.smart_fits(offset as int, len as int),
{
    if len == 0 {
        return true;
    }
    if chip.page_size == 0 || chip.erase_size == 0 || offset as u64 + len as u64
        > u32::MAX as u64 {
        return false;
    }
    let largest: u32 = largest_unit(chip);
    proof {
        lemma_largest_unit(chip@);
    }
    let end: u64 = offset as u64 + len as u64;
    let last: u64 = round_down(end - 1, chip.erase_size as u64);
    let top: u64 = round_down(last + chip.erase_size as u64 - 1, largest as u64);
    last + chip.erase_size as u64 <= chip.size_bytes as u64 && top + largest as u64
        <= u32::MAX as u64
}

/// The sectors a smart write touches and the range it reads.
#[derive(Debug, Clone, Copy, PartialEq, Eq, Structural)]
pub struct SmartRange {
    pub first_sector: u32,
    pub last_sector: u32,
    pub read_start: u32,
    pub read_end: u32,
}

/// Computes the range that a smart write of `len` bytes at `offset` reads; a write of nothing
/// reads nothing.
pub fn smart_range(chip: &ResolvedChip, offset: u32, len: u32) -> (r: Result<
    Option<SmartRange>,
    Error,
>)
    requires
        offset + len <= u32::MAX ==> chip@.smart_fits(offset as int, len as int),
    ensures
        len == 0 ==> r == Ok::<_, Error>(None::<SmartRange>),
        offset + len > u32::MAX ==> r == Err::<Option<SmartRange>, _>(
            Error::WriteRangeOverflow { offset, len },
        ),
        len > 0 && offset + len <= u32::MAX ==> (r matches Ok(Some(g)) && {
            &&& g.first_sector == chip@.first_sector(offset as int)
            &&& g.last_sector == chip@.last_sector(offset as int, len as int)
            &&& g.read_start == chip@.read_start(offset as int)
            &&& g.read_end == chip@.read_end(offset as int, len as int)
            &&& g.read_start <= g.first_sector <= g.last_sector
            &&& g.last_sector + chip.erase_size <= g.read_end
            &&& g.first_sector <= offset
            &&& offset + len <= g.last_sector + chip.erase_size
            &&& (g.first_sector as int) % (chip.erase_size as int) == 0
        }),
{
    if len == 0 {
        return Ok(None);
    }
    let end: u32 = match offset.checked_add(len) {
        Some(e) => e,
        None => return Err(Error::WriteRangeOverflow { offset, len }),
    };
    let unit: u64 = chip.erase_size as u64;
    let largest: u64 = largest_unit(chip) as u64;
    proof {
        lemma_largest_unit(chip@);
    }
    let first: u64 = round_down(offset as u64, unit);
    let last: u64 = round_down(end as u64 - 1, unit);
    let read_start: u64 = round_down(first, largest);
    let top: u64 = round_down(last + unit - 1, largest) + largest;
    let read_end: u64 = if top < chip.size_bytes as u64 {
        top
    } else {
        chip.size_bytes as u64
    };
    proof {
        lemma_floor(offset as int, unit as int);
        crate::spi::erase::lemma_floor_gap(offset as int, end - 1, unit as int);
    }
    Ok(
        Some(
            SmartRange {
                first_sector: first as u32,
                last_sector: last as u32,
                read_start: read_start as u32,
                read_end: read_end as u32,
            },
        ),
    )
}

/// A smart write: the chip, what to write where, and what the read range holds.
pub struct SmartJob {
    pub chip: ChipModel,
    pub offset: int,
    pub data: Seq<u8>,
    pub original: Seq<u8>,
}

/// What a smart write does.
#[verifier::ext_equal]
pub struct PlanModel {
    pub ops: Seq<EraseOp>,
    pub skipped_sectors: nat,
    pub pages: PageWrites,
}

impl PlanModel {
    /// The plan that leaves the chip alone.
    pub open spec fn nothing() -> PlanModel {
        PlanModel { ops: Seq::empty(), skipped_sectors: 0, pages: PageWrites::nothing() }
    }
}

impl SmartJob {
    pub open spec fn unit(self) -> int {
        self.chip.erase_size as int
    }

    pub open spec fn first(self) -> int {
        self.chip.first_sector(self.offset)
    }

    pub open spec fn last(self) -> int {
        self.chip.last_sector(self.offset, self.data.len() as int)
    }

    pub open spec fn start(self) -> int {
        self.chip.read_start(self.offset)
    }

    pub open spec fn end(self) -> int {
        self.chip.read_end(self.offset, self.data.len() as int)
    }

    /// There is something to write, it is possible, and `original` has the length of what the
    /// read range holds.
    pub open spec fn busy(self) -> bool {
        &&& self.offset >= 0
        &&& self.data.len() > 0
        &&& self.chip.smart_fits(self.offset, self.data.len() as int)
        &&& self.original.len() == self.end() - self.start()
    }

    /// The job can be done: there is nothing to write, or what there is can be written.
    pub open spec fn possible(self) -> bool {
        self.data.len() == 0 || self.busy()
    }

    /// The data would run past the 32-bit address space.
    pub open spec fn overflows(self) -> bool {
        &&& self.offset >= 0
        &&& 0 < self.data.len() <= u32::MAX
        &&& self.offset + self.data.len() > u32::MAX
    }

    /// The job can be done, or is refused for running past the address space.
    pub open spec fn wf(self) -> bool {
        self.possible() || self.overflows()
    }

    /// Whether `original` is what the read range of an array of cells holds.
    pub open spec fn reads(self, cells: Seq<u8>) -> bool {
        self.data.len() > 0 ==> self.end() <= cells.len() && self.original == cells.subrange(
            self.start(),
            self.end(),
        )
    }

    /// The read range with the new data laid over it.
    pub open spec fn merged(self) -> Seq<u8> {
        overlaid(self.original, self.offset - self.start(), self.data)
    }

    /// The old contents of the sector at `addr`.
    pub open spec fn old_sector(self, addr: int) -> Seq<u8> {
        self.original.subrange(addr - self.start(), addr - self.start() + self.unit())
    }

    /// The wanted contents of the sector at `addr`.
    pub open spec fn new_sector(self, addr: int) -> Seq<u8> {
        self.merged().subrange(addr - self.start(), addr - self.start() + self.unit())
    }

    pub open spec fn class_of(self, addr: int) -> SectorClass {
        sector_class(self.old_sector(addr), self.new_sector(addr))
    }

    /// The touched sectors of one class, from `addr` on.
    pub open spec fn sectors_from(self, class: SectorClass, addr: int) -> Seq<u32>
        decreases
                (if addr <= self.last() {
                    self.last() - addr + 1
                } else {
                    0
                }),
    {
        if addr > self.last() || self.unit() <= 0 {
            Seq::empty()
        } else {
            let rest = self.sectors_from(class, addr + self.unit());
            if self.class_of(addr) == class {
                seq![addr as u32] + rest
            } else {
                rest
            }
        }
    }

    /// The touched sectors of one class.
    pub open spec fn sectors(self, class: SectorClass) -> Seq<u32> {
        self.sectors_from(class, self.first())
    }

    /// Whether erases mix block sizes: 3-byte addresses, the sector size among at least two
    /// advertised sizes.
    pub open spec fn mixed(self) -> bool {
        self.chip.addr_bytes == 3 && type_of_size(self.chip.erase_types, self.unit()) is Some
            && self.chip.erase_types.len() > 1
    }

    /// The opcode for erasing one sector.
    pub open spec fn sector_opcode(self) -> u8 {
        match type_of_size(self.chip.erase_types, self.unit()) {
            Some(t) => t.opcode,
            None => 0x20,
        }
    }

    /// The erase operations.
    pub open spec fn ops(self) -> Result<Seq<EraseOp>, Error> {
        let dirty = self.sectors(SectorClass::Erase);
        if self.mixed() {
            erase_plan(dirty, self.chip.erase_types, self.unit())
        } else {
            Ok(
                Seq::new(
                    dirty.len(),
                    |k: int|
                        EraseOp {
                            addr: dirty[k],
                            size: self.chip.erase_size,
                            opcode: self.sector_opcode(),
                        },
                ),
            )
        }
    }

    /// Whether the sector at `addr` is one that an operation erases.
    pub open spec fn swept(self, ops: Seq<EraseOp>, addr: int) -> bool {
        exists|k: int| 0 <= k < ops.len() && sweeps(#[trigger] ops[k], addr, self.unit())
    }

    /// What the sector at `addr` shall hold in the end.
    pub open spec fn target(self, addr: int) -> Seq<u8> {
        if self.first() <= addr <= self.last() {
            self.new_sector(addr)
        } else {
            self.old_sector(addr)
        }
    }

    /// The page writes of the sector at `addr`.
    pub open spec fn sector_writes(self, ops: Seq<EraseOp>, addr: int) -> PageWrites {
        if self.swept(ops, addr) {
            sector_pages(
                addr,
                self.target(addr),
                self.old_sector(addr),
                true,
                self.chip.page_size as int,
                0,
            )
        } else if self.sectors(SectorClass::WriteOnly).contains(addr as u32) {
            sector_pages(
                addr,
                self.target(addr),
                self.old_sector(addr),
                false,
                self.chip.page_size as int,
                0,
            )
        } else {
            PageWrites::nothing()
        }
    }

    /// Sectors in the read range.
    pub open spec fn total_sectors(self) -> int {
        (self.end() - self.start()) / self.unit()
    }

    /// The page writes of the sectors of the read range from the `i`-th on.
    pub open spec fn writes_from(self, ops: Seq<EraseOp>, i: int) -> PageWrites
        decreases self.total_sectors() - i,
    {
        if i < 0 || i >= self.total_sectors() {
            PageWrites::nothing()
        } else {
            self.sector_writes(ops, self.start() + i * self.unit()).plus(
                self.writes_from(ops, i + 1),
            )
        }
    }

    /// Everything the smart write does.
    pub open spec fn plan(self) -> Result<PlanModel, Error> {
        if self.data.len() == 0 {
            Ok(PlanModel::nothing())
        } else if self.offset + self.data.len() > u32::MAX {
            Err(
                Error::WriteRangeOverflow {
                    offset: self.offset as u32,
                    len: self.data.len() as u32,
                },
            )
        } else {
            match self.ops() {
                Err(e) => Err(e),
                Ok(ops) => Ok(
                    PlanModel {
                        ops,
                        skipped_sectors: self.sectors(SectorClass::Skip).len(),
                        pages: self.writes_from(ops, 0),
                    },
                ),
            }
        }
    }
}

/// Whether `addr` is one of the sectors of `unit` bytes that an operation erases.
pub open spec fn sweeps(op: EraseOp, addr: int, unit: int) -> bool {
    op.addr <= addr < op.addr + op.size && (addr - op.addr) % unit == 0
}

/// Bytes that a list of operations erases.
pub open spec fn total_size(ops: Seq<EraseOp>) -> int
    decreases ops.len(),
{
    if ops.len() == 0 {
        0
    } else {
        total_size(ops.drop_last()) + ops.last().size
    }
}

/// What a smart write does: erase first, then program.
#[derive(Debug)]
pub struct SmartPlan {
    pub erase_ops: Vec<EraseOp>,
    pub blocks: Vec<WriteBlock>,
    pub stats: SmartStats,
}

impl SmartPlan {
    /// Whether this is the plan that a model describes, with its counts.
    pub open spec fn is(self, m: PlanModel) -> bool {
        &&& self.erase_ops@ == m.ops
        &&& blocks_of(self.blocks@) == m.pages.blocks
        &&& self.stats.sectors_skipped == m.skipped_sectors
        &&& self.stats.erase_ops == m.ops.len()
        &&& self.stats.bytes_erased == if total_size(m.ops) <= u64::MAX {
            total_size(m.ops)
        } else {
            u64::MAX as int
        }
        &&& self.stats.pages_written == m.pages.written
        &&& self.stats.pages_skipped == m.pages.skipped
    }
}

fn swept_by(ops: &[EraseOp], addr: u32, unit: u32) -> (r: bool)
    requires
        unit > 0,
    ensures
        r == exists|k: int| 0 <= k < ops@.len() && sweeps(#[trigger] ops@[k], addr as int, unit as int),
{
    let mut i: usize = 0;
    while i < ops.len()
        invariant
            unit > 0,
            i <= ops.len(),
            forall|k: int| 0 <= k < i ==> !sweeps(#[trigger] ops@[k], addr as int, unit as int),
        decreases ops.len() - i,
    {
        let op = ops[i];
        if op.addr <= addr && addr - op.addr < op.size && (addr - op.addr) % unit == 0 {
            assert(sweeps(ops@[i as int], addr as int, unit as int));
            return true;
        }
        i += 1;
    }
    false
}

fn lists(addrs: &[u32], addr: u32) -> (r: bool)
    ensures
        r == addrs@.contains(addr),
{
    let mut i: usize = 0;
    while i < addrs.len()
        invariant
            i <= addrs.len(),
            forall|k: int| 0 <= k < i ==> addrs@[k] != addr,
        decreases addrs.len() - i,
    {
        if addrs[i] == addr {
            assert(addrs@[i as int] == addr);
            return true;
        }
        i += 1;
    }
    false
}

fn overlay(original: &[u8], at: usize, data: &[u8]) -> (r: Vec<u8>)
    requires
        at + data@.len() <= original@.len(),
    ensures
        r@ == overlaid(original@, at as int, data@),
{
    let mut out: Vec<u8> = Vec::new();
    let mut i: usize = 0;
    while i < original.len()
        invariant
            i <= original.len(),
            at + data@.len() <= original@.len(),
            out@ =~= overlaid(original@, at as int, data@).take(i as int),
        decreases original.len() - i,
    {
        if at <= i && i - at < data.len() {
            out.push(data[i - at]);
        } else {
            out.push(original[i]);
        }
        i += 1;
    }
    assert(out@ =~= overlaid(original@, at as int, data@));
    out
}

proof fn lemma_dirty_fit(job: SmartJob, class: SectorClass, addr: int)
    requires
        job.busy(),
        0 <= addr,
    ensures
        forall|k: int|
            0 <= k < job.sectors_from(class, addr).len() ==> addr <= #[trigger] job.sectors_from(
                class,
                addr,
            )[k] <= job.last(),
        job.sectors_from(class, addr).len() <= if addr <= job.last() {
            job.last() - addr + 1
        } else {
            0
        },
    decreases
            (if addr <= job.last() {
                job.last() - addr + 1
            } else {
                0
            }),
{
    lemma_floor(job.offset + job.data.len() - 1, job.unit());
    if addr <= job.last() {
        lemma_dirty_fit(job, class, addr + job.unit());
        let rest = job.sectors_from(class, addr + job.unit());
        let all = job.sectors_from(class, addr);
        assert forall|k: int| 0 <= k < all.len() implies addr <= #[trigger] all[k]
            <= job.last() by {
            if job.class_of(addr) == class {
                if k > 0 {
                    assert(all[k] == rest[k - 1]);
                }
            } else {
                assert(all[k] == rest[k]);
            }
        }
    }
}

/// The erase operations for the dirty sectors.
fn plan_sector_erases(chip: &ResolvedChip, dirty: &[u32]) -> (r: Result<Vec<EraseOp>, Error>)
    requires
        forall|k: int|
            0 <= k < dirty@.len() ==> #[trigger] dirty@[k] + chip.erase_size <= u32::MAX,
    ensures
        forall|job: SmartJob|
            job.chip == chip@ && #[trigger] job.sectors(SectorClass::Erase) == dirty@ ==> yields(
                r,
                job.ops(),
            ),
{
    let found = find_erase_type(chip.erase_types.as_slice(), chip.erase_size);
    if chip.addr_bytes == 3 && found.is_some() && chip.erase_types.len() > 1 {
        return plan_erase_ops(dirty, chip.erase_types.as_slice(), chip.erase_size);
    }
    let opcode: u8 = match found {
        Some(t) => t.opcode,
        None => 0x20,
    };
    let mut ops: Vec<EraseOp> = Vec::new();
    let mut i: usize = 0;
    while i < dirty.len()
        invariant
            i <= dirty.len(),
            ops@.len() == i,
            forall|k: int|
                0 <= k < i ==> #[trigger] ops@[k] == (EraseOp {
                    addr: dirty@[k],
                    size: chip.erase_size,
                    opcode,
                }),
        decreases dirty.len() - i,
    {
        ops.push(EraseOp { addr: dirty[i], size: chip.erase_size, opcode });
        i += 1;
    }
    proof {
        assert forall|job: SmartJob|
            job.chip == chip@ && #[trigger] job.sectors(SectorClass::Erase) == dirty@ implies yields(
            Ok(ops),
            job.ops(),
        ) by {
            assert(ops@ =~= job.ops()->Ok_0);
        }
    }
    Ok(ops)
}

fn total_bytes(ops: &[EraseOp]) -> (r: u64)
    ensures
        r == if total_size(ops@) <= u64::MAX {
            total_size(ops@)
        } else {
            u64::MAX as int
        },
{
    let mut sum: u64 = 0;
    let mut i: usize = 0;
    while i < ops.len()
        invariant
            i <= ops.len(),
            sum == if total_size(ops@.take(i as int)) <= u64::MAX {
                total_size(ops@.take(i as int))
            } else {
                u64::MAX as int
            },
        decreases ops.len() - i,
    {
        assert(ops@.take(i + 1).drop_last() =~= ops@.take(i as int));
        sum = sum.saturating_add(ops[i].size as u64);
        i += 1;
    }
    assert(ops@.take(i as int) =~= ops@);
    sum
}

/// Plans a smart write of `data` at `offset` onto a chip whose read range holds `original`.
/// A write of nothing does nothing.
pub fn write_smart(
    chip: &ResolvedChip,
    offset: u32,
    data: &[u8],
    original: &[u8],
) -> (r: Result<SmartPlan, Error>)
    requires
        (SmartJob {
            chip: chip@,
            offset: offset as int,
            data: data@,
            original: original@,
        }).wf(),
    ensures
        match (SmartJob {
            chip: chip@,
            offset: offset as int,
            data: data@,
            original: original@,
        }).plan() {
            Ok(m) => r matches Ok(p) && p.is(m),
            Err(e) => r == Err::<SmartPlan, _>(e),
        },
        data@.len() == 0 ==> (r matches Ok(p) && p.erase_ops@.len() == 0 && p.blocks@.len() == 0),
{
    let ghost job = SmartJob {
        chip: chip@,
        offset: offset as int,
        data: data@,
        original: original@,
    };
    let g = match smart_range(chip, offset, data.len() as u32) {
        Ok(Some(g)) => g,
        Ok(None) => {
            let erase_ops: Vec<EraseOp> = Vec::new();
            let blocks: Vec<WriteBlock> = Vec::new();
            assert(blocks_of(blocks@) =~= Seq::empty());
            return Ok(SmartPlan { erase_ops, blocks, stats: SmartStats::default() });
        },
        Err(e) => return Err(e),
    };
    let unit: u32 = chip.erase_size;
    let merged = overlay(original, (offset - g.read_start) as usize, data);
    let mut dirty: Vec<u32> = Vec::new();
    let mut write_only: Vec<u32> = Vec::new();
    let mut skip_count: u64 = 0;
    let mut addr: u32 = g.first_sector;
    proof {
        lemma_floor(offset + data@.len() - 1, unit as int);
        lemma_dirty_fit(job, SectorClass::Skip, job.first());
        lemma_dirty_fit(job, SectorClass::Erase, job.first());
        assert(dirty@ + job.sectors(SectorClass::Erase) =~= job.sectors(SectorClass::Erase));
        assert(write_only@ + job.sectors(SectorClass::WriteOnly) =~= job.sectors(
            SectorClass::WriteOnly,
        ));
    }
    while addr <= g.last_sector
        invariant
            job.busy(),
            job.chip == chip@,
            job.original == original@,
            merged@ == job.merged(),
            unit == chip.erase_size,
            g.read_start == job.start(),
            g.read_end == job.end(),
            g.first_sector == job.first(),
            g.last_sector == job.last(),
            g.read_start <= g.first_sector <= addr,
            g.last_sector + unit <= g.read_end,
            addr <= g.last_sector + unit,
            dirty@ + job.sectors_from(SectorClass::Erase, addr as int) == job.sectors(
                SectorClass::Erase,
            ),
            write_only@ + job.sectors_from(SectorClass::WriteOnly, addr as int) == job.sectors(
                SectorClass::WriteOnly,
            ),
            skip_count + job.sectors_from(SectorClass::Skip, addr as int).len() == job.sectors(
                SectorClass::Skip,
            ).len(),
            job.sectors(SectorClass::Skip).len() <= u32::MAX,
        decreases g.last_sector + unit - addr,
    {
        let off: usize = (addr - g.read_start) as usize;
        let old_bytes = vstd::slice::slice_subrange(original, off, off + unit as usize);
        let new = vstd::slice::slice_subrange(merged.as_slice(), off, off + unit as usize);
        assert(old_bytes@ =~= job.old_sector(addr as int));
        assert(new@ =~= job.new_sector(addr as int));
        let ghost (d0, w0) = (dirty@, write_only@);
        let ghost next_e = job.sectors_from(SectorClass::Erase, addr + unit);
        let ghost next_w = job.sectors_from(SectorClass::WriteOnly, addr + unit);
        match classify_sector(old_bytes, new) {
            SectorClass::Skip => {
                skip_count = skip_count + 1;
            },
            SectorClass::Erase => {
                dirty.push(addr);
                assert(d0.push(addr) + next_e =~= d0 + (seq![addr] + next_e));
            },
            SectorClass::WriteOnly => {
                write_only.push(addr);
                assert(w0.push(addr) + next_w =~= w0 + (seq![addr] + next_w));
            },
        }
        addr = addr + unit;
    }
    proof {
        assert(dirty@ =~= job.sectors(SectorClass::Erase));
        assert(write_only@ =~= job.sectors(SectorClass::WriteOnly));
    }
    let ops = match plan_sector_erases(chip, dirty.as_slice()) {
        Ok(ops) => ops,
        Err(e) => return Err(e),
    };
    let mut stats = SmartStats::default();
    stats.sectors_skipped = skip_count;
    stats.erase_ops = ops.len() as u64;
    stats.bytes_erased = total_bytes(ops.as_slice());
    let ghost counted = stats;
    let mut blocks: Vec<WriteBlock> = Vec::new();
    let total: u32 = (g.read_end - g.read_start) / unit;
    let ghost goal = job.writes_from(ops@, 0);
    let ghost mut done = PageWrites::nothing();
    let mut i: u32 = 0;
    proof {
        assert(done.plus(goal) =~= goal);
        assert(blocks_of(blocks@) =~= done.blocks);
        lemma_floor(job.end() - job.start(), unit as int);
        assert(0 * unit == 0);
    }
    while i < total
        invariant
            job.busy(),
            job.chip == chip@,
            job.original == original@,
            merged@ == job.merged(),
            unit == chip.erase_size,
            total == job.total_sectors(),
            total * unit <= g.read_end - g.read_start,
            g.read_start == job.start(),
            g.read_end == job.end(),
            g.first_sector == job.first(),
            g.last_sector == job.last(),
            i <= total,
            write_only@ == job.sectors(SectorClass::WriteOnly),
            goal == job.writes_from(ops@, 0),
            goal == done.plus(job.writes_from(ops@, i as int)),
            blocks_of(blocks@) == done.blocks,
            stats == (SmartStats {
                pages_written: done.written as u64,
                pages_skipped: done.skipped as u64,
                ..counted
            }),
            done.written + done.skipped <= i * unit,
        decreases total - i,
    {
        proof {
            assert(i * unit + unit <= total * unit && 0 <= i * unit) by (nonlinear_arith)
                requires
                    0 <= i < total,
                    unit > 0,
            ;
            assert((i + 1) * unit == i * unit + unit) by (nonlinear_arith);
        }
        let off: usize = (i * unit) as usize;
        let addr: u32 = g.read_start + i * unit;
        let orig_s = vstd::slice::slice_subrange(original, off, off + unit as usize);
        assert(orig_s@ =~= job.old_sector(addr as int));
        let target = if g.first_sector <= addr && addr <= g.last_sector {
            vstd::slice::slice_subrange(merged.as_slice(), off, off + unit as usize)
        } else {
            orig_s
        };
        assert(target@ =~= job.target(addr as int));
        let in_coverage = swept_by(ops.as_slice(), addr, unit);
        let is_write_only = lists(write_only.as_slice(), addr);
        let ghost more = job.writes_from(ops@, i + 1);
        let ghost here = job.sector_writes(ops@, addr as int);
        let ghost before = done.blocks;
        assert(in_coverage == job.swept(ops@, addr as int));
        proof {
            lemma_page_count(
                addr as int,
                target@,
                orig_s@,
                in_coverage,
                chip.page_size as int,
                0,
            );
        }
        if in_coverage || is_write_only {
            write_sector_pages(
                chip.page_size,
                addr,
                target,
                orig_s,
                in_coverage,
                &mut blocks,
                &mut stats,
            );
        }
        proof {
            assert(done.plus(here.plus(more)) =~= done.plus(here).plus(more));
            assert(before + Seq::<BlockModel>::empty() =~= before);
            done = done.plus(here);
        }
        i += 1;
    }
    proof {
        assert(done.plus(PageWrites::nothing()) =~= done);
    }
    Ok(SmartPlan { erase_ops: ops, blocks, stats })
}

/// Programming the pages of a sector gives it its target, where it was erased or needs
/// only bits cleared, and leaves every other byte as it was.
proof fn lemma_sector_pages(
    cells: Seq<u8>,
    base: int,
    target: Seq<u8>,
    orig: Seq<u8>,
    was_erased: bool,
    page: int,
    off: int,
)
    requires
        page > 0,
        0 <= base,
        base + target.len() <= cells.len(),
        orig.len() == target.len(),
        0 <= off <= target.len(),
        forall|j: int|
            base + off <= j < base + target.len() ==> #[trigger] cells[j] == (if was_erased {
                0xFFu8
            } else {
                orig[j - base]
            }) && (was_erased || target[j - base] & !orig[j - base] == 0),
    ensures
        ({
            let r = all_programmed(
                cells,
                sector_pages(base, target, orig, was_erased, page, off).blocks,
            );
            &&& r.len() == cells.len()
            &&& forall|j: int| base + off <= j < base + target.len() ==> #[trigger] r[j] == target[j
                - base]
            &&& forall|j: int|
                0 <= j < cells.len() && !(base + off <= j < base + target.len()) ==> #[trigger] r[j]
                    == cells[j]
        }),
    decreases target.len() - off,
{
    if off < target.len() {
        let end = next_page(off, page, target.len() as int);
        let all = sector_pages(base, target, orig, was_erased, page, off);
        if page_clean(target, orig, was_erased, off, end) {
            let rest = sector_pages(base, target, orig, was_erased, page, end);
            lemma_sector_pages(cells, base, target, orig, was_erased, page, end);
            assert(all.blocks =~= rest.blocks);
        } else {
            let stop = run_end(target, orig, was_erased, page, off, end);
            lemma_run_end(target, orig, was_erased, page, off, end);
            let rest = sector_pages(base, target, orig, was_erased, page, stop);
            let block = BlockModel { addr: base + off, data: target.subrange(off, stop) };
            let next = programmed(cells, block.addr, block.data);
            assert(all.blocks[0] == block);
            assert(all.blocks.drop_first() =~= rest.blocks);
            assert forall|j: int| base + off <= j < base + stop implies #[trigger] next[j]
                == target[j - base] by {
                assert(next[j] == cells[j] & block.data[j - block.addr]);
                if was_erased {
                    lemma_erased_cell(target[j - base]);
                } else {
                    lemma_clear_only_cell(orig[j - base], target[j - base]);
                }
            }
            lemma_sector_pages(next, base, target, orig, was_erased, page, stop);
        }
    }
}

/// The sectors listed from `addr` on are those of the class at whole steps from `addr`.
proof fn lemma_sectors_from(job: SmartJob, class: SectorClass, addr: int, x: int)
    requires
        job.busy(),
        0 <= addr,
        0 <= x <= u32::MAX,
    ensures
        job.sectors_from(class, addr).contains(x as u32) <==> addr <= x <= job.last() && (x - addr)
            % job.unit() == 0 && job.class_of(x) == class,
    decreases
            (if addr <= job.last() {
                job.last() - addr + 1
            } else {
                0
            }),
{
    let unit = job.unit();
    let all = job.sectors_from(class, addr);
    lemma_floor(job.offset + job.data.len() - 1, unit);
    if addr <= job.last() {
        let rest = job.sectors_from(class, addr + unit);
        lemma_sectors_from(job, class, addr + unit, x);
        if job.class_of(addr) == class {
            assert(all[0] == addr as u32);
            if all.contains(x as u32) {
                let k = choose|k: int| 0 <= k < all.len() && all[k] == x as u32;
                if k > 0 {
                    assert(rest[k - 1] == x as u32);
                    assert(rest.contains(x as u32));
                }
            }
            if rest.contains(x as u32) {
                let k = choose|k: int| 0 <= k < rest.len() && rest[k] == x as u32;
                assert(all[k + 1] == x as u32);
            }
        }
        if x > addr {
            vstd::arithmetic::div_mod::lemma_mod_add_multiples_vanish(x - addr - unit, unit);
            assert((x - (addr + unit)) % unit == (x - addr) % unit);
            if (x - addr) % unit == 0 && x < addr + unit {
                vstd::arithmetic::div_mod::lemma_small_mod((x - addr) as nat, unit as nat);
            }
        }
        if x == addr {
            assert(0int % unit == 0) by (nonlinear_arith)
                requires
                    unit > 0,
            ;
        }
    }
}

/// Where the touched sectors lie.
proof fn lemma_geometry(job: SmartJob)
    requires
        job.busy(),
    ensures
        job.unit() > 0,
        job.first() % job.unit() == 0,
        job.last() % job.unit() == 0,
        job.start() % job.unit() == 0,
        0 <= job.start() <= job.first() <= job.offset,
        job.first() <= job.last(),
        job.offset + job.data.len() <= job.last() + job.unit(),
        job.last() + job.unit() <= job.end(),
        job.end() <= job.chip.size_bytes,
{
    let unit = job.unit();
    let len = job.data.len() as int;
    lemma_floor(job.offset, unit);
    lemma_floor(job.offset + len - 1, unit);
    crate::spi::erase::lemma_floor_gap(job.offset, job.offset + len - 1, unit);
    lemma_largest_unit(job.chip);
    lemma_floor(job.first(), job.chip.largest_unit());
    lemma_floor(job.last() + unit - 1, job.chip.largest_unit());
    lemma_multiple_of_divisor(job.start(), job.chip.largest_unit(), unit);
}

/// The sectors of the read range.
proof fn lemma_read_sectors(job: SmartJob)
    requires
        job.busy(),
    ensures
        job.last() + job.unit() <= job.start() + job.total_sectors() * job.unit(),
        job.start() + job.total_sectors() * job.unit() <= job.end(),
        job.total_sectors() >= 0,
{
    let unit = job.unit();
    lemma_geometry(job);
    let span = job.last() + unit - job.start();
    let room = job.end() - job.start();
    lemma_same_step(job.last(), job.start(), unit);
    vstd::arithmetic::div_mod::lemma_mod_add_multiples_vanish(job.last() - job.start(), unit);
    vstd::arithmetic::div_mod::lemma_fundamental_div_mod(span, unit);
    vstd::arithmetic::div_mod::lemma_div_is_ordered(span, room, unit);
    lemma_floor(room, unit);
    let a = span / unit;
    let t = job.total_sectors();
    assert(unit * a <= t * unit && t >= 0) by (nonlinear_arith)
        requires
            0 <= a <= t,
            unit > 0,
    ;
    assert(a >= 0) by (nonlinear_arith)
        requires
            span == unit * a,
            span > 0,
            unit > 0,
    ;
}

/// The dirty sectors begin at sector boundaries.
proof fn lemma_dirty_aligned(job: SmartJob)
    requires
        job.busy(),
    ensures
        sector_aligned(job.sectors(SectorClass::Erase), job.unit()),
{
    let unit = job.unit();
    let dirty = job.sectors(SectorClass::Erase);
    lemma_geometry(job);
    lemma_dirty_fit(job, SectorClass::Erase, job.first());
    assert forall|k: int| 0 <= k < dirty.len() implies #[trigger] dirty[k] as int % unit == 0
        && dirty[k] + unit <= u32::MAX by {
        lemma_sectors_from(job, SectorClass::Erase, job.first(), dirty[k] as int);
        assert(dirty.contains(dirty[k]));
        vstd::arithmetic::div_mod::lemma_sub_mod_noop(dirty[k] as int, job.first(), unit);
        vstd::arithmetic::div_mod::lemma_mod_adds(dirty[k] - job.first(), job.first(), unit);
    }
}

/// The operations of a job erase exactly the dirty sectors.
proof fn lemma_job_ops(job: SmartJob)
    requires
        job.busy(),
    ensures
        job.ops() is Ok,
        forall|b: int| #[trigger]
            erased_by(job.ops()->Ok_0, b) <==> in_sectors(
                job.sectors(SectorClass::Erase),
                job.unit(),
                b,
            ),
        whole_units(job.ops()->Ok_0, job.unit()),
{
    let unit = job.unit();
    let dirty = job.sectors(SectorClass::Erase);
    let ops = job.ops()->Ok_0;
    lemma_geometry(job);
    lemma_dirty_aligned(job);
    if job.mixed() {
        law_plan_erases_exactly_the_dirty_sectors(dirty, job.chip.erase_types, unit);
    } else {
        vstd::arithmetic::div_mod::lemma_mod_self_0(unit);
        assert forall|b: int| #[trigger] erased_by(ops, b) <==> in_sectors(dirty, unit, b) by {
            if erased_by(ops, b) {
                let k = choose|k: int| 0 <= k < ops.len() && covers(#[trigger] ops[k], b);
                assert(dirty[k] <= b < dirty[k] + unit);
            }
            if in_sectors(dirty, unit, b) {
                let k = choose|k: int|
                    0 <= k < dirty.len() && #[trigger] dirty[k] <= b < dirty[k] + unit;
                assert(covers(ops[k], b));
            }
        }
    }
}

/// A sector is erased as a whole if it is dirty, and not at all otherwise.
proof fn lemma_sector_erased(job: SmartJob, addr: int)
    requires
        job.busy(),
        0 <= addr,
        addr + job.unit() <= u32::MAX,
        addr % job.unit() == 0,
    ensures
        ({
            let dirty = job.first() <= addr <= job.last() && job.class_of(addr)
                == SectorClass::Erase;
            forall|b: int|
                addr <= b < addr + job.unit() ==> (#[trigger] erased_by(job.ops()->Ok_0, b)
                    <==> dirty)
        }),
{
    let unit = job.unit();
    let dirty = job.sectors(SectorClass::Erase);
    let ops = job.ops()->Ok_0;
    lemma_geometry(job);
    lemma_job_ops(job);
    lemma_dirty_aligned(job);
    lemma_sectors_from(job, SectorClass::Erase, job.first(), addr);
    lemma_same_step(addr, job.first(), unit);
    let is_dirty = job.first() <= addr <= job.last() && job.class_of(addr) == SectorClass::Erase;
    assert(dirty.contains(addr as u32) <==> is_dirty);
    assert forall|b: int| addr <= b < addr + unit implies (#[trigger] erased_by(ops, b)
        <==> is_dirty) by {
        if in_sectors(dirty, unit, b) {
            let k = choose|k: int|
                0 <= k < dirty.len() && #[trigger] dirty[k] <= b < dirty[k] + unit;
            assert(dirty.contains(dirty[k]));
            if dirty[k] <= addr {
                lemma_same_step(addr, dirty[k] as int, unit);
            } else {
                lemma_same_step(dirty[k] as int, addr, unit);
            }
            assert(dirty[k] == addr as u32);
        }
        if is_dirty {
            let k = choose|k: int| 0 <= k < dirty.len() && dirty[k] == addr as u32;
            assert(dirty[k] <= b < dirty[k] + unit);
        }
    }
}

/// A sector is written as an erased one exactly if it is dirty.
proof fn lemma_swept(job: SmartJob, addr: int)
    requires
        job.busy(),
        0 <= addr,
        addr + job.unit() <= u32::MAX,
        addr % job.unit() == 0,
    ensures
        job.swept(job.ops()->Ok_0, addr) <==> job.first() <= addr <= job.last() && job.class_of(
            addr,
        ) == SectorClass::Erase,
{
    let unit = job.unit();
    let ops = job.ops()->Ok_0;
    lemma_geometry(job);
    lemma_job_ops(job);
    lemma_sector_erased(job, addr);
    assert(erased_by(ops, addr) <==> job.first() <= addr <= job.last() && job.class_of(addr)
        == SectorClass::Erase);
    if job.swept(ops, addr) {
        let k = choose|k: int| 0 <= k < ops.len() && sweeps(#[trigger] ops[k], addr, unit);
        assert(covers(ops[k], addr));
        assert(erased_by(ops, addr));
    }
    if erased_by(ops, addr) {
        let k = choose|k: int| 0 <= k < ops.len() && covers(#[trigger] ops[k], addr);
        lemma_same_step(addr, ops[k].addr as int, unit);
        assert(sweeps(ops[k], addr, unit));
    }
}

proof fn lemma_writes_from(job: SmartJob, cells: Seq<u8>, state: Seq<u8>, i: int)
    requires
        job.busy(),
        job.reads(cells),
        state.len() == cells.len(),
        0 <= i <= job.total_sectors(),
        forall|b: int|
            job.start() + i * job.unit() <= b < cells.len() ==> #[trigger] state[b] == all_erased(
                cells,
                job.ops()->Ok_0,
            )[b],
    ensures
        ({
            let r = all_programmed(state, job.writes_from(job.ops()->Ok_0, i).blocks);
            let top = job.start() + job.total_sectors() * job.unit();
            &&& r.len() == cells.len()
            &&& forall|b: int|
                job.start() + i * job.unit() <= b < top ==> #[trigger] r[b] == overlaid(
                    cells,
                    job.offset,
                    job.data,
                )[b]
            &&& forall|b: int|
                0 <= b < cells.len() && !(job.start() + i * job.unit() <= b < top)
                    ==> #[trigger] r[b] == state[b]
        }),
    decreases job.total_sectors() - i,
{
    let unit = job.unit();
    let ops = job.ops()->Ok_0;
    lemma_geometry(job);
    lemma_read_sectors(job);
    lemma_job_ops(job);
    lemma_all_erased(cells, ops);
    if i < job.total_sectors() {
        let addr = job.start() + i * unit;
        let total = job.total_sectors();
        assert((i + 1) * unit == i * unit + unit) by (nonlinear_arith);
        assert(i * unit >= 0 && (i + 1) * unit <= total * unit) by (nonlinear_arith)
            requires
                0 <= i < total,
                unit > 0,
        ;
        vstd::arithmetic::div_mod::lemma_mod_multiples_vanish(i, job.start(), unit);
        assert(unit * i + job.start() == addr) by (nonlinear_arith)
            requires
                addr == job.start() + i * unit,
        ;
        lemma_swept(job, addr);
        lemma_sector_erased(job, addr);
        lemma_sectors_from(job, SectorClass::WriteOnly, job.first(), addr);
        lemma_same_step(addr, job.first(), unit);
        let here = job.sector_writes(ops, addr);
        let rest = job.writes_from(ops, i + 1);
        let target = job.target(addr);
        let old_bytes = job.old_sector(addr);
        let goal = overlaid(cells, job.offset, job.data);
        let in_range = job.first() <= addr <= job.last();
        let page = job.chip.page_size as int;
        lemma_programmed_concat(state, here.blocks, rest.blocks);
        // Inside the touched sectors the target is the wanted contents; outside them the
        // old contents are what is wanted.
        assert forall|j: int| addr <= j < addr + unit implies target[j - addr]
            == #[trigger] goal[j] && old_bytes[j - addr] == cells[j] by {
            if !in_range {
                if addr < job.first() {
                    lemma_same_step(job.first(), addr, unit);
                } else {
                    lemma_same_step(addr, job.last(), unit);
                }
            }
        }
        if job.swept(ops, addr) {
            assert forall|j: int| addr <= j < addr + target.len() implies #[trigger] state[j]
                == 0xFFu8 by {
                assert(erased_by(ops, j));
            }
            lemma_sector_pages(state, addr, target, old_bytes, true, page, 0);
        } else {
            assert forall|j: int| addr <= j < addr + target.len() implies #[trigger] state[j]
                == old_bytes[j - addr] by {
                assert(!erased_by(ops, j));
            }
            if job.sectors(SectorClass::WriteOnly).contains(addr as u32) {
                assert forall|j: int| addr <= j < addr + target.len() implies target[j - addr]
                    & !#[trigger] old_bytes[j - addr] == 0 by {
                    assert(!sets_bits(old_bytes, target));
                    assert(target[j - addr] & !old_bytes[j - addr] == 0);
                }
                lemma_sector_pages(state, addr, target, old_bytes, false, page, 0);
            } else {
                assert(here.blocks.len() == 0);
                assert(target == old_bytes);
            }
        }
        let mid = all_programmed(state, here.blocks);
        assert forall|j: int| addr <= j < addr + unit implies #[trigger] mid[j] == goal[j] by {
            assert(target[j - addr] == goal[j] && old_bytes[j - addr] == cells[j]);
        }
        lemma_writes_from(job, cells, mid, i + 1);
    }
}

/// Carrying the plan of a smart write out, all erases and then all blocks, leaves the chip
/// exactly as it was with the data laid over it.
pub proof fn law_smart_write_leaves_the_chip_overlaid(job: SmartJob, cells: Seq<u8>)
    requires
        job.wf(),
        job.plan() is Ok,
        job.reads(cells),
    ensures
        all_programmed(all_erased(cells, job.plan()->Ok_0.ops), job.plan()->Ok_0.pages.blocks)
            == overlaid(cells, job.offset, job.data),
{
    let goal = overlaid(cells, job.offset, job.data);
    if job.data.len() == 0 {
        assert(cells =~= goal);
    } else {
        let ops = job.ops()->Ok_0;
        lemma_geometry(job);
        lemma_read_sectors(job);
        lemma_job_ops(job);
        lemma_all_erased(cells, ops);
        let state = all_erased(cells, ops);
        assert(0 * job.unit() == 0);
        lemma_writes_from(job, cells, state, 0);
        let r = all_programmed(state, job.writes_from(ops, 0).blocks);
        assert forall|b: int| 0 <= b < cells.len() implies r[b] == goal[b] by {
            let top = job.start() + job.total_sectors() * job.unit();
            if !(job.start() <= b < top) {
                assert(!erased_by(ops, b)) by {
                    let dirty = job.sectors(SectorClass::Erase);
                    lemma_dirty_fit(job, SectorClass::Erase, job.first());
                    assert(!in_sectors(dirty, job.unit(), b));
                }
            }
        }
        assert(r =~= goal);
    }
}

/// A smart write that is possible always finds a plan.
pub proof fn law_smart_write_finds_a_plan(job: SmartJob)
    requires
        job.possible(),
    ensures
        job.plan() is Ok,
{
    if job.data.len() > 0 {
        lemma_job_ops(job);
    }
}

/// Writing what the chip already holds erases and programs nothing.
pub proof fn law_smart_write_of_same_data_does_nothing(job: SmartJob)
    requires
        job.possible(),
        forall|i: int|
            0 <= i < job.data.len() ==> #[trigger] job.data[i] == job.original[job.offset
                - job.start() + i],
    ensures
        job.plan() is Ok,
        job.plan()->Ok_0.ops.len() == 0,
        job.plan()->Ok_0.pages.blocks.len() == 0,
{
    if job.data.len() > 0 {
        lemma_geometry(job);
        assert(job.merged() =~= job.original);
        lemma_no_sectors(job, SectorClass::Erase);
        lemma_no_sectors(job, SectorClass::WriteOnly);
        let ops = job.ops()->Ok_0;
        assert(ops.len() == 0);
        lemma_no_writes(job, ops, 0);
    }
}

proof fn lemma_no_sectors(job: SmartJob, class: SectorClass)
    requires
        job.busy(),
        job.merged() == job.original,
        class != SectorClass::Skip,
    ensures
        job.sectors(class).len() == 0,
{
    let found = job.sectors(class);
    lemma_geometry(job);
    if found.len() > 0 {
        lemma_sectors_from(job, class, job.first(), found[0] as int);
        assert(found.contains(found[0]));
    }
}

proof fn lemma_no_writes(job: SmartJob, ops: Seq<EraseOp>, i: int)
    requires
        job.sectors(SectorClass::WriteOnly).len() == 0,
        ops.len() == 0,
        0 <= i,
    ensures
        job.writes_from(ops, i).blocks.len() == 0,
    decreases job.total_sectors() - i,
{
    if i < job.total_sectors() {
        lemma_no_writes(job, ops, i + 1);
        assert(!job.swept(ops, job.start() + i * job.unit()));
    }
}

/// A smart write erases a byte exactly if the byte lies in a touched sector in which some bit
/// must go from 0 to 1; so it never erases outside the touched sectors, nor outside the chip.
pub proof fn law_smart_write_erases_only_what_must_be(job: SmartJob, b: int)
    requires
        job.wf(),
        job.plan() is Ok,
    ensures
        erased_by(job.plan()->Ok_0.ops, b) <==> {
            let sector = floor_to(b, job.unit());
            job.first() <= sector <= job.last() && sets_bits(
                job.old_sector(sector),
                job.new_sector(sector),
            )
        },
        erased_by(job.plan()->Ok_0.ops, b) ==> 0 <= b < job.chip.size_bytes,
{
    let unit = job.unit();
    let sector = floor_to(b, unit);
    let old_bytes = job.old_sector(sector);
    let new = job.new_sector(sector);
    assert(sets_bits(old_bytes, new) ==> old_bytes != new) by {
        if sets_bits(old_bytes, new) {
            let k = choose|i: int|
                0 <= i < old_bytes.len() && i < new.len() && #[trigger] new[i] & !old_bytes[i]
                    != 0;
            let v: u8 = new[k];
            assert(v & !v == 0) by (bit_vector);
        }
    }
    if job.data.len() == 0 {
        assert(job.merged() =~= job.original);
    } else {
        let ops = job.ops()->Ok_0;
        let dirty = job.sectors(SectorClass::Erase);
        lemma_geometry(job);
        lemma_job_ops(job);
        lemma_dirty_fit(job, SectorClass::Erase, job.first());
        if b >= 0 {
            lemma_floor(b, unit);
            if sector + unit <= u32::MAX {
                lemma_sector_erased(job, sector);
                assert(erased_by(ops, b) <==> job.first() <= sector <= job.last()
                    && job.class_of(sector) == SectorClass::Erase);
            } else {
                lemma_same_step(sector, job.last(), unit);
                assert(!in_sectors(dirty, unit, b));
                assert(!erased_by(ops, b));
            }
        } else {
            assert(sector < 0) by (nonlinear_arith)
                requires
                    sector == (b / unit) * unit,
                    b < 0,
                    unit > 0,
            ;
            assert(!in_sectors(dirty, unit, b));
            assert(!erased_by(ops, b));
        }
    }
}

proof fn lemma_pages_aligned(
    base: int,
    target: Seq<u8>,
    orig: Seq<u8>,
    was_erased: bool,
    page: int,
    off: int,
)
    requires
        page > 0,
        base % page == 0,
        0 <= off,
        off % page == 0 || off >= target.len(),
    ensures
        forall|k: int|
            0 <= k < sector_pages(base, target, orig, was_erased, page, off).blocks.len() ==> (
            #[trigger] sector_pages(base, target, orig, was_erased, page, off).blocks[k]).addr
                % page == 0,
    decreases target.len() - off,
{
    if off < target.len() {
        let end = next_page(off, page, target.len() as int);
        let all = sector_pages(base, target, orig, was_erased, page, off);
        vstd::arithmetic::div_mod::lemma_mod_add_multiples_vanish(off, page);
        if page_clean(target, orig, was_erased, off, end) {
            lemma_pages_aligned(base, target, orig, was_erased, page, end);
            assert(all.blocks =~= sector_pages(base, target, orig, was_erased, page, end).blocks);
        } else {
            let stop = run_end(target, orig, was_erased, page, off, end);
            lemma_run_end(target, orig, was_erased, page, off, end);
            lemma_run_aligned(target, orig, was_erased, page, off, end);
            lemma_pages_aligned(base, target, orig, was_erased, page, stop);
            let rest = sector_pages(base, target, orig, was_erased, page, stop).blocks;
            lemma_sum_of_multiples(base, off, page);
            assert forall|k: int| 0 <= k < all.blocks.len() implies (#[trigger] all.blocks[k]).addr
                % page == 0 by {
                if k > 0 {
                    assert(all.blocks[k] == rest[k - 1]);
                }
            }
        }
    }
}

proof fn lemma_run_aligned(
    target: Seq<u8>,
    orig: Seq<u8>,
    was_erased: bool,
    page: int,
    off: int,
    end: int,
)
    requires
        page > 0,
        end % page == 0 || end >= target.len(),
        end <= target.len(),
    ensures
        ({
            let stop = run_end(target, orig, was_erased, page, off, end);
            stop % page == 0 || stop >= target.len()
        }),
    decreases target.len() - end,
{
    let next = next_page(end, page, target.len() as int);
    if end < target.len() && end - off < WRITE_BLOCK && !page_clean(
        target,
        orig,
        was_erased,
        end,
        next,
    ) {
        vstd::arithmetic::div_mod::lemma_mod_add_multiples_vanish(end, page);
        lemma_run_aligned(target, orig, was_erased, page, off, next);
    }
}

proof fn lemma_writes_aligned(job: SmartJob, ops: Seq<EraseOp>, i: int)
    requires
        job.busy(),
        job.unit() % (job.chip.page_size as int) == 0,
        0 <= i,
    ensures
        forall|k: int|
            0 <= k < job.writes_from(ops, i).blocks.len() ==> (#[trigger] job.writes_from(
                ops,
                i,
            ).blocks[k]).addr % (job.chip.page_size as int) == 0,
    decreases job.total_sectors() - i,
{
    let page = job.chip.page_size as int;
    if i < job.total_sectors() {
        lemma_geometry(job);
        lemma_writes_aligned(job, ops, i + 1);
        let unit = job.unit();
        let addr = job.start() + i * unit;
        assert(addr % page == 0) by {
            let m = unit / page;
            let q = job.start() / unit;
            vstd::arithmetic::div_mod::lemma_fundamental_div_mod(unit, page);
            vstd::arithmetic::div_mod::lemma_fundamental_div_mod(job.start(), unit);
            assert(unit * q + i * unit == ((q + i) * m) * page) by (nonlinear_arith)
                requires
                    unit == page * m,
            ;
            vstd::arithmetic::div_mod::lemma_mod_multiples_basic((q + i) * m, page);
        }
        assert(0int % page == 0) by (nonlinear_arith)
            requires
                page > 0,
        ;
        lemma_pages_aligned(addr, job.target(addr), job.old_sector(addr), true, page, 0);
        lemma_pages_aligned(addr, job.target(addr), job.old_sector(addr), false, page, 0);
        let here = job.sector_writes(ops, addr).blocks;
        let rest = job.writes_from(ops, i + 1).blocks;
        let all = job.writes_from(ops, i).blocks;
        assert(all == here + rest);
        assert forall|k: int| 0 <= k < all.len() implies (#[trigger] all[k]).addr % page == 0 by {
            if k < here.len() {
                assert(all[k] == here[k]);
            } else {
                assert(all[k] == rest[k - here.len()]);
            }
        }
    }
}

proof fn lemma_pages_inside(
    base: int,
    target: Seq<u8>,
    orig: Seq<u8>,
    was_erased: bool,
    page: int,
    off: int,
)
    requires
        page > 0,
        0 <= off,
    ensures
        forall|k: int|
            0 <= k < sector_pages(base, target, orig, was_erased, page, off).blocks.len() ==> {
                let b = #[trigger] sector_pages(
                    base,
                    target,
                    orig,
                    was_erased,
                    page,
                    off,
                ).blocks[k];
                base <= b.addr < b.addr + b.data.len() <= base + target.len()
            },
    decreases target.len() - off,
{
    if off < target.len() {
        let end = next_page(off, page, target.len() as int);
        let all = sector_pages(base, target, orig, was_erased, page, off).blocks;
        if page_clean(target, orig, was_erased, off, end) {
            lemma_pages_inside(base, target, orig, was_erased, page, end);
            assert(all =~= sector_pages(base, target, orig, was_erased, page, end).blocks);
        } else {
            let stop = run_end(target, orig, was_erased, page, off, end);
            lemma_run_end(target, orig, was_erased, page, off, end);
            lemma_pages_inside(base, target, orig, was_erased, page, stop);
            let rest = sector_pages(base, target, orig, was_erased, page, stop).blocks;
            assert forall|k: int| 0 <= k < all.len() implies {
                let b = #[trigger] all[k];
                base <= b.addr < b.addr + b.data.len() <= base + target.len()
            } by {
                if k > 0 {
                    assert(all[k] == rest[k - 1]);
                }
            }
        }
    }
}

impl SmartJob {
    /// Whether a block lies inside a touched sector that the write changes.
    pub open spec fn in_changed_sector(self, b: BlockModel) -> bool {
        let sector = floor_to(b.addr, self.unit());
        &&& self.first() <= sector <= self.last()
        &&& sector <= b.addr < b.addr + b.data.len() <= sector + self.unit()
        &&& self.old_sector(sector) != self.new_sector(sector)
    }
}

proof fn lemma_writes_inside(job: SmartJob, i: int)
    requires
        job.busy(),
        0 <= i,
    ensures
        forall|k: int|
            0 <= k < job.writes_from(job.ops()->Ok_0, i).blocks.len() ==> job.in_changed_sector(
                #[trigger] job.writes_from(job.ops()->Ok_0, i).blocks[k],
            ),
    decreases job.total_sectors() - i,
{
    let ops = job.ops()->Ok_0;
    let unit = job.unit();
    if i < job.total_sectors() {
        lemma_geometry(job);
        lemma_read_sectors(job);
        lemma_writes_inside(job, i + 1);
        let addr = job.start() + i * unit;
        let total = job.total_sectors();
        assert(i * unit >= 0 && i * unit + unit <= total * unit) by (nonlinear_arith)
            requires
                0 <= i < total,
                unit > 0,
        ;
        vstd::arithmetic::div_mod::lemma_mod_multiples_vanish(i, job.start(), unit);
        assert(unit * i + job.start() == addr) by (nonlinear_arith)
            requires
                addr == job.start() + i * unit,
        ;
        lemma_swept(job, addr);
        lemma_sectors_from(job, SectorClass::WriteOnly, job.first(), addr);
        let page = job.chip.page_size as int;
        lemma_pages_inside(addr, job.target(addr), job.old_sector(addr), true, page, 0);
        lemma_pages_inside(addr, job.target(addr), job.old_sector(addr), false, page, 0);
        let here = job.sector_writes(ops, addr).blocks;
        let rest = job.writes_from(ops, i + 1).blocks;
        let all = job.writes_from(ops, i).blocks;
        assert(all == here + rest);
        assert forall|k: int| 0 <= k < all.len() implies job.in_changed_sector(
            #[trigger] all[k],
        ) by {
            if k < here.len() {
                assert(all[k] == here[k]);
                let sector = floor_to(all[k].addr, unit);
                lemma_floor(all[k].addr, unit);
                if sector <= addr {
                    lemma_same_step(addr, sector, unit);
                } else {
                    lemma_same_step(sector, addr, unit);
                }
                assert(sector == addr);
            } else {
                assert(all[k] == rest[k - here.len()]);
            }
        }
    }
}

/// A smart write programs nothing outside the touched sectors, and nothing in a touched sector
/// that already holds what it shall hold.
pub proof fn law_smart_write_programs_only_changed_sectors(job: SmartJob)
    requires
        job.wf(),
        job.plan() is Ok,
    ensures
        forall|k: int|
            0 <= k < job.plan()->Ok_0.pages.blocks.len() ==> job.in_changed_sector(
                #[trigger] job.plan()->Ok_0.pages.blocks[k],
            ),
{
    if job.data.len() > 0 {
        lemma_writes_inside(job, 0);
    }
}

/// Every block of a smart write starts at a page boundary, where a sector is made of whole
/// pages: only then does page rotation put each byte in its place.
pub proof fn law_smart_write_blocks_start_on_pages(job: SmartJob)
    requires
        job.wf(),
        job.data.len() > 0 ==> job.unit() % (job.chip.page_size as int) == 0,
        job.plan() is Ok,
    ensures
        forall|k: int|
            0 <= k < job.plan()->Ok_0.pages.blocks.len() ==> (
            #[trigger] job.plan()->Ok_0.pages.blocks[k]).addr % (job.chip.page_size as int) == 0,
{
    if job.data.len() > 0 {
        lemma_writes_aligned(job, job.ops()->Ok_0, 0);
    }
}

/// Sending the scripts of a smart write's plan, those of all erases and then those of all blocks,
/// leaves the chip exactly as it was with the data laid over it.
pub proof fn law_smart_write_scripts_leave_the_chip_overlaid(job: SmartJob, cells: Seq<u8>)
    requires
        job.wf(),
        job.plan() is Ok,
        job.reads(cells),
        job.chip.addr_bytes == 3 || job.chip.addr_bytes == 4,
        job.chip.addr_bytes == 3 ==> cells.len() <= 0x100_0000,
        opcodes_tell_sizes(job.chip.erase_types),
        type_of_size(job.chip.erase_types, job.unit()) is Some,
        job.chip.page_size <= 0xFFFF,
        job.data.len() > 0 ==> job.unit() % (job.chip.page_size as int) == 0,
        job.unit() <= 0xFF_FFFF,
    ensures
        after_script(
            job.chip,
            idle(cells),
            erase_scripts(job.chip, job.plan()->Ok_0.ops) + block_scripts(
                job.chip,
                job.plan()->Ok_0.pages.blocks,
            ),
        ) == idle(overlaid(cells, job.offset, job.data)),
{
    let chip = job.chip;
    let ops = job.plan()->Ok_0.ops;
    let blocks = job.plan()->Ok_0.pages.blocks;
    law_smart_write_leaves_the_chip_overlaid(job, cells);
    if job.data.len() > 0 {
        lemma_ops_askable(job, cells);
        lemma_blocks_sendable(job);
    }
    law_erase_scripts_erase_the_units(chip, cells, ops);
    law_block_scripts_program_the_blocks(chip, all_erased(cells, ops), blocks);
    lemma_after_both(chip, idle(cells), erase_scripts(chip, ops), block_scripts(chip, blocks));
}

proof fn lemma_ops_askable(job: SmartJob, cells: Seq<u8>)
    requires
        job.busy(),
        job.plan() is Ok,
        job.reads(cells),
        job.chip.addr_bytes == 3 || job.chip.addr_bytes == 4,
        job.chip.addr_bytes == 3 ==> cells.len() <= 0x100_0000,
        type_of_size(job.chip.erase_types, job.unit()) is Some,
    ensures
        forall|k: int|
            0 <= k < job.plan()->Ok_0.ops.len() ==> askable(
                job.chip,
                #[trigger] job.plan()->Ok_0.ops[k],
            ),
{
    let chip = job.chip;
    let ops = job.ops()->Ok_0;
    let dirty = job.sectors(SectorClass::Erase);
    lemma_geometry(job);
    lemma_job_ops(job);
    lemma_dirty_aligned(job);
    lemma_dirty_fit(job, SectorClass::Erase, job.first());
    lemma_type_has_size(chip.erase_types, job.unit(), 0);
    let t = type_of_size(chip.erase_types, job.unit())->0;
    assert(t == EraseType { size_bytes: chip.erase_size, opcode: t.opcode });
    if job.mixed() {
        law_plan_erases_exactly_the_dirty_sectors(dirty, chip.erase_types, job.unit());
    }
    assert forall|k: int| 0 <= k < ops.len() implies askable(chip, #[trigger] ops[k]) by {
        assert(op_legal(ops[k], chip.erase_types));
        assert(covers(ops[k], ops[k].addr as int));
        assert(erased_by(ops, ops[k].addr as int));
        assert(in_sectors(dirty, job.unit(), ops[k].addr as int));
    }
}

proof fn lemma_blocks_sendable(job: SmartJob)
    requires
        job.busy(),
        job.plan() is Ok,
        job.chip.page_size <= 0xFFFF,
        job.unit() % (job.chip.page_size as int) == 0,
        job.unit() <= 0xFF_FFFF,
    ensures
        forall|k: int|
            0 <= k < job.plan()->Ok_0.pages.blocks.len() ==> sendable(
                job.chip,
                #[trigger] job.plan()->Ok_0.pages.blocks[k],
            ),
{
    let page = job.chip.page_size as int;
    let unit = job.unit();
    let blocks = job.plan()->Ok_0.pages.blocks;
    lemma_geometry(job);
    law_smart_write_programs_only_changed_sectors(job);
    law_smart_write_blocks_start_on_pages(job);
    assert forall|k: int| 0 <= k < blocks.len() implies sendable(
        job.chip,
        #[trigger] blocks[k],
    ) by {
        let b = blocks[k];
        let sector = floor_to(b.addr, unit);
        let top = sector + unit;
        assert(job.in_changed_sector(b));
        lemma_floor(b.addr, unit);
        lemma_multiple_of_divisor(sector, unit, page);
        lemma_sum_of_multiples(sector, unit, page);
        vstd::arithmetic::div_mod::lemma_sub_mod_noop(top, b.addr, page);
        vstd::arithmetic::div_mod::lemma_small_mod(0, page as nat);
        lemma_ceil_below(b.data.len() as int, top - b.addr, page);
    }
}

/// Rounding up to whole pages does not pass a whole number of pages.
proof fn lemma_ceil_below(n: int, top: int, page: int)
    requires
        page > 0,
        0 <= n <= top,
        top % page == 0,
    ensures
        crate::spi::write::ceil_to(n, page) <= top,
{
    let c = crate::spi::write::ceil_to(n, page);
    crate::spi::write::lemma_ceil(n, page);
    let p = c / page;
    let q = top / page;
    vstd::arithmetic::div_mod::lemma_fundamental_div_mod(c, page);
    vstd::arithmetic::div_mod::lemma_fundamental_div_mod(top, page);
    if c > top {
        assert(p >= q + 1) by (nonlinear_arith)
            requires
                page * p > page * q,
                page > 0,
        ;
        assert(page * p >= page * q + page) by (nonlinear_arith)
            requires
                p >= q + 1,
                page > 0,
        ;
    }
}

/// A sector is skipped just where it already holds the data, and erased just where programming
/// alone would not leave the data there.
pub proof fn law_sector_is_erased_only_if_programming_would_not_do(
    old_bytes: Seq<u8>,
    new: Seq<u8>,
)
    requires
        old_bytes.len() == new.len(),
    ensures
        sector_class(old_bytes, new) == SectorClass::Skip <==> old_bytes == new,
        sector_class(old_bytes, new) == SectorClass::Erase <==> programmed(old_bytes, 0, new)
            != new,
        sector_class(old_bytes, new) == SectorClass::WriteOnly <==> old_bytes != new && programmed(
            old_bytes,
            0,
            new,
        ) == new,
{
    let p = programmed(old_bytes, 0, new);
    if sets_bits(old_bytes, new) {
        let i = choose|i: int|
            0 <= i < old_bytes.len() && i < new.len() && #[trigger] new[i] & !old_bytes[i] != 0;
        let a: u8 = old_bytes[i];
        let b: u8 = new[i];
        assert(b & !a != 0 ==> a & b != b) by (bit_vector);
        assert(p[i] != new[i]);
        if old_bytes == new {
            assert(b & !b == 0) by (bit_vector);
        }
    } else {
        assert forall|i: int| 0 <= i < new.len() implies p[i] == new[i] by {
            assert(new[i] & !old_bytes[i] == 0);
            lemma_clear_only_cell(old_bytes[i], new[i]);
        }
        assert(p =~= new);
    }
}

/// A smart write is possible anywhere on a chip of whole sectors that is not at the very end of
/// the address space.
pub proof fn law_smart_write_is_possible_on_whole_sectors(chip: ChipModel, offset: int, len: int)
    requires
        chip.page_size > 0,
        chip.erase_size > 0,
        chip.size_bytes as int % chip.erase_size as int == 0,
        forall|k: int|
            0 <= k < chip.erase_types.len() ==> chip.size_bytes + (
            #[trigger] chip.erase_types[k]).size_bytes <= u32::MAX,
        chip.size_bytes + chip.erase_size <= u32::MAX,
        0 <= offset,
        0 <= len,
        offset + len <= chip.size_bytes,
    ensures
        chip.smart_fits(offset, len),
{
    if len > 0 {
        let unit = chip.erase_size as int;
        let size = chip.size_bytes as int;
        let last = chip.last_sector(offset, len);
        lemma_floor(offset + len - 1, unit);
        let p = last / unit;
        let q = size / unit;
        vstd::arithmetic::div_mod::lemma_fundamental_div_mod(last, unit);
        vstd::arithmetic::div_mod::lemma_fundamental_div_mod(size, unit);
        assert(p + 1 <= q) by (nonlinear_arith)
            requires
                unit * p < unit * q,
                unit > 0,
        ;
        assert(unit * p + unit <= unit * q) by (nonlinear_arith)
            requires
                p + 1 <= q,
                unit > 0,
        ;
        lemma_largest_unit(chip);
        lemma_floor(last + unit - 1, chip.largest_unit());
        let blocks = whole_types(chip.erase_types, unit);
        lemma_whole_types(chip.erase_types, unit);
        if blocks.len() > 0 {
            lemma_largest_size(blocks);
        }
    }
}

/// Whether some byte of the page at `p` in a block is not what the array holds there.
pub open spec fn page_changes(state: Seq<u8>, b: BlockModel, p: int, page: int) -> bool {
    exists|i: int|
        p <= i < p + page && i < b.data.len() && #[trigger] b.data[i] != state[b.addr + i]
}

/// Whether every page of a block changes something.
pub open spec fn every_page_changes(state: Seq<u8>, b: BlockModel, page: int) -> bool {
    forall|p: int|
        0 <= p < b.data.len() && p % page == 0 ==> #[trigger] page_changes(state, b, p, page)
}

proof fn lemma_run_dirty(
    target: Seq<u8>,
    orig: Seq<u8>,
    was_erased: bool,
    page: int,
    off: int,
    end: int,
)
    requires
        page > 0,
        0 <= off < end <= target.len(),
        (end - off) % page == 0 || end == target.len(),
        end - off < WRITE_BLOCK + page,
    ensures
        ({
            let stop = run_end(target, orig, was_erased, page, off, end);
            &&& end <= stop <= target.len()
            &&& (stop - off) % page == 0 || stop == target.len()
            &&& stop - off < WRITE_BLOCK + page
            &&& forall|q: int|
                #![trigger page_clean(target, orig, was_erased, q, next_page(q, page, target.len() as int))]
                end <= q < stop && (q - off) % page == 0 ==> !page_clean(
                    target,
                    orig,
                    was_erased,
                    q,
                    next_page(q, page, target.len() as int),
                )
        }),
    decreases target.len() - end,
{
    let len = target.len() as int;
    let next = next_page(end, page, len);
    if end < len && end - off < WRITE_BLOCK && !page_clean(target, orig, was_erased, end, next) {
        vstd::arithmetic::div_mod::lemma_mod_add_multiples_vanish(end - off, page);
        lemma_run_dirty(target, orig, was_erased, page, off, next);
        let stop = run_end(target, orig, was_erased, page, off, end);
        assert forall|q: int|
            #![trigger page_clean(target, orig, was_erased, q, next_page(q, page, target.len() as int))]
            end <= q < stop && (q - off) % page == 0 implies !page_clean(
            target,
            orig,
            was_erased,
            q,
            next_page(q, page, len),
        ) by {
            if q > end {
                lemma_same_step(q - off, end - off, page);
                assert(q >= end + page);
            }
        }
    }
}

/// Whether a page of a block, written over what a sector holds after the erases, changes something.
pub open spec fn page_needed(
    b: BlockModel,
    base: int,
    orig: Seq<u8>,
    was_erased: bool,
    p: int,
    page: int,
) -> bool {
    exists|i: int|
        p <= i < p + page && i < b.data.len() && #[trigger] b.data[i] != if was_erased {
            0xFFu8
        } else {
            orig[b.addr - base + i]
        }
}

/// Whether a block is short, and every page of it changes something.
pub open spec fn block_needed(
    b: BlockModel,
    base: int,
    orig: Seq<u8>,
    was_erased: bool,
    page: int,
) -> bool {
    &&& b.data.len() < WRITE_BLOCK + page
    &&& forall|p: int|
        0 <= p < b.data.len() && p % page == 0 ==> #[trigger] page_needed(
            b,
            base,
            orig,
            was_erased,
            p,
            page,
        )
}

proof fn lemma_pages_needed(
    base: int,
    target: Seq<u8>,
    orig: Seq<u8>,
    was_erased: bool,
    page: int,
    off: int,
)
    requires
        page > 0,
        0 <= off,
        orig.len() == target.len(),
    ensures
        forall|k: int|
            0 <= k < sector_pages(base, target, orig, was_erased, page, off).blocks.len()
                ==> block_needed(
                #[trigger] sector_pages(base, target, orig, was_erased, page, off).blocks[k],
                base,
                orig,
                was_erased,
                page,
            ),
    decreases target.len() - off,
{
    let len = target.len() as int;
    if off < len {
        let end = next_page(off, page, len);
        let all = sector_pages(base, target, orig, was_erased, page, off).blocks;
        if page_clean(target, orig, was_erased, off, end) {
            lemma_pages_needed(base, target, orig, was_erased, page, end);
            assert(all =~= sector_pages(base, target, orig, was_erased, page, end).blocks);
        } else {
            let stop = run_end(target, orig, was_erased, page, off, end);
            vstd::arithmetic::div_mod::lemma_mod_self_0(page);
            lemma_run_dirty(target, orig, was_erased, page, off, end);
            lemma_pages_needed(base, target, orig, was_erased, page, stop);
            let rest = sector_pages(base, target, orig, was_erased, page, stop).blocks;
            let b = BlockModel { addr: base + off, data: target.subrange(off, stop) };
            assert(all =~= seq![b] + rest);
            assert forall|p: int| 0 <= p < b.data.len() && p % page == 0 implies #[trigger] page_needed(
                b,
                base,
                orig,
                was_erased,
                p,
                page,
            ) by {
                let q = off + p;
                let to = next_page(q, page, len);
                assert((q - off) % page == 0);
                if p > 0 {
                    vstd::arithmetic::div_mod::lemma_small_mod(0, page as nat);
                    lemma_same_step(p, 0, page);
                    assert(p >= page);
                    assert(q >= end);
                } else {
                    assert(to == end);
                }
                assert(!page_clean(target, orig, was_erased, q, to));
                let i = choose|i: int|
                    q <= i < to && #[trigger] target[i] != if was_erased {
                        0xFFu8
                    } else {
                        orig[i]
                    };
                if stop < len {
                    lemma_same_step(stop - off, p, page);
                    assert(stop - off >= p + page);
                }
                assert(i < stop);
                assert(b.data[i - off] == target[i]);
            }
            assert forall|k: int| 0 <= k < all.len() implies block_needed(
                #[trigger] all[k],
                base,
                orig,
                was_erased,
                page,
            ) by {
                if k > 0 {
                    assert(all[k] == rest[k - 1]);
                }
            }
        }
    }
}

proof fn lemma_writes_needed(job: SmartJob, cells: Seq<u8>, i: int)
    requires
        job.busy(),
        job.reads(cells),
        0 <= i,
    ensures
        forall|k: int|
            0 <= k < job.writes_from(job.ops()->Ok_0, i).blocks.len() ==> {
                let b = #[trigger] job.writes_from(job.ops()->Ok_0, i).blocks[k];
                &&& every_page_changes(
                    all_erased(cells, job.ops()->Ok_0),
                    b,
                    job.chip.page_size as int,
                )
                &&& b.data.len() < WRITE_BLOCK + job.chip.page_size
            },
    decreases job.total_sectors() - i,
{
    let ops = job.ops()->Ok_0;
    let unit = job.unit();
    if i < job.total_sectors() {
        lemma_geometry(job);
        lemma_read_sectors(job);
        lemma_job_ops(job);
        lemma_writes_needed(job, cells, i + 1);
        let addr = job.start() + i * unit;
        let total = job.total_sectors();
        assert(i * unit >= 0 && i * unit + unit <= total * unit) by (nonlinear_arith)
            requires
                0 <= i < total,
                unit > 0,
        ;
        vstd::arithmetic::div_mod::lemma_mod_multiples_vanish(i, job.start(), unit);
        assert(unit * i + job.start() == addr) by (nonlinear_arith)
            requires
                addr == job.start() + i * unit,
        ;
        let page = job.chip.page_size as int;
        let state = all_erased(cells, ops);
        let orig = job.old_sector(addr);
        let swept = job.swept(ops, addr);
        lemma_all_erased(cells, ops);
        lemma_swept(job, addr);
        lemma_sector_erased(job, addr);
        lemma_pages_needed(addr, job.target(addr), orig, true, page, 0);
        lemma_pages_needed(addr, job.target(addr), orig, false, page, 0);
        lemma_pages_inside(addr, job.target(addr), orig, true, page, 0);
        lemma_pages_inside(addr, job.target(addr), orig, false, page, 0);
        let here = job.sector_writes(ops, addr).blocks;
        let rest = job.writes_from(ops, i + 1).blocks;
        let all = job.writes_from(ops, i).blocks;
        assert(all == here + rest);
        assert forall|k: int| 0 <= k < all.len() implies {
            let b = #[trigger] all[k];
            &&& every_page_changes(state, b, page)
            &&& b.data.len() < WRITE_BLOCK + job.chip.page_size
        } by {
            if k < here.len() {
                let b = here[k];
                assert(all[k] == b);
                assert(block_needed(b, addr, orig, swept, page));
                assert forall|p: int| 0 <= p < b.data.len() && p % page
                    == 0 implies #[trigger] page_changes(state, b, p, page) by {
                    assert(page_needed(b, addr, orig, swept, p, page));
                    let x = choose|x: int|
                        p <= x < p + page && x < b.data.len() && #[trigger] b.data[x] != if swept {
                            0xFFu8
                        } else {
                            orig[b.addr - addr + x]
                        };
                    let at = b.addr + x;
                    assert(addr <= at < addr + unit);
                    assert(erased_by(ops, at) <==> swept);
                    assert(orig[at - addr] == cells[at]);
                    assert(b.data[x] != state[b.addr + x]);
                }
            } else {
                assert(all[k] == rest[k - here.len()]);
            }
        }
    }
}

/// A smart write sends no page for nothing: each page of each block changes some byte of what the
/// chip holds once the erases are done.  No block is longer than 64KB by a page.
pub proof fn law_smart_write_sends_no_page_for_nothing(job: SmartJob, cells: Seq<u8>, k: int, p: int)
    requires
        job.wf(),
        job.plan() is Ok,
        job.reads(cells),
        0 <= k < job.plan()->Ok_0.pages.blocks.len(),
    ensures
        ({
            let b = job.plan()->Ok_0.pages.blocks[k];
            let state = all_erased(cells, job.plan()->Ok_0.ops);
            let page = job.chip.page_size as int;
            &&& b.data.len() < 65536 + page
            &&& 0 <= p < b.data.len() && p % page == 0 ==> exists|i: int|
                p <= i < p + page && i < b.data.len() && #[trigger] b.data[i] != state[b.addr + i]
        }),
{
    if job.data.len() > 0 {
        lemma_writes_needed(job, cells, 0);
        let b = job.writes_from(job.ops()->Ok_0, 0).blocks[k];
        let state = all_erased(cells, job.ops()->Ok_0);
        let page = job.chip.page_size as int;
        assert(every_page_changes(state, b, page));
        if 0 <= p < b.data.len() && p % page == 0 {
            assert(page_changes(state, b, p, page));
        }
    }
}

proof fn lemma_sectors_ascending(job: SmartJob, class: SectorClass, addr: int)
    requires
        job.busy(),
        0 <= addr,
    ensures
        ascending(job.sectors_from(class, addr)),
    decreases
            (if addr <= job.last() {
                job.last() - addr + 1
            } else {
                0
            }),
{
    lemma_floor(job.offset + job.data.len() - 1, job.unit());
    if addr <= job.last() {
        lemma_sectors_ascending(job, class, addr + job.unit());
        lemma_dirty_fit(job, class, addr + job.unit());
        let rest = job.sectors_from(class, addr + job.unit());
        let all = job.sectors_from(class, addr);
        assert forall|i: int, j: int| 0 <= i < j < all.len() implies #[trigger] all[i]
            < #[trigger] all[j] by {
            if job.class_of(addr) == class {
                assert(all[j] == rest[j - 1]);
                if i > 0 {
                    assert(all[i] == rest[i - 1]);
                }
            }
        }
    }
}

/// The erases of a smart write on a chip with 3-byte addresses and several erase sizes follow each
/// other in ascending order, and none could be replaced by a larger advertised block of whole
/// sectors at its place without erasing more than the plan does.
pub proof fn law_smart_write_erases_by_the_largest_blocks(job: SmartJob, k: int, j: int)
    requires
        job.busy(),
        job.chip.addr_bytes == 3,
        job.chip.erase_types.len() > 1,
        type_of_size(job.chip.erase_types, job.unit()) is Some,
    ensures
        job.plan() is Ok,
        ({
            let ops = job.plan()->Ok_0.ops;
            let t = job.chip.erase_types[j];
            &&& in_order(ops, 0, u32::MAX as int)
            &&& 0 <= k < ops.len() && 0 <= j < job.chip.erase_types.len() && t.size_bytes
                > ops[k].size && t.size_bytes as int % job.unit() == 0 && ops[k].addr as int
                % t.size_bytes as int == 0 ==> exists|b: int|
                ops[k].addr <= b < ops[k].addr + t.size_bytes && !#[trigger] erased_by(ops, b)
        }),
{
    let dirty = job.sectors(SectorClass::Erase);
    let ops = job.ops()->Ok_0;
    let types = job.chip.erase_types;
    lemma_geometry(job);
    lemma_job_ops(job);
    lemma_dirty_aligned(job);
    lemma_sectors_ascending(job, SectorClass::Erase, job.first());
    law_plan_uses_the_largest_blocks(dirty, types, job.unit(), k, j);
    if 0 <= k < ops.len() && 0 <= j < types.len() && types[j].size_bytes > ops[k].size
        && types[j].size_bytes as int % job.unit() == 0 && ops[k].addr as int
        % types[j].size_bytes as int == 0 {
        assert(would_spill(ops[k], types[j], dirty, job.unit()));
        let b = choose|b: int|
            ops[k].addr <= b < ops[k].addr + types[j].size_bytes && !#[trigger] in_sectors(
                dirty,
                job.unit(),
                b,
            );
        assert(!erased_by(ops, b));
    }
}

proof fn lemma_sector_counts(job: SmartJob, addr: int)
    requires
        job.busy(),
        0 <= addr,
        addr % job.unit() == 0,
    ensures
        addr <= job.last() + job.unit() ==> job.unit() * (job.sectors_from(
            SectorClass::Skip,
            addr,
        ).len() + job.sectors_from(SectorClass::WriteOnly, addr).len() + job.sectors_from(
            SectorClass::Erase,
            addr,
        ).len()) == job.last() + job.unit() - addr,
    decreases
            (if addr <= job.last() {
                job.last() - addr + 1
            } else {
                0
            }),
{
    let unit = job.unit();
    lemma_geometry(job);
    if addr <= job.last() {
        vstd::arithmetic::div_mod::lemma_mod_self_0(unit);
        lemma_sum_of_multiples(addr, unit, unit);
        lemma_sector_counts(job, addr + unit);
        let a = job.sectors_from(SectorClass::Skip, addr + unit).len();
        let b = job.sectors_from(SectorClass::WriteOnly, addr + unit).len();
        let c = job.sectors_from(SectorClass::Erase, addr + unit).len();
        assert(unit * (a + b + c + 1) == unit * (a + b + c) + unit) by (nonlinear_arith);
    } else if addr <= job.last() + unit {
        lemma_same_step(addr, job.last(), unit);
        assert(addr == job.last() + unit);
        assert(unit * 0 == 0);
    }
}

/// Every touched sector is skipped, programmed only, or erased, and just one of these: their
/// numbers add up to the touched sectors.
pub proof fn law_smart_write_accounts_for_every_sector(job: SmartJob)
    requires
        job.busy(),
    ensures
        job.unit() * (job.sectors(SectorClass::Skip).len() + job.sectors(
            SectorClass::WriteOnly,
        ).len() + job.sectors(SectorClass::Erase).len()) == job.last() + job.unit() - job.first(),
        job.plan() matches Ok(p) ==> p.skipped_sectors == job.sectors(SectorClass::Skip).len(),
{
    lemma_geometry(job);
    lemma_sector_counts(job, job.first());
}

/// What a smart write reads begins and ends at whole blocks of the largest size that the chip
/// can erase and that is made of whole sectors, or at the end of the chip, and holds the touched
/// sectors, which hold the data.
pub proof fn law_smart_write_reads_whole_blocks(chip: ChipModel, offset: int, len: int)
    requires
        chip.smart_fits(offset, len),
        0 <= offset,
        len > 0,
    ensures
        ({
            let unit = chip.erase_size as int;
            let big = chip.largest_unit();
            let from = chip.read_start(offset);
            let to = chip.read_end(offset, len);
            &&& from % big == 0
            &&& to % big == 0 || to == chip.size_bytes
            &&& from <= chip.first_sector(offset) < from + big
            &&& chip.last_sector(offset, len) + unit <= to < chip.last_sector(offset, len) + unit + big
            &&& chip.first_sector(offset) % unit == 0
            &&& chip.first_sector(offset) <= offset < chip.first_sector(offset) + unit
            &&& chip.last_sector(offset, len) % unit == 0
            &&& chip.last_sector(offset, len) < offset + len <= chip.last_sector(offset, len) + unit
        }),
        forall|k: int|
            0 <= k < chip.erase_types.len() && (#[trigger] chip.erase_types[k]).size_bytes > 0
                && chip.erase_types[k].size_bytes as int % chip.erase_size as int == 0
                ==> chip.erase_types[k].size_bytes <= chip.largest_unit(),
        chip.largest_unit() == chip.erase_size || exists|k: int|
            0 <= k < chip.erase_types.len() && (#[trigger] chip.erase_types[k]).size_bytes
                == chip.largest_unit(),
{
    let unit = chip.erase_size as int;
    let big = chip.largest_unit();
    let blocks = whole_types(chip.erase_types, unit);
    lemma_floor(offset, unit);
    lemma_floor(offset + len - 1, unit);
    lemma_largest_unit(chip);
    lemma_floor(chip.first_sector(offset), big);
    lemma_floor(chip.last_sector(offset, len) + unit - 1, big);
    vstd::arithmetic::div_mod::lemma_mod_self_0(big);
    lemma_sum_of_multiples(floor_to(chip.last_sector(offset, len) + unit - 1, big), big, big);
    lemma_whole_types(chip.erase_types, unit);
    lemma_all_whole_types(chip.erase_types, unit);
    lemma_largest_size(blocks);
    assert forall|k: int|
        0 <= k < chip.erase_types.len() && (#[trigger] chip.erase_types[k]).size_bytes > 0
            && chip.erase_types[k].size_bytes as int % chip.erase_size as int
            == 0 implies chip.erase_types[k].size_bytes <= chip.largest_unit() by {
        let i = choose|i: int| 0 <= i < blocks.len() && blocks[i] == chip.erase_types[k];
        assert(blocks[i].size_bytes <= largest_size(blocks));
    }
    if blocks.len() > 0 {
        let i = choose|i: int|
            0 <= i < blocks.len() && (#[trigger] blocks[i]).size_bytes == largest_size(blocks);
        assert(chip.erase_types.contains(blocks[i]));
        let k = choose|k: int| 0 <= k < chip.erase_types.len() && chip.erase_types[k] == blocks[i];
        assert(chip.erase_types[k].size_bytes == big);
    }
}

/// The pages in a number of bytes are the fewest that hold them.
pub proof fn law_pages_just_hold_the_bytes(n: int, page: int)
    requires
        0 <= n,
        0 < page,
    ensures
        pages_in(n, page) * page >= n,
        n > 0 ==> (pages_in(n, page) - 1) * page < n,
        n == 0 ==> pages_in(n, page) == 0,
{
    let m = n + page - 1;
    let q = m / page;
    vstd::arithmetic::div_mod::lemma_fundamental_div_mod(m, page);
    vstd::arithmetic::div_mod::lemma_mod_bound(m, page);
    vstd::arithmetic::div_mod::lemma_div_pos_is_pos(m, page);
    assert(q * page == page * q && (q - 1) * page == page * q - page) by (nonlinear_arith);
    if n == 0 {
        vstd::arithmetic::div_mod::lemma_basic_div(m, page);
    }
}

} // verus!
