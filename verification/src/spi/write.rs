//! Programming: page rotation, write blocks, raw writes.
use vstd::prelude::*;

use crate::chip::{ChipModel, ResolvedChip};
use crate::error::Error;
use crate::flash::{all_programmed, erased, lemma_erased_cell, overlaid, programmed, BlockModel};
use crate::host::{push_op, push_opcode, script_of, send, HostOp, OpModel};
use crate::spi::bus::{be3, be4, byte_of, word_byte, CMD_WRITE_ENABLE};
use crate::spi::erase::{
    all_erased, erased_by, floor_to, law_range_erase_covers_exactly_the_overlapping_units,
    lemma_all_erased, lemma_floor, type_of_size,
};
use crate::usb::UsbReq;

verus! {

/// Most bytes sent in one write block.
pub const WRITE_BLOCK: u32 = 65536;

/// Largest count the firmware's 24-bit field holds.
pub const MAX_COUNT: u32 = 0xFF_FFFF;

/// Where the page that holds position `i` begins, and where it ends in data of length
/// `len`.
pub open spec fn page_start(i: int, page: int) -> int {
    (i / page) * page
}

pub open spec fn page_end(start: int, page: int, len: int) -> int {
    if start + page < len {
        start + page
    } else {
        len
    }
}

/// Each page rotated left by one byte; a shorter last page within its own length.
pub open spec fn rotated(data: Seq<u8>, page: int) -> Seq<u8> {
    if page <= 0 {
        data
    } else {
        Seq::new(
            data.len(),
            |i: int|
                {
                    let start = page_start(i, page);
                    if i + 1 < page_end(start, page, data.len() as int) {
                        data[i + 1]
                    } else {
                        data[start]
                    }
                },
        )
    }
}

/// Position `i` lies in the page that begins at `start`.
proof fn lemma_page_start(i: int, start: int, page: int)
    requires
        page > 0,
        start % page == 0,
        start <= i < start + page,
    ensures
        page_start(i, page) == start,
{
    let k = start / page;
    vstd::arithmetic::div_mod::lemma_fundamental_div_mod(start, page);
    assert(i == k * page + (i - start)) by (nonlinear_arith)
        requires
            start == page * k,
    ;
    vstd::arithmetic::div_mod::lemma_fundamental_div_mod_converse(i, page, k, i - start);
    assert(k * page == page * k) by (nonlinear_arith);
}

/// Compensates for firmware that starts programming one byte late: the last byte sent for
/// a page wraps round to its first address, so each page is rotated left by one byte.
pub fn rotate_pages_left(data: &[u8], page_size: usize) -> (r: Vec<u8>)
    ensures
        r@ == rotated(data@, page_size as int),
{
    let mut out: Vec<u8> = Vec::new();
    if page_size == 0 {
        let mut i: usize = 0;
        while i < data.len()
            invariant
                i <= data.len(),
                out@ =~= data@.take(i as int),
            decreases data.len() - i,
        {
            out.push(data[i]);
            i += 1;
        }
        assert(out@ =~= data@);
        return out;
    }
    let ghost goal = rotated(data@, page_size as int);
    let mut start: usize = 0;
    while start < data.len()
        invariant
            page_size > 0,
            start <= data.len(),
            start < data.len() ==> start as int % page_size as int == 0,
            goal == rotated(data@, page_size as int),
            out@ =~= goal.take(start as int),
        decreases data.len() - start,
    {
        let end: usize = if data.len() - start > page_size {
            start + page_size
        } else {
            data.len()
        };
        assert(end == page_end(start as int, page_size as int, data@.len() as int));
        let mut j: usize = start + 1;
        while j < end
            invariant
                page_size > 0,
                start < end <= data.len(),
                start < j <= end,
                end - start <= page_size,
                start as int % page_size as int == 0,
                end == page_end(start as int, page_size as int, data@.len() as int),
                goal == rotated(data@, page_size as int),
                out@ =~= goal.take(j - 1),
            decreases end - j,
        {
            proof {
                lemma_page_start(j - 1, start as int, page_size as int);
            }
            out.push(data[j]);
            j += 1;
        }
        proof {
            lemma_page_start(end - 1, start as int, page_size as int);
            if end < data.len() {
                vstd::arithmetic::div_mod::lemma_mod_add_multiples_vanish(
                    start as int,
                    page_size as int,
                );
                assert((start + page_size) as int % page_size as int == 0);
            }
        }
        out.push(data[start]);
        start = end;
    }
    assert(out@ =~= goal);
    out
}

/// Where the firmware puts byte `i` of what it is sent, relative to the block's address: one
/// byte late, wrapping within the page.
pub open spec fn lands_at(i: int, page: int) -> int {
    page_start(i, page) + (i % page + 1) % page
}

/// The byte of what was sent that ends up at position `j`.
pub open spec fn comes_from(j: int, page: int) -> int {
    page_start(j, page) + (if j % page == 0 {
        page - 1
    } else {
        j % page - 1
    })
}

/// What the firmware leaves at the positions of a block when it is sent `sent`.
pub open spec fn firmware_image(sent: Seq<u8>, page: int) -> Seq<u8> {
    Seq::new(sent.len(), |j: int| sent[comes_from(j, page)])
}

proof fn lemma_whole_page(i: int, len: int, page: int)
    requires
        page > 0,
        0 <= i < len,
        len % page == 0,
    ensures
        0 <= page_start(i, page) <= i < page_start(i, page) + page,
        page_start(i, page) + page <= len,
        page_start(i, page) + i % page == i,
        page_start(i, page) % page == 0,
        page_end(page_start(i, page), page, len) == page_start(i, page) + page,
{
    let k = i / page;
    let n = len / page;
    vstd::arithmetic::div_mod::lemma_fundamental_div_mod(i, page);
    vstd::arithmetic::div_mod::lemma_fundamental_div_mod(len, page);
    assert(k * page == page * k) by (nonlinear_arith);
    vstd::arithmetic::div_mod::lemma_mod_multiples_basic(k, page);
    assert(0 <= k) by (nonlinear_arith)
        requires
            k == i / page,
            i >= 0,
            page > 0,
    ;
    assert(k < n) by (nonlinear_arith)
        requires
            page * k <= i,
            i < page * n,
            page > 0,
    ;
    assert(page * k + page <= page * n && page * k >= 0) by (nonlinear_arith)
        requires
            0 <= k < n,
            page > 0,
    ;
}

/// The firmware puts byte `comes_from(j)` at `j`, and sending rotated whole pages leaves
/// exactly the data.
pub proof fn law_rotation_undoes_the_firmware_offset(data: Seq<u8>, page: int)
    requires
        page > 0,
        data.len() as int % page == 0,
    ensures
        forall|j: int| #![trigger comes_from(j, page)]
            0 <= j < data.len() ==> 0 <= comes_from(j, page) < data.len() && lands_at(
                comes_from(j, page),
                page,
            ) == j,
        firmware_image(rotated(data, page), page) == data,
{
    let len = data.len() as int;
    assert forall|j: int| #![trigger comes_from(j, page)] 0 <= j < data.len() implies 0
        <= comes_from(j, page) < data.len() && lands_at(comes_from(j, page), page) == j && rotated(
        data,
        page,
    )[comes_from(j, page)] == data[j] by {
        lemma_whole_page(j, len, page);
        let i = comes_from(j, page);
        let start = page_start(j, page);
        lemma_page_start(i, start, page);
        lemma_whole_page(i, len, page);
        if j % page == 0 {
            assert(i % page == page - 1);
            assert(page % page == 0) by (nonlinear_arith)
                requires
                    page > 0,
            ;
        } else {
            assert(i % page + 1 == j % page);
            vstd::arithmetic::div_mod::lemma_small_mod((j % page) as nat, page as nat);
        }
    }
    assert(firmware_image(rotated(data, page), page) =~= data);
}

/// `len` rounded up to whole pages.
pub open spec fn ceil_to(len: int, page: int) -> int {
    ((len + page - 1) / page) * page
}

/// Data filled up with 0xFF to whole pages.
pub open spec fn padded(data: Seq<u8>, page: int) -> Seq<u8> {
    data + Seq::new((ceil_to(data.len() as int, page) - data.len()) as nat, |i: int| 0xFFu8)
}

pub proof fn lemma_ceil(len: int, page: int)
    requires
        len >= 0,
        page > 0,
    ensures
        len <= ceil_to(len, page) < len + page,
        ceil_to(len, page) % page == 0,
        len % page == 0 ==> ceil_to(len, page) == len,
        len % page != 0 ==> ceil_to(len, page) == len - len % page + page,
{
    let q = len / page;
    let r = len % page;
    vstd::arithmetic::div_mod::lemma_fundamental_div_mod(len, page);
    assert(page * q == q * page) by (nonlinear_arith);
    assert((q + 1) * page == q * page + page) by (nonlinear_arith);
    if r == 0 {
        vstd::arithmetic::div_mod::lemma_fundamental_div_mod_converse(
            len + page - 1,
            page,
            q,
            page - 1,
        );
        vstd::arithmetic::div_mod::lemma_mod_multiples_basic(q, page);
    } else {
        vstd::arithmetic::div_mod::lemma_fundamental_div_mod_converse(
            len + page - 1,
            page,
            q + 1,
            r - 1,
        );
        vstd::arithmetic::div_mod::lemma_mod_multiples_basic(q + 1, page);
    }
}

/// Filling up with 0xFF programs nothing more.
pub proof fn law_padding_programs_nothing(cells: Seq<u8>, addr: int, data: Seq<u8>, page: int)
    requires
        page > 0,
    ensures
        programmed(cells, addr, padded(data, page)) == programmed(cells, addr, data),
{
    lemma_ceil(data.len() as int, page);
    let a = programmed(cells, addr, padded(data, page));
    let b = programmed(cells, addr, data);
    assert forall|i: int| 0 <= i < cells.len() implies a[i] == b[i] by {
        lemma_erased_cell(cells[i]);
    }
    assert(a =~= b);
}

/// The setup packet of a write.
pub open spec fn write_setup(addr_bytes: u8, page_size: u32, offset: u32, count: u32) -> Seq<u8> {
    seq![0x02u8, 0x06, 0x05, 0x00, addr_bytes, byte_of(page_size, 1), byte_of(page_size, 0)] + be4(
        offset,
    ) + be3(count) + seq![0u8]
}

/// Builds the setup packet of a write: page program, write enable and read status opcodes,
/// geometry, address, count.
pub fn write_setup_packet(chip: &ResolvedChip, offset: u32, count: u32) -> (r: [u8; 15])
    requires
        count <= MAX_COUNT,
    ensures
        r@ == write_setup(chip.addr_bytes, chip.page_size, offset, count),
{
    let r: [u8; 15] = [
        0x02,
        0x06,
        0x05,
        0x00,
        chip.addr_bytes,
        word_byte(chip.page_size, 1),
        word_byte(chip.page_size, 0),
        word_byte(offset, 3),
        word_byte(offset, 2),
        word_byte(offset, 1),
        word_byte(offset, 0),
        word_byte(count, 2),
        word_byte(count, 1),
        word_byte(count, 0),
        0,
    ];
    assert(r@ =~= write_setup(chip.addr_bytes, chip.page_size, offset, count));
    r
}

/// Polls that a write of so many pages may take: 10 ms for each page, at least 200 ms, one
/// poll every 2 ms.
pub open spec fn write_polls(pages: int) -> int {
    ((if pages * 10 > 200 {
        pages * 10
    } else {
        200
    }) + 1) / 2
}

/// The wait after a write of so many pages.
pub fn wait_wip_write(pages: u32) -> (op: HostOp)
    ensures
        op@ == (OpModel::WaitReady { polls: write_polls(pages as int) as u64, interval_ms: 2 }),
{
    let tens: u64 = pages as u64 * 10;
    let timeout_ms: u64 = if tens > 200 {
        tens
    } else {
        200
    };
    HostOp::WaitReady { polls: (timeout_ms + 1) / 2, interval_ms: 2 }
}

/// The wait after a single page program or a sector erase: 2 s.
pub fn wait_wip() -> (op: HostOp)
    ensures
        op@ == (OpModel::WaitReady { polls: 1000, interval_ms: 2 }),
{
    HostOp::WaitReady { polls: 1000, interval_ms: 2 }
}

/// The wait after a block erase: 5 s.
pub fn wait_wip_block() -> (op: HostOp)
    ensures
        op@ == (OpModel::WaitReady { polls: 500, interval_ms: 10 }),
{
    HostOp::WaitReady { polls: 500, interval_ms: 10 }
}

/// The wait after a chip erase: as long as the chip may take, one poll every 10 ms.
pub fn wait_wip_chip_erase(chip: &ResolvedChip) -> (op: HostOp)
    ensures
        op@ == (OpModel::WaitReady {
            polls: ((chip@.erase_timeout_ms() + 9) / 10) as u64,
            interval_ms: 10,
        }),
{
    let ms: u64 = chip.chip_erase_timeout_ms();
    let polls: u64 = if ms % 10 == 0 {
        ms / 10
    } else {
        ms / 10 + 1
    };
    HostOp::WaitReady { polls, interval_ms: 10 }
}

/// The script that sets the write enable latch.
pub fn write_enable() -> (script: Vec<HostOp>)
    ensures
        script_of(script@) == seq![send(seq![CMD_WRITE_ENABLE])],
{
    let mut script: Vec<HostOp> = Vec::new();
    push_opcode(&mut script, CMD_WRITE_ENABLE);
    assert(script_of(script@) =~= seq![send(seq![CMD_WRITE_ENABLE])]);
    script
}

impl ChipModel {
    /// The script that programs one block.
    pub open spec fn block_script(self, addr: u32, data: Seq<u8>) -> Result<Seq<OpModel>, Error> {
        let page = self.page_size as int;
        let len = ceil_to(data.len() as int, page);
        if page == 0 {
            Err(Error::ZeroPageSize)
        } else if len > MAX_COUNT {
            Err(Error::WriteBlockTooLong)
        } else {
            Ok(
                seq![
                    OpModel::Control {
                        req: UsbReq::SpiWriteFlash,
                        data: 0,
                        payload: write_setup(self.addr_bytes, self.page_size, addr, len as u32),
                        settle: false,
                    },
                    OpModel::BulkOut { bytes: rotated(padded(data, page), page) },
                    OpModel::WaitReady {
                        polls: write_polls(len / page) as u64,
                        interval_ms: 2,
                    },
                ],
            )
        }
    }
}

/// The script that programs `data` at `addr`: setup packet, rotated whole pages, wait.
pub fn write_block(chip: &ResolvedChip, addr: u32, data: &[u8]) -> (r: Result<Vec<HostOp>, Error>)
    ensures
        match chip@.block_script(addr, data@) {
            Ok(script) => r matches Ok(v) && script_of(v@) == script,
            Err(e) => r == Err::<Vec<HostOp>, _>(e),
        },
{
    if chip.page_size == 0 {
        return Err(Error::ZeroPageSize);
    }
    let page: usize = chip.page_size as usize;
    proof {
        lemma_ceil(data@.len() as int, page as int);
    }
    if data.len() > MAX_COUNT as usize {
        return Err(Error::WriteBlockTooLong);
    }
    let rest: u32 = data.len() as u32 % chip.page_size;
    let padded_len: u64 = if rest == 0 {
        data.len() as u64
    } else {
        data.len() as u64 + (chip.page_size - rest) as u64
    };
    if padded_len > MAX_COUNT as u64 {
        return Err(Error::WriteBlockTooLong);
    }
    let mut payload: Vec<u8> = Vec::new();
    payload.extend_from_slice(data);
    assert(payload@ =~= data@);
    payload.resize(padded_len as usize, 0xFF);
    assert(payload@ =~= padded(data@, page as int));
    let setup: [u8; 15] = write_setup_packet(chip, addr, padded_len as u32);
    let mut packet: Vec<u8> = Vec::new();
    packet.extend_from_slice(setup.as_slice());
    assert(packet@ =~= setup@);
    let bytes = rotate_pages_left(payload.as_slice(), page);
    let mut script: Vec<HostOp> = Vec::new();
    push_op(
        &mut script,
        HostOp::Control { req: UsbReq::SpiWriteFlash, data: 0, payload: packet, settle: false },
    );
    push_op(&mut script, HostOp::BulkOut { bytes });
    push_op(&mut script, wait_wip_write(padded_len as u32 / chip.page_size));
    assert(script_of(script@) =~~= chip@.block_script(addr, data@)->Ok_0);
    Ok(script)
}

/// Bytes to program, and where.
#[derive(Debug)]
pub struct WriteBlock {
    pub addr: u32,
    pub data: Vec<u8>,
}

impl View for WriteBlock {
    type V = BlockModel;

    open spec fn view(&self) -> BlockModel {
        BlockModel { addr: self.addr as int, data: self.data@ }
    }
}

/// The contents of a list of blocks.
pub open spec fn blocks_of(blocks: Seq<WriteBlock>) -> Seq<BlockModel> {
    Seq::new(blocks.len(), |i: int| blocks[i]@)
}

/// Appends one block.
pub fn push_block(blocks: &mut Vec<WriteBlock>, block: WriteBlock)
    ensures
        blocks_of(final(blocks)@) == blocks_of(old(blocks)@).push(block@),
{
    blocks.push(block);
    assert(blocks_of(blocks@) =~= blocks_of(old(blocks)@).push(block@));
}

/// `n` bytes of erased flash.
pub open spec fn filler(n: nat) -> Seq<u8> {
    Seq::new(n, |i: int| 0xFFu8)
}

/// How many bytes the first block of a write at `addr` takes from the data: up to the end
/// of the page where `addr` is inside one, else up to a full block.
pub open spec fn first_take(page: int, addr: int, len: int) -> int {
    let room: int = if addr % page > 0 {
        page - addr % page
    } else {
        WRITE_BLOCK as int
    };
    if room < len {
        room
    } else {
        len
    }
}

/// The blocks of a raw write.  A block inside a page is moved back to the page's start and
/// filled up in front with 0xFF.
pub open spec fn write_chunks(page: int, addr: int, data: Seq<u8>) -> Seq<BlockModel>
    decreases data.len(),
{
    if page <= 0 || data.len() == 0 || first_take(page, addr, data.len() as int) <= 0 {
        Seq::empty()
    } else {
        let n = first_take(page, addr, data.len() as int);
        let lead = addr % page;
        seq![
            BlockModel { addr: addr - lead, data: filler(lead as nat) + data.take(n) },
        ] + write_chunks(page, addr + n, data.skip(n))
    }
}

/// Splits a raw write into page-aligned blocks.
pub fn write(page_size: u32, offset: u32, data: &[u8]) -> (r: Result<
    Vec<WriteBlock>,
    Error,
>)
    requires
        offset + data@.len() <= u32::MAX,
    ensures
        page_size == 0 ==> r == Err::<Vec<WriteBlock>, _>(Error::ZeroPageSize),
        page_size > 0 ==> r is Ok && blocks_of(r->Ok_0@) == write_chunks(
            page_size as int,
            offset as int,
            data@,
        ),
{
    if page_size == 0 {
        return Err(Error::ZeroPageSize);
    }
    let mut blocks: Vec<WriteBlock> = Vec::new();
    let mut done: usize = 0;
    let ghost goal = write_chunks(page_size as int, offset as int, data@);
    assert(data@.skip(0) =~= data@);
    assert(blocks_of(blocks@) + goal =~= goal);
    while done < data.len()
        invariant
            page_size > 0,
            done <= data.len(),
            offset + data@.len() <= u32::MAX,
            goal == write_chunks(page_size as int, offset as int, data@),
            blocks_of(blocks@) + write_chunks(
                page_size as int,
                offset + done,
                data@.skip(done as int),
            ) == goal,
        decreases data.len() - done,
    {
        let addr: u32 = offset + done as u32;
        let left: u32 = (data.len() - done) as u32;
        let lead: u32 = addr % page_size;
        assert(lead <= addr) by {
            vstd::arithmetic::div_mod::lemma_mod_decreases(addr as nat, page_size as nat);
        }
        let room: u32 = if lead > 0 {
            page_size - lead
        } else {
            WRITE_BLOCK
        };
        let n: u32 = if room < left {
            room
        } else {
            left
        };
        let ghost rest = data@.skip(done as int);
        let ghost before = blocks_of(blocks@);
        assert(n == first_take(page_size as int, addr as int, rest.len() as int));
        let chunk = vstd::slice::slice_subrange(data, done, done + n as usize);
        let mut bytes: Vec<u8> = Vec::new();
        bytes.resize(lead as usize, 0xFF);
        assert(bytes@ =~= filler(lead as nat));
        bytes.extend_from_slice(chunk);
        assert(chunk@ =~= rest.take(n as int));
        assert(bytes@ =~= filler(lead as nat) + rest.take(n as int));
        push_block(&mut blocks, WriteBlock { addr: addr - lead, data: bytes });
        proof {
            assert(rest.skip(n as int) =~= data@.skip(done + n));
            let more = write_chunks(page_size as int, addr + n, rest.skip(n as int));
            let block = BlockModel {
                addr: addr - lead,
                data: filler(lead as nat) + rest.take(n as int),
            };
            assert(before.push(block) + more =~= before + (seq![block] + more));
        }
        done = done + n as usize;
    }
    assert(data@.skip(done as int).len() == 0);
    assert(blocks_of(blocks@) =~= goal);
    Ok(blocks)
}

/// Programming all blocks of a raw write programs the data at its place and nothing else,
/// and every block starts at a page boundary.
pub proof fn law_raw_write_programs_exactly_the_data(
    cells: Seq<u8>,
    page: int,
    addr: int,
    data: Seq<u8>,
)
    requires
        page > 0,
        addr >= 0,
    ensures
        all_programmed(cells, write_chunks(page, addr, data)) == programmed(cells, addr, data),
        forall|k: int|
            0 <= k < write_chunks(page, addr, data).len() ==> (#[trigger] write_chunks(
                page,
                addr,
                data,
            )[k]).addr % page == 0,
    decreases data.len(),
{
    vstd::arithmetic::div_mod::lemma_mod_bound(addr, page);
    if data.len() == 0 {
        assert(programmed(cells, addr, data) =~= cells);
    } else {
        let n = first_take(page, addr, data.len() as int);
        let lead = addr % page;
        let block = BlockModel { addr: addr - lead, data: filler(lead as nat) + data.take(n) };
        let next = programmed(cells, block.addr, block.data);
        law_raw_write_programs_exactly_the_data(next, page, addr + n, data.skip(n));
        let chunks = write_chunks(page, addr, data);
        let more = write_chunks(page, addr + n, data.skip(n));
        assert(chunks[0] == block);
        assert(chunks.drop_first() =~= more);
        let a = programmed(next, addr + n, data.skip(n));
        let b = programmed(cells, addr, data);
        assert forall|i: int| 0 <= i < cells.len() implies a[i] == b[i] by {
            lemma_erased_cell(cells[i]);
        }
        assert(a =~= b);
        assert((addr - lead) % page == 0) by {
            vstd::arithmetic::div_mod::lemma_fundamental_div_mod(addr, page);
            vstd::arithmetic::div_mod::lemma_mod_multiples_basic(addr / page, page);
            assert(page * (addr / page) == (addr / page) * page) by (nonlinear_arith);
        }
        assert forall|k: int| 0 <= k < chunks.len() implies (#[trigger] chunks[k]).addr % page
            == 0 by {
            if k > 0 {
                assert(chunks[k] == more[k - 1]);
            }
        }
    }
}

/// What the firmware leaves in the flash for a block, sent as rotated whole pages, is the
/// block's data, and 0xFF behind it.
pub proof fn law_sent_block_arrives_as_the_data(data: Seq<u8>, page: int)
    requires
        page > 0,
    ensures
        firmware_image(rotated(padded(data, page), page), page) == padded(data, page),
        padded(data, page).len() as int % page == 0,
        padded(data, page).take(data.len() as int) == data,
        forall|i: int|
            data.len() <= i < padded(data, page).len() ==> #[trigger] padded(data, page)[i] == 0xFF,
{
    lemma_ceil(data.len() as int, page);
    law_rotation_undoes_the_firmware_offset(padded(data, page), page);
    assert(padded(data, page).take(data.len() as int) =~= data);
}

/// A raw write over erased flash leaves the data there, and everything else as it was.
pub proof fn law_raw_write_over_erased_flash_leaves_the_data(
    cells: Seq<u8>,
    page: int,
    addr: int,
    data: Seq<u8>,
)
    requires
        page > 0,
        addr >= 0,
        forall|i: int|
            addr <= i < addr + data.len() && i < cells.len() ==> #[trigger] cells[i] == 0xFF,
    ensures
        all_programmed(cells, write_chunks(page, addr, data)) == overlaid(cells, addr, data),
{
    law_raw_write_programs_exactly_the_data(cells, page, addr, data);
    let a = programmed(cells, addr, data);
    let b = overlaid(cells, addr, data);
    assert forall|i: int| 0 <= i < cells.len() implies a[i] == b[i] by {
        if addr <= i < addr + data.len() {
            lemma_erased_cell(data[i - addr]);
        }
    }
    assert(a =~= b);
}

/// Erasing the units that a range touches and then writing the range raw leaves the data in
/// the range; outside the touched units nothing changes.
pub proof fn law_erase_then_raw_write_leaves_the_data(
    chip: ChipModel,
    cells: Seq<u8>,
    offset: int,
    data: Seq<u8>,
)
    requires
        chip.page_size > 0,
        chip.erases_mixed() || (chip.erase_size > 0 && type_of_size(
            chip.erase_types,
            chip.erase_size as int,
        ) is Some),
        0 <= offset,
        data.len() > 0,
        offset + data.len() <= cells.len() <= u32::MAX,
    ensures
        ({
            let unit: int = if chip.erases_mixed() {
                4096
            } else {
                chip.erase_size as int
            };
            let len = data.len() as int;
            let ops = chip.range_plan(offset, len)->Ok_0;
            let after = all_programmed(
                all_erased(cells, ops),
                write_chunks(chip.page_size as int, offset, data),
            );
            &&& chip.range_plan(offset, len) is Ok
            &&& after.subrange(offset, offset + len) == data
            &&& forall|b: int|
                0 <= b < cells.len() && !(floor_to(offset, unit) <= b < floor_to(
                    offset + len - 1,
                    unit,
                ) + unit) ==> #[trigger] after[b] == cells[b]
        }),
{
    let unit: int = if chip.erases_mixed() {
        4096
    } else {
        chip.erase_size as int
    };
    let len = data.len() as int;
    let ops = chip.range_plan(offset, len)->Ok_0;
    let state = all_erased(cells, ops);
    law_range_erase_covers_exactly_the_overlapping_units(chip, offset, len);
    lemma_all_erased(cells, ops);
    lemma_floor(offset, unit);
    lemma_floor(offset + len - 1, unit);
    assert forall|i: int|
        offset <= i < offset + data.len() && i < state.len() implies #[trigger] state[i] == 0xFF by {
        assert(erased_by(ops, i));
    }
    law_raw_write_over_erased_flash_leaves_the_data(state, chip.page_size as int, offset, data);
    let after = all_programmed(state, write_chunks(chip.page_size as int, offset, data));
    assert(after.subrange(offset, offset + len) =~= data);
    assert forall|b: int|
        0 <= b < cells.len() && !(floor_to(offset, unit) <= b < floor_to(offset + len - 1, unit)
            + unit) implies #[trigger] after[b] == cells[b] by {
        assert(!erased_by(ops, b));
    }
}

/// Erasing the whole chip and then writing all of it raw leaves just the data.
pub proof fn law_full_chip_write_leaves_just_the_data(cells: Seq<u8>, page: int, data: Seq<u8>)
    requires
        page > 0,
        data.len() == cells.len(),
    ensures
        all_programmed(erased(cells, 0, cells.len() as int), write_chunks(page, 0, data)) == data,
{
    let blank = erased(cells, 0, cells.len() as int);
    law_raw_write_over_erased_flash_leaves_the_data(blank, page, 0, data);
    assert(overlaid(blank, 0, data) =~= data);
}

/// The blocks of a raw write keep to the pages: each begins where a page begins.  One that has to
/// begin inside a page, behind a filling, reaches to the end of that page at most and, where there
/// is more data, just to it; one that does not takes as much as a block may hold.  The blocks behind
/// it are those of the rest of the data.
pub proof fn law_blocks_keep_to_the_pages(page: int, addr: int, data: Seq<u8>)
    requires
        0 < page,
        0 <= addr,
        data.len() > 0,
    ensures
        ({
            let blocks = write_chunks(page, addr, data);
            let first = blocks[0];
            let lead = addr - first.addr;
            let n = first.data.len() - lead;
            &&& blocks.len() > 0
            &&& first.addr % page == 0
            &&& 0 <= lead < page
            &&& 0 < n <= data.len()
            &&& first.data.skip(lead) == data.take(n)
            &&& forall|i: int| 0 <= i < lead ==> #[trigger] first.data[i] == 0xFF
            &&& lead > 0 ==> first.data.len() <= page
            &&& lead > 0 && n < data.len() ==> first.data.len() == page
            &&& lead == 0 ==> n == if data.len() < 0x1_0000 {
                data.len() as int
            } else {
                0x1_0000
            }
            &&& blocks.skip(1) == write_chunks(page, addr + n, data.skip(n))
        }),
{
    let blocks = write_chunks(page, addr, data);
    vstd::arithmetic::div_mod::lemma_fundamental_div_mod(addr, page);
    vstd::arithmetic::div_mod::lemma_mod_bound(addr, page);
    let m = addr % page;
    let q = addr / page;
    assert(addr - m == page * q + 0);
    assert((page * q) % page == 0) by (nonlinear_arith)
        requires
            page > 0,
    ;
    let n = first_take(page, addr, data.len() as int);
    assert(blocks[0].data.skip(m) =~= data.take(n));
    assert(blocks.skip(1) =~= write_chunks(page, addr + n, data.skip(n)));
}

/// A write is waited for ten milliseconds a page, and two hundred at least.
pub proof fn law_write_is_given_ten_milliseconds_a_page(pages: int)
    requires
        0 <= pages,
    ensures
        pages <= 20 ==> write_polls(pages) * 2 == 200,
        pages >= 20 ==> write_polls(pages) * 2 == pages * 10,
{
}

} // verus!
