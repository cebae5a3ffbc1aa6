//! Reading: setup packets, blocks, short reads.
use vstd::prelude::*;

use crate::chip::{ChipModel, ResolvedChip};
use crate::error::Error;
use crate::host::{push_op, script_of, HostOp, OpModel};
use crate::spi::bus::{be3, be4, word_byte};
use crate::usb::UsbReq;

verus! {

/// Most bytes read in one block.
pub const BLOCK_SIZE: u32 = 65536;

/// Attempts at each block.
pub const READ_RETRIES: u32 = 3;

/// Pause after a failed attempt.
pub const READ_RETRY_MS: u64 = 50;

pub const CMD_READ: u8 = 0x03;

pub const CMD_FAST_READ: u8 = 0x0B;

/// The setup packet of a read.
pub open spec fn read_setup(cmd: u8, addr_bytes: u8, offset: u32, count: u32, dummy: u8) -> Seq<
    u8,
> {
    seq![cmd, addr_bytes] + be4(offset) + be3(count) + seq![dummy, 0u8]
}

/// Builds the setup packet of a read: opcode, address width, address, count, dummy bytes.
pub fn read_setup_packet(cmd: u8, addr_bytes: u8, offset: u32, count: u32, dummy: u8) -> (r: [u8;
    11])
    ensures
        r@ == read_setup(cmd, addr_bytes, offset, count, dummy),
{
    let r: [u8; 11] = [
        cmd,
        addr_bytes,
        word_byte(offset, 3),
        word_byte(offset, 2),
        word_byte(offset, 1),
        word_byte(offset, 0),
        word_byte(count, 2),
        word_byte(count, 1),
        word_byte(count, 0),
        dummy,
        0,
    ];
    assert(r@ =~= read_setup(cmd, addr_bytes, offset, count, dummy));
    r
}

/// A setup packet as the payload of a request, then the data.
pub open spec fn setup_then_receive(req: UsbReq, setup: Seq<u8>, len: u32) -> Seq<OpModel> {
    seq![
        OpModel::Control { req, data: 0, payload: setup, settle: true },
        OpModel::BulkIn { len },
    ]
}

/// The script that sends a setup packet and receives `len` bytes.
pub fn receive_script(req: UsbReq, setup: &[u8], len: u32) -> (script: Vec<HostOp>)
    ensures
        script_of(script@) == setup_then_receive(req, setup@, len),
{
    let mut payload: Vec<u8> = Vec::new();
    payload.extend_from_slice(setup);
    assert(payload@ =~= setup@);
    let mut script: Vec<HostOp> = Vec::new();
    push_op(&mut script, HostOp::Control { req, data: 0, payload, settle: true });
    push_op(&mut script, HostOp::BulkIn { len });
    assert(script_of(script@) =~~= setup_then_receive(req, setup@, len));
    script
}

impl ChipModel {
    /// The script that reads one block: Fast Read with one dummy byte, or the legacy Read
    /// without.
    pub open spec fn read_script(self, addr: u32, len: u32, legacy: bool) -> Seq<OpModel> {
        setup_then_receive(
            UsbReq::SpiReadFlash,
            if legacy {
                read_setup(CMD_READ, self.addr_bytes, addr, len, 0)
            } else {
                read_setup(CMD_FAST_READ, self.addr_bytes, addr, len, 1)
            },
            len,
        )
    }
}

/// The script for one attempt at a block.
pub fn try_read_block(chip: &ResolvedChip, addr: u32, len: u32, legacy: bool) -> (script: Vec<
    HostOp,
>)
    ensures
        script_of(script@) == chip@.read_script(addr, len, legacy),
{
    let setup: [u8; 11] = if legacy {
        read_setup_packet(CMD_READ, chip.addr_bytes, addr, len, 0)
    } else {
        read_setup_packet(CMD_FAST_READ, chip.addr_bytes, addr, len, 1)
    };
    receive_script(UsbReq::SpiReadFlash, setup.as_slice(), len)
}

/// Checks that a read brought as many bytes as were asked for.
pub fn check_read(got: usize, want: u32) -> (r: Result<(), Error>)
    ensures
        r == if got == want {
            Ok::<(), Error>(())
        } else {
            Err(Error::ShortRead { got, want })
        },
{
    if got == want as usize {
        Ok(())
    } else {
        Err(Error::ShortRead { got, want })
    }
}

/// A block to read.
#[derive(Debug, Clone, Copy, PartialEq, Eq, Structural)]
pub struct ReadBlock {
    pub addr: u32,
    pub len: u32,
}

/// The blocks that `[addr, end)` is read in.
pub open spec fn read_blocks(addr: int, end: int) -> Seq<ReadBlock>
    decreases end - addr,
{
    if addr >= end {
        Seq::empty()
    } else if end - addr <= BLOCK_SIZE {
        seq![ReadBlock { addr: addr as u32, len: (end - addr) as u32 }]
    } else {
        seq![ReadBlock { addr: addr as u32, len: BLOCK_SIZE }] + read_blocks(
            addr + BLOCK_SIZE,
            end,
        )
    }
}

/// Splits a read into blocks.
pub fn read(offset: u32, length: u32) -> (r: Result<Vec<ReadBlock>, Error>)
    ensures
        offset + length > u32::MAX ==> r == Err::<Vec<ReadBlock>, _>(
            Error::ReadRangeOverflow { offset, len: length },
        ),
        offset + length <= u32::MAX ==> r is Ok && r->Ok_0@ == read_blocks(
            offset as int,
            offset + length,
        ),
{
    let end: u32 = match offset.checked_add(length) {
        Some(e) => e,
        None => return Err(Error::ReadRangeOverflow { offset, len: length }),
    };
    let mut blocks: Vec<ReadBlock> = Vec::new();
    let mut addr: u32 = offset;
    let ghost goal = read_blocks(offset as int, end as int);
    assert(blocks@ + goal =~= goal);
    while addr < end
        invariant
            addr <= end,
            goal == blocks@ + read_blocks(addr as int, end as int),
        decreases end - addr,
    {
        let left: u32 = end - addr;
        let len: u32 = if BLOCK_SIZE < left {
            BLOCK_SIZE
        } else {
            left
        };
        let ghost before = blocks@;
        blocks.push(ReadBlock { addr, len });
        proof {
            let rest = read_blocks(addr + len, end as int);
            assert(read_blocks(addr as int, end as int) =~= seq![ReadBlock { addr, len }] + rest);
            assert(before.push(ReadBlock { addr, len }) + rest =~= before + (seq![
                ReadBlock { addr, len },
            ] + rest));
        }
        addr = addr + len;
    }
    assert(blocks@ =~= goal);
    Ok(blocks)
}

/// What reading the blocks one after the other brings, from a chip that holds `cells`.
pub open spec fn read_all(cells: Seq<u8>, blocks: Seq<ReadBlock>) -> Seq<u8>
    decreases blocks.len(),
{
    if blocks.len() == 0 {
        Seq::empty()
    } else {
        cells.subrange(blocks[0].addr as int, blocks[0].addr + blocks[0].len) + read_all(
            cells,
            blocks.drop_first(),
        )
    }
}

/// The blocks of a read bring exactly the bytes of the range, each no longer than a block.
pub proof fn law_blocks_read_exactly_the_range(cells: Seq<u8>, offset: int, end: int)
    requires
        0 <= offset <= end <= cells.len(),
        end <= u32::MAX,
    ensures
        read_all(cells, read_blocks(offset, end)) == cells.subrange(offset, end),
        forall|k: int|
            0 <= k < read_blocks(offset, end).len() ==> 0 < (#[trigger] read_blocks(
                offset,
                end,
            )[k]).len <= BLOCK_SIZE,
    decreases end - offset,
{
    let blocks = read_blocks(offset, end);
    if offset >= end {
        assert(cells.subrange(offset, end) =~= Seq::<u8>::empty());
    } else if end - offset <= BLOCK_SIZE {
        assert(blocks.drop_first() =~= Seq::<ReadBlock>::empty());
        assert(read_all(cells, blocks.drop_first()) =~= Seq::<u8>::empty());
        assert(read_all(cells, blocks) =~= cells.subrange(offset, end));
    } else {
        let rest = read_blocks(offset + BLOCK_SIZE, end);
        law_blocks_read_exactly_the_range(cells, offset + BLOCK_SIZE, end);
        assert(blocks.drop_first() =~= rest);
        assert(cells.subrange(offset, offset + BLOCK_SIZE) + cells.subrange(
            offset + BLOCK_SIZE,
            end,
        ) =~= cells.subrange(offset, end));
        assert forall|k: int| 0 <= k < blocks.len() implies 0 < (#[trigger] blocks[k]).len
            <= BLOCK_SIZE by {
            if k > 0 {
                assert(blocks[k] == rest[k - 1]);
            }
        }
    }
}

/// A read is asked for by the packet alone, and brings as many bytes as it says.
pub proof fn law_read_is_asked_for_by_its_packet(req: UsbReq, setup: Seq<u8>, len: u32)
    ensures
        ({
            let script = setup_then_receive(req, setup, len);
            &&& script.len() == 2
            &&& script[0] matches OpModel::Control { req: r, data, payload, settle }
            &&& script[1] matches OpModel::BulkIn { len: n }
            &&& r == req
            &&& data == 0
            &&& payload == setup
            &&& settle
            &&& n == len
        }),
{
}

} // verus!
