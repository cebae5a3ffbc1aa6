//! What scripts do: the programmer's firmware and the chip behind it, seen from outside.
use vstd::prelude::*;

use crate::chip::{ChipModel, EraseType};
use crate::flash::{all_programmed, erased, overlaid, programmed, BlockModel};
use crate::host::OpModel;
use crate::spi::bus::{
    address_bytes, be3, be4, be_value, byte_of, law_address_bytes_spell_the_address,
};
use crate::spi::erase::{
    all_erased, erase_script, erased_by, floor_to,
    law_range_erase_covers_exactly_the_overlapping_units, lemma_all_erased, lemma_floor, op_legal,
    type_of_size, EraseOp,
};
use crate::spi::quad::sqi_read_setup;
use crate::spi::read::{read_blocks, read_setup, ReadBlock};
use crate::spi::write::{
    ceil_to, firmware_image, law_padding_programs_nothing,
    law_raw_write_over_erased_flash_leaves_the_data, law_raw_write_programs_exactly_the_data,
    law_sent_block_arrives_as_the_data, lemma_ceil, padded, rotated, write_chunks, write_setup,
};
use crate::usb::UsbReq;

verus! {

/// A chip in its socket: its cells, whether the write enable latch is set, whether it is busy,
/// and the setup packet that the programmer waits to get data for.
#[verifier::ext_equal]
pub struct Socket {
    pub cells: Seq<u8>,
    pub latch: bool,
    pub busy: bool,
    pub setup: Option<Seq<u8>>,
}

/// A chip that waits for commands.
pub open spec fn idle(cells: Seq<u8>) -> Socket {
    Socket { cells, latch: false, busy: false, setup: None }
}

/// How many bytes an opcode erases, by the first entry at or after `i` that lists it.
pub open spec fn unit_from(types: Seq<EraseType>, opcode: u8, i: int) -> Option<int>
    decreases types.len() - i,
{
    if i < 0 || i >= types.len() {
        None
    } else if types[i].opcode == opcode {
        Some(types[i].size_bytes as int)
    } else {
        unit_from(types, opcode, i + 1)
    }
}

/// Whether every erase opcode stands for one size.
pub open spec fn opcodes_tell_sizes(types: Seq<EraseType>) -> bool {
    forall|i: int, j: int|
        0 <= i < types.len() && 0 <= j < types.len() && (#[trigger] types[i]).opcode == (
        #[trigger] types[j]).opcode ==> types[i].size_bytes == types[j].size_bytes
}

/// Whether an address is one that the chip's address bytes can spell.
pub open spec fn reachable(chip: ChipModel, addr: int) -> bool {
    0 <= addr < if chip.addr_bytes == 4 {
        0x1_0000_0000int
    } else {
        0x100_0000int
    }
}

/// Whether the firmware can carry a write out: page program, write enable and status opcodes,
/// the chip's address width, a page size, an address at the start of a page, and a count of
/// whole pages that is the number of bytes that follow.
pub open spec fn packet_fits(chip: ChipModel, packet: Seq<u8>, bytes: Seq<u8>) -> bool {
    let page = be_value(packet.subrange(5, 7));
    &&& packet.len() == 15
    &&& packet[0] == 0x02
    &&& packet[1] == 0x06
    &&& packet[2] == 0x05
    &&& packet[4] == chip.addr_bytes
    &&& page == chip.page_size
    &&& page > 0
    &&& be_value(packet.subrange(7, 11)) % page == 0
    &&& be_value(packet.subrange(11, 14)) == bytes.len()
    &&& bytes.len() as int % page == 0
}

/// The chip and the programmer after one step.  A busy chip takes no command; erasing takes the
/// latch, and erases the unit that holds the address; the firmware programs the bytes that follow
/// a setup packet at the packet's address, by whole pages.  The chip is busy until it was waited
/// for.
pub open spec fn after_step(chip: ChipModel, s: Socket, op: OpModel) -> Socket {
    match op {
        OpModel::Transfer { tx, rx_len } => if s.busy || rx_len != 0 || tx.len() == 0 {
            s
        } else if tx == seq![0x06u8] {
            Socket { latch: true, ..s }
        } else if !s.latch {
            s
        } else if tx == seq![0xC7u8] {
            Socket {
                cells: erased(s.cells, 0, s.cells.len() as int),
                latch: false,
                busy: true,
                ..s
            }
        } else if tx.len() == 1 + chip.addr_bytes {
            match unit_from(chip.erase_types, tx[0], 0) {
                Some(size) => {
                    let addr = be_value(tx.skip(1));
                    Socket {
                        cells: erased(s.cells, addr - addr % size, size),
                        latch: false,
                        busy: true,
                        ..s
                    }
                },
                None => s,
            }
        } else {
            s
        },
        OpModel::Control { req, data, payload, settle } => Socket {
            setup: if req == UsbReq::SpiWriteFlash {
                Some(payload)
            } else {
                None
            },
            ..s
        },
        OpModel::BulkOut { bytes } => match s.setup {
            Some(packet) => if !s.busy && packet_fits(chip, packet, bytes) {
                Socket {
                    cells: programmed(
                        s.cells,
                        be_value(packet.subrange(7, 11)),
                        firmware_image(bytes, be_value(packet.subrange(5, 7))),
                    ),
                    latch: false,
                    busy: true,
                    setup: None,
                }
            } else {
                Socket { setup: None, ..s }
            },
            None => s,
        },
        OpModel::WaitReady { polls, interval_ms } => if polls > 0 {
            Socket { busy: false, ..s }
        } else {
            s
        },
        _ => s,
    }
}

/// The chip and the programmer after a script.
pub open spec fn after_script(chip: ChipModel, s: Socket, script: Seq<OpModel>) -> Socket
    decreases script.len(),
{
    if script.len() == 0 {
        s
    } else {
        after_script(chip, after_step(chip, s, script[0]), script.drop_first())
    }
}

/// Running two scripts is running their concatenation.
pub proof fn lemma_after_both(chip: ChipModel, s: Socket, a: Seq<OpModel>, b: Seq<OpModel>)
    ensures
        after_script(chip, s, a + b) == after_script(chip, after_script(chip, s, a), b),
    decreases a.len(),
{
    if a.len() == 0 {
        assert(a + b =~= b);
    } else {
        lemma_after_both(chip, after_step(chip, s, a[0]), a.drop_first(), b);
        assert((a + b).drop_first() =~= a.drop_first() + b);
        assert((a + b)[0] == a[0]);
    }
}

proof fn lemma_after_three(chip: ChipModel, s: Socket, script: Seq<OpModel>)
    requires
        script.len() == 3,
    ensures
        after_script(chip, s, script) == after_step(
            chip,
            after_step(chip, after_step(chip, s, script[0]), script[1]),
            script[2],
        ),
{
    reveal_with_fuel(after_script, 4);
    let t = script.drop_first();
    assert(t[0] == script[1]);
    assert(t.drop_first()[0] == script[2]);
    assert(t.drop_first().drop_first().len() == 0);
}

/// Two bytes spell a 16-bit number.
proof fn lemma_two_bytes(word: u32)
    requires
        word <= 0xFFFF,
    ensures
        be_value(seq![byte_of(word, 1), byte_of(word, 0)]) == word,
{
    reveal_with_fuel(be_value, 3);
    let s = seq![byte_of(word, 1), byte_of(word, 0)];
    assert(s.drop_last() =~= seq![byte_of(word, 1)]);
    assert(s.drop_last().drop_last() =~= Seq::<u8>::empty());
}

/// The packet of a block names the block's address, the chip's address width and page size, and
/// as many bytes as follow it: the data filled up to whole pages.
pub proof fn law_write_packet_names_the_block(chip: ChipModel, addr: u32, data: Seq<u8>)
    requires
        chip.block_script(addr, data) is Ok,
        chip.page_size <= 0xFFFF,
    ensures
        ({
            let script = chip.block_script(addr, data)->Ok_0;
            &&& script.len() == 3
            &&& script[0] matches OpModel::Control { req, data: word, payload, settle }
            &&& script[1] matches OpModel::BulkOut { bytes }
            &&& script[2] matches OpModel::WaitReady { polls, interval_ms }
            &&& req == UsbReq::SpiWriteFlash
            &&& word == 0
            &&& !settle
            &&& payload.len() == 15
            &&& payload.take(4) == seq![0x02u8, 0x06, 0x05, 0x00]
            &&& payload[4] == chip.addr_bytes
            &&& be_value(payload.subrange(5, 7)) == chip.page_size
            &&& be_value(payload.subrange(7, 11)) == addr
            &&& be_value(payload.subrange(11, 14)) == bytes.len()
            &&& payload[14] == 0
            &&& bytes.len() as int % chip.page_size as int == 0
            &&& data.len() <= bytes.len() < data.len() + chip.page_size
            // 10 ms for each page, and no less than 200 ms.
            &&& polls * interval_ms >= 200
            &&& polls * interval_ms * chip.page_size >= 10 * bytes.len()
            &&& polls * interval_ms <= 201 || (polls * interval_ms - 1) * chip.page_size <= 10
                * bytes.len()
        }),
{
    let page = chip.page_size as int;
    let len = ceil_to(data.len() as int, page);
    let packet = write_setup(chip.addr_bytes, chip.page_size, addr, len as u32);
    lemma_ceil(data.len() as int, page);
    law_address_bytes_spell_the_address(4, addr);
    law_address_bytes_spell_the_address(3, len as u32);
    lemma_two_bytes(chip.page_size);
    assert(packet.take(4) =~= seq![0x02u8, 0x06, 0x05, 0x00]);
    assert(packet.subrange(5, 7) =~= seq![byte_of(chip.page_size, 1), byte_of(chip.page_size, 0)]);
    assert(packet.subrange(7, 11) =~= be4(addr));
    assert(packet.subrange(11, 14) =~= be3(len as u32));
    law_sent_block_arrives_as_the_data(data, page);
    assert(rotated(padded(data, page), page).len() == len);
    let n = len / page;
    vstd::arithmetic::div_mod::lemma_fundamental_div_mod(len, page);
    assert(0 <= n <= len) by (nonlinear_arith)
        requires
            len == page * n,
            len >= 0,
            page > 0,
    ;
    assert(n * page == len) by (nonlinear_arith)
        requires
            len == page * n,
    ;
    let polls = crate::spi::write::write_polls(n);
    assert(polls * 2 * page >= 10 * len) by (nonlinear_arith)
        requires
            polls * 2 >= 10 * n,
            n * page == len,
            page > 0,
    ;
    if polls * 2 > 201 {
        assert((polls * 2 - 1) * page <= 10 * len) by (nonlinear_arith)
            requires
                polls * 2 <= 10 * n + 1,
                n * page == len,
                page > 0,
        ;
    }
}

/// The script of a block that starts on a page programs the block's data at the block's address,
/// and nothing else.
pub proof fn law_block_script_programs_the_block(
    chip: ChipModel,
    cells: Seq<u8>,
    addr: u32,
    data: Seq<u8>,
)
    requires
        chip.block_script(addr, data) is Ok,
        chip.page_size <= 0xFFFF,
        addr as int % chip.page_size as int == 0,
    ensures
        after_script(chip, idle(cells), chip.block_script(addr, data)->Ok_0) == idle(
            programmed(cells, addr as int, data),
        ),
{
    let page = chip.page_size as int;
    let script = chip.block_script(addr, data)->Ok_0;
    law_write_packet_names_the_block(chip, addr, data);
    law_sent_block_arrives_as_the_data(data, page);
    law_padding_programs_nothing(cells, addr as int, data, page);
    lemma_after_three(chip, idle(cells), script);
    let packet = script[0]->Control_payload;
    let sent = script[1]->bytes;
    assert(packet_fits(chip, packet, sent));
}

/// The scripts of a list of blocks, one after the other.
pub open spec fn block_scripts(chip: ChipModel, blocks: Seq<BlockModel>) -> Seq<OpModel>
    decreases blocks.len(),
{
    if blocks.len() == 0 {
        Seq::empty()
    } else {
        chip.block_script(blocks[0].addr as u32, blocks[0].data)->Ok_0 + block_scripts(
            chip,
            blocks.drop_first(),
        )
    }
}

/// Whether a block has a script and starts on a page.
pub open spec fn sendable(chip: ChipModel, b: BlockModel) -> bool {
    &&& 0 <= b.addr <= u32::MAX
    &&& b.addr % chip.page_size as int == 0
    &&& chip.block_script(b.addr as u32, b.data) is Ok
}

/// The scripts of blocks that start on pages program just those blocks.
pub proof fn law_block_scripts_program_the_blocks(
    chip: ChipModel,
    cells: Seq<u8>,
    blocks: Seq<BlockModel>,
)
    requires
        chip.page_size <= 0xFFFF,
        forall|k: int| 0 <= k < blocks.len() ==> sendable(chip, #[trigger] blocks[k]),
    ensures
        after_script(chip, idle(cells), block_scripts(chip, blocks)) == idle(
            all_programmed(cells, blocks),
        ),
    decreases blocks.len(),
{
    if blocks.len() > 0 {
        let b = blocks[0];
        let next = programmed(cells, b.addr, b.data);
        let rest = blocks.drop_first();
        assert(sendable(chip, b));
        law_block_script_programs_the_block(chip, cells, b.addr as u32, b.data);
        assert forall|k: int| 0 <= k < rest.len() implies sendable(chip, #[trigger] rest[k]) by {
            assert(rest[k] == blocks[k + 1]);
        }
        law_block_scripts_program_the_blocks(chip, next, rest);
        lemma_after_both(
            chip,
            idle(cells),
            chip.block_script(b.addr as u32, b.data)->Ok_0,
            block_scripts(chip, rest),
        );
    }
}

/// A raw write, sent block by block, programs the data at its place and nothing else.
pub proof fn law_raw_write_scripts_program_exactly_the_data(
    chip: ChipModel,
    cells: Seq<u8>,
    addr: int,
    data: Seq<u8>,
)
    requires
        0 < chip.page_size <= 0xFFFF,
        0 <= addr,
        addr + data.len() <= u32::MAX,
    ensures
        after_script(
            chip,
            idle(cells),
            block_scripts(chip, write_chunks(chip.page_size as int, addr, data)),
        ) == idle(programmed(cells, addr, data)),
{
    let page = chip.page_size as int;
    let blocks = write_chunks(page, addr, data);
    law_raw_write_programs_exactly_the_data(cells, page, addr, data);
    lemma_chunks_sendable(chip, addr, data);
    law_block_scripts_program_the_blocks(chip, cells, blocks);
}

proof fn lemma_chunks_sendable(chip: ChipModel, addr: int, data: Seq<u8>)
    requires
        0 < chip.page_size <= 0xFFFF,
        0 <= addr,
        addr + data.len() <= u32::MAX,
    ensures
        forall|k: int|
            0 <= k < write_chunks(chip.page_size as int, addr, data).len() ==> sendable(
                chip,
                #[trigger] write_chunks(chip.page_size as int, addr, data)[k],
            ),
    decreases data.len(),
{
    let page = chip.page_size as int;
    let blocks = write_chunks(page, addr, data);
    law_raw_write_programs_exactly_the_data(Seq::empty(), page, addr, data);
    vstd::arithmetic::div_mod::lemma_mod_bound(addr, page);
    if data.len() > 0 {
        let n = crate::spi::write::first_take(page, addr, data.len() as int);
        let more = write_chunks(page, addr + n, data.skip(n));
        lemma_chunks_sendable(chip, addr + n, data.skip(n));
        vstd::arithmetic::div_mod::lemma_mod_decreases(addr as nat, page as nat);
        lemma_ceil(blocks[0].data.len() as int, page);
        assert forall|k: int| 0 <= k < blocks.len() implies sendable(chip, #[trigger] blocks[k]) by {
            if k > 0 {
                assert(blocks[k] == more[k - 1]);
            }
        }
    }
}

/// The command that an erase script sends is the opcode and bytes that spell the address, most
/// significant first, behind a write enable; the wait that follows is 2 s, or 5 s for blocks.
pub proof fn law_erase_script_names_the_unit(addr_bytes: u8, addr: u32, opcode: u8, long: bool)
    requires
        addr_bytes == 3 || addr_bytes == 4,
    ensures
        ({
            let script = erase_script(addr_bytes, addr, opcode, long);
            &&& script.len() == 3
            &&& script[0] == OpModel::Transfer { tx: seq![0x06u8], rx_len: 0 }
            &&& script[1] matches OpModel::Transfer { tx, rx_len }
            &&& script[2] matches OpModel::WaitReady { polls, interval_ms }
            &&& rx_len == 0
            &&& tx.len() == 1 + addr_bytes
            &&& tx[0] == opcode
            &&& be_value(tx.skip(1)) == if addr_bytes == 4 {
                addr as int
            } else {
                addr as int % 0x100_0000
            }
            &&& polls * interval_ms == if long {
                5000int
            } else {
                2000
            }
        }),
{
    let script = erase_script(addr_bytes, addr, opcode, long);
    law_address_bytes_spell_the_address(addr_bytes, addr);
    let tx = seq![opcode] + address_bytes(addr_bytes, addr);
    assert(tx.skip(1) =~= address_bytes(addr_bytes, addr));
    assert(script[0]->tx =~= seq![0x06u8]);
}

proof fn lemma_unit_from(types: Seq<EraseType>, t: EraseType, i: int)
    requires
        opcodes_tell_sizes(types),
        0 <= i <= types.len(),
        exists|k: int| i <= k < types.len() && #[trigger] types[k] == t,
    ensures
        unit_from(types, t.opcode, i) == Some(t.size_bytes as int),
    decreases types.len() - i,
{
    let k = choose|k: int| i <= k < types.len() && #[trigger] types[k] == t;
    if types[i].opcode != t.opcode {
        assert(i + 1 <= k);
        lemma_unit_from(types, t, i + 1);
    }
}

/// The script of an operation that the chip advertises erases the operation's unit, and nothing
/// else.
pub proof fn law_erase_script_erases_the_unit(chip: ChipModel, cells: Seq<u8>, op: EraseOp)
    requires
        chip.addr_bytes == 3 || chip.addr_bytes == 4,
        opcodes_tell_sizes(chip.erase_types),
        op_legal(op, chip.erase_types),
        reachable(chip, op.addr as int),
    ensures
        after_script(
            chip,
            idle(cells),
            erase_script(chip.addr_bytes, op.addr, op.opcode, op.size > 4096),
        ) == idle(erased(cells, op.addr as int, op.size as int)),
{
    let script = erase_script(chip.addr_bytes, op.addr, op.opcode, op.size > 4096);
    law_erase_script_names_the_unit(chip.addr_bytes, op.addr, op.opcode, op.size > 4096);
    lemma_after_three(chip, idle(cells), script);
    lemma_unit_from(
        chip.erase_types,
        EraseType { size_bytes: op.size, opcode: op.opcode },
        0,
    );
    if chip.addr_bytes == 3 {
        vstd::arithmetic::div_mod::lemma_small_mod(op.addr as nat, 0x100_0000);
    }
    let tx = script[1]->tx;
    assert(tx != seq![0x06u8]);
    assert(tx != seq![0xC7u8]);
}

/// The scripts of a list of operations, one after the other.
pub open spec fn erase_scripts(chip: ChipModel, ops: Seq<EraseOp>) -> Seq<OpModel>
    decreases ops.len(),
{
    if ops.len() == 0 {
        Seq::empty()
    } else {
        erase_script(chip.addr_bytes, ops[0].addr, ops[0].opcode, ops[0].size > 4096)
            + erase_scripts(chip, ops.drop_first())
    }
}

/// Whether an operation is one that the chip advertises, at an address that it can be sent.
pub open spec fn askable(chip: ChipModel, op: EraseOp) -> bool {
    op_legal(op, chip.erase_types) && reachable(chip, op.addr as int)
}

/// The scripts of advertised operations erase just the units of those operations.
pub proof fn law_erase_scripts_erase_the_units(chip: ChipModel, cells: Seq<u8>, ops: Seq<EraseOp>)
    requires
        chip.addr_bytes == 3 || chip.addr_bytes == 4,
        opcodes_tell_sizes(chip.erase_types),
        forall|k: int| 0 <= k < ops.len() ==> askable(chip, #[trigger] ops[k]),
    ensures
        after_script(chip, idle(cells), erase_scripts(chip, ops)) == idle(all_erased(cells, ops)),
    decreases ops.len(),
{
    if ops.len() > 0 {
        let op = ops[0];
        let rest = ops.drop_first();
        assert(askable(chip, op));
        law_erase_script_erases_the_unit(chip, cells, op);
        assert forall|k: int| 0 <= k < rest.len() implies askable(chip, #[trigger] rest[k]) by {
            assert(rest[k] == ops[k + 1]);
        }
        law_erase_scripts_erase_the_units(
            chip,
            erased(cells, op.addr as int, op.size as int),
            rest,
        );
        lemma_after_both(
            chip,
            idle(cells),
            erase_script(chip.addr_bytes, op.addr, op.opcode, op.size > 4096),
            erase_scripts(chip, rest),
        );
    }
}

/// The scripts of a range erase leave 0xFF in every erase unit that the range touches, and the
/// rest of the chip as it was.
pub proof fn law_range_erase_scripts_erase_the_overlapping_units(
    chip: ChipModel,
    cells: Seq<u8>,
    offset: int,
    len: int,
)
    requires
        chip.addr_bytes == 3 || chip.addr_bytes == 4,
        opcodes_tell_sizes(chip.erase_types),
        chip.erases_mixed() || (chip.erase_size > 0 && type_of_size(
            chip.erase_types,
            chip.erase_size as int,
        ) is Some),
        0 <= offset,
        len > 0,
        offset + len <= cells.len() <= u32::MAX,
        chip.addr_bytes == 3 ==> cells.len() <= 0x100_0000,
    ensures
        chip.range_plan(offset, len) is Ok,
        ({
            let unit: int = if chip.erases_mixed() {
                4096
            } else {
                chip.erase_size as int
            };
            let after = after_script(
                chip,
                idle(cells),
                erase_scripts(chip, chip.range_plan(offset, len)->Ok_0),
            );
            &&& after == idle(after.cells)
            &&& after.cells.len() == cells.len()
            &&& forall|b: int|
                0 <= b < cells.len() ==> #[trigger] after.cells[b] == if b / unit >= offset / unit
                    && b / unit <= (offset + len - 1) / unit {
                    0xFFu8
                } else {
                    cells[b]
                }
        }),
{
    let unit: int = if chip.erases_mixed() {
        4096
    } else {
        chip.erase_size as int
    };
    let ops = chip.range_plan(offset, len)->Ok_0;
    law_range_erase_covers_exactly_the_overlapping_units(chip, offset, len);
    lemma_floor(offset, unit);
    lemma_floor(offset + len - 1, unit);
    assert forall|k: int| 0 <= k < ops.len() implies askable(chip, #[trigger] ops[k]) by {
        assert(op_legal(ops[k], chip.erase_types));
        assert(crate::spi::erase::covers(ops[k], ops[k].addr as int));
        assert(erased_by(ops, ops[k].addr as int));
        let last = offset + len - 1;
        assert(ops[k].addr <= last) by {
            assert(ops[k].addr as int % unit == 0);
            lemma_floor(ops[k].addr as int, unit);
            if ops[k].addr > last {
                lemma_unit_order(ops[k].addr as int, last, unit);
            }
        }
    }
    law_erase_scripts_erase_the_units(chip, cells, ops);
    lemma_all_erased(cells, ops);
    assert forall|b: int| 0 <= b < cells.len() implies #[trigger] all_erased(cells, ops)[b] == if b
        / unit >= offset / unit && b / unit <= (offset + len - 1) / unit {
        0xFFu8
    } else {
        cells[b]
    } by {
        lemma_in_units(b, offset, unit);
        lemma_in_units(b, offset + len - 1, unit);
        let c = erased_by(ops, b);
    }
}

/// A multiple of the unit above a position is at least the end of the position's unit.
proof fn lemma_unit_order(a: int, x: int, unit: int)
    requires
        unit > 0,
        a % unit == 0,
        a > x,
    ensures
        a >= floor_to(x, unit) + unit,
{
    let p = a / unit;
    let q = x / unit;
    vstd::arithmetic::div_mod::lemma_fundamental_div_mod(a, unit);
    vstd::arithmetic::div_mod::lemma_fundamental_div_mod(x, unit);
    vstd::arithmetic::div_mod::lemma_mod_bound(x, unit);
    assert(p >= q + 1) by (nonlinear_arith)
        requires
            unit * p > unit * q,
            unit > 0,
    ;
    assert(unit * p >= q * unit + unit) by (nonlinear_arith)
        requires
            p >= q + 1,
            unit > 0,
    ;
}

/// A byte lies at or behind the start of a unit just where its own unit is not before it, and
/// before the end of a unit just where its own unit is not behind it.
proof fn lemma_in_units(b: int, x: int, unit: int)
    requires
        unit > 0,
    ensures
        floor_to(x, unit) <= b <==> x / unit <= b / unit,
        b < floor_to(x, unit) + unit <==> b / unit <= x / unit,
{
    let p = b / unit;
    let q = x / unit;
    vstd::arithmetic::div_mod::lemma_fundamental_div_mod(b, unit);
    vstd::arithmetic::div_mod::lemma_fundamental_div_mod(x, unit);
    vstd::arithmetic::div_mod::lemma_mod_bound(b, unit);
    vstd::arithmetic::div_mod::lemma_mod_bound(x, unit);
    assert(q * unit <= b <==> q <= p) by (nonlinear_arith)
        requires
            unit * p <= b < unit * p + unit,
            unit > 0,
    ;
    assert(b < q * unit + unit <==> p <= q) by (nonlinear_arith)
        requires
            unit * p <= b < unit * p + unit,
            unit > 0,
    ;
}

/// The script of a chip erase leaves 0xFF everywhere, and waits as long as the chip may take.
pub proof fn law_chip_erase_script_erases_everything(chip: ChipModel, cells: Seq<u8>)
    requires
        chip.erase_timeout_ms() > 0,
    ensures
        after_script(chip, idle(cells), chip.chip_erase_script()) == idle(
            Seq::new(cells.len(), |i: int| 0xFFu8),
        ),
        chip.chip_erase_script().len() == 3,
        chip.chip_erase_script()[2] matches OpModel::WaitReady { polls, interval_ms } && {
            &&& polls * interval_ms >= chip.erase_timeout_ms()
            &&& (polls - 1) * interval_ms < chip.erase_timeout_ms()
        },
{
    let script = chip.chip_erase_script();
    lemma_after_three(chip, idle(cells), script);
    assert(script[0]->tx =~= seq![0x06u8]);
    assert(script[1]->tx =~= seq![0xC7u8]);
    assert(seq![0x06u8][0] != seq![0xC7u8][0]);
    assert(erased(cells, 0, cells.len() as int) =~= Seq::new(cells.len(), |i: int| 0xFFu8));
}

/// What a chip that holds `cells` sends back for a read script: the bytes at the address and in
/// the number that the setup packet names, for the plain read, the fast read with its dummy byte,
/// and the read over four lines with its dummy clocks.
pub open spec fn reply_to(chip: ChipModel, cells: Seq<u8>, script: Seq<OpModel>) -> Option<Seq<u8>> {
    match (script[0], script[1]) {
        (
            OpModel::Control { req, data, payload, settle },
            OpModel::BulkIn { len },
        ) => {
            let addr = be_value(payload.subrange(2, 6));
            let count = be_value(payload.subrange(6, 9));
            let plain = req == UsbReq::SpiReadFlash && payload[10] == 0 && (payload[0] == 0x03
                && payload[9] == 0 || payload[0] == 0x0B && payload[9] == 1);
            let quad = req == UsbReq::SqiRdFlash && payload[0] == 0x6B && payload[9] == 8
                && payload[10] == 3;
            if script.len() == 2 && payload.len() == 11 && payload[1] == chip.addr_bytes && count
                == len && (plain || quad) && addr + count <= cells.len() {
                Some(cells.subrange(addr, addr + count))
            } else {
                None
            }
        },
        _ => None,
    }
}

/// A read script, plain or fast or over four lines, brings just the bytes asked for.
pub proof fn law_read_script_brings_the_bytes(
    chip: ChipModel,
    cells: Seq<u8>,
    addr: u32,
    len: u32,
    legacy: bool,
)
    requires
        addr + len <= cells.len(),
        len <= 0xFF_FFFF,
    ensures
        reply_to(chip, cells, chip.read_script(addr, len, legacy)) == Some(
            cells.subrange(addr as int, addr + len),
        ),
        chip.read_script(addr, len, legacy)[0]->Control_payload[0] == if legacy {
            0x03u8
        } else {
            0x0Bu8
        },
        reply_to(chip, cells, chip.quad_script(addr, len)) == Some(
            cells.subrange(addr as int, addr + len),
        ),
{
    law_address_bytes_spell_the_address(4, addr);
    law_address_bytes_spell_the_address(3, len);
    let plain = read_setup(0x03, chip.addr_bytes, addr, len, 0);
    let fast = read_setup(0x0B, chip.addr_bytes, addr, len, 1);
    let quad = sqi_read_setup(chip.addr_bytes, addr, len);
    assert(plain.subrange(2, 6) =~= be4(addr) && plain.subrange(6, 9) =~= be3(len));
    assert(fast.subrange(2, 6) =~= be4(addr) && fast.subrange(6, 9) =~= be3(len));
    assert(quad.subrange(2, 6) =~= be4(addr) && quad.subrange(6, 9) =~= be3(len));
}

/// What the blocks of a read bring, one after the other; each by its own script.
pub open spec fn replies(
    chip: ChipModel,
    cells: Seq<u8>,
    blocks: Seq<ReadBlock>,
    quad: bool,
    legacy: bool,
) -> Seq<u8>
    decreases blocks.len(),
{
    if blocks.len() == 0 {
        Seq::empty()
    } else {
        let script = if quad {
            chip.quad_script(blocks[0].addr, blocks[0].len)
        } else {
            chip.read_script(blocks[0].addr, blocks[0].len, legacy)
        };
        reply_to(chip, cells, script)->0 + replies(chip, cells, blocks.drop_first(), quad, legacy)
    }
}

/// Reading a range, block by block, brings the bytes of the range in order.
pub proof fn law_read_scripts_bring_the_range(
    chip: ChipModel,
    cells: Seq<u8>,
    offset: int,
    end: int,
    quad: bool,
    legacy: bool,
)
    requires
        0 <= offset <= end <= cells.len(),
        end <= u32::MAX,
    ensures
        replies(chip, cells, read_blocks(offset, end), quad, legacy) == cells.subrange(offset, end),
    decreases end - offset,
{
    let blocks = read_blocks(offset, end);
    if offset >= end {
        assert(cells.subrange(offset, end) =~= Seq::<u8>::empty());
    } else {
        let len: int = if end - offset <= 65536 {
            end - offset
        } else {
            65536
        };
        law_read_script_brings_the_bytes(chip, cells, offset as u32, len as u32, legacy);
        assert(blocks[0] == ReadBlock { addr: offset as u32, len: len as u32 });
        assert(blocks.drop_first() =~= read_blocks(offset + len, end));
        law_read_scripts_bring_the_range(chip, cells, offset + len, end, quad, legacy);
        assert(cells.subrange(offset, offset + len) + cells.subrange(offset + len, end)
            =~= cells.subrange(offset, end));
    }
}

} // verus!
