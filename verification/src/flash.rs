//! A model of the flash array: what erasing and programming do to its cells.
use vstd::prelude::*;

verus! {

/// The array after `size` bytes at `addr` were erased: erased cells read 0xFF.
pub open spec fn erased(cells: Seq<u8>, addr: int, size: int) -> Seq<u8> {
    Seq::new(
        cells.len(),
        |i: int|
            if addr <= i < addr + size {
                0xFFu8
            } else {
                cells[i]
            },
    )
}

/// The array after `data` was programmed at `addr`: programming only clears bits.
pub open spec fn programmed(cells: Seq<u8>, addr: int, data: Seq<u8>) -> Seq<u8> {
    Seq::new(
        cells.len(),
        |i: int|
            if addr <= i < addr + data.len() {
                cells[i] & data[i - addr]
            } else {
                cells[i]
            },
    )
}

/// The array with `data` laid over it at `addr`.
pub open spec fn overlaid(cells: Seq<u8>, addr: int, data: Seq<u8>) -> Seq<u8> {
    Seq::new(
        cells.len(),
        |i: int|
            if addr <= i < addr + data.len() {
                data[i - addr]
            } else {
                cells[i]
            },
    )
}

/// Bytes to program, and where.
pub struct BlockModel {
    pub addr: int,
    pub data: Seq<u8>,
}

/// The array after the blocks were programmed one after the other.
pub open spec fn all_programmed(cells: Seq<u8>, blocks: Seq<BlockModel>) -> Seq<u8>
    decreases blocks.len(),
{
    if blocks.len() == 0 {
        cells
    } else {
        all_programmed(
            programmed(cells, blocks[0].addr, blocks[0].data),
            blocks.drop_first(),
        )
    }
}

/// Programming two lists of blocks is programming their concatenation.
pub proof fn lemma_programmed_concat(cells: Seq<u8>, a: Seq<BlockModel>, b: Seq<BlockModel>)
    ensures
        all_programmed(cells, a + b) == all_programmed(all_programmed(cells, a), b),
    decreases a.len(),
{
    if a.len() == 0 {
        assert(a + b =~= b);
    } else {
        let next = programmed(cells, a[0].addr, a[0].data);
        lemma_programmed_concat(next, a.drop_first(), b);
        assert((a + b).drop_first() =~= a.drop_first() + b);
        assert((a + b)[0] == a[0]);
    }
}

/// Erased cells take whatever is programmed, and 0xFF leaves a cell as it is.
pub proof fn lemma_erased_cell(v: u8)
    ensures
        0xFFu8 & v == v,
        v & 0xFFu8 == v,
{
    assert(0xFFu8 & v == v) by (bit_vector);
    assert(v & 0xFFu8 == v) by (bit_vector);
}

/// A cell that holds every bit of `new` ends up as `new` when `new` is programmed.
pub proof fn lemma_clear_only_cell(old_byte: u8, new: u8)
    requires
        new & !old_byte == 0,
    ensures
        old_byte & new == new,
{
    assert(new & !old_byte == 0 ==> old_byte & new == new) by (bit_vector);
}

} // verus!
