//! The write command.
use vstd::prelude::*;

use crate::args::VoltageChoice;
use crate::chip::{ChipModel, ResolvedChip};
use crate::cmd::compare::{count_diffs, differing, only_bits_cleared, probable_missing_erase};
use crate::error::Error;
use crate::flash::overlaid;
use crate::spi::SpiSpeed;
use crate::text::{dec_text, push_dec};

verus! {

/// Options of the write command.
#[derive(Debug)]
pub struct WriteOpts {
    pub vc: VoltageChoice,
    pub speed: SpiSpeed,
    pub file: String,
    pub offset: u32,
    pub erase: bool,
    pub verify: bool,
    pub smart: bool,
    pub layout: Option<String>,
    pub region: Option<String>,
}

/// Whether a write compares before it erases: always, but where a full erase is forced.
pub fn smart_by_default(erase: bool) -> (smart: bool)
    ensures
        smart == !erase,
{
    !erase
}

/// How data gets onto the chip.
#[derive(Debug, Clone, Copy, PartialEq, Eq, Structural)]
pub enum WriteStrategy {
    /// Read, compare, erase and program what differs.
    Smart,
    /// Erase the whole chip, then program.
    EraseChip,
    /// Erase the affected units, then program.
    EraseRange,
    /// Program only.
    Raw,
}

/// How a file of the given length gets onto the chip: into a region only if it fills it, and
/// only if it fits behind the offset.
pub open spec fn strategy_of(
    chip: ChipModel,
    file_len: int,
    offset: u32,
    region_len: Option<u32>,
    smart: bool,
    erase: bool,
) -> Result<WriteStrategy, Error> {
    if region_len matches Some(len) && file_len != len {
        Err(Error::RegionSizeMismatch { file: file_len as usize, region: region_len->0 })
    } else if offset >= chip.size_bytes {
        Err(Error::OffsetExceedsChip { offset, size: chip.size_bytes })
    } else if file_len > chip.size_bytes - offset {
        Err(
            Error::FileExceedsChip {
                file: file_len as usize,
                available: (chip.size_bytes - offset) as u32,
            },
        )
    } else if smart {
        Ok(WriteStrategy::Smart)
    } else if offset == 0 && file_len == chip.size_bytes {
        Ok(WriteStrategy::EraseChip)
    } else if erase {
        Ok(WriteStrategy::EraseRange)
    } else {
        Ok(WriteStrategy::Raw)
    }
}

/// Decides how a file gets onto the chip.
pub fn write_strategy(
    chip: &ResolvedChip,
    file_len: usize,
    offset: u32,
    region_len: Option<u32>,
    smart: bool,
    erase: bool,
) -> (r: Result<WriteStrategy, Error>)
    ensures
        r == strategy_of(chip@, file_len as int, offset, region_len, smart, erase),
{
    if let Some(len) = region_len {
        if file_len != len as usize {
            return Err(Error::RegionSizeMismatch { file: file_len, region: len });
        }
    }
    if offset >= chip.size_bytes {
        return Err(Error::OffsetExceedsChip { offset, size: chip.size_bytes });
    }
    let available: u32 = chip.size_bytes - offset;
    if file_len > available as usize {
        return Err(Error::FileExceedsChip { file: file_len, available });
    }
    if smart {
        Ok(WriteStrategy::Smart)
    } else if offset == 0 && file_len == chip.size_bytes as usize {
        Ok(WriteStrategy::EraseChip)
    } else if erase {
        Ok(WriteStrategy::EraseRange)
    } else {
        Ok(WriteStrategy::Raw)
    }
}

/// What is accepted for writing fits onto the chip.
pub proof fn law_accepted_write_fits(
    chip: ChipModel,
    file_len: int,
    offset: u32,
    region_len: Option<u32>,
    smart: bool,
    erase: bool,
)
    requires
        file_len >= 0,
    ensures
        strategy_of(chip, file_len, offset, region_len, smart, erase) is Ok ==> {
            &&& offset + file_len <= chip.size_bytes
            &&& region_len matches Some(len) ==> file_len == len
        },
{
}

/// The line after writing.
pub fn written_line(bytes: usize, smart: bool) -> (s: String)
    ensures
        s@ == "Written "@ + dec_text(bytes as nat) + (if smart {
            " bytes (smart)"@
        } else {
            " bytes"@
        }),
{
    let mut s = String::from_str("Written ");
    push_dec(&mut s, bytes as u64);
    if smart {
        s.append(" bytes (smart)");
    } else {
        s.append(" bytes");
    }
    assert(s@ =~= "Written "@ + dec_text(bytes as nat) + (if smart {
        " bytes (smart)"@
    } else {
        " bytes"@
    }));
    s
}

/// What reading back brings to light.
#[derive(Debug, Clone, Copy, PartialEq, Eq, Structural)]
pub enum Verdict {
    Same,
    /// So many bytes differ.
    Differs { count: usize },
    /// So many bytes differ, and all of them only by cleared bits: the flash was probably not
    /// erased.
    NotErased { count: usize },
}

/// What reading back brings to light.
pub open spec fn verdict_of(data: Seq<u8>, readback: Seq<u8>) -> Verdict {
    let count = differing(data, readback, data.len() as int).len() as usize;
    if data == readback {
        Verdict::Same
    } else if only_bits_cleared(data, readback) {
        Verdict::NotErased { count }
    } else {
        Verdict::Differs { count }
    }
}

/// Compares what was written with what is read back.
pub fn verify(data: &[u8], readback: &[u8]) -> (r: Verdict)
    requires
        data@.len() == readback@.len(),
    ensures
        r == verdict_of(data@, readback@),
{
    let count: usize = count_diffs(data, readback);
    proof {
        crate::cmd::compare::lemma_no_diffs(data@, readback@, data@.len() as int);
        assert(data@.take(data@.len() as int) =~= data@);
        assert(readback@.take(data@.len() as int) =~= readback@);
    }
    if count == 0 {
        Verdict::Same
    } else if probable_missing_erase(data, readback) {
        Verdict::NotErased { count }
    } else {
        Verdict::Differs { count }
    }
}

/// Verification passes just where the data is in place: whatever a write left around it, and
/// on no other contents.
pub proof fn law_verification_passes_iff_the_data_is_in_place(
    cells: Seq<u8>,
    offset: int,
    data: Seq<u8>,
    readback: Seq<u8>,
)
    requires
        0 <= offset,
        offset + data.len() <= cells.len(),
    ensures
        verdict_of(
            data,
            overlaid(cells, offset, data).subrange(offset, offset + data.len()),
        ) == Verdict::Same,
        verdict_of(data, readback) == Verdict::Same <==> readback == data,
{
    assert(overlaid(cells, offset, data).subrange(offset, offset + data.len()) =~= data);
}

/// What fits is accepted: a write is refused only where it begins or ends outside the chip, or does
/// not fill the region it is meant for.
pub proof fn law_fitting_write_is_accepted(
    chip: ChipModel,
    file_len: int,
    offset: u32,
    region_len: Option<u32>,
    smart: bool,
    erase: bool,
)
    requires
        file_len >= 0,
    ensures
        strategy_of(chip, file_len, offset, region_len, smart, erase) is Ok <==> offset
            < chip.size_bytes && offset + file_len <= chip.size_bytes && (
        region_len matches Some(len) ==> len == file_len),
{
}

/// A smart write is done as such; without it, the whole chip is erased just where the file covers
/// the whole chip, a part of it just where that was asked for, and nothing otherwise.
pub proof fn law_write_erases_no_more_than_asked_for(
    chip: ChipModel,
    file_len: int,
    offset: u32,
    region_len: Option<u32>,
    smart: bool,
    erase: bool,
)
    requires
        file_len >= 0,
        strategy_of(chip, file_len, offset, region_len, smart, erase) is Ok,
    ensures
        ({
            let how = strategy_of(chip, file_len, offset, region_len, smart, erase)->Ok_0;
            let whole = offset == 0 && file_len == chip.size_bytes;
            &&& how == WriteStrategy::Smart <==> smart
            &&& how == WriteStrategy::EraseChip <==> !smart && whole
            &&& how == WriteStrategy::EraseRange <==> !smart && !whole && erase
            &&& how == WriteStrategy::Raw <==> !smart && !whole && !erase
        }),
{
}

/// The count of a failed verification is the number of positions that differ, and it is put down
/// to a missing erase just where every one of them only has bits cleared.
pub proof fn law_failed_verification_counts_the_differences(data: Seq<u8>, readback: Seq<u8>)
    requires
        data.len() == readback.len(),
        data.len() <= usize::MAX,
        data != readback,
    ensures
        ({
            let n = differing(data, readback, data.len() as int).len();
            let cleared = forall|i: int|
                0 <= i < data.len() ==> #[trigger] data[i] | readback[i] == data[i];
            &&& n > 0
            &&& cleared ==> verdict_of(data, readback) == (Verdict::NotErased { count: n as usize })
            &&& !cleared ==> verdict_of(data, readback) == (Verdict::Differs { count: n as usize })
        }),
{
    crate::cmd::compare::lemma_no_diffs(data, readback, data.len() as int);
    assert(data.take(data.len() as int) =~= data);
    assert(readback.take(data.len() as int) =~= readback);
    assert forall|i: int| 0 <= i < data.len() implies (data[i] | readback[i] == data[i] <==> (
    #[trigger] readback[i]) & !data[i] == 0) by {
        let a: u8 = data[i];
        let b: u8 = readback[i];
        assert(a | b == a <==> b & !a == 0) by (bit_vector);
    }
    if forall|i: int| 0 <= i < data.len() ==> #[trigger] data[i] | readback[i] == data[i] {
        assert forall|i: int| 0 <= i < data.len() && i < readback.len() implies (
        #[trigger] readback[i]) & !data[i] == 0 by {
            assert(data[i] | readback[i] == data[i]);
        }
    } else {
        let i = choose|i: int| 0 <= i < data.len() && #[trigger] data[i] | readback[i] != data[i];
        assert(readback[i] & !data[i] != 0);
    }
}

} // verus!
