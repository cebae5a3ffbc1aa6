//! The erase command.
use vstd::prelude::*;

use crate::chip::ResolvedChip;
use crate::cmd::range::{effective_range, range_on_chip};
use crate::error::Error;
use crate::text::{dec_text, hex_text, push_dec, push_hex};

verus! {

/// What is erased.
#[derive(Debug, Clone, Copy, PartialEq, Eq, Structural)]
pub enum EraseTarget {
    Chip,
    Range { offset: u32, len: u32 },
}

/// What an optional offset and length stand for: the whole chip where neither is given, else
/// a range that begins at 0 where no offset is given.
pub open spec fn target_of(size: u32, offset: Option<u32>, length: Option<u32>) -> Result<
    EraseTarget,
    Error,
> {
    if offset is None && length is None {
        Ok(EraseTarget::Chip)
    } else {
        let start = match offset {
            Some(o) => o,
            None => 0,
        };
        match range_on_chip(size, start, length) {
            Ok((offset, len)) => Ok(EraseTarget::Range { offset, len }),
            Err(e) => Err(e),
        }
    }
}

/// Decides what is erased.
pub fn erase_target(chip: &ResolvedChip, offset: Option<u32>, length: Option<u32>) -> (r: Result<
    EraseTarget,
    Error,
>)
    ensures
        r == target_of(chip.size_bytes, offset, length),
{
    if offset.is_none() && length.is_none() {
        return Ok(EraseTarget::Chip);
    }
    let start: u32 = match offset {
        Some(o) => o,
        None => 0,
    };
    match effective_range(chip, start, length) {
        Ok((offset, len)) => Ok(EraseTarget::Range { offset, len }),
        Err(e) => Err(e),
    }
}

/// The closing line.
pub open spec fn erased_text(target: EraseTarget) -> Seq<char> {
    match target {
        EraseTarget::Chip => "Erased (chip)"@,
        EraseTarget::Range { offset, len } => "Erased "@ + dec_text(len as nat) + " bytes at "@
            + hex_text(offset as nat, 8),
    }
}

/// The closing line.
pub fn erased_line(target: EraseTarget) -> (s: String)
    ensures
        s@ == erased_text(target),
{
    match target {
        EraseTarget::Chip => String::from_str("Erased (chip)"),
        EraseTarget::Range { offset, len } => {
            let mut s = String::from_str("Erased ");
            push_dec(&mut s, len as u64);
            s.append(" bytes at ");
            push_hex(&mut s, offset as u64, 8);
            assert(s@ =~= erased_text(target));
            s
        },
    }
}

/// Without offset and length the whole chip is erased; else a range that begins at the offset, or
/// at 0, has the length, or goes on to the end of the chip, and never leaves the chip.
pub proof fn law_erase_target_stays_on_the_chip(
    size: u32,
    offset: Option<u32>,
    length: Option<u32>,
)
    ensures
        target_of(size, offset, length) == Ok::<EraseTarget, Error>(EraseTarget::Chip) <==> offset
            is None && length is None,
        target_of(size, offset, length) matches Ok(EraseTarget::Range { offset: o, len }) ==> {
            &&& o < size
            &&& o + len <= size
            &&& offset matches Some(given) ==> o == given
            &&& offset is None ==> o == 0
            &&& length matches Some(given) ==> len == given
            &&& length is None ==> o + len == size
        },
        ({
            let from: u32 = if offset is Some {
                offset->0
            } else {
                0
            };
            from < size && (length matches Some(len) ==> from + len <= size) ==> target_of(
                size,
                offset,
                length,
            ) is Ok
        }),
{
}

/// The closing line of a range ends in its offset, ten characters wide, behind its length.
pub proof fn law_closing_line_tells_the_range(offset: u32, len: u32)
    ensures
        ({
            let line = erased_text(EraseTarget::Range { offset, len });
            let n = dec_text(len as nat).len() as int;
            &&& line.len() == n + 27
            &&& line.subrange(7, 7 + n) == dec_text(len as nat)
            &&& line.skip(n + 17) == hex_text(offset as nat, 8)
        }),
{
    reveal_strlit("Erased ");
    reveal_strlit(" bytes at ");
    crate::text::lemma_hex_column(offset as nat);
    let line = erased_text(EraseTarget::Range { offset, len });
    let n = dec_text(len as nat).len() as int;
    assert(line.subrange(7, 7 + n) =~= dec_text(len as nat));
    assert(line.skip(n + 17) =~= hex_text(offset as nat, 8));
}

} // verus!
