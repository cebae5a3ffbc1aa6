//! Which part of the chip a command works on.
use vstd::prelude::*;

use crate::bios::layout::{Region, RegionSource};
use crate::chip::ResolvedChip;
use crate::error::Error;
use crate::text::{lines_of, push_line, push_text};

verus! {

/// How the part of the chip is given.
#[derive(Debug)]
pub enum Selection {
    /// By the name of a region, which is looked up in a source.
    Region { source: RegionSource, name: String },
    /// A layout file without the name of a region: only its regions can be listed.
    LayoutOnly(String),
    /// By addresses.
    Direct,
}

/// Decides how the part of the chip is given.  A region without a layout file is looked up in
/// the firmware map on the chip.
pub fn selection(layout: Option<String>, region: Option<String>) -> (r: Selection)
    ensures
        match (region, layout) {
            (Some(name), Some(path)) => r == (Selection::Region {
                source: RegionSource::LayoutFile(path),
                name,
            }),
            (Some(name), None) => r == (Selection::Region { source: RegionSource::FmapScan, name }),
            (None, Some(path)) => r == Selection::LayoutOnly(path),
            (None, None) => r == Selection::Direct,
        },
{
    match (region, layout) {
        (Some(name), Some(path)) => Selection::Region {
            source: RegionSource::LayoutFile(path),
            name,
        },
        (Some(name), None) => Selection::Region { source: RegionSource::FmapScan, name },
        (None, Some(path)) => Selection::LayoutOnly(path),
        (None, None) => Selection::Direct,
    }
}

/// The lines that list the regions of a layout file.
pub open spec fn available_lines(regions: Seq<Region>, n: int) -> Seq<Seq<char>> {
    seq!["Available regions:"@] + Seq::new(n as nat, |i: int| "  "@ + regions[i].name@)
}

/// Lists the regions of a layout file.
pub fn available_regions(regions: &[Region]) -> (out: Vec<String>)
    ensures
        lines_of(out@) == available_lines(regions@, regions@.len() as int),
{
    let mut out: Vec<String> = Vec::new();
    push_text(&mut out, "Available regions:");
    let mut i: usize = 0;
    assert(lines_of(out@) =~= available_lines(regions@, 0));
    while i < regions.len()
        invariant
            i <= regions.len(),
            lines_of(out@) =~= available_lines(regions@, i as int),
        decreases regions.len() - i,
    {
        let mut s = String::from_str("  ");
        s.append(regions[i].name.as_str());
        push_line(&mut out, s);
        i += 1;
    }
    out
}

/// The range that an offset and an optional length stand for on a chip of the given size: to
/// the end of the chip where no length is given.
pub open spec fn range_on_chip(size: u32, offset: u32, length: Option<u32>) -> Result<
    (u32, u32),
    Error,
> {
    let available = (size - offset) as u32;
    if offset >= size {
        Err(Error::OffsetExceedsChip { offset, size })
    } else {
        match length {
            Some(len) => if len > available {
                Err(Error::LengthExceedsChip { len, available })
            } else {
                Ok((offset, len))
            },
            None => Ok((offset, available)),
        }
    }
}

/// Checks a range against the chip.
pub fn effective_range(chip: &ResolvedChip, offset: u32, length: Option<u32>) -> (r: Result<
    (u32, u32),
    Error,
>)
    ensures
        r == range_on_chip(chip.size_bytes, offset, length),
{
    if offset >= chip.size_bytes {
        return Err(Error::OffsetExceedsChip { offset, size: chip.size_bytes });
    }
    let available: u32 = chip.size_bytes - offset;
    match length {
        Some(len) => if len > available {
            Err(Error::LengthExceedsChip { len, available })
        } else {
            Ok((offset, len))
        },
        None => Ok((offset, available)),
    }
}

/// An accepted range begins and ends on the chip.
pub proof fn law_accepted_range_lies_on_the_chip(size: u32, offset: u32, length: Option<u32>)
    ensures
        range_on_chip(size, offset, length) matches Ok((o, len)) ==> o == offset && o < size && o
            + len <= size,
{
}

/// A range that lies on the chip is accepted as it was given; without a length it goes on to the
/// end of the chip.  Others are refused, by their offset or by their length.
pub proof fn law_range_on_the_chip_is_accepted(size: u32, offset: u32, length: Option<u32>)
    ensures
        offset >= size ==> range_on_chip(size, offset, length) == Err::<(u32, u32), _>(
            Error::OffsetExceedsChip { offset, size },
        ),
        offset < size && length is None ==> (range_on_chip(size, offset, length) matches Ok((o, len))
            && o == offset && o + len == size),
        offset < size ==> (length matches Some(want) ==> {
            &&& offset + want <= size ==> range_on_chip(size, offset, length) == Ok::<_, Error>(
                (offset, want),
            )
            &&& offset + want > size ==> (range_on_chip(size, offset, length) matches Err(
                Error::LengthExceedsChip { len, available },
            ) && len == want && offset + available == size)
        }),
{
}

/// Every region is listed by its name, in order, below a line of heading.
pub proof fn law_every_available_region_is_listed(regions: Seq<Region>, i: int)
    requires
        0 <= i < regions.len(),
    ensures
        ({
            let lines = available_lines(regions, regions.len() as int);
            &&& lines.len() == regions.len() + 1
            &&& lines[0] == "Available regions:"@
            &&& lines[i + 1].skip(2) == regions[i].name@
        }),
{
    reveal_strlit("  ");
    assert(("  "@ + regions[i].name@).skip(2) =~= regions[i].name@);
}

} // verus!
