//! The regions command.
use vstd::prelude::*;

use crate::bios::layout::{regions_of, Region, RegionModel};
use crate::text::{
    dec_text, hex_text, left_text, lemma_hex_column, lines_of, push_dec, push_hex, push_left, push_line, push_repeat,
    repeat_char,
};

verus! {

/// The line of one region.
pub open spec fn region_line(r: RegionModel) -> Seq<char> {
    "  "@ + left_text(r.name, 24) + " "@ + hex_text(r.offset as nat, 8) + ".."@ + hex_text(
        (r.offset + r.length - 1) as nat,
        8,
    ) + "  ("@ + dec_text(r.length as nat) + " bytes)"@
}

/// The column heads.
pub open spec fn region_heads() -> Seq<char> {
    left_text("NAME"@, 24) + " "@ + left_text("START"@, 12) + " "@ + left_text("END"@, 12)
        + "  SIZE"@
}

/// The table of the first `n` regions.
pub open spec fn region_table(regions: Seq<RegionModel>, n: int) -> Seq<Seq<char>> {
    seq![region_heads(), repeat_char('-', 60)] + Seq::new(
        n as nat,
        |i: int| region_line(regions[i]),
    )
}

/// The report of the regions in a layout file.
pub open spec fn regions_lines(regions: Seq<RegionModel>, file: Seq<char>) -> Seq<Seq<char>> {
    if regions.len() == 0 {
        seq!["No regions found in "@ + file]
    } else {
        region_table(regions, regions.len() as int)
    }
}

/// Reports the regions in a layout file.
pub fn regions_report(regions: &[Region], file: &str) -> (out: Vec<String>)
    requires
        forall|i: int| 0 <= i < regions@.len() ==> (#[trigger] regions@[i])@.wf(),
    ensures
        lines_of(out@) == regions_lines(regions_of(regions@), file@),
{
    let mut out: Vec<String> = Vec::new();
    let ghost all = regions_of(regions@);
    if regions.len() == 0 {
        let mut s = String::from_str("No regions found in ");
        s.append(file);
        push_line(&mut out, s);
        assert(lines_of(out@) =~= regions_lines(all, file@));
        return out;
    }
    let mut heads = String::new();
    push_left(&mut heads, "NAME", 24);
    heads.append(" ");
    push_left(&mut heads, "START", 12);
    heads.append(" ");
    push_left(&mut heads, "END", 12);
    heads.append("  SIZE");
    assert(heads@ =~= region_heads());
    push_line(&mut out, heads);
    let mut rule = String::new();
    push_repeat(&mut rule, '-', 60);
    assert(rule@ =~= repeat_char('-', 60));
    push_line(&mut out, rule);
    let mut i: usize = 0;
    assert(lines_of(out@) =~= region_table(all, 0));
    while i < regions.len()
        invariant
            forall|i: int| 0 <= i < regions@.len() ==> (#[trigger] regions@[i])@.wf(),
            i <= regions.len(),
            all == regions_of(regions@),
            lines_of(out@) =~= region_table(all, i as int),
        decreases regions.len() - i,
    {
        let r = &regions[i];
        assert(all[i as int] == r@);
        assert(regions@[i as int]@.wf());
        let mut s = String::from_str("  ");
        push_left(&mut s, r.name.as_str(), 24);
        s.append(" ");
        push_hex(&mut s, r.offset as u64, 8);
        s.append("..");
        push_hex(&mut s, r.end_inclusive() as u64, 8);
        s.append("  (");
        push_dec(&mut s, r.length as u64);
        s.append(" bytes)");
        assert(s@ =~= region_line(r@));
        push_line(&mut out, s);
        i += 1;
    }
    out
}

/// A region's line shows its first and last byte in fixed columns, and its length.
pub proof fn law_region_line_shows_first_and_last_byte(r: RegionModel)
    requires
        r.wf(),
        r.name.len() <= 24,
    ensures
        region_line(r).subrange(2, 2 + r.name.len() as int) == r.name,
        region_line(r).subrange(27, 37) == hex_text(r.offset as nat, 8),
        region_line(r).subrange(39, 49) == hex_text((r.offset + r.length - 1) as nat, 8),
        region_line(r).skip(49) == "  ("@ + dec_text(r.length as nat) + " bytes)"@,
{
    reveal_strlit("  ");
    reveal_strlit(" ");
    reveal_strlit("..");
    lemma_hex_column(r.offset as nat);
    lemma_hex_column((r.offset + r.length - 1) as nat);
    let line = region_line(r);
    assert(line.subrange(2, 2 + r.name.len() as int) =~= r.name);
    assert(line.subrange(27, 37) =~= hex_text(r.offset as nat, 8));
    assert(line.subrange(39, 49) =~= hex_text((r.offset + r.length - 1) as nat, 8));
    assert(line.skip(49) =~= "  ("@ + dec_text(r.length as nat) + " bytes)"@);
}

/// A layout file with regions is reported one line a region, in order, below two lines of heads.
pub proof fn law_every_region_has_its_line(regions: Seq<RegionModel>, file: Seq<char>, i: int)
    requires
        0 <= i < regions.len(),
    ensures
        regions_lines(regions, file).len() == regions.len() + 2,
        regions_lines(regions, file)[i + 2] == region_line(regions[i]),
{
}

} // verus!
