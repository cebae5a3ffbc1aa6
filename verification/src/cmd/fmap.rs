//! The fmap command: which firmware format an image has, and what it says.
use vstd::prelude::*;

use crate::bios::amd_psp::{efs_from, print_amd_psp, psp_report, scan_amd_psp, AmdPspInfo, PspModel};
use crate::bios::efifv::{
    efifv_report, print_efifv, scan_efifv, volumes_from, volumes_view, EfiFvInfo, FvModel,
    MAX_FV_COUNT,
};
use crate::bios::ifd::{ifd_of, ifd_report, print_ifd, scan_ifd, IfdInfo, IfdModel};
use crate::bios::layout::{
    areas_of, fmap_of, scan_fmap, AreaModel, FmapArea, FmapHeader, HeaderModel,
};
use crate::text::{
    dec_text, hex_text, left_text, lemma_hex_column, lines_of, push_dec, push_hex, push_left, push_left_dec,
    push_line, push_repeat, push_text, repeat_char,
};

verus! {

/// What an image turned out to be.
#[derive(Debug)]
pub enum FirmwareMap {
    Fmap(FmapHeader, Vec<FmapArea>),
    Ifd(IfdInfo),
    AmdPsp(AmdPspInfo),
    EfiFv(EfiFvInfo),
}

/// The contents of a [`FirmwareMap`].
pub enum MapModel {
    Fmap(HeaderModel, Seq<AreaModel>),
    Ifd(IfdModel),
    AmdPsp(PspModel),
    EfiFv(Seq<FvModel>),
}

impl View for FirmwareMap {
    type V = MapModel;

    open spec fn view(&self) -> MapModel {
        match *self {
            FirmwareMap::Fmap(hdr, areas) => MapModel::Fmap(hdr@, areas_of(areas@)),
            FirmwareMap::Ifd(info) => MapModel::Ifd(info@),
            FirmwareMap::AmdPsp(info) => MapModel::AmdPsp(info@),
            FirmwareMap::EfiFv(info) => MapModel::EfiFv(volumes_view(info.volumes@)),
        }
    }
}

impl MapModel {
    pub open spec fn wf(self) -> bool {
        self matches MapModel::Ifd(info) ==> info.wf()
    }
}

/// What an image is: the first format that fits, in this order.  AMD images hold EFI volumes,
/// so they are recognised before these.
pub open spec fn format_of(data: Seq<u8>) -> Option<MapModel> {
    if fmap_of(data) is Some {
        let (hdr, areas) = fmap_of(data)->0;
        Some(MapModel::Fmap(hdr, areas))
    } else if ifd_of(data) is Some {
        Some(MapModel::Ifd(ifd_of(data)->0))
    } else if efs_from(data, 0) is Some {
        Some(MapModel::AmdPsp(efs_from(data, 0)->0))
    } else {
        let volumes = volumes_from(data, 0, MAX_FV_COUNT as int);
        if volumes.len() > 0 {
            Some(MapModel::EfiFv(volumes))
        } else {
            None
        }
    }
}

/// Recognises the format of an image.
pub fn identify(data: &[u8]) -> (r: Option<FirmwareMap>)
    requires
        data@.len() <= u32::MAX,
    ensures
        match format_of(data@) {
            None => r is None,
            Some(m) => r matches Some(map) && map@ == m && m.wf(),
        },
{
    if let Some((hdr, areas)) = scan_fmap(data) {
        return Some(FirmwareMap::Fmap(hdr, areas));
    }
    if let Some(info) = scan_ifd(data) {
        return Some(FirmwareMap::Ifd(info));
    }
    if let Some(info) = scan_amd_psp(data) {
        return Some(FirmwareMap::AmdPsp(info));
    }
    match scan_efifv(data) {
        Some(info) => Some(FirmwareMap::EfiFv(info)),
        None => None,
    }
}

/// An image with a complete firmware map is an FMAP image whatever else it holds, and one with
/// an AMD structure is never taken for plain EFI volumes.
pub proof fn law_formats_are_tried_in_order(data: Seq<u8>)
    ensures
        fmap_of(data) is Some ==> format_of(data) matches Some(MapModel::Fmap(_, _)),
        fmap_of(data) is None && ifd_of(data) is Some ==> format_of(data) matches Some(
            MapModel::Ifd(_),
        ),
        efs_from(data, 0) is Some ==> !(format_of(data) matches Some(MapModel::EfiFv(_))),
        format_of(data) is None <==> fmap_of(data) is None && ifd_of(data) is None && efs_from(
            data,
            0,
        ) is None && volumes_from(data, 0, MAX_FV_COUNT as int).len() == 0,
{
}

/// The flags of an area: the names of the known ones, or the number where none is known.
pub open spec fn flags_text(flags: u16) -> Seq<char> {
    let s = if flags % 2 == 1 {
        "STATIC"@
    } else {
        Seq::empty()
    };
    let c = if (flags / 2) % 2 == 1 {
        (if s.len() > 0 {
            "|"@
        } else {
            Seq::empty()
        }) + "COMPRESSED"@
    } else {
        Seq::empty()
    };
    let r = if (flags / 4) % 2 == 1 {
        (if s.len() + c.len() > 0 {
            "|"@
        } else {
            Seq::empty()
        }) + "RO"@
    } else {
        Seq::empty()
    };
    if flags % 8 == 0 {
        hex_text(flags as nat, 4)
    } else {
        s + c + r
    }
}

/// Writes the flags of an area.
pub fn format_flags(flags: u16) -> (s: String)
    ensures
        s@ == flags_text(flags),
{
    let mut s = String::new();
    if flags % 8 == 0 {
        push_hex(&mut s, flags as u64, 4);
        assert(s@ =~= flags_text(flags));
        return s;
    }
    proof {
        reveal_strlit("STATIC");
        reveal_strlit("COMPRESSED");
        reveal_strlit("|");
    }
    let mut any = false;
    if flags % 2 == 1 {
        s.append("STATIC");
        any = true;
    }
    if (flags / 2) % 2 == 1 {
        if any {
            s.append("|");
        }
        s.append("COMPRESSED");
        any = true;
    }
    if (flags / 4) % 2 == 1 {
        if any {
            s.append("|");
        }
        s.append("RO");
    }
    assert(s@ =~= flags_text(flags));
    s
}

/// The line of one area.
pub open spec fn area_line(a: AreaModel) -> Seq<char> {
    "  "@ + left_text(a.name, 24) + " "@ + hex_text(a.offset as nat, 8) + "  "@ + left_text(
        dec_text(a.size as nat),
        10,
    ) + "  "@ + flags_text(a.flags)
}

/// The column heads of the area table.
pub open spec fn area_heads() -> Seq<char> {
    left_text("NAME"@, 24) + " "@ + left_text("OFFSET"@, 12) + " "@ + left_text("SIZE"@, 10)
        + "  FLAGS"@
}

/// The lines of the first `n` areas.
pub open spec fn area_lines(areas: Seq<AreaModel>, n: int) -> Seq<Seq<char>> {
    Seq::new(n as nat, |i: int| area_line(areas[i]))
}

/// The lines above the area table.
pub open spec fn header_lines(hdr: HeaderModel, source: Seq<char>) -> Seq<Seq<char>> {
    seq![
        ""@,
        "Format:  FMAP ("@ + source + ")"@,
        "  version : "@ + dec_text(hdr.ver_major as nat) + "."@ + dec_text(hdr.ver_minor as nat),
        "  base    : "@ + hex_text(hdr.base as nat, 16),
        "  size    : "@ + hex_text(hdr.size as nat, 8) + " ("@ + dec_text(hdr.size as nat)
            + " bytes)"@,
        "  name    : "@ + hdr.name,
        "  areas   : "@ + dec_text(hdr.nareas as nat),
        ""@,
    ]
}

/// The report of a firmware map.
pub open spec fn fmap_lines(hdr: HeaderModel, areas: Seq<AreaModel>, source: Seq<char>) -> Seq<
    Seq<char>,
> {
    header_lines(hdr, source) + (if areas.len() == 0 {
        seq!["(no areas defined)"@]
    } else {
        seq![area_heads(), repeat_char('-', 64)] + area_lines(areas, areas.len() as int)
    })
}

fn print_fmap(hdr: &FmapHeader, areas: &[FmapArea], source: &str) -> (out: Vec<String>)
    ensures
        lines_of(out@) == fmap_lines(hdr@, areas_of(areas@), source@),
{
    let mut out: Vec<String> = Vec::new();
    push_text(&mut out, "");
    push_format(&mut out, "FMAP", source);
    let mut s = String::from_str("  version : ");
    push_dec(&mut s, hdr.ver_major as u64);
    s.append(".");
    push_dec(&mut s, hdr.ver_minor as u64);
    push_line(&mut out, s);
    let mut s = String::from_str("  base    : ");
    push_hex(&mut s, hdr.base, 16);
    push_line(&mut out, s);
    let mut s = String::from_str("  size    : ");
    push_hex(&mut s, hdr.size as u64, 8);
    s.append(" (");
    push_dec(&mut s, hdr.size as u64);
    s.append(" bytes)");
    push_line(&mut out, s);
    let mut s = String::from_str("  name    : ");
    s.append(hdr.name.as_str());
    push_line(&mut out, s);
    let mut s = String::from_str("  areas   : ");
    push_dec(&mut s, hdr.nareas as u64);
    push_line(&mut out, s);
    push_text(&mut out, "");
    proof {
        reveal_strlit("Format:  ");
        reveal_strlit("FMAP");
        reveal_strlit(" (");
        reveal_strlit("Format:  FMAP (");
        assert("Format:  "@ + "FMAP"@ + " ("@ =~= "Format:  FMAP ("@);
        assert(lines_of(out@) =~= header_lines(hdr@, source@));
    }
    let ghost all = areas_of(areas@);
    if areas.len() == 0 {
        push_text(&mut out, "(no areas defined)");
        assert(lines_of(out@) =~= fmap_lines(hdr@, all, source@));
        return out;
    }
    let mut heads = String::new();
    push_left(&mut heads, "NAME", 24);
    heads.append(" ");
    push_left(&mut heads, "OFFSET", 12);
    heads.append(" ");
    push_left(&mut heads, "SIZE", 10);
    heads.append("  FLAGS");
    assert(heads@ =~= area_heads());
    push_line(&mut out, heads);
    let mut rule = String::new();
    push_repeat(&mut rule, '-', 64);
    assert(rule@ =~= repeat_char('-', 64));
    push_line(&mut out, rule);
    let ghost head = lines_of(out@);
    let mut i: usize = 0;
    while i < areas.len()
        invariant
            i <= areas.len(),
            all == areas_of(areas@),
            lines_of(out@) =~= head + area_lines(all, i as int),
        decreases areas.len() - i,
    {
        let a = &areas[i];
        assert(all[i as int] == a@);
        let mut s = String::from_str("  ");
        push_left(&mut s, a.name.as_str(), 24);
        s.append(" ");
        push_hex(&mut s, a.offset as u64, 8);
        s.append("  ");
        push_left_dec(&mut s, a.size as u64, 10);
        s.append("  ");
        let flags = format_flags(a.flags);
        s.append(flags.as_str());
        assert(s@ =~= area_line(a@));
        push_line(&mut out, s);
        i += 1;
    }
    assert(lines_of(out@) =~= fmap_lines(hdr@, all, source@));
    out
}

/// The line that names the format.
pub open spec fn format_line(format: Seq<char>, source: Seq<char>) -> Seq<char> {
    "Format:  "@ + format + " ("@ + source + ")"@
}

fn push_format(out: &mut Vec<String>, format: &str, source: &str)
    ensures
        lines_of(final(out)@) == lines_of(old(out)@).push(format_line(format@, source@)),
{
    let mut s = String::from_str("Format:  ");
    s.append(format);
    s.append(" (");
    s.append(source);
    s.append(")");
    assert(s@ =~= format_line(format@, source@));
    push_line(out, s);
}

/// The report of an image.
pub open spec fn map_lines(
    map: MapModel,
    source: Seq<char>,
    flash_size: Option<u32>,
    data_len: u32,
) -> Seq<Seq<char>> {
    match map {
        MapModel::Fmap(hdr, areas) => fmap_lines(hdr, areas, source),
        MapModel::Ifd(info) => seq![""@, format_line("Intel IFD"@, source)] + ifd_report(
            info,
            flash_size,
        ),
        MapModel::AmdPsp(info) => seq![""@, format_line("AMD PSP"@, source)] + psp_report(
            info,
            data_len,
        ),
        MapModel::EfiFv(volumes) => seq![""@, format_line("EFI Firmware Volume"@, source)]
            + efifv_report(volumes),
    }
}

fn append_lines(out: &mut Vec<String>, more: Vec<String>)
    ensures
        lines_of(final(out)@) == lines_of(old(out)@) + lines_of(more@),
{
    let mut rest = more;
    out.append(&mut rest);
    assert(lines_of(out@) =~= lines_of(old(out)@) + lines_of(more@));
}

/// Reports what an image turned out to be.
pub fn map_report(map: &FirmwareMap, source: &str, flash_size: Option<u32>, data_len: u32) -> (out:
    Vec<String>)
    requires
        map@.wf(),
    ensures
        lines_of(out@) == map_lines(map@, source@, flash_size, data_len),
{
    let mut out: Vec<String> = Vec::new();
    match map {
        FirmwareMap::Fmap(hdr, areas) => {
            return print_fmap(hdr, areas.as_slice(), source);
        },
        FirmwareMap::Ifd(info) => {
            push_text(&mut out, "");
            push_format(&mut out, "Intel IFD", source);
            append_lines(&mut out, print_ifd(info, flash_size));
        },
        FirmwareMap::AmdPsp(info) => {
            push_text(&mut out, "");
            push_format(&mut out, "AMD PSP", source);
            append_lines(&mut out, print_amd_psp(info, data_len));
        },
        FirmwareMap::EfiFv(info) => {
            push_text(&mut out, "");
            push_format(&mut out, "EFI Firmware Volume", source);
            append_lines(&mut out, print_efifv(info, data_len));
        },
    }
    assert(lines_of(out@) =~= map_lines(map@, source@, flash_size, data_len));
    out
}

/// How much of a chip is scanned.
pub fn scan_length(scan_limit: u32, size_bytes: u32) -> (r: u32)
    ensures
        r == if scan_limit < size_bytes {
            scan_limit
        } else {
            size_bytes
        },
{
    if scan_limit < size_bytes {
        scan_limit
    } else {
        size_bytes
    }
}

/// An area's line shows its name, its offset and its size in fixed columns.
pub proof fn law_area_line_shows_offset_and_size(a: AreaModel)
    requires
        a.name.len() <= 24,
    ensures
        area_line(a).subrange(2, 2 + a.name.len() as int) == a.name,
        area_line(a).subrange(27, 37) == hex_text(a.offset as nat, 8),
        area_line(a).skip(39) == left_text(dec_text(a.size as nat), 10) + "  "@ + flags_text(
            a.flags,
        ),
{
    reveal_strlit("  ");
    reveal_strlit(" ");
    lemma_hex_column(a.offset as nat);
    let line = area_line(a);
    assert(line.subrange(2, 2 + a.name.len() as int) =~= a.name);
    assert(line.subrange(27, 37) =~= hex_text(a.offset as nat, 8));
    assert(line.skip(39) =~= left_text(dec_text(a.size as nat), 10) + "  "@ + flags_text(a.flags));
}

/// The report of a firmware map has one line an area, in order, below ten lines of heads.
pub proof fn law_every_area_has_its_line(
    hdr: HeaderModel,
    areas: Seq<AreaModel>,
    source: Seq<char>,
    i: int,
)
    requires
        0 <= i < areas.len(),
    ensures
        fmap_lines(hdr, areas, source).len() == areas.len() + 10,
        fmap_lines(hdr, areas, source)[i + 10] == area_line(areas[i]),
{
}

/// The flags of an area are told by name where one of the three known bits is set, each name just
/// where its bit is, in the order of the bits; else as a number.
pub proof fn law_flags_are_told_by_name(flags: u16)
    ensures
        ({
            let text = flags_text(flags);
            let low = flags as int % 8;
            &&& low == 0 ==> text == hex_text(flags as nat, 4)
            &&& low == 1 ==> text == "STATIC"@
            &&& low == 2 ==> text == "COMPRESSED"@
            &&& low == 3 ==> text == "STATIC"@ + "|"@ + "COMPRESSED"@
            &&& low == 4 ==> text == "RO"@
            &&& low == 5 ==> text == "STATIC"@ + "|"@ + "RO"@
            &&& low == 6 ==> text == "COMPRESSED"@ + "|"@ + "RO"@
            &&& low == 7 ==> text == "STATIC"@ + "|"@ + "COMPRESSED"@ + "|"@ + "RO"@
        }),
{
    reveal_strlit("STATIC");
    reveal_strlit("COMPRESSED");
    reveal_strlit("RO");
    reveal_strlit("|");
    let text = flags_text(flags);
    let low = flags as int % 8;
    if low == 1 {
        assert(text =~= "STATIC"@);
    } else if low == 2 {
        assert(text =~= "COMPRESSED"@);
    } else if low == 3 {
        assert(text =~= "STATIC"@ + "|"@ + "COMPRESSED"@);
    } else if low == 4 {
        assert(text =~= "RO"@);
    } else if low == 5 {
        assert(text =~= "STATIC"@ + "|"@ + "RO"@);
    } else if low == 6 {
        assert(text =~= "COMPRESSED"@ + "|"@ + "RO"@);
    } else if low == 7 {
        assert(text =~= "STATIC"@ + "|"@ + "COMPRESSED"@ + "|"@ + "RO"@);
    }
}

/// Every report begins with a blank line and the format, behind which the source stands in
/// brackets.
pub proof fn law_report_names_format_and_source(
    map: MapModel,
    source: Seq<char>,
    flash_size: Option<u32>,
    data_len: u32,
)
    ensures
        ({
            let lines = map_lines(map, source, flash_size, data_len);
            &&& lines.len() >= 2
            &&& lines[0] == ""@
            &&& lines[1].take(9) == "Format:  "@
            &&& lines[1].skip(lines[1].len() - source.len() - 2) == "("@ + source + ")"@
            &&& map is Fmap ==> lines[1].subrange(9, 13) == "FMAP"@
            &&& map is Ifd ==> lines[1].subrange(9, 18) == "Intel IFD"@
            &&& map is AmdPsp ==> lines[1].subrange(9, 16) == "AMD PSP"@
            &&& map is EfiFv ==> lines[1].subrange(9, 28) == "EFI Firmware Volume"@
        }),
{
    reveal_strlit("Format:  ");
    reveal_strlit("Format:  FMAP (");
    reveal_strlit("FMAP");
    reveal_strlit("Intel IFD");
    reveal_strlit("AMD PSP");
    reveal_strlit("EFI Firmware Volume");
    reveal_strlit(" (");
    reveal_strlit("(");
    reveal_strlit(")");
    let lines = map_lines(map, source, flash_size, data_len);
    let l = lines[1];
    assert(l.take(9) =~= "Format:  "@);
    assert(l.skip(l.len() - source.len() - 2) =~= "("@ + source + ")"@);
    match map {
        MapModel::Fmap(..) => assert(l.subrange(9, 13) =~= "FMAP"@),
        MapModel::Ifd(..) => assert(l.subrange(9, 18) =~= "Intel IFD"@),
        MapModel::AmdPsp(..) => assert(l.subrange(9, 16) =~= "AMD PSP"@),
        MapModel::EfiFv(..) => assert(l.subrange(9, 28) =~= "EFI Firmware Volume"@),
    }
}

/// Behind the two lines that name the format stands the report of what the image holds.
pub proof fn law_report_tells_what_the_image_holds(
    map: MapModel,
    source: Seq<char>,
    flash_size: Option<u32>,
    data_len: u32,
)
    ensures
        ({
            let body = map_lines(map, source, flash_size, data_len).skip(2);
            &&& map matches MapModel::Ifd(info) ==> body == ifd_report(info, flash_size)
            &&& map matches MapModel::AmdPsp(info) ==> body == psp_report(info, data_len)
            &&& map matches MapModel::EfiFv(volumes) ==> body == efifv_report(volumes)
        }),
{
    let lines = map_lines(map, source, flash_size, data_len);
    match map {
        MapModel::Fmap(..) => {},
        MapModel::Ifd(info) => assert(lines.skip(2) =~= ifd_report(info, flash_size)),
        MapModel::AmdPsp(info) => assert(lines.skip(2) =~= psp_report(info, data_len)),
        MapModel::EfiFv(volumes) => assert(lines.skip(2) =~= efifv_report(volumes)),
    }
}

/// An image is reported as what its format reads from it, and nothing else.
pub proof fn law_format_holds_what_is_read(data: Seq<u8>)
    ensures
        match format_of(data) {
            Some(MapModel::Fmap(hdr, areas)) => fmap_of(data) == Some((hdr, areas)),
            Some(MapModel::Ifd(info)) => ifd_of(data) == Some(info) && fmap_of(data) is None,
            Some(MapModel::AmdPsp(info)) => efs_from(data, 0) == Some(info) && fmap_of(data) is None
                && ifd_of(data) is None,
            Some(MapModel::EfiFv(volumes)) => volumes.len() > 0 && volumes == volumes_from(
                data,
                0,
                32,
            ) && fmap_of(data) is None && ifd_of(data) is None && efs_from(data, 0) is None,
            None => true,
        },
{
}

} // verus!
