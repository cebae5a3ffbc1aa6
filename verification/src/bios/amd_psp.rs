//! AMD Embedded Firmware Structure (EFS) and the directories it points at.
use vstd::prelude::*;

use crate::bytes::{law_numbers_are_spelled_low_byte_first, le32, le_value, read_le32};
use crate::text::{dec_text, hex_text, lines_of, push_dec, push_hex, push_line, push_text};

verus! {

/// The signature of an EFS.
pub const EFS_COOKIE: u32 = 0x55AA_55AA;

pub const PSP_L1_COOKIE: u32 = 0x5053_5024;

pub const PSP_COMBO_COOKIE: u32 = 0x5053_5032;

pub const BIOS_L1_COOKIE: u32 = 0x4448_4224;

pub const BIOS_COMBO_COOKIE: u32 = 0x4448_4232;

/// The offsets at which an EFS may lie, in the order they are tried.
pub open spec fn efs_offsets() -> Seq<u32> {
    seq![
        0x0002_0000u32,
        0x0006_0000,
        0x000A_0000,
        0x000E_0000,
        0x00FA_0000,
        0x00FE_0000,
    ]
}

/// The offsets at which an EFS may lie.
pub fn efs_search_offsets() -> (r: [u32; 6])
    ensures
        r@ == efs_offsets(),
{
    let r: [u32; 6] = [
        0x0002_0000,
        0x0006_0000,
        0x000A_0000,
        0x000E_0000,
        0x00FA_0000,
        0x00FE_0000,
    ];
    assert(r@ =~= efs_offsets());
    r
}

/// A directory.
#[derive(Debug)]
pub struct AmdDir {
    pub offset: u32,
    pub cookie: String,
    pub num_entries: u32,
}

/// An EFS and its directories.
#[derive(Debug)]
pub struct AmdPspInfo {
    pub efs_offset: u32,
    pub psp_dir: Option<AmdDir>,
    pub bios_dir: Option<AmdDir>,
}

/// The contents of an [`AmdDir`].
#[verifier::ext_equal]
pub struct DirModel {
    pub offset: u32,
    pub cookie: Seq<char>,
    pub num_entries: u32,
}

impl View for AmdDir {
    type V = DirModel;

    open spec fn view(&self) -> DirModel {
        DirModel { offset: self.offset, cookie: self.cookie@, num_entries: self.num_entries }
    }
}

/// The contents of a directory that may be missing.
pub open spec fn dir_view(dir: Option<AmdDir>) -> Option<DirModel> {
    match dir {
        Some(d) => Some(d@),
        None => None,
    }
}

/// The contents of an [`AmdPspInfo`].
#[verifier::ext_equal]
pub struct PspModel {
    pub efs_offset: u32,
    pub psp_dir: Option<DirModel>,
    pub bios_dir: Option<DirModel>,
}

impl View for AmdPspInfo {
    type V = PspModel;

    open spec fn view(&self) -> PspModel {
        PspModel {
            efs_offset: self.efs_offset,
            psp_dir: dir_view(self.psp_dir),
            bios_dir: dir_view(self.bios_dir),
        }
    }
}

/// The name of a directory signature.
pub open spec fn cookie_text(cookie: u32) -> Option<Seq<char>> {
    if cookie == PSP_L1_COOKIE {
        Some("$PSP"@)
    } else if cookie == PSP_COMBO_COOKIE {
        Some("2PSP"@)
    } else if cookie == BIOS_L1_COOKIE {
        Some("$BHD"@)
    } else if cookie == BIOS_COMBO_COOKIE {
        Some("2BHD"@)
    } else {
        None
    }
}

fn cookie_name(cookie: u32) -> (r: Option<&'static str>)
    ensures
        match r {
            Some(s) => cookie_text(cookie) == Some(s@),
            None => cookie_text(cookie) is None,
        },
{
    if cookie == PSP_L1_COOKIE {
        Some("$PSP")
    } else if cookie == PSP_COMBO_COOKIE {
        Some("2PSP")
    } else if cookie == BIOS_L1_COOKIE {
        Some("$BHD")
    } else if cookie == BIOS_COMBO_COOKIE {
        Some("2BHD")
    } else {
        None
    }
}

/// Where a directory pointer leads: the pointer itself, or its low 24 bits where the image
/// ends before it.
pub open spec fn dir_offset(len: int, ptr: u32) -> Option<int> {
    if ptr == 0 || ptr == 0xFFFF_FFFF || ptr == 0xFFFF_FFFE {
        None
    } else if ptr + 8 <= len {
        Some(ptr as int)
    } else if ptr as int % 0x100_0000 + 8 <= len {
        Some(ptr as int % 0x100_0000)
    } else {
        None
    }
}

/// The directory that a pointer leads to: a known signature, and the entry count eight bytes
/// on, 0 where the image ends before it.
pub open spec fn dir_of(data: Seq<u8>, ptr: u32) -> Option<DirModel> {
    match dir_offset(data.len() as int, ptr) {
        None => None,
        Some(at) => match cookie_text(le32(data, at)) {
            None => None,
            Some(cookie) => Some(
                DirModel {
                    offset: at as u32,
                    cookie,
                    num_entries: if at + 12 <= data.len() {
                        le32(data, at + 8)
                    } else {
                        0
                    },
                },
            ),
        },
    }
}

fn resolve_dir(data: &[u8], ptr: u32) -> (r: Option<AmdDir>)
    ensures
        dir_view(r) == dir_of(data@, ptr),
{
    if ptr == 0 || ptr == 0xFFFF_FFFF || ptr == 0xFFFF_FFFE {
        return None;
    }
    let len: u64 = data.len() as u64;
    let masked: u32 = ptr % 0x100_0000;
    let offset: u32 = if ptr as u64 + 8 <= len {
        ptr
    } else if masked as u64 + 8 <= len {
        masked
    } else {
        return None;
    };
    let at: usize = offset as usize;
    let cookie = match cookie_name(read_le32(data, at)) {
        Some(c) => c.to_owned(),
        None => return None,
    };
    let num_entries: u32 = if offset as u64 + 12 <= len {
        read_le32(data, at + 8)
    } else {
        0
    };
    Some(AmdDir { offset, cookie, num_entries })
}

/// The EFS at an offset.  One without any directory is taken for garbage.
pub open spec fn efs_at(data: Seq<u8>, at: u32) -> Option<PspModel> {
    let psp_dir = dir_of(data, le32(data, at + 0x14));
    let bios_dir = dir_of(data, le32(data, at + 0x28));
    if at + 0x2C > data.len() || le32(data, at as int) != EFS_COOKIE || (psp_dir is None
        && bios_dir is None) {
        None
    } else {
        Some(PspModel { efs_offset: at, psp_dir, bios_dir })
    }
}

fn try_parse_efs(data: &[u8], efs_offset: u32) -> (r: Option<AmdPspInfo>)
    ensures
        match efs_at(data@, efs_offset) {
            None => r is None,
            Some(m) => r matches Some(info) && info@ == m,
        },
{
    if efs_offset as u64 + 0x2C > data.len() as u64 {
        return None;
    }
    let base: usize = efs_offset as usize;
    if read_le32(data, base) != EFS_COOKIE {
        return None;
    }
    let psp_dir = resolve_dir(data, read_le32(data, base + 0x14));
    let bios_dir = resolve_dir(data, read_le32(data, base + 0x28));
    if psp_dir.is_none() && bios_dir.is_none() {
        return None;
    }
    Some(AmdPspInfo { efs_offset, psp_dir, bios_dir })
}

/// The first EFS among the offsets from the `i`-th on.
pub open spec fn efs_from(data: Seq<u8>, i: int) -> Option<PspModel>
    decreases 6 - i,
{
    if i < 0 || i >= 6 {
        None
    } else {
        match efs_at(data, efs_offsets()[i]) {
            Some(m) => Some(m),
            None => efs_from(data, i + 1),
        }
    }
}

/// Finds the EFS of an image.
pub fn scan_amd_psp(data: &[u8]) -> (r: Option<AmdPspInfo>)
    ensures
        match efs_from(data@, 0) {
            None => r is None,
            Some(m) => r matches Some(info) && info@ == m,
        },
{
    let offsets: [u32; 6] = efs_search_offsets();
    let mut i: usize = 0;
    while i < 6
        invariant
            i <= 6,
            offsets@ == efs_offsets(),
            efs_from(data@, 0) == efs_from(data@, i as int),
        decreases 6 - i,
    {
        if let Some(info) = try_parse_efs(data, offsets[i]) {
            return Some(info);
        }
        i += 1;
    }
    None
}

/// The line of a directory.
pub open spec fn dir_line(head: Seq<char>, dir: Option<DirModel>) -> Seq<char> {
    match dir {
        Some(d) => head + hex_text(d.offset as nat, 8) + "  ["@ + d.cookie + ", "@ + dec_text(
            d.num_entries as nat,
        ) + " entries]"@,
        None => head + "not found"@,
    }
}

fn push_dir(out: &mut Vec<String>, head: &str, dir: &Option<AmdDir>)
    ensures
        lines_of(final(out)@) == lines_of(old(out)@).push(dir_line(head@, dir_view(*dir))),
{
    let mut s = String::new();
    s.append(head);
    match dir {
        Some(d) => {
            push_hex(&mut s, d.offset as u64, 8);
            s.append("  [");
            s.append(d.cookie.as_str());
            s.append(", ");
            push_dec(&mut s, d.num_entries as u64);
            s.append(" entries]");
        },
        None => {
            s.append("not found");
        },
    }
    assert(s@ =~= dir_line(head@, dir_view(*dir)));
    push_line(out, s);
}

/// The report of an EFS.
pub open spec fn psp_report(info: PspModel, file_size: u32) -> Seq<Seq<char>> {
    seq![
        "AMD Platform Security Processor (PSP)"@,
        "  EFS at     : "@ + hex_text(info.efs_offset as nat, 8),
        dir_line("  PSP dir    : "@, info.psp_dir),
        dir_line("  BIOS dir   : "@, info.bios_dir),
    ] + (if file_size > 0 {
        seq!["  Flash size : "@ + dec_text((file_size / 0x10_0000) as nat) + " MB"@]
    } else {
        Seq::empty()
    })
}

/// Reports an EFS.
pub fn print_amd_psp(info: &AmdPspInfo, file_size: u32) -> (out: Vec<String>)
    ensures
        lines_of(out@) == psp_report(info@, file_size),
{
    let mut out: Vec<String> = Vec::new();
    push_text(&mut out, "AMD Platform Security Processor (PSP)");
    let mut s = String::from_str("  EFS at     : ");
    push_hex(&mut s, info.efs_offset as u64, 8);
    push_line(&mut out, s);
    push_dir(&mut out, "  PSP dir    : ", &info.psp_dir);
    push_dir(&mut out, "  BIOS dir   : ", &info.bios_dir);
    if file_size > 0 {
        let mut s = String::from_str("  Flash size : ");
        push_dec(&mut s, (file_size / 0x10_0000) as u64);
        s.append(" MB");
        push_line(&mut out, s);
    }
    assert(lines_of(out@) =~= psp_report(info@, file_size));
    out
}

/// Whether four bytes are a directory signature: PSP or BHD behind a dollar sign or a two.
pub open spec fn names_directory(b: Seq<u8>) -> bool {
    &&& b[0] == 0x24 || b[0] == 0x32
    &&& (b[1] == 0x50 && b[2] == 0x53 && b[3] == 0x50) || (b[1] == 0x42 && b[2] == 0x48 && b[3]
        == 0x44)
}

/// A pointer leads to a directory just where a directory signature stands at it, or, where the
/// image ends before it, at its low 24 bits: the directory's name is that signature, and its
/// entries are counted eight bytes behind.  Blank pointers lead nowhere.
pub proof fn law_pointer_leads_to_a_signed_directory(data: Seq<u8>, ptr: u32)
    ensures
        ({
            let at: int = if ptr + 8 <= data.len() {
                ptr as int
            } else {
                ptr as int % 0x100_0000
            };
            let blank = ptr == 0 || ptr == 0xFFFF_FFFF || ptr == 0xFFFF_FFFE;
            let fits = at + 8 <= data.len();
            &&& dir_of(data, ptr) is Some <==> !blank && fits && names_directory(
                data.subrange(at, at + 4),
            )
            &&& dir_of(data, ptr) matches Some(d) ==> {
                &&& d.offset == at
                &&& d.cookie.len() == 4
                &&& forall|k: int| 0 <= k < 4 ==> (#[trigger] d.cookie[k]) as int == data[at + k]
                &&& d.num_entries == if at + 12 <= data.len() {
                    le_value(data.subrange(at + 8, at + 12))
                } else {
                    0
                }
            }
        }),
{
    let at: int = if ptr + 8 <= data.len() {
        ptr as int
    } else {
        ptr as int % 0x100_0000
    };
    if at + 8 <= data.len() {
        let b = data.subrange(at, at + 4);
        assert(b[0] == data[at] && b[1] == data[at + 1] && b[2] == data[at + 2] && b[3] == data[at
            + 3]);
        reveal_strlit("$PSP");
        reveal_strlit("2PSP");
        reveal_strlit("$BHD");
        reveal_strlit("2BHD");
        law_numbers_are_spelled_low_byte_first(data, at + 8);
    }
}

/// An image has a firmware structure at an offset just where the bytes AA 55 AA 55 stand there,
/// and the pointer at 0x14 or the one at 0x28 behind them leads to a directory.
pub proof fn law_structure_points_at_its_directories(data: Seq<u8>, at: u32)
    requires
        at + 0x2C <= data.len(),
    ensures
        ({
            let psp = dir_of(data, le_value(data.subrange(at + 0x14, at + 0x18)) as u32);
            let bios = dir_of(data, le_value(data.subrange(at + 0x28, at + 0x2C)) as u32);
            let signed = data.subrange(at as int, at + 4) == seq![0xAAu8, 0x55, 0xAA, 0x55];
            &&& efs_at(data, at) is Some <==> signed && (psp is Some || bios is Some)
            &&& efs_at(data, at) matches Some(m) ==> m.efs_offset == at && m.psp_dir == psp
                && m.bios_dir == bios
        }),
{
    law_numbers_are_spelled_low_byte_first(data, at + 0x14);
    law_numbers_are_spelled_low_byte_first(data, at + 0x28);
    lemma_efs_cookie(data, at as int);
}

proof fn lemma_efs_cookie(data: Seq<u8>, at: int)
    requires
        0 <= at,
        at + 4 <= data.len(),
    ensures
        le32(data, at) == EFS_COOKIE <==> data.subrange(at, at + 4) == seq![0xAAu8, 0x55, 0xAA, 0x55],
{
    let b = data.subrange(at, at + 4);
    assert(b[0] == data[at] && b[1] == data[at + 1] && b[2] == data[at + 2] && b[3] == data[at + 3]);
    if le32(data, at) == EFS_COOKIE {
        assert(b =~= seq![0xAAu8, 0x55, 0xAA, 0x55]);
    }
}

/// The structure is looked for 128 KiB into each of the first four quarters of a megabyte and of
/// the last two of sixteen, in ascending order; the first that is found is taken, and one that is
/// there is found.
pub proof fn law_first_structure_is_taken(data: Seq<u8>, k: int)
    requires
        0 <= k < 6,
        efs_at(data, efs_offsets()[k]) is Some,
        forall|j: int| 0 <= j < k ==> efs_at(data, #[trigger] efs_offsets()[j]) is None,
    ensures
        efs_from(data, 0) == efs_at(data, efs_offsets()[k]),
        efs_from(data, 0)->0.efs_offset == if k < 4 {
            k * 0x4_0000 + 0x2_0000
        } else {
            0x100_0000 - (6 - k) * 0x4_0000 + 0x2_0000
        },
{
    lemma_first_structure(data, 0, k);
    lemma_structure_offset(data, efs_offsets()[k]);
}

proof fn lemma_first_structure(data: Seq<u8>, i: int, k: int)
    requires
        0 <= i <= k < 6,
        efs_at(data, efs_offsets()[k]) is Some,
        forall|j: int| 0 <= j < k ==> efs_at(data, #[trigger] efs_offsets()[j]) is None,
    ensures
        efs_from(data, i) == efs_at(data, efs_offsets()[k]),
    decreases k - i,
{
    if i < k {
        lemma_first_structure(data, i + 1, k);
    }
}

proof fn lemma_structure_offset(data: Seq<u8>, at: u32)
    requires
        efs_at(data, at) is Some,
    ensures
        efs_at(data, at)->0.efs_offset == at,
{
}

/// A directory's line ends in the number of its entries and shows its offset right behind the
/// head.
pub proof fn law_directory_line_shows_offset_and_entries(head: Seq<char>, d: DirModel)
    requires
        d.offset <= u32::MAX,
    ensures
        dir_line(head, Some(d)).take(head.len() as int) == head,
        dir_line(head, Some(d)).subrange(head.len() as int, head.len() as int + 10) == hex_text(
            d.offset as nat,
            8,
        ),
        dir_line(head, Some(d)).skip(head.len() as int + 10) == "  ["@ + d.cookie + ", "@ + dec_text(
            d.num_entries as nat,
        ) + " entries]"@,
        dir_line(head, None) == head + "not found"@,
{
    crate::text::lemma_hex_column(d.offset as nat);
    let line = dir_line(head, Some(d));
    assert(line.take(head.len() as int) =~= head);
    assert(line.subrange(head.len() as int, head.len() as int + 10) =~= hex_text(d.offset as nat, 8));
    assert(line.skip(head.len() as int + 10) =~= "  ["@ + d.cookie + ", "@ + dec_text(
        d.num_entries as nat,
    ) + " entries]"@);
}

/// The report shows where the structure lies, the two directories, each under its own head, and
/// the size of the image in whole MiB where it is known.
pub proof fn law_structure_report_tells_its_directories(
    info: PspModel,
    size: u32,
    mib: int,
    rest: int,
)
    requires
        size == mib * 0x10_0000 + rest,
        0 <= rest < 0x10_0000,
        mib >= 0,
        size > 0,
    ensures
        psp_report(info, 0).len() == 4,
        psp_report(info, size).len() == 5,
        psp_report(info, size).take(4) == psp_report(info, 0),
        psp_report(info, size)[1] == "  EFS at     : "@ + hex_text(info.efs_offset as nat, 8),
        psp_report(info, size)[2] == dir_line("  PSP dir    : "@, info.psp_dir),
        psp_report(info, size)[3] == dir_line("  BIOS dir   : "@, info.bios_dir),
        psp_report(info, size)[4] == "  Flash size : "@ + dec_text(mib as nat) + " MB"@,
{
    vstd::arithmetic::div_mod::lemma_fundamental_div_mod_converse(
        size as int,
        0x10_0000,
        mib,
        rest,
    );
    assert(psp_report(info, size).take(4) =~= psp_report(info, 0));
}

} // verus!
