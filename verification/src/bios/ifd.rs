//! Intel Flash Descriptor.
use vstd::prelude::*;

use crate::bytes::{le32, read_le32};
use crate::text::{
    dec_text, hex_text, left_text, lemma_hex_column, lines_of, push_dec, push_hex, push_left, push_left_dec,
    push_line, push_repeat, push_text, repeat_char,
};

verus! {

/// The signature of a descriptor.
pub const FLVALSIG: u32 = 0x0FF0_A55A;

/// One region of a descriptor.
#[derive(Debug)]
pub struct IfdRegion {
    pub name: String,
    pub index: usize,
    pub start: u32,
    /// Last byte.
    pub end: u32,
    pub present: bool,
}

/// A descriptor.
#[derive(Debug)]
pub struct IfdInfo {
    pub descriptor_offset: usize,
    pub nr_regions: usize,
    pub regions: Vec<IfdRegion>,
}

/// The contents of an [`IfdRegion`].
#[verifier::ext_equal]
pub struct IfdRegionModel {
    pub name: Seq<char>,
    pub index: int,
    pub start: u32,
    pub end: u32,
    pub present: bool,
}

impl View for IfdRegion {
    type V = IfdRegionModel;

    open spec fn view(&self) -> IfdRegionModel {
        IfdRegionModel {
            name: self.name@,
            index: self.index as int,
            start: self.start,
            end: self.end,
            present: self.present,
        }
    }
}

/// The contents of a list of regions.
pub open spec fn regions_view(regions: Seq<IfdRegion>) -> Seq<IfdRegionModel> {
    Seq::new(regions.len(), |i: int| regions[i]@)
}

impl IfdRegionModel {
    /// A present region has a length that can be stated.
    pub open spec fn wf(self) -> bool {
        self.present ==> self.start <= self.end && self.end - self.start < u32::MAX
    }

    /// Bytes in the region.
    pub open spec fn len(self) -> int {
        if self.present {
            self.end - self.start + 1
        } else {
            0
        }
    }
}

impl IfdRegion {
    /// Bytes in the region; an absent one has none.
    pub fn length(&self) -> (n: u32)
        requires
            self@.wf(),
        ensures
            n == self@.len(),
    {
        if self.present {
            self.end - self.start + 1
        } else {
            0
        }
    }
}

/// The name of a region slot.
pub open spec fn region_name_text(i: int) -> Seq<char> {
    if i == 0 {
        "FD"@
    } else if i == 1 {
        "BIOS"@
    } else if i == 2 {
        "ME"@
    } else if i == 3 {
        "GbE"@
    } else if i == 4 {
        "PDR"@
    } else if i == 5 {
        "DevExp1"@
    } else if i == 6 {
        "BIOS2"@
    } else if i == 7 {
        "NetArbT"@
    } else if i == 8 {
        "EC"@
    } else if i == 9 {
        "DevExp2"@
    } else if i == 10 {
        "IE"@
    } else if i == 11 {
        "10GbEA"@
    } else if i == 12 {
        "10GbEB"@
    } else if i == 13 {
        "Reserved13"@
    } else if i == 14 {
        "Reserved14"@
    } else if i == 15 {
        "PTT"@
    } else {
        "Unknown"@
    }
}

/// The name of a region slot.
pub fn region_name(i: usize) -> (r: &'static str)
    ensures
        r@ == region_name_text(i as int),
{
    if i == 0 {
        "FD"
    } else if i == 1 {
        "BIOS"
    } else if i == 2 {
        "ME"
    } else if i == 3 {
        "GbE"
    } else if i == 4 {
        "PDR"
    } else if i == 5 {
        "DevExp1"
    } else if i == 6 {
        "BIOS2"
    } else if i == 7 {
        "NetArbT"
    } else if i == 8 {
        "EC"
    } else if i == 9 {
        "DevExp2"
    } else if i == 10 {
        "IE"
    } else if i == 11 {
        "10GbEA"
    } else if i == 12 {
        "10GbEB"
    } else if i == 13 {
        "Reserved13"
    } else if i == 14 {
        "Reserved14"
    } else if i == 15 {
        "PTT"
    } else {
        "Unknown"
    }
}

/// The region in slot `i`, from its register: base and limit in 4KB units.
pub open spec fn region_of(i: int, flreg: u32) -> IfdRegionModel {
    let base = flreg as int % 0x1000;
    let limit = (flreg as int / 0x1_0000) % 0x1000;
    IfdRegionModel {
        name: region_name_text(i),
        index: i,
        start: (base * 0x1000) as u32,
        end: (limit * 0x1000 + 0xFFF) as u32,
        present: limit >= base && !(base == 0 && limit == 0 && i > 0),
    }
}

/// Where the region registers begin: bits 23 to 16 of the first map word, in 16-byte units.
pub open spec fn region_base(flmap0: u32) -> int {
    ((flmap0 as int / 0x1_0000) % 0x100) * 0x10
}

/// How many region registers are read: as bits 26 to 24 say, but at least five.
pub open spec fn region_slots(flmap0: u32) -> int {
    let hint = (flmap0 as int / 0x100_0000) % 8 + 1;
    if hint < 5 {
        5
    } else {
        hint
    }
}

/// What a descriptor says.
pub struct IfdModel {
    pub descriptor_offset: int,
    pub nr_regions: int,
    pub regions: Seq<IfdRegionModel>,
}

impl View for IfdInfo {
    type V = IfdModel;

    open spec fn view(&self) -> IfdModel {
        IfdModel {
            descriptor_offset: self.descriptor_offset as int,
            nr_regions: self.nr_regions as int,
            regions: regions_view(self.regions@),
        }
    }
}

impl IfdModel {
    pub open spec fn wf(self) -> bool {
        forall|i: int| 0 <= i < self.regions.len() ==> (#[trigger] self.regions[i]).wf()
    }
}

/// The descriptor whose signature is at `at`.
pub open spec fn descriptor_at(data: Seq<u8>, at: int) -> Option<IfdModel> {
    let flmap0 = le32(data, at + 4);
    let n = region_slots(flmap0);
    if at + 16 > data.len() || region_base(flmap0) + n * 4 > data.len() {
        None
    } else {
        Some(
            IfdModel {
                descriptor_offset: at,
                nr_regions: n,
                regions: Seq::new(
                    n as nat,
                    |i: int| region_of(i, le32(data, region_base(flmap0) + i * 4)),
                ),
            },
        )
    }
}

/// The first whole word at or after `i`, in steps of four bytes, that is the signature.
pub open spec fn signature_from(data: Seq<u8>, i: int) -> Option<int>
    decreases data.len() - i,
{
    if i < 0 || i + 4 > data.len() {
        None
    } else if le32(data, i) == FLVALSIG {
        Some(i)
    } else {
        signature_from(data, i + 4)
    }
}

/// The descriptor of an image.
pub open spec fn ifd_of(data: Seq<u8>) -> Option<IfdModel> {
    match signature_from(data, 0) {
        None => None,
        Some(at) => descriptor_at(data, at),
    }
}

/// Whether an optional result is what a specification says.
pub open spec fn ifd_matches(r: Option<IfdInfo>, s: Option<IfdModel>) -> bool {
    match s {
        None => r is None,
        Some(m) => r matches Some(info) && info@ == m && m.wf(),
    }
}

/// Finds and decodes the descriptor of an image.  Only the first signature, at a multiple of
/// four bytes, counts.
pub fn scan_ifd(data: &[u8]) -> (r: Option<IfdInfo>)
    ensures
        ifd_matches(r, ifd_of(data@)),
{
    let len: usize = data.len();
    let mut i: usize = 0;
    while i < len && len - i >= 4
        invariant
            len == data@.len(),
            i <= len,
            signature_from(data@, 0) == signature_from(data@, i as int),
        decreases len - i,
    {
        if read_le32(data, i) == FLVALSIG {
            return parse_ifd(data, i);
        }
        i += 4;
    }
    None
}

fn parse_ifd(data: &[u8], sig_offset: usize) -> (r: Option<IfdInfo>)
    requires
        sig_offset + 4 <= data@.len(),
    ensures
        ifd_matches(r, descriptor_at(data@, sig_offset as int)),
{
    if data.len() - sig_offset < 16 {
        return None;
    }
    let flmap0: u32 = read_le32(data, sig_offset + 4);
    let frba: usize = ((flmap0 / 0x1_0000) % 0x100) as usize * 0x10;
    let nr_hint: usize = ((flmap0 / 0x100_0000) % 8) as usize + 1;
    let nr_regions: usize = if nr_hint < 5 {
        5
    } else {
        nr_hint
    };
    if frba + nr_regions * 4 > data.len() {
        return None;
    }
    let ghost goal = descriptor_at(data@, sig_offset as int)->0.regions;
    let mut regions: Vec<IfdRegion> = Vec::new();
    let mut i: usize = 0;
    while i < nr_regions
        invariant
            i <= nr_regions <= 8,
            frba <= 0xFF0,
            frba + nr_regions * 4 <= data@.len(),
            frba == region_base(flmap0),
            nr_regions == region_slots(flmap0),
            goal.len() == nr_regions,
            forall|k: int|
                0 <= k < nr_regions ==> #[trigger] goal[k] == region_of(
                    k,
                    le32(data@, frba + k * 4),
                ),
            regions@.len() == i,
            forall|k: int| 0 <= k < i ==> (#[trigger] regions@[k])@ == goal[k] && goal[k].wf(),
        decreases nr_regions - i,
    {
        let flreg: u32 = read_le32(data, frba + i * 4);
        let base: u32 = flreg % 0x1000;
        let limit: u32 = (flreg / 0x1_0000) % 0x1000;
        let region = IfdRegion {
            name: region_name(i).to_owned(),
            index: i,
            start: base * 0x1000,
            end: limit * 0x1000 + 0xFFF,
            present: limit >= base && !(base == 0 && limit == 0 && i > 0),
        };
        assert(region@ == region_of(i as int, flreg));
        regions.push(region);
        i += 1;
    }
    let r = IfdInfo { descriptor_offset: sig_offset, nr_regions, regions };
    assert(r@.regions =~= goal);
    Some(r)
}

/// The line of one region.
pub open spec fn region_line(r: IfdRegionModel) -> Seq<char> {
    if r.present {
        "  "@ + left_text(r.name, 12) + " "@ + hex_text(r.start as nat, 8) + "  "@ + hex_text(
            r.end as nat,
            8,
        ) + "  "@ + left_text(dec_text(r.len() as nat), 10) + "  present"@
    } else {
        "  "@ + left_text(r.name, 12) + " —                             absent"@
    }
}

fn push_region(out: &mut Vec<String>, r: &IfdRegion)
    requires
        r@.wf(),
    ensures
        lines_of(final(out)@) == lines_of(old(out)@).push(region_line(r@)),
{
    let mut s = String::from_str("  ");
    push_left(&mut s, r.name.as_str(), 12);
    if r.present {
        s.append(" ");
        push_hex(&mut s, r.start as u64, 8);
        s.append("  ");
        push_hex(&mut s, r.end as u64, 8);
        s.append("  ");
        push_left_dec(&mut s, r.length() as u64, 10);
        s.append("  present");
    } else {
        s.append(" —                             absent");
    }
    assert(s@ =~= region_line(r@));
    push_line(out, s);
}

/// The lines of the first `n` regions.
pub open spec fn region_lines(regions: Seq<IfdRegionModel>, n: int) -> Seq<Seq<char>> {
    Seq::new(n as nat, |i: int| region_line(regions[i]))
}

/// The column heads of the region table.
pub open spec fn region_heads() -> Seq<char> {
    left_text("REGION"@, 12) + " "@ + left_text("START"@, 12) + " "@ + left_text("END"@, 12) + " "@
        + left_text("SIZE"@, 10) + "  STATUS"@
}

/// The report of a descriptor.
pub open spec fn ifd_report(info: IfdModel, flash_size: Option<u32>) -> Seq<Seq<char>> {
    seq![
        "Intel Flash Descriptor (IFD)"@,
        "  signature at : "@ + hex_text(info.descriptor_offset as nat, 8),
    ] + (match flash_size {
        Some(size) => seq![
            "  flash size   : "@ + hex_text(size as nat, 8) + " ("@ + dec_text(
                (size / 0x10_0000) as nat,
            ) + " MB)"@,
        ],
        None => Seq::empty(),
    }) + seq![""@, region_heads(), repeat_char('-', 64)] + region_lines(
        info.regions,
        info.regions.len() as int,
    )
}

/// Reports a descriptor.
pub fn print_ifd(info: &IfdInfo, flash_size: Option<u32>) -> (out: Vec<String>)
    requires
        info@.wf(),
    ensures
        lines_of(out@) == ifd_report(info@, flash_size),
{
    let mut out: Vec<String> = Vec::new();
    push_text(&mut out, "Intel Flash Descriptor (IFD)");
    let mut s = String::from_str("  signature at : ");
    push_hex(&mut s, info.descriptor_offset as u64, 8);
    push_line(&mut out, s);
    if let Some(size) = flash_size {
        let mut s = String::from_str("  flash size   : ");
        push_hex(&mut s, size as u64, 8);
        s.append(" (");
        push_dec(&mut s, (size / 0x10_0000) as u64);
        s.append(" MB)");
        push_line(&mut out, s);
    }
    push_text(&mut out, "");
    let mut heads = String::new();
    push_left(&mut heads, "REGION", 12);
    heads.append(" ");
    push_left(&mut heads, "START", 12);
    heads.append(" ");
    push_left(&mut heads, "END", 12);
    heads.append(" ");
    push_left(&mut heads, "SIZE", 10);
    heads.append("  STATUS");
    assert(heads@ =~= region_heads());
    push_line(&mut out, heads);
    let mut rule = String::new();
    push_repeat(&mut rule, '-', 64);
    assert(rule@ =~= repeat_char('-', 64));
    push_line(&mut out, rule);
    let ghost head = lines_of(out@);
    let mut i: usize = 0;
    while i < info.regions.len()
        invariant
            info@.wf(),
            i <= info.regions.len(),
            lines_of(out@) =~= head + region_lines(info@.regions, i as int),
        decreases info.regions.len() - i,
    {
        assert(info@.regions[i as int] == info.regions@[i as int]@);
        push_region(&mut out, &info.regions[i]);
        i += 1;
    }
    assert(lines_of(out@) =~= ifd_report(info@, flash_size));
    out
}

/// A region register with base `b` and limit `l`, each of 12 bits, whatever its other bits hold,
/// describes a region that begins at byte `b * 4096`, ends at byte `l * 4096 + 4095` and has
/// `(l - b + 1) * 4096` bytes.  A region is absent just where the limit lies below the base, or
/// where a slot other than the first has neither.
pub proof fn law_region_spans_base_to_limit(i: int, b: int, l: int, low: int, high: int)
    requires
        i >= 0,
        0 <= b < 0x1000,
        0 <= l < 0x1000,
        0 <= low < 0x10,
        0 <= high < 0x10,
    ensures
        ({
            let r = region_of(i, (b + low * 0x1000 + l * 0x1_0000 + high * 0x1000_0000) as u32);
            &&& r.index == i
            &&& r.present <==> b <= l && (i == 0 || b > 0 || l > 0)
            &&& r.present ==> {
                &&& r.start == b * 4096
                &&& r.end == l * 4096 + 4095
                &&& r.len() == (l - b + 1) * 4096
            }
            &&& !r.present ==> r.len() == 0
        }),
{
    let w = b + low * 0x1000 + l * 0x1_0000 + high * 0x1000_0000;
    lemma_parts(w, 0x1000, low + l * 0x10 + high * 0x1_0000, b);
    lemma_parts(w, 0x1_0000, l + high * 0x1000, b + low * 0x1000);
    lemma_parts(l + high * 0x1000, 0x1000, high, l);
}

/// Registers whose base-to-limit ranges are disjoint give regions that share no byte.
pub proof fn law_disjoint_registers_give_disjoint_regions(
    i: int,
    j: int,
    b1: int,
    l1: int,
    b2: int,
    l2: int,
    at: int,
)
    requires
        i >= 0,
        j >= 0,
        0 <= b1 <= l1 < b2 <= l2 < 0x1000,
    ensures
        ({
            let r = region_of(i, (b1 + l1 * 0x1_0000) as u32);
            let s = region_of(j, (b2 + l2 * 0x1_0000) as u32);
            r.present && s.present ==> !(r.start <= at <= r.end && s.start <= at <= s.end)
        }),
{
    law_region_spans_base_to_limit(i, b1, l1, 0, 0);
    law_region_spans_base_to_limit(j, b2, l2, 0, 0);
}

/// Whether a signature stands at byte `at`.
pub open spec fn signed_at(data: Seq<u8>, at: int) -> bool {
    &&& 0 <= at
    &&& at + 4 <= data.len()
    &&& data.subrange(at, at + 4) == seq![0x5Au8, 0xA5, 0xF0, 0x0F]
}

proof fn lemma_signature(data: Seq<u8>, at: int)
    requires
        0 <= at,
        at + 4 <= data.len(),
    ensures
        signed_at(data, at) <==> le32(data, at) == FLVALSIG,
{
    let s = data.subrange(at, at + 4);
    assert(s[0] == data[at] && s[1] == data[at + 1] && s[2] == data[at + 2] && s[3] == data[at
        + 3]);
    if le32(data, at) == FLVALSIG {
        assert(s =~= seq![0x5Au8, 0xA5, 0xF0, 0x0F]);
    }
}

proof fn lemma_signature_found(data: Seq<u8>, i: int, at: int)
    requires
        0 <= i <= at,
        (at - i) % 4 == 0,
        signed_at(data, at),
        forall|k: int| #![trigger signed_at(data, k)] i <= k < at && (k - i) % 4 == 0 ==> !signed_at(
            data,
            k,
        ),
    ensures
        signature_from(data, i) == Some(at),
    decreases at - i,
{
    lemma_signature(data, i);
    if i < at {
        assert(!signed_at(data, i));
        lemma_signature_found(data, i + 4, at);
    }
}

proof fn lemma_signature_missing(data: Seq<u8>, i: int)
    requires
        0 <= i,
        forall|k: int| #![trigger signed_at(data, k)] i <= k && (k - i) % 4 == 0 ==> !signed_at(
            data,
            k,
        ),
    ensures
        signature_from(data, i) is None,
    decreases data.len() - i,
{
    if i + 4 <= data.len() {
        lemma_signature(data, i);
        assert(!signed_at(data, i));
        lemma_signature_missing(data, i + 4);
    }
}

/// The first signature at a multiple of four bytes makes the descriptor: the byte two behind it
/// says where the region registers begin, in 16-byte units, and the low three bits of the next
/// how many there are, less one and at least five; each register is four bytes, base first, and
/// bases and limits are numbers of 12 bits with the low byte first.  Without a signature there is
/// no descriptor, nor where the registers would lie outside the image.
pub proof fn law_descriptor_is_read_from_its_bytes(data: Seq<u8>, at: int, i: int)
    requires
        at % 4 == 0,
        signed_at(data, at),
        forall|k: int| #![trigger signed_at(data, k)] 0 <= k < at && k % 4 == 0 ==> !signed_at(
            data,
            k,
        ),
    ensures
        at + 16 > data.len() ==> ifd_of(data) is None,
        at + 16 <= data.len() ==> ({
            let regs = data[at + 6] * 16;
            let said = data[at + 7] as int % 8 + 1;
            let n: int = if said < 5 {
                5
            } else {
                said
            };
            &&& regs + 4 * n > data.len() ==> ifd_of(data) is None
            &&& regs + 4 * n <= data.len() ==> {
                &&& ifd_of(data) matches Some(m)
                &&& m.descriptor_offset == at
                &&& m.nr_regions == n
                &&& m.regions.len() == n
                &&& 0 <= i < n ==> {
                    let base = data[regs + 4 * i] + (data[regs + 4 * i + 1] as int % 16) * 256;
                    let limit = data[regs + 4 * i + 2] + (data[regs + 4 * i + 3] as int % 16)
                        * 256;
                    let r = m.regions[i];
                    &&& r.index == i
                    &&& r.present <==> base <= limit && (i == 0 || limit > 0)
                    &&& r.present ==> {
                        &&& r.start == base * 4096
                        &&& r.end == limit * 4096 + 4095
                        &&& r.len() == (limit - base + 1) * 4096
                    }
                }
            }
        }),
{
    lemma_signature_found(data, 0, at);
    if at + 16 <= data.len() {
        let flmap0 = le32(data, at + 4);
        let regs = data[at + 6] * 16;
        lemma_map_word(data, at + 4);
        let n = region_slots(flmap0);
        if regs + 4 * n <= data.len() && 0 <= i < n {
            let a = regs + 4 * i;
            lemma_register(data, a, i);
            assert(ifd_of(data)->0.regions[i] == region_of(i, le32(data, a)));
        }
    }
}

proof fn lemma_map_word(data: Seq<u8>, at: int)
    requires
        0 <= at,
        at + 4 <= data.len(),
    ensures
        region_base(le32(data, at)) == data[at + 2] * 16,
        (le32(data, at) as int / 0x100_0000) % 8 == data[at + 3] as int % 8,
{
    let w = le32(data, at) as int;
    let low = data[at] + data[at + 1] * 0x100;
    let c = data[at + 2] as int;
    let d = data[at + 3] as int;
    assert(w == low + c * 0x1_0000 + d * 0x100_0000);
    lemma_parts(w, 0x1_0000, c + d * 0x100, low);
    lemma_parts(c + d * 0x100, 0x100, d, c);
    lemma_parts(w, 0x100_0000, d, low + c * 0x1_0000);
}

/// What a number is made of tells its quotient and its remainder.
proof fn lemma_parts(w: int, unit: int, q: int, r: int)
    requires
        unit > 0,
        w == q * unit + r,
        0 <= r < unit,
    ensures
        w / unit == q,
        w % unit == r,
{
    vstd::arithmetic::div_mod::lemma_fundamental_div_mod_converse(w, unit, q, r);
}

proof fn lemma_register(data: Seq<u8>, a: int, i: int)
    requires
        0 <= a,
        a + 4 <= data.len(),
        i >= 0,
    ensures
        ({
            let base = data[a] + (data[a + 1] as int % 16) * 256;
            let limit = data[a + 2] + (data[a + 3] as int % 16) * 256;
            let r = region_of(i, le32(data, a));
            &&& r.index == i
            &&& r.present <==> base <= limit && (i == 0 || limit > 0)
            &&& r.present ==> {
                &&& r.start == base * 4096
                &&& r.end == limit * 4096 + 4095
                &&& r.len() == (limit - base + 1) * 4096
            }
        }),
{
    let base = data[a] + (data[a + 1] as int % 16) * 256;
    let limit = data[a + 2] + (data[a + 3] as int % 16) * 256;
    let low = data[a + 1] as int / 16;
    let high = data[a + 3] as int / 16;
    assert(data[a + 1] == low * 16 + data[a + 1] as int % 16);
    assert(data[a + 3] == high * 16 + data[a + 3] as int % 16);
    assert(le32(data, a) == base + low * 0x1000 + limit * 0x1_0000 + high * 0x1000_0000);
    law_region_spans_base_to_limit(i, base, limit, low, high);
}

/// An image in which no multiple of four bytes holds a signature has no descriptor.
pub proof fn law_no_signature_no_descriptor(data: Seq<u8>)
    requires
        forall|k: int| #![trigger signed_at(data, k)] k % 4 == 0 ==> !signed_at(data, k),
    ensures
        ifd_of(data) is None,
{
    lemma_signature_missing(data, 0);
}

/// The line of a present region shows its first and its last byte in fixed columns.
pub proof fn law_descriptor_line_shows_first_and_last_byte(r: IfdRegionModel)
    requires
        r.present,
        r.name.len() <= 12,
    ensures
        region_line(r).subrange(2, 2 + r.name.len() as int) == r.name,
        region_line(r).subrange(15, 25) == hex_text(r.start as nat, 8),
        region_line(r).subrange(27, 37) == hex_text(r.end as nat, 8),
        region_line(r).skip(39) == left_text(dec_text(r.len() as nat), 10) + "  present"@,
{
    reveal_strlit("  ");
    reveal_strlit(" ");
    lemma_hex_column(r.start as nat);
    lemma_hex_column(r.end as nat);
    let line = region_line(r);
    assert(line.subrange(2, 2 + r.name.len() as int) =~= r.name);
    assert(line.subrange(15, 25) =~= hex_text(r.start as nat, 8));
    assert(line.subrange(27, 37) =~= hex_text(r.end as nat, 8));
    assert(line.skip(39) =~= left_text(dec_text(r.len() as nat), 10) + "  present"@);
}

/// The report of a descriptor has one line a region, in order, and tells the flash size in MiB
/// where it is known.
pub proof fn law_every_descriptor_region_has_its_line(
    info: IfdModel,
    size: u32,
    mib: int,
    rest: int,
    i: int,
)
    requires
        0 <= i < info.regions.len(),
        size == mib * 0x10_0000 + rest,
        0 <= rest < 0x10_0000,
        mib >= 0,
    ensures
        ifd_report(info, None).len() == info.regions.len() + 5,
        ifd_report(info, None)[i + 5] == region_line(info.regions[i]),
        ifd_report(info, Some(size)).len() == info.regions.len() + 6,
        ifd_report(info, Some(size))[i + 6] == region_line(info.regions[i]),
        ifd_report(info, Some(size))[1] == "  signature at : "@ + hex_text(
            info.descriptor_offset as nat,
            8,
        ),
        ifd_report(info, Some(size))[2] == "  flash size   : "@ + hex_text(size as nat, 8) + " ("@
            + dec_text(mib as nat) + " MB)"@,
{
    vstd::arithmetic::div_mod::lemma_fundamental_div_mod_converse(
        size as int,
        0x10_0000,
        mib,
        rest,
    );
}

/// The first five slots are the descriptor, the BIOS, the management engine, the network and the
/// platform data; the names of the later ones are built on these, or stand for themselves.
pub proof fn law_slots_have_their_names(i: int)
    ensures
        region_name_text(0) == "FD"@,
        region_name_text(1) == "BIOS"@,
        region_name_text(2) == "ME"@,
        region_name_text(3) == "GbE"@,
        region_name_text(4) == "PDR"@,
        region_name_text(6) == region_name_text(1) + "2"@,
        region_name_text(5) == "DevExp"@ + "1"@,
        region_name_text(9) == "DevExp"@ + "2"@,
        region_name_text(11) == "10"@ + region_name_text(3) + "A"@,
        region_name_text(12) == "10"@ + region_name_text(3) + "B"@,
        13 <= i <= 14 ==> region_name_text(i) == "Reserved"@ + dec_text(i as nat),
        region_name_text(7) == "NetArbT"@,
        region_name_text(8) == "EC"@,
        region_name_text(10) == "IE"@,
        region_name_text(15) == "PTT"@,
        i < 0 || i > 15 ==> region_name_text(i) == "Unknown"@,
{
    reveal_strlit("BIOS");
    reveal_strlit("BIOS2");
    reveal_strlit("2");
    reveal_strlit("1");
    reveal_strlit("DevExp");
    reveal_strlit("DevExp1");
    reveal_strlit("DevExp2");
    reveal_strlit("GbE");
    reveal_strlit("10");
    reveal_strlit("A");
    reveal_strlit("B");
    reveal_strlit("10GbEA");
    reveal_strlit("10GbEB");
    reveal_strlit("Reserved");
    reveal_strlit("Reserved13");
    reveal_strlit("Reserved14");
    reveal_with_fuel(crate::text::radix_text, 3);
    assert("BIOS2"@ =~= "BIOS"@ + "2"@);
    assert("DevExp1"@ =~= "DevExp"@ + "1"@);
    assert("DevExp2"@ =~= "DevExp"@ + "2"@);
    assert("10GbEA"@ =~= "10"@ + "GbE"@ + "A"@);
    assert("10GbEB"@ =~= "10"@ + "GbE"@ + "B"@);
    assert(dec_text(13) =~= seq!['1', '3']);
    assert(dec_text(14) =~= seq!['1', '4']);
    assert("Reserved13"@ =~= "Reserved"@ + dec_text(13));
    assert("Reserved14"@ =~= "Reserved"@ + dec_text(14));
}

} // verus!
