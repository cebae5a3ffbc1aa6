//! Regions of a flash chip: layout files and FMAP.
use vstd::prelude::*;
use vstd::utf8::{decode_utf8, valid_utf8};

use crate::args::{
    hex_or_dec, law_written_number_reads_back, lemma_digits_only, parse_hex_or_dec_chars, NumError,
};
use crate::bytes::{
    law_numbers_are_spelled_low_byte_first, le16, le32, le64, le_value, read_le16, read_le32,
    read_le64,
};
use crate::chip::{ChipModel, ResolvedChip};
use crate::error::Error;
use crate::text::{
    all_white, chars_of, equal_but_case, find_char, find_from, find_white, hex_text,
    law_search_finds_the_first, law_search_finds_the_first_white,
    law_trimming_takes_white_space_off_both_ends, radix_text, same_but_case, text_of, trim,
    trimmed, white, white_from,
};
use crate::units::MB_4;

verus! {

/// Named address range within a flash chip.
#[derive(Debug)]
pub struct Region {
    pub name: String,
    pub offset: u32,
    pub length: u32,
}

/// The contents of a [`Region`].
#[verifier::ext_equal]
pub struct RegionModel {
    pub name: Seq<char>,
    pub offset: u32,
    pub length: u32,
}

impl View for Region {
    type V = RegionModel;

    open spec fn view(&self) -> RegionModel {
        RegionModel { name: self.name@, offset: self.offset, length: self.length }
    }
}

/// The contents of a list of regions.
pub open spec fn regions_of(regions: Seq<Region>) -> Seq<RegionModel> {
    Seq::new(regions.len(), |i: int| regions[i]@)
}

impl RegionModel {
    /// The region has a last byte in the address space.
    pub open spec fn wf(self) -> bool {
        self.length > 0 && self.offset + self.length - 1 <= u32::MAX
    }
}

impl Region {
    /// The last byte of the region.
    pub fn end_inclusive(&self) -> (r: u32)
        requires
            self@.wf(),
        ensures
            r == self.offset + self.length - 1,
    {
        self.offset + (self.length - 1)
    }
}

fn push_region(regions: &mut Vec<Region>, region: Region)
    ensures
        final(regions)@ == old(regions)@.push(region),
        regions_of(final(regions)@) == regions_of(old(regions)@).push(region@),
{
    regions.push(region);
    assert(regions_of(regions@) =~= regions_of(old(regions)@).push(region@));
}

/// Parses a number of 32 bits: hexadecimal behind `0x` or `0X`, else decimal.
pub fn parse_hex_or_dec_u32(s: &str) -> (r: Result<u32, NumError>)
    ensures
        match hex_or_dec(s@) {
            Ok(n) => r == Ok::<u32, NumError>(n as u32) && 0 <= n <= u32::MAX,
            Err(e) => r == Err::<u32, _>(e),
        },
{
    crate::args::parse_hex_or_dec(s)
}

/// What is wrong with a line of a layout file.
#[derive(Debug, Clone, Copy, PartialEq, Eq, Structural)]
pub enum LineError {
    MissingName,
    /// No colon in the range.
    BadRange,
    BadStart(NumError),
    BadEnd(NumError),
    EndBeforeStart { start: u32, end: u32 },
    /// The whole address space: its length does not fit in 32 bits.
    TooLong,
}

/// What is wrong with a layout file, and in which line, counted from 1.
#[derive(Debug, Clone, Copy, PartialEq, Eq, Structural)]
pub struct LayoutError {
    pub line: usize,
    pub what: LineError,
}

/// The part of a line that counts: without surrounding white space, and without a comment,
/// which a `#` begins.
pub open spec fn significant(line: Seq<char>) -> Seq<char> {
    let t = trimmed(line);
    let hash = find_from(t, '#', 0);
    if hash < t.len() {
        trimmed(t.take(hash))
    } else {
        t
    }
}

/// The region with this name that the text of a range, `START:END` with END inclusive, stands
/// for.
pub open spec fn region_in(range: Seq<char>, name: Seq<char>) -> Result<RegionModel, LineError> {
    let colon = find_from(range, ':', 0);
    if colon >= range.len() {
        Err(LineError::BadRange)
    } else {
        match hex_or_dec(range.take(colon)) {
            Err(e) => Err(LineError::BadStart(e)),
            Ok(start) => match hex_or_dec(range.skip(colon + 1)) {
                Err(e) => Err(LineError::BadEnd(e)),
                Ok(end) => if end < start {
                    Err(LineError::EndBeforeStart { start: start as u32, end: end as u32 })
                } else if end - start + 1 > u32::MAX {
                    Err(LineError::TooLong)
                } else {
                    Ok(
                        RegionModel {
                            name,
                            offset: start as u32,
                            length: (end - start + 1) as u32,
                        },
                    )
                },
            },
        }
    }
}

/// The region that a line defines: a range, white space, a name.  An empty line, or one that
/// is only a comment, defines none.
pub open spec fn line_region(line: Seq<char>) -> Result<Option<RegionModel>, LineError> {
    let t = trimmed(line);
    let s = significant(line);
    let gap = white_from(s, 0);
    let name = trimmed(s.skip(gap + 1));
    if t.len() == 0 || t[0] == '#' {
        Ok(None)
    } else if gap >= s.len() || name.len() == 0 {
        Err(LineError::MissingName)
    } else {
        match region_in(s.take(gap), name) {
            Ok(r) => Ok(Some(r)),
            Err(e) => Err(e),
        }
    }
}

/// `first` in front of a list of regions, where there is one.
pub open spec fn regions_behind(
    first: Seq<RegionModel>,
    rest: Result<Seq<RegionModel>, LayoutError>,
) -> Result<Seq<RegionModel>, LayoutError> {
    match rest {
        Ok(regions) => Ok(first + regions),
        Err(e) => Err(e),
    }
}

/// The regions that a layout text defines from position `at` on, which begins the line with
/// the given number.
pub open spec fn layout_from(text: Seq<char>, at: int, line: int) -> Result<
    Seq<RegionModel>,
    LayoutError,
>
    decreases
            (if at < text.len() {
                text.len() - at
            } else {
                0
            }),
{
    if at < 0 || at >= text.len() {
        Ok(Seq::empty())
    } else {
        let end = find_from(text, '\n', at);
        proof {
            lemma_find_bounds(text, '\n', at);
        }
        let rest = layout_from(text, end + 1, line + 1);
        match line_region(text.subrange(at, end)) {
            Err(what) => Err(LayoutError { line: line as usize, what }),
            Ok(None) => rest,
            Ok(Some(r)) => regions_behind(seq![r], rest),
        }
    }
}

pub proof fn lemma_find_bounds(s: Seq<char>, c: char, i: int)
    requires
        0 <= i,
    ensures
        i < s.len() ==> i <= find_from(s, c, i) <= s.len(),
        find_from(s, c, i) < s.len() ==> s[find_from(s, c, i)] == c,
    decreases s.len() - i,
{
    if i < s.len() && s[i] != c {
        lemma_find_bounds(s, c, i + 1);
    }
}

/// The regions that a layout text defines.
pub open spec fn layout_of(text: Seq<char>) -> Result<Seq<RegionModel>, LayoutError> {
    layout_from(text, 0, 1)
}

fn parse_range(range: &[char], name: &[char]) -> (r: Result<Region, LineError>)
    ensures
        match region_in(range@, name@) {
            Ok(m) => r matches Ok(region) && region@ == m && m.wf(),
            Err(e) => r == Err::<Region, _>(e),
        },
{
    let colon: usize = find_char(range, ':', 0);
    if colon >= range.len() {
        return Err(LineError::BadRange);
    }
    let first = vstd::slice::slice_subrange(range, 0, colon);
    let second = vstd::slice::slice_subrange(range, colon + 1, range.len());
    assert(first@ =~= range@.take(colon as int));
    assert(second@ =~= range@.skip(colon + 1));
    let start: u32 = match parse_hex_or_dec_chars(first) {
        Ok(n) => n,
        Err(e) => return Err(LineError::BadStart(e)),
    };
    let end: u32 = match parse_hex_or_dec_chars(second) {
        Ok(n) => n,
        Err(e) => return Err(LineError::BadEnd(e)),
    };
    if end < start {
        return Err(LineError::EndBeforeStart { start, end });
    }
    if end - start == u32::MAX {
        return Err(LineError::TooLong);
    }
    Ok(Region { name: text_of(name), offset: start, length: end - start + 1 })
}

fn parse_line(line: &[char]) -> (r: Result<Option<Region>, LineError>)
    ensures
        match line_region(line@) {
            Ok(None) => r matches Ok(None),
            Ok(Some(m)) => r matches Ok(Some(region)) && region@ == m && m.wf(),
            Err(e) => r == Err::<Option<Region>, _>(e),
        },
{
    let t = trim(line);
    if t.len() == 0 || t[0] == '#' {
        return Ok(None);
    }
    let hash: usize = find_char(t, '#', 0);
    let s = if hash < t.len() {
        let before = vstd::slice::slice_subrange(t, 0, hash);
        assert(before@ =~= t@.take(hash as int));
        trim(before)
    } else {
        t
    };
    assert(s@ == significant(line@));
    let gap: usize = find_white(s);
    if gap >= s.len() {
        return Err(LineError::MissingName);
    }
    let range = vstd::slice::slice_subrange(s, 0, gap);
    let after = vstd::slice::slice_subrange(s, gap + 1, s.len());
    assert(range@ =~= s@.take(gap as int));
    assert(after@ =~= s@.skip(gap + 1));
    let name = trim(after);
    if name.len() == 0 {
        return Err(LineError::MissingName);
    }
    match parse_range(range, name) {
        Ok(region) => Ok(Some(region)),
        Err(e) => Err(e),
    }
}

/// Parses the text of a layout file: one region per line, `START:END NAME`, END inclusive,
/// numbers hexadecimal behind `0x` or decimal, comments behind `#`.
pub fn parse_layout(text: &str) -> (r: Result<Vec<Region>, LayoutError>)
    ensures
        match layout_of(text@) {
            Ok(m) => r matches Ok(regions) && regions_of(regions@) == m,
            Err(e) => r == Err::<Vec<Region>, _>(e),
        },
        r matches Ok(regions) ==> forall|i: int|
            0 <= i < regions@.len() ==> (#[trigger] regions@[i])@.wf(),
{
    let chars = chars_of(text);
    let all = chars.as_slice();
    let ghost goal = layout_of(text@);
    let mut regions: Vec<Region> = Vec::new();
    let mut at: usize = 0;
    let mut done: usize = 0;
    assert(goal matches Ok(m) ==> regions_of(regions@) + m =~= m);
    while at < all.len()
        invariant
            all@ == text@,
            at <= all@.len(),
            done <= at,
            goal == layout_of(text@),
            goal == regions_behind(
                regions_of(regions@),
                layout_from(text@, at as int, done + 1),
            ),
            forall|i: int| 0 <= i < regions@.len() ==> (#[trigger] regions@[i])@.wf(),
        decreases all@.len() - at,
    {
        let end: usize = find_char(all, '\n', at);
        let piece = vstd::slice::slice_subrange(all, at, end);
        assert(piece@ =~= text@.subrange(at as int, end as int));
        let ghost before = regions_of(regions@);
        match parse_line(piece) {
            Err(what) => return Err(LayoutError { line: done + 1, what }),
            Ok(None) => {},
            Ok(Some(region)) => {
                push_region(&mut regions, region);
                proof {
                    if let Ok(more) = layout_from(text@, end + 1, done + 2) {
                        assert(before.push(region@) + more =~= before + (seq![region@] + more));
                    }
                }
            },
        }
        if end == all.len() {
            assert(layout_from(text@, end + 1, done + 2) == Ok::<Seq<RegionModel>, LayoutError>(
                Seq::empty(),
            ));
            assert(regions_of(regions@) + Seq::<RegionModel>::empty() =~= regions_of(regions@));
            return Ok(regions);
        }
        at = end + 1;
        done = done + 1;
    }
    assert(regions_of(regions@) + Seq::<RegionModel>::empty() =~= regions_of(regions@));
    Ok(regions)
}

/// A region of a layout line spans its two addresses, both included.
pub proof fn law_layout_region_spans_its_addresses(range: Seq<char>, name: Seq<char>)
    ensures
        region_in(range, name) matches Ok(r) ==> {
            let colon = find_from(range, ':', 0);
            &&& r.name == name
            &&& hex_or_dec(range.take(colon)) == Ok::<int, NumError>(r.offset as int)
            &&& hex_or_dec(range.skip(colon + 1)) == Ok::<int, NumError>(
                r.offset + r.length - 1,
            )
            &&& r.wf()
        },
{
    let colon = find_from(range, ':', 0);
    lemma_number_bounds(range.take(colon));
    lemma_number_bounds(range.skip(colon + 1));
}

proof fn lemma_number_bounds(s: Seq<char>)
    ensures
        hex_or_dec(s) matches Ok(n) ==> 0 <= n <= u32::MAX,
{
    lemma_digits_bounds(s, 0, 10, 0, u32::MAX as int);
    lemma_digits_bounds(s, 1, 10, 0, u32::MAX as int);
    lemma_digits_bounds(s, 2, 16, 0, u32::MAX as int);
    lemma_digits_bounds(s, 3, 16, 0, u32::MAX as int);
}

proof fn lemma_digits_bounds(s: Seq<char>, i: int, radix: int, acc: int, max: int)
    requires
        2 <= radix <= 16,
        0 <= acc <= max,
    ensures
        crate::args::digits_from(s, i, radix, acc, max) matches Ok(n) ==> 0 <= n <= max,
    decreases s.len() - i,
{
    if 0 <= i < s.len() {
        if let Some(d) = crate::args::digit_value(s[i], radix) {
            assert(acc * radix >= 0) by (nonlinear_arith)
                requires
                    acc >= 0,
                    radix >= 2,
            ;
            if acc * radix + d <= max {
                lemma_digits_bounds(s, i + 1, radix, acc * radix + d, max);
            }
        }
    }
}

pub const FMAP_HEADER_SIZE: usize = 56;

pub const FMAP_AREA_SIZE: usize = 42;

/// Most areas that are believed.
pub const FMAP_MAX_AREAS: u16 = 256;

/// `__FMAP__`.
pub open spec fn fmap_signature() -> Seq<u8> {
    seq![0x5Fu8, 0x5F, 0x46, 0x4D, 0x41, 0x50, 0x5F, 0x5F]
}

/// The header of a firmware map.
#[derive(Debug)]
pub struct FmapHeader {
    pub ver_major: u8,
    pub ver_minor: u8,
    pub base: u64,
    pub size: u32,
    pub name: String,
    pub nareas: u16,
}

/// An area of a firmware map.
#[derive(Debug)]
pub struct FmapArea {
    pub offset: u32,
    pub size: u32,
    pub name: String,
    pub flags: u16,
}

/// The contents of an [`FmapHeader`].
#[verifier::ext_equal]
pub struct HeaderModel {
    pub ver_major: u8,
    pub ver_minor: u8,
    pub base: u64,
    pub size: u32,
    pub name: Seq<char>,
    pub nareas: u16,
}

/// The contents of an [`FmapArea`].
#[verifier::ext_equal]
pub struct AreaModel {
    pub offset: u32,
    pub size: u32,
    pub name: Seq<char>,
    pub flags: u16,
}

impl View for FmapHeader {
    type V = HeaderModel;

    open spec fn view(&self) -> HeaderModel {
        HeaderModel {
            ver_major: self.ver_major,
            ver_minor: self.ver_minor,
            base: self.base,
            size: self.size,
            name: self.name@,
            nareas: self.nareas,
        }
    }
}

impl View for FmapArea {
    type V = AreaModel;

    open spec fn view(&self) -> AreaModel {
        AreaModel { offset: self.offset, size: self.size, name: self.name@, flags: self.flags }
    }
}

/// The contents of a list of areas.
pub open spec fn areas_of(areas: Seq<FmapArea>) -> Seq<AreaModel> {
    Seq::new(areas.len(), |i: int| areas[i]@)
}

/// The text that bytes stand for when every part that is not UTF-8 is replaced by U+FFFD.
pub uninterp spec fn lossy_utf8(bytes: Seq<u8>) -> Seq<char>;

/// `String::from_utf8_lossy` turns bytes into text.  Its result is named; of bytes that are
/// UTF-8 it is their decoding.  How invalid parts are cut up for replacement is left unsaid.
#[verifier::external_body]
fn text_from_utf8(bytes: &[u8]) -> (s: String)
    ensures
        s@ == lossy_utf8(bytes@),
        valid_utf8(bytes@) ==> s@ == decode_utf8(bytes@),
{
    String::from_utf8_lossy(bytes).into_owned()
}

/// The first position at or after `i` that holds a zero byte; the length where there is none.
pub open spec fn zero_from(bytes: Seq<u8>, i: int) -> int
    decreases bytes.len() - i,
{
    if i < 0 || i >= bytes.len() {
        bytes.len() as int
    } else if bytes[i] == 0 {
        i
    } else {
        zero_from(bytes, i + 1)
    }
}

/// A name field: the bytes before the first zero.
pub open spec fn name_bytes(field: Seq<u8>) -> Seq<u8> {
    field.take(zero_from(field, 0))
}

/// The text of a name field: its decoding where it is UTF-8, else what is left of it when every
/// other part is replaced.
pub open spec fn name_text(field: Seq<u8>) -> Seq<char> {
    let bytes = name_bytes(field);
    if valid_utf8(bytes) {
        decode_utf8(bytes)
    } else {
        lossy_utf8(bytes)
    }
}

/// Cuts a name field at its first zero byte.
pub fn name_field(bytes: &[u8]) -> (r: &[u8])
    ensures
        r@ == name_bytes(bytes@),
{
    let mut end: usize = 0;
    while end < bytes.len() && bytes[end] != 0
        invariant
            end <= bytes.len(),
            zero_from(bytes@, 0) == zero_from(bytes@, end as int),
        decreases bytes.len() - end,
    {
        end += 1;
    }
    let r = vstd::slice::slice_subrange(bytes, 0, end);
    assert(r@ =~= name_bytes(bytes@));
    r
}

/// The text of a name field.
pub fn parse_name_field(bytes: &[u8]) -> (s: String)
    ensures
        s@ == name_text(bytes@),
        s@ == lossy_utf8(name_bytes(bytes@)),
{
    text_from_utf8(name_field(bytes))
}

/// The first position at or after `i` where the signature of a firmware map stands.
pub open spec fn fmap_from(data: Seq<u8>, i: int) -> Option<int>
    decreases data.len() - i,
{
    if i < 0 || i + 8 > data.len() {
        None
    } else if data.subrange(i, i + 8) == fmap_signature() {
        Some(i)
    } else {
        fmap_from(data, i + 1)
    }
}

/// The header at a position.
pub open spec fn header_at(data: Seq<u8>, at: int) -> HeaderModel {
    HeaderModel {
        ver_major: data[at + 8],
        ver_minor: data[at + 9],
        base: le64(data, at + 10),
        size: le32(data, at + 18),
        name: name_text(data.subrange(at + 22, at + 54)),
        nareas: le16(data, at + 54),
    }
}

/// The area at a position.
pub open spec fn area_at(data: Seq<u8>, at: int) -> AreaModel {
    AreaModel {
        offset: le32(data, at),
        size: le32(data, at + 4),
        name: name_text(data.subrange(at + 8, at + 40)),
        flags: le16(data, at + 40),
    }
}

/// The firmware map of an image: the first signature must begin a complete map of a
/// believable size.
pub open spec fn fmap_of(data: Seq<u8>) -> Option<(HeaderModel, Seq<AreaModel>)> {
    match fmap_from(data, 0) {
        None => None,
        Some(at) => {
            let n = le16(data, at + 54);
            if at + FMAP_HEADER_SIZE > data.len() || n > FMAP_MAX_AREAS || at + FMAP_HEADER_SIZE + n
                * FMAP_AREA_SIZE > data.len() {
                None
            } else {
                Some(
                    (
                        header_at(data, at),
                        Seq::new(
                            n as nat,
                            |i: int| area_at(data, at + FMAP_HEADER_SIZE + i * FMAP_AREA_SIZE),
                        ),
                    ),
                )
            }
        },
    }
}

fn is_signature(data: &[u8], i: usize) -> (r: bool)
    requires
        i + 8 <= data@.len(),
    ensures
        r == (data@.subrange(i as int, i + 8) == fmap_signature()),
{
    assert(i + 8 <= data.len());
    let r = data[i] == 0x5F && data[i + 1] == 0x5F && data[i + 2] == 0x46 && data[i + 3] == 0x4D
        && data[i + 4] == 0x41 && data[i + 5] == 0x50 && data[i + 6] == 0x5F && data[i + 7] == 0x5F;
    proof {
        let w = data@.subrange(i as int, i + 8);
        let s = fmap_signature();
        assert(w[0] == data@[i as int] && w[1] == data@[i + 1] && w[2] == data@[i + 2] && w[3]
            == data@[i + 3] && w[4] == data@[i + 4] && w[5] == data@[i + 5] && w[6] == data@[i + 6]
            && w[7] == data@[i + 7]);
        assert(s[0] == 0x5F && s[1] == 0x5F && s[2] == 0x46 && s[3] == 0x4D && s[4] == 0x41 && s[5]
            == 0x50 && s[6] == 0x5F && s[7] == 0x5F);
        if r {
            assert(w =~= s);
        }
    }
    r
}

fn find_fmap(data: &[u8]) -> (r: Option<usize>)
    ensures
        match r {
            Some(at) => fmap_from(data@, 0) == Some(at as int) && at + 8 <= data@.len(),
            None => fmap_from(data@, 0) is None,
        },
{
    let len: usize = data.len();
    let mut i: usize = 0;
    while i < len && len - i >= 8
        invariant
            len == data@.len(),
            i <= len,
            fmap_from(data@, 0) == fmap_from(data@, i as int),
        decreases len - i,
    {
        if is_signature(data, i) {
            return Some(i);
        }
        i += 1;
    }
    None
}

fn parse_area(data: &[u8], at: usize) -> (r: FmapArea)
    requires
        at + FMAP_AREA_SIZE <= data@.len(),
    ensures
        r@ == area_at(data@, at as int),
{
    assert(at + FMAP_AREA_SIZE <= data.len());
    let field = vstd::slice::slice_subrange(data, at + 8, at + 40);
    FmapArea {
        offset: read_le32(data, at),
        size: read_le32(data, at + 4),
        name: parse_name_field(field),
        flags: read_le16(data, at + 40),
    }
}

/// Finds and decodes the firmware map of an image.
pub fn scan_fmap(data: &[u8]) -> (r: Option<(FmapHeader, Vec<FmapArea>)>)
    ensures
        match fmap_of(data@) {
            None => r is None,
            Some((hdr, areas)) => r matches Some((h, a)) && h@ == hdr && areas_of(a@) == areas,
        },
        r matches Some((h, a)) ==> {
            let at = fmap_from(data@, 0)->0;
            let field = name_bytes(data@.subrange(at + 22, at + 54));
            &&& valid_utf8(field) ==> h.name@ == decode_utf8(field)
            &&& forall|i: int|
                0 <= i < a@.len() ==> {
                    let start = at + FMAP_HEADER_SIZE + i * FMAP_AREA_SIZE;
                    let field = name_bytes(data@.subrange(start + 8, start + 40));
                    valid_utf8(field) ==> (#[trigger] a@[i]).name@ == decode_utf8(field)
                }
        },
{
    let at: usize = match find_fmap(data) {
        Some(at) => at,
        None => return None,
    };
    let left: usize = data.len() - at;
    if left < FMAP_HEADER_SIZE {
        return None;
    }
    let nareas: u16 = read_le16(data, at + 54);
    if nareas > FMAP_MAX_AREAS {
        return None;
    }
    if left - FMAP_HEADER_SIZE < nareas as usize * FMAP_AREA_SIZE {
        return None;
    }
    let field = vstd::slice::slice_subrange(data, at + 22, at + 54);
    let header = FmapHeader {
        ver_major: data[at + 8],
        ver_minor: data[at + 9],
        base: read_le64(data, at + 10),
        size: read_le32(data, at + 18),
        name: parse_name_field(field),
        nareas,
    };
    let start: usize = at + FMAP_HEADER_SIZE;
    let mut areas: Vec<FmapArea> = Vec::new();
    let mut i: usize = 0;
    while i < nareas as usize
        invariant
            i <= nareas <= FMAP_MAX_AREAS,
            start + nareas * FMAP_AREA_SIZE <= data@.len(),
            data@.len() <= usize::MAX,
            areas@.len() == i,
            forall|k: int|
                0 <= k < i ==> (#[trigger] areas@[k])@ == area_at(data@, start + k * FMAP_AREA_SIZE),
        decreases nareas - i,
    {
        assert(start + (i + 1) * FMAP_AREA_SIZE <= data@.len()) by (nonlinear_arith)
            requires
                i + 1 <= nareas,
                start + nareas * FMAP_AREA_SIZE <= data@.len(),
        ;
        areas.push(parse_area(data, start + i * FMAP_AREA_SIZE));
        i += 1;
    }
    proof {
        let goal = fmap_of(data@)->0;
        assert(areas_of(areas@) =~= goal.1);
    }
    Some((header, areas))
}

/// The region of an area: its offset counts from the map's base.
pub open spec fn area_region(header: HeaderModel, area: AreaModel) -> RegionModel {
    let base = (header.base as int % 0x1_0000_0000) as u32;
    RegionModel {
        name: area.name,
        offset: if area.offset >= base {
            (area.offset - base) as u32
        } else {
            0
        },
        length: area.size,
    }
}

/// Turns the areas of a firmware map into regions.
pub fn fmap_to_regions(header: &FmapHeader, areas: &[FmapArea]) -> (r: Vec<Region>)
    ensures
        regions_of(r@) == Seq::new(
            areas@.len(),
            |i: int| area_region(header@, areas@[i]@),
        ),
{
    let base: u32 = (header.base % 0x1_0000_0000) as u32;
    let mut regions: Vec<Region> = Vec::new();
    let mut i: usize = 0;
    while i < areas.len()
        invariant
            i <= areas.len(),
            base == header.base as int % 0x1_0000_0000,
            regions@.len() == i,
            forall|k: int|
                0 <= k < i ==> (#[trigger] regions@[k])@ == area_region(header@, areas@[k]@),
        decreases areas.len() - i,
    {
        let a = &areas[i];
        let offset: u32 = if a.offset >= base {
            a.offset - base
        } else {
            0
        };
        regions.push(Region { name: a.name.clone(), offset, length: a.size });
        i += 1;
    }
    assert(regions_of(regions@) =~= Seq::new(
        areas@.len(),
        |i: int| area_region(header@, areas@[i]@),
    ));
    regions
}

/// The position of the first region at or after `i` with the given name, whatever its case.
pub open spec fn named_from(regions: Seq<RegionModel>, name: Seq<char>, i: int) -> Option<int>
    decreases regions.len() - i,
{
    if i < 0 || i >= regions.len() {
        None
    } else if same_but_case(regions[i].name, name) {
        Some(i)
    } else {
        named_from(regions, name, i + 1)
    }
}

/// Finds a region by its name; the case of ASCII letters does not matter.
pub fn find_region<'a>(regions: &'a [Region], name: &str) -> (r: Option<&'a Region>)
    ensures
        match named_from(regions_of(regions@), name@, 0) {
            Some(i) => 0 <= i < regions@.len() && r == Some(&regions@[i]),
            None => r is None,
        },
{
    let wanted = chars_of(name);
    let ghost all = regions_of(regions@);
    let mut i: usize = 0;
    while i < regions.len()
        invariant
            i <= regions.len(),
            wanted@ == name@,
            all == regions_of(regions@),
            named_from(all, name@, 0) == named_from(all, name@, i as int),
        decreases regions.len() - i,
    {
        let own = chars_of(regions[i].name.as_str());
        assert(all[i as int].name == own@);
        if equal_but_case(own.as_slice(), wanted.as_slice()) {
            return Some(&regions[i]);
        }
        i += 1;
    }
    None
}

/// Names that differ only in case find the same region.
pub proof fn law_region_names_ignore_case(
    regions: Seq<RegionModel>,
    a: Seq<char>,
    b: Seq<char>,
    i: int,
)
    requires
        same_but_case(a, b),
        0 <= i,
    ensures
        named_from(regions, a, i) == named_from(regions, b, i),
    decreases regions.len() - i,
{
    if i < regions.len() {
        let own = regions[i].name;
        assert(same_but_case(own, a) <==> same_but_case(own, b));
        law_region_names_ignore_case(regions, a, b, i + 1);
    }
}

/// Where region definitions come from.
#[derive(Debug)]
pub enum RegionSource {
    /// A layout file at this path.
    LayoutFile(String),
    /// The firmware map on the chip.
    FmapScan,
}

/// Bytes of the chip that are searched for a firmware map.
pub fn fmap_scan_limit(chip: &ResolvedChip) -> (r: u32)
    ensures
        r == if chip.size_bytes < MB_4 {
            chip.size_bytes
        } else {
            MB_4
        },
{
    if chip.size_bytes < MB_4 {
        chip.size_bytes
    } else {
        MB_4
    }
}

/// The regions that the map in what was read of the chip defines.
pub fn scanned_regions(data: &[u8]) -> (r: Result<Vec<Region>, Error>)
    ensures
        match fmap_of(data@) {
            None => r == Err::<Vec<Region>, _>(Error::NoFmap),
            Some((hdr, areas)) => r matches Ok(v) && regions_of(v@) == Seq::new(
                areas.len(),
                |i: int| area_region(hdr, areas[i]),
            ),
        },
{
    match scan_fmap(data) {
        Some((hdr, areas)) => {
            let regions = fmap_to_regions(&hdr, areas.as_slice());
            proof {
                let models = areas_of(areas@);
                assert(regions_of(regions@) =~= Seq::new(
                    models.len(),
                    |i: int| area_region(hdr@, models[i]),
                ));
            }
            Ok(regions)
        },
        None => Err(Error::NoFmap),
    }
}

/// The region of the given name, checked against the chip.
pub open spec fn region_on_chip(
    regions: Seq<RegionModel>,
    name: Seq<char>,
    chip: ChipModel,
) -> Result<RegionModel, Error> {
    match named_from(regions, name, 0) {
        None => Err(Error::RegionNotFound),
        Some(i) => {
            let r = regions[i];
            if r.offset + r.length > u32::MAX {
                Err(Error::RegionOverflow)
            } else if r.offset + r.length > chip.size_bytes {
                Err(
                    Error::RegionExceedsChip {
                        offset: r.offset,
                        end: (r.offset + r.length) as u32,
                        size: chip.size_bytes,
                    },
                )
            } else {
                Ok(r)
            }
        },
    }
}

/// Finds a region by name and checks that it lies on the chip.
pub fn resolve_region(regions: &[Region], name: &str, chip: &ResolvedChip) -> (r: Result<
    Region,
    Error,
>)
    ensures
        match region_on_chip(regions_of(regions@), name@, chip@) {
            Ok(m) => r matches Ok(region) && region@ == m,
            Err(e) => r == Err::<Region, _>(e),
        },
{
    match find_region(regions, name) {
        None => Err(Error::RegionNotFound),
        Some(r) => {
            let end: u32 = match r.offset.checked_add(r.length) {
                Some(e) => e,
                None => return Err(Error::RegionOverflow),
            };
            if end > chip.size_bytes {
                return Err(
                    Error::RegionExceedsChip { offset: r.offset, end, size: chip.size_bytes },
                );
            }
            Ok(Region { name: r.name.clone(), offset: r.offset, length: r.length })
        },
    }
}

/// Whether a text has no white space at its ends, and is not empty.
pub open spec fn tight(s: Seq<char>) -> bool {
    s.len() > 0 && !white(s[0]) && !white(s.last())
}

proof fn lemma_search(s: Seq<char>, c: char, at: int)
    requires
        0 <= at <= s.len(),
        forall|k: int| 0 <= k < at ==> #[trigger] s[k] != c,
        at < s.len() ==> s[at] == c,
    ensures
        find_from(s, c, 0) == at,
{
    law_search_finds_the_first(s, c, 0);
    let r = find_from(s, c, 0);
    if r < at {
        assert(s[r] != c);
    } else if at < r {
        assert(s[at] != c);
    }
}

/// White space around a line does not count, nor does a comment behind it.
pub proof fn law_layout_line_without_trimmings(
    before: Seq<char>,
    core: Seq<char>,
    after: Seq<char>,
    comment: Seq<char>,
)
    requires
        tight(core),
        all_white(before, 0, before.len() as int),
        all_white(after, 0, after.len() as int),
        forall|k: int| 0 <= k < core.len() ==> #[trigger] core[k] != '#',
    ensures
        line_region(before + core + after) == line_region(core),
        line_region(core + after + seq!['#'] + comment) == line_region(core),
{
    let none = Seq::<char>::empty();
    law_trimming_takes_white_space_off_both_ends(before, core, after);
    law_trimming_takes_white_space_off_both_ends(none, core, none);
    assert(none + core + none =~= core);
    lemma_search(core, '#', core.len() as int);
    let line = core + after + seq!['#'] + comment;
    let t = trimmed(line);
    let i = crate::text::trim_start(line, 0);
    let j = crate::text::trim_end(line, i, line.len() as int);
    let hash = (core.len() + after.len()) as int;
    crate::text::lemma_trim_start(line, 0);
    crate::text::lemma_trim_end(line, i, line.len() as int);
    assert(line[0] == core[0]);
    assert(i == 0);
    assert(line[hash] == '#');
    assert(j > hash);
    assert(t =~= line.take(j));
    assert forall|k: int| 0 <= k < hash implies #[trigger] t[k] != '#' by {
        if k < core.len() {
            assert(t[k] == core[k]);
        } else {
            assert(t[k] == after[k - core.len()]);
            assert(white(after[k - core.len()]));
        }
    }
    lemma_search(t, '#', hash);
    assert(t.take(hash) =~= none + core + after);
    law_trimming_takes_white_space_off_both_ends(none, core, after);
    assert(t[0] == core[0]);
}

/// The line that gives a region its first and last address.
pub open spec fn line_of(start: nat, end: nat, width: nat, name: Seq<char>) -> Seq<char> {
    hex_text(start, width) + seq![':'] + hex_text(end, width) + seq![' '] + name
}

/// A line that names the first and the last byte of a region defines that region; one whose last
/// byte lies before its first is refused.
pub proof fn law_layout_line_defines_its_region(start: nat, end: nat, width: nat, name: Seq<char>)
    requires
        start <= u32::MAX,
        end <= u32::MAX,
        end - start < u32::MAX,
        tight(name),
        forall|k: int| 0 <= k < name.len() ==> #[trigger] name[k] != '#',
    ensures
        start <= end ==> line_region(line_of(start, end, width, name)) == Ok::<
            Option<RegionModel>,
            LineError,
        >(
            Some(
                RegionModel { name, offset: start as u32, length: (end - start + 1) as u32 },
            ),
        ),
        end < start ==> line_region(line_of(start, end, width, name)) == Err::<
            Option<RegionModel>,
            _,
        >(LineError::EndBeforeStart { start: start as u32, end: end as u32 }),
{
    let none = Seq::<char>::empty();
    let a = hex_text(start, width);
    let b = hex_text(end, width);
    let range = a + seq![':'] + b;
    let line = line_of(start, end, width, name);
    let gap = range.len() as int;
    reveal_strlit("0x");
    lemma_digits_only(start, 16, width, false);
    lemma_digits_only(end, 16, width, false);
    law_written_number_reads_back(start, width);
    law_written_number_reads_back(end, width);
    let x = radix_text(start, 16, width, false);
    let y = radix_text(end, 16, width, false);
    assert forall|k: int| 0 <= k < a.len() implies #[trigger] a[k] != ':' && a[k] != '#' && !white(
        a[k],
    ) by {
        if k >= 2 {
            assert(a[k] == x[k - 2]);
        }
    }
    assert forall|k: int| 0 <= k < b.len() implies #[trigger] b[k] != '#' && !white(b[k]) by {
        if k >= 2 {
            assert(b[k] == y[k - 2]);
        }
    }
    assert forall|k: int| 0 <= k < gap implies #[trigger] line[k] != '#' && !white(line[k]) by {
        if k < a.len() {
            assert(line[k] == a[k]);
        } else if k > a.len() {
            assert(line[k] == b[k - a.len() - 1]);
        }
    }
    assert(line[gap] == ' ');
    assert forall|k: int| gap < k < line.len() implies #[trigger] line[k] == name[k - gap - 1] by {}
    assert(line.last() == name.last());
    law_trimming_takes_white_space_off_both_ends(none, line, none);
    assert(none + line + none =~= line);
    lemma_search(line, '#', line.len() as int);
    assert(crate::bios::layout::significant(line) == line);
    law_search_finds_the_first_white(line, 0);
    let w = white_from(line, 0);
    assert(w == gap) by {
        if w < gap {
            assert(!white(line[w]));
        } else if gap < w {
            assert(!white(line[gap]));
        }
    }
    assert(line.take(gap) =~= range);
    assert(line.skip(gap + 1) =~= none + name + none);
    law_trimming_takes_white_space_off_both_ends(none, name, none);
    assert forall|k: int| 0 <= k < a.len() implies #[trigger] range[k] != ':' by {
        assert(range[k] == a[k]);
    }
    assert(range[a.len() as int] == ':');
    lemma_search(range, ':', a.len() as int);
    assert(range.take(a.len() as int) =~= a);
    assert(range.skip(a.len() as int + 1) =~= b);
}

proof fn lemma_layout_shift(front: Seq<char>, text: Seq<char>, at: int, line: int)
    requires
        0 <= at,
    ensures
        layout_from(front + text, front.len() + at, line) == layout_from(text, at, line),
    decreases
            (if at < text.len() {
                text.len() - at
            } else {
                0
            }),
{
    let all = front + text;
    let n = front.len() as int;
    if at < text.len() {
        let end = find_from(text, '\n', at);
        lemma_find_shift(front, text, '\n', at);
        law_search_finds_the_first(text, '\n', at);
        assert(all.subrange(n + at, n + end) =~= text.subrange(at, end));
        lemma_layout_shift(front, text, end + 1, line + 1);
    }
}

proof fn lemma_find_shift(front: Seq<char>, text: Seq<char>, c: char, i: int)
    requires
        0 <= i <= text.len(),
    ensures
        find_from(front + text, c, front.len() + i) == front.len() + find_from(text, c, i),
    decreases text.len() - i,
{
    if i < text.len() {
        assert((front + text)[front.len() + i] == text[i]);
        if text[i] != c {
            lemma_find_shift(front, text, c, i + 1);
        }
    }
}

/// A layout text is read line by line: what its first line defines comes first, then what the
/// following lines define, and the first bad line is reported by its number.
pub proof fn law_layout_is_read_line_by_line(first: Seq<char>, rest: Seq<char>, line: int)
    requires
        forall|k: int| 0 <= k < first.len() ==> #[trigger] first[k] != '\n',
        line >= 0,
    ensures
        layout_from(first + seq!['\n'] + rest, 0, line) == match line_region(first) {
            Err(what) => Err::<Seq<RegionModel>, _>(LayoutError { line: line as usize, what }),
            Ok(found) => match layout_from(rest, 0, line + 1) {
                Err(e) => Err(e),
                Ok(more) => Ok(
                    match found {
                        Some(r) => seq![r] + more,
                        None => more,
                    },
                ),
            },
        },
        layout_of(Seq::empty()) == Ok::<Seq<RegionModel>, LayoutError>(Seq::empty()),
{
    let front = first + seq!['\n'];
    let text = front + rest;
    let n = first.len() as int;
    assert forall|k: int| 0 <= k < n implies #[trigger] text[k] != '\n' by {
        assert(text[k] == first[k]);
    }
    assert(text[n] == '\n');
    lemma_search(text, '\n', n);
    assert(text.subrange(0, n) =~= first);
    lemma_layout_shift(front, rest, 0, line + 1);
    if let Ok(more) = layout_from(rest, 0, line + 1) {
        assert(Seq::<RegionModel>::empty() + more =~= more);
    }
}

/// Whether the bytes `__FMAP__` stand at a position.
pub open spec fn map_begins(data: Seq<u8>, at: int) -> bool {
    &&& 0 <= at
    &&& at + 8 <= data.len()
    &&& data[at] == 0x5F && data[at + 1] == 0x5F && data[at + 6] == 0x5F && data[at + 7] == 0x5F
    &&& data[at + 2] == 0x46 && data[at + 3] == 0x4D && data[at + 4] == 0x41 && data[at + 5] == 0x50
}

proof fn lemma_map_begins(data: Seq<u8>, at: int)
    requires
        0 <= at,
        at + 8 <= data.len(),
    ensures
        map_begins(data, at) <==> data.subrange(at, at + 8) == fmap_signature(),
{
    let s = data.subrange(at, at + 8);
    assert(s[0] == data[at] && s[1] == data[at + 1] && s[2] == data[at + 2] && s[3] == data[at + 3]
        && s[4] == data[at + 4] && s[5] == data[at + 5] && s[6] == data[at + 6] && s[7] == data[at
        + 7]);
    let w = fmap_signature();
    assert(w[0] == 0x5F && w[1] == 0x5F && w[2] == 0x46 && w[3] == 0x4D && w[4] == 0x41 && w[5]
        == 0x50 && w[6] == 0x5F && w[7] == 0x5F);
    if map_begins(data, at) {
        assert(s =~= w);
    }
}

proof fn lemma_map_found(data: Seq<u8>, i: int, at: int)
    requires
        0 <= i <= at,
        map_begins(data, at),
        forall|k: int| i <= k < at ==> !#[trigger] map_begins(data, k),
    ensures
        fmap_from(data, i) == Some(at),
    decreases at - i,
{
    lemma_map_begins(data, i);
    if i < at {
        assert(!map_begins(data, i));
        lemma_map_found(data, i + 1, at);
    }
}

proof fn lemma_map_missing(data: Seq<u8>, i: int)
    requires
        0 <= i,
        forall|k: int| i <= k ==> !#[trigger] map_begins(data, k),
    ensures
        fmap_from(data, i) is None,
    decreases data.len() - i,
{
    if i + 8 <= data.len() {
        lemma_map_begins(data, i);
        assert(!map_begins(data, i));
        lemma_map_missing(data, i + 1);
    }
}

/// The first signature makes the map, if all of it is there and it has at most 256 areas.  Behind
/// the signature stand the version, the base, the size, 32 bytes of name and the number of areas,
/// and 56 bytes on the areas, 42 bytes each: offset, size, 32 bytes of name, flags; numbers low
/// byte first.
pub proof fn law_map_is_read_from_its_bytes(data: Seq<u8>, at: int, i: int)
    requires
        map_begins(data, at),
        forall|k: int| 0 <= k < at ==> !#[trigger] map_begins(data, k),
    ensures
        at + 56 > data.len() ==> fmap_of(data) is None,
        at + 56 <= data.len() ==> {
            let n = le_value(data.subrange(at + 54, at + 56));
            &&& fmap_of(data) is Some <==> n <= 256 && at + 56 + 42 * n <= data.len()
            &&& fmap_of(data) matches Some((hdr, areas)) ==> {
                &&& hdr.ver_major == data[at + 8]
                &&& hdr.ver_minor == data[at + 9]
                &&& hdr.base == le_value(data.subrange(at + 10, at + 18))
                &&& hdr.size == le_value(data.subrange(at + 18, at + 22))
                &&& hdr.name == name_text(data.subrange(at + 22, at + 54))
                &&& hdr.nareas == n
                &&& areas.len() == n
                &&& 0 <= i < n ==> {
                    let a = at + 56 + 42 * i;
                    &&& areas[i].offset == le_value(data.subrange(a, a + 4))
                    &&& areas[i].size == le_value(data.subrange(a + 4, a + 8))
                    &&& areas[i].name == name_text(data.subrange(a + 8, a + 40))
                    &&& areas[i].flags == le_value(data.subrange(a + 40, a + 42))
                }
            }
        },
{
    lemma_map_found(data, 0, at);
    if at + 56 <= data.len() {
        law_numbers_are_spelled_low_byte_first(data, at + 54);
        law_numbers_are_spelled_low_byte_first(data, at + 10);
        law_numbers_are_spelled_low_byte_first(data, at + 18);
        let n = le16(data, at + 54) as int;
        if n <= 256 && at + 56 + 42 * n <= data.len() && 0 <= i < n {
            let a = at + 56 + 42 * i;
            law_numbers_are_spelled_low_byte_first(data, a);
            law_numbers_are_spelled_low_byte_first(data, a + 4);
            law_numbers_are_spelled_low_byte_first(data, a + 40);
            let (_, areas) = fmap_of(data)->0;
            assert(areas[i] == area_at(data, a));
        }
    }
}

/// An image without the signature has no map.
pub proof fn law_no_signature_no_map(data: Seq<u8>)
    requires
        forall|k: int| !#[trigger] map_begins(data, k),
    ensures
        fmap_of(data) is None,
{
    lemma_map_missing(data, 0);
}

/// A name ends before its first zero byte, and fills its field where there is none.
pub proof fn law_name_ends_at_the_first_zero(field: Seq<u8>, n: int)
    requires
        0 <= n <= field.len(),
        forall|k: int| 0 <= k < n ==> #[trigger] field[k] != 0,
        n < field.len() ==> field[n] == 0,
    ensures
        name_bytes(field) == field.take(n),
        valid_utf8(field.take(n)) ==> name_text(field) == decode_utf8(field.take(n)),
{
    lemma_zero_from(field, 0, n);
}

proof fn lemma_zero_from(field: Seq<u8>, i: int, n: int)
    requires
        0 <= i <= n <= field.len(),
        forall|k: int| i <= k < n ==> #[trigger] field[k] != 0,
        n < field.len() ==> field[n] == 0,
    ensures
        zero_from(field, i) == n,
    decreases n - i,
{
    if i < n {
        assert(field[i] != 0);
        lemma_zero_from(field, i + 1, n);
    }
}

/// The region of an area keeps its name and size, and lies as far from the map's base as the area
/// states its offset; an area before the base begins at 0.
pub proof fn law_area_lies_behind_the_base(header: HeaderModel, area: AreaModel)
    requires
        header.base <= u32::MAX,
    ensures
        ({
            let r = area_region(header, area);
            &&& r.name == area.name
            &&& r.length == area.size
            &&& header.base <= area.offset ==> header.base + r.offset == area.offset
            &&& area.offset < header.base ==> r.offset == 0
        }),
{
}

/// The region that a name finds is the first with that name, and it is found if there is one.
pub proof fn law_first_region_of_a_name_is_found(
    regions: Seq<RegionModel>,
    name: Seq<char>,
    i: int,
    k: int,
)
    requires
        0 <= i <= k < regions.len(),
        same_but_case(regions[k].name, name),
        forall|j: int| i <= j < k ==> !same_but_case((#[trigger] regions[j]).name, name),
    ensures
        named_from(regions, name, i) == Some(k),
    decreases k - i,
{
    if i < k {
        law_first_region_of_a_name_is_found(regions, name, i + 1, k);
    }
}

proof fn lemma_none_named(regions: Seq<RegionModel>, name: Seq<char>, i: int)
    requires
        0 <= i,
        forall|j: int|
            i <= j < regions.len() ==> !same_but_case((#[trigger] regions[j]).name, name),
    ensures
        named_from(regions, name, i) is None,
    decreases regions.len() - i,
{
    if i < regions.len() {
        lemma_none_named(regions, name, i + 1);
    }
}

/// A name that no region has is refused; a region that is found is taken just where it ends on the
/// chip, and is refused otherwise.
pub proof fn law_region_is_taken_iff_it_lies_on_the_chip(
    regions: Seq<RegionModel>,
    name: Seq<char>,
    chip: ChipModel,
    k: int,
)
    ensures
        (forall|j: int|
            0 <= j < regions.len() ==> !same_but_case((#[trigger] regions[j]).name, name))
            ==> region_on_chip(regions, name, chip) == Err::<RegionModel, _>(
            Error::RegionNotFound,
        ),
        0 <= k < regions.len() && same_but_case(regions[k].name, name) && (forall|j: int|
            0 <= j < k ==> !same_but_case((#[trigger] regions[j]).name, name)) ==> {
            let r = regions[k];
            &&& r.offset + r.length <= chip.size_bytes ==> region_on_chip(regions, name, chip)
                == Ok::<RegionModel, Error>(r)
            &&& r.offset + r.length > u32::MAX ==> region_on_chip(regions, name, chip) == Err::<
                RegionModel,
                _,
            >(Error::RegionOverflow)
            &&& chip.size_bytes < r.offset + r.length <= u32::MAX ==> {
                &&& region_on_chip(regions, name, chip) matches Err(
                    Error::RegionExceedsChip { offset, end, size },
                )
                &&& offset == r.offset
                &&& end - offset == r.length
                &&& size == chip.size_bytes
            }
        },
{
    if forall|j: int|
        0 <= j < regions.len() ==> !same_but_case((#[trigger] regions[j]).name, name) {
        lemma_none_named(regions, name, 0);
    }
    if 0 <= k < regions.len() && same_but_case(regions[k].name, name) && (forall|j: int|
        0 <= j < k ==> !same_but_case((#[trigger] regions[j]).name, name)) {
        law_first_region_of_a_name_is_found(regions, name, 0, k);
    }
}

} // verus!
