//! EFI Firmware Volumes (FV).
use vstd::prelude::*;

use crate::bytes::{
    law_numbers_are_spelled_low_byte_first, le16, le32, le64, le_value, read_le16, read_le32,
    read_le64,
};
use crate::text::{
    dec_text, hex_text, left_text, lemma_hex_column, lines_of, push_dec, push_hex, push_left, push_left_dec,
    push_line, push_radix, push_text, radix_text,
};

verus! {

/// `_FVH`.
pub const FVH_SIGNATURE: u32 = 0x4856_465F;

/// Where the signature stands in a volume header.
pub const FVH_SIG_OFFSET: u32 = 0x28;

/// Most volumes that are listed.
pub const MAX_FV_COUNT: usize = 32;

/// Longest plausible volume: 256 MiB.
pub const MAX_FV_LENGTH: u64 = 0x1000_0000;

/// Shortest possible volume.
pub const MIN_FV_LENGTH: u64 = 0x48;

/// A volume.
#[derive(Debug, Clone, Copy, PartialEq, Eq)]
pub struct EfiFv {
    pub offset: u32,
    pub length: u64,
    /// Identifier of the file system.
    pub guid: [u8; 16],
    pub revision: u8,
    pub attributes: u32,
}

/// The volumes of an image.
#[derive(Debug)]
pub struct EfiFvInfo {
    pub volumes: Vec<EfiFv>,
}

/// The contents of an [`EfiFv`].
#[verifier::ext_equal]
pub struct FvModel {
    pub offset: u32,
    pub length: u64,
    pub guid: Seq<u8>,
    pub revision: u8,
    pub attributes: u32,
}

impl View for EfiFv {
    type V = FvModel;

    open spec fn view(&self) -> FvModel {
        FvModel {
            offset: self.offset,
            length: self.length,
            guid: self.guid@,
            revision: self.revision,
            attributes: self.attributes,
        }
    }
}

/// The contents of a list of volumes.
pub open spec fn volumes_view(volumes: Seq<EfiFv>) -> Seq<FvModel> {
    Seq::new(volumes.len(), |i: int| volumes[i]@)
}

/// The volume whose header begins at `start`: a plausible length, all of it in the image.
pub open spec fn volume_at(data: Seq<u8>, start: int) -> Option<FvModel> {
    let length = le64(data, start + 0x20);
    if start + MIN_FV_LENGTH > data.len() || length < MIN_FV_LENGTH || length > MAX_FV_LENGTH
        || start + length > data.len() {
        None
    } else {
        Some(
            FvModel {
                offset: start as u32,
                length,
                guid: data.subrange(start + 0x10, start + 0x20),
                revision: data[start + 0x37],
                attributes: le32(data, start + 0x2C),
            },
        )
    }
}

/// The volume whose signature is at `i`: its header begins at a multiple of 4096.
pub open spec fn volume_signed_at(data: Seq<u8>, i: int) -> Option<FvModel> {
    if le32(data, i) != FVH_SIGNATURE || i < FVH_SIG_OFFSET || (i - FVH_SIG_OFFSET) % 4096 != 0 {
        None
    } else {
        volume_at(data, i - FVH_SIG_OFFSET)
    }
}

/// The volumes with a signature at or after `i`, at most `room` of them.
pub open spec fn volumes_from(data: Seq<u8>, i: int, room: int) -> Seq<FvModel>
    decreases data.len() - i,
{
    if i < 0 || i + 4 > data.len() || room <= 0 {
        Seq::empty()
    } else {
        match volume_signed_at(data, i) {
            Some(fv) => seq![fv] + volumes_from(data, i + 1, room - 1),
            None => volumes_from(data, i + 1, room),
        }
    }
}

/// Finds the volumes of an image.
pub fn scan_efifv(data: &[u8]) -> (r: Option<EfiFvInfo>)
    requires
        data@.len() <= u32::MAX,
    ensures
        ({
            let all = volumes_from(data@, 0, MAX_FV_COUNT as int);
            match r {
                Some(info) => all.len() > 0 && volumes_view(info.volumes@) == all,
                None => all.len() == 0,
            }
        }),
{
    let mut volumes: Vec<EfiFv> = Vec::new();
    let len: usize = data.len();
    let ghost goal = volumes_from(data@, 0, MAX_FV_COUNT as int);
    let mut i: usize = 0;
    assert(volumes_view(volumes@) + goal =~= goal);
    while i < len && len - i >= 4 && volumes.len() < MAX_FV_COUNT
        invariant
            len == data@.len(),
            len <= u32::MAX,
            i <= len,
            volumes@.len() <= MAX_FV_COUNT,
            goal == volumes_view(volumes@) + volumes_from(
                data@,
                i as int,
                MAX_FV_COUNT - volumes@.len(),
            ),
        decreases len - i,
    {
        if read_le32(data, i) == FVH_SIGNATURE && i as u32 >= FVH_SIG_OFFSET && (i as u32
            - FVH_SIG_OFFSET) % 4096 == 0 {
            if let Some(fv) = parse_fv(data, i as u32 - FVH_SIG_OFFSET) {
                let ghost before = volumes_view(volumes@);
                volumes.push(fv);
                proof {
                    let rest = volumes_from(data@, i + 1, MAX_FV_COUNT - volumes@.len());
                    assert(volumes_view(volumes@) =~= before.push(fv@));
                    assert(before.push(fv@) + rest =~= before + (seq![fv@] + rest));
                }
            }
        }
        i += 1;
    }
    assert(volumes_view(volumes@) =~= goal);
    if volumes.len() == 0 {
        None
    } else {
        Some(EfiFvInfo { volumes })
    }
}

fn parse_fv(data: &[u8], fv_start: u32) -> (r: Option<EfiFv>)
    requires
        data@.len() <= u32::MAX,
    ensures
        match volume_at(data@, fv_start as int) {
            None => r is None,
            Some(m) => r matches Some(fv) && fv@ == m,
        },
{
    let len: usize = data.len();
    if fv_start as u64 + MIN_FV_LENGTH > len as u64 {
        return None;
    }
    let start: usize = fv_start as usize;
    let length: u64 = read_le64(data, start + 0x20);
    if length < MIN_FV_LENGTH || length > MAX_FV_LENGTH {
        return None;
    }
    if fv_start as u64 + length > len as u64 {
        return None;
    }
    let guid: [u8; 16] = [
        data[start + 0x10],
        data[start + 0x11],
        data[start + 0x12],
        data[start + 0x13],
        data[start + 0x14],
        data[start + 0x15],
        data[start + 0x16],
        data[start + 0x17],
        data[start + 0x18],
        data[start + 0x19],
        data[start + 0x1A],
        data[start + 0x1B],
        data[start + 0x1C],
        data[start + 0x1D],
        data[start + 0x1E],
        data[start + 0x1F],
    ];
    assert(guid@ =~= data@.subrange(start + 0x10, start + 0x20));
    let attributes: u32 = read_le32(data, start + 0x2C);
    let revision: u8 = data[start + 0x37];
    Some(EfiFv { offset: fv_start, length, guid, revision, attributes })
}

/// An identifier in its customary form: the first three fields are little-endian numbers,
/// the rest is plain bytes.
pub open spec fn guid_text(g: Seq<u8>) -> Seq<char> {
    radix_text(le32(g, 0) as nat, 16, 8, true) + "-"@ + radix_text(le16(g, 4) as nat, 16, 4, true)
        + "-"@ + radix_text(le16(g, 6) as nat, 16, 4, true) + "-"@ + byte_text(g[8]) + byte_text(
        g[9],
    ) + "-"@ + byte_text(g[10]) + byte_text(g[11]) + byte_text(g[12]) + byte_text(g[13])
        + byte_text(g[14]) + byte_text(g[15])
}

/// A byte as two hexadecimal digits.
pub open spec fn byte_text(b: u8) -> Seq<char> {
    radix_text(b as nat, 16, 2, true)
}

/// Writes an identifier in its customary form.
pub fn format_guid(g: &[u8; 16]) -> (s: String)
    ensures
        s@ == guid_text(g@),
{
    let mut s = String::new();
    let bytes = g.as_slice();
    push_radix(&mut s, read_le32(bytes, 0) as u64, 16, 8, true);
    s.append("-");
    push_radix(&mut s, read_le16(bytes, 4) as u64, 16, 4, true);
    s.append("-");
    push_radix(&mut s, read_le16(bytes, 6) as u64, 16, 4, true);
    s.append("-");
    push_radix(&mut s, g[8] as u64, 16, 2, true);
    push_radix(&mut s, g[9] as u64, 16, 2, true);
    s.append("-");
    push_radix(&mut s, g[10] as u64, 16, 2, true);
    push_radix(&mut s, g[11] as u64, 16, 2, true);
    push_radix(&mut s, g[12] as u64, 16, 2, true);
    push_radix(&mut s, g[13] as u64, 16, 2, true);
    push_radix(&mut s, g[14] as u64, 16, 2, true);
    push_radix(&mut s, g[15] as u64, 16, 2, true);
    assert(s@ =~= guid_text(g@));
    s
}

/// The line of the `i`-th volume.
pub open spec fn volume_line(i: int, fv: FvModel) -> Seq<char> {
    "  "@ + left_text(dec_text(i as nat), 3) + "  "@ + hex_text(fv.offset as nat, 8) + "  "@
        + hex_text(fv.length as nat, 8) + "  "@ + left_text(guid_text(fv.guid), 36) + "  "@
        + dec_text(fv.revision as nat)
}

/// The lines of the first `n` volumes.
pub open spec fn volume_lines(volumes: Seq<FvModel>, n: int) -> Seq<Seq<char>> {
    Seq::new(n as nat, |i: int| volume_line(i, volumes[i]))
}

/// A line of the table's head.
pub open spec fn table_row(
    a: Seq<char>,
    b: Seq<char>,
    c: Seq<char>,
    d: Seq<char>,
    e: Seq<char>,
) -> Seq<char> {
    "  "@ + left_text(a, 3) + "  "@ + left_text(b, 10) + "  "@ + left_text(c, 10) + "  "@
        + left_text(d, 36) + "  "@ + e
}

fn push_row(out: &mut Vec<String>, a: &str, b: &str, c: &str, d: &str, e: &str)
    ensures
        lines_of(final(out)@) == lines_of(old(out)@).push(table_row(a@, b@, c@, d@, e@)),
{
    let mut s = String::from_str("  ");
    push_left(&mut s, a, 3);
    s.append("  ");
    push_left(&mut s, b, 10);
    s.append("  ");
    push_left(&mut s, c, 10);
    s.append("  ");
    push_left(&mut s, d, 36);
    s.append("  ");
    s.append(e);
    assert(s@ =~= table_row(a@, b@, c@, d@, e@));
    push_line(out, s);
}

/// The report of a list of volumes.
pub open spec fn efifv_report(volumes: Seq<FvModel>) -> Seq<Seq<char>> {
    seq![
        "EFI Firmware Volumes"@,
        "  volumes: "@ + dec_text(volumes.len()),
        ""@,
        table_row("#"@, "OFFSET"@, "LENGTH"@, "GUID"@, "REV"@),
        table_row(
            "--"@,
            "----------"@,
            "----------"@,
            "------------------------------------"@,
            "---"@,
        ),
    ] + volume_lines(volumes, volumes.len() as int)
}

/// Reports the volumes of an image.
pub fn print_efifv(info: &EfiFvInfo, _file_size: u32) -> (out: Vec<String>)
    ensures
        lines_of(out@) == efifv_report(volumes_view(info.volumes@)),
{
    let mut out: Vec<String> = Vec::new();
    push_text(&mut out, "EFI Firmware Volumes");
    let mut s = String::from_str("  volumes: ");
    push_dec(&mut s, info.volumes.len() as u64);
    push_line(&mut out, s);
    push_text(&mut out, "");
    push_row(&mut out, "#", "OFFSET", "LENGTH", "GUID", "REV");
    push_row(
        &mut out,
        "--",
        "----------",
        "----------",
        "------------------------------------",
        "---",
    );
    let ghost head = lines_of(out@);
    let ghost all = volumes_view(info.volumes@);
    let mut i: usize = 0;
    while i < info.volumes.len()
        invariant
            i <= info.volumes.len(),
            all == volumes_view(info.volumes@),
            lines_of(out@) =~= head + volume_lines(all, i as int),
        decreases info.volumes.len() - i,
    {
        let fv = info.volumes[i];
        assert(all[i as int] == fv@);
        let mut s = String::from_str("  ");
        push_left_dec(&mut s, i as u64, 3);
        s.append("  ");
        push_hex(&mut s, fv.offset as u64, 8);
        s.append("  ");
        push_hex(&mut s, fv.length, 8);
        s.append("  ");
        let guid = format_guid(&fv.guid);
        push_left(&mut s, guid.as_str(), 36);
        s.append("  ");
        push_dec(&mut s, fv.revision as u64);
        assert(s@ =~= volume_line(i as int, fv@));
        push_line(&mut out, s);
        i += 1;
    }
    assert(lines_of(out@) =~= efifv_report(all));
    out
}

/// Whether a volume begins at `start`, a multiple of 4096: the bytes `_FVH` stand 0x28 behind, and
/// the eight bytes before them state a length from 0x48 bytes to 256 MiB that the image has.
pub open spec fn volume_begins(data: Seq<u8>, start: int) -> bool {
    let length = le_value(data.subrange(start + 0x20, start + 0x28));
    &&& 0 <= start
    &&& start % 4096 == 0
    &&& start + 0x48 <= data.len()
    &&& data.subrange(start + 0x28, start + 0x2C) == seq![0x5Fu8, 0x46, 0x56, 0x48]
    &&& 0x48 <= length <= 256 * 1024 * 1024
    &&& start + length <= data.len()
}

/// Whether a volume is what its header says.
pub open spec fn volume_is(data: Seq<u8>, fv: FvModel) -> bool {
    let start = fv.offset as int;
    &&& volume_begins(data, start)
    &&& fv.length == le_value(data.subrange(start + 0x20, start + 0x28))
    &&& fv.guid == data.subrange(start + 0x10, start + 0x20)
    &&& fv.attributes == le_value(data.subrange(start + 0x2C, start + 0x30))
    &&& fv.revision == data[start + 0x37]
}

proof fn lemma_volume_signed(data: Seq<u8>, i: int)
    requires
        0 <= i,
        i + 4 <= data.len() <= u32::MAX,
    ensures
        volume_signed_at(data, i) is Some <==> volume_begins(data, i - 0x28),
        volume_signed_at(data, i) matches Some(fv) ==> fv.offset == i - 0x28 && volume_is(data, fv),
{
    let start = i - 0x28;
    if start >= 0 && start + 0x48 <= data.len() {
        law_numbers_are_spelled_low_byte_first(data, start + 0x20);
        law_numbers_are_spelled_low_byte_first(data, start + 0x2C);
        let b = data.subrange(start + 0x28, start + 0x2C);
        assert(b[0] == data[i] && b[1] == data[i + 1] && b[2] == data[i + 2] && b[3] == data[i
            + 3]);
        if le32(data, i) == FVH_SIGNATURE {
            assert(b =~= seq![0x5Fu8, 0x46, 0x56, 0x48]);
        }
    }
}

proof fn lemma_volumes_from(data: Seq<u8>, i: int, room: int)
    requires
        0 <= i,
        data.len() <= u32::MAX,
        0 <= room,
    ensures
        ({
            let all = volumes_from(data, i, room);
            &&& all.len() <= room
            &&& forall|k: int|
                0 <= k < all.len() ==> volume_is(data, #[trigger] all[k]) && all[k].offset + 0x28
                    >= i
            &&& forall|j: int, k: int|
                0 <= j < k < all.len() ==> (#[trigger] all[j]).offset < (#[trigger] all[k]).offset
            &&& all.len() < room ==> forall|start: int|
                #![trigger volume_begins(data, start)]
                volume_begins(data, start) && start + 0x28 >= i ==> exists|k: int|
                    0 <= k < all.len() && (#[trigger] all[k]).offset == start
        }),
    decreases data.len() - i,
{
    let all = volumes_from(data, i, room);
    if i + 4 <= data.len() && room > 0 {
        lemma_volume_signed(data, i);
        match volume_signed_at(data, i) {
            Some(fv) => {
                let rest = volumes_from(data, i + 1, room - 1);
                lemma_volumes_from(data, i + 1, room - 1);
                assert(all =~= seq![fv] + rest);
                assert forall|k: int| 0 <= k < all.len() implies volume_is(data, #[trigger] all[k])
                    && all[k].offset + 0x28 >= i by {
                    if k > 0 {
                        assert(all[k] == rest[k - 1]);
                    }
                }
                assert forall|j: int, k: int| 0 <= j < k < all.len() implies (
                #[trigger] all[j]).offset < (#[trigger] all[k]).offset by {
                    assert(all[k] == rest[k - 1]);
                    if j > 0 {
                        assert(all[j] == rest[j - 1]);
                    }
                }
                if all.len() < room {
                    assert forall|start: int|
                        #![trigger volume_begins(data, start)]
                        volume_begins(data, start) && start + 0x28 >= i implies exists|k: int|
                        0 <= k < all.len() && (#[trigger] all[k]).offset == start by {
                        if start + 0x28 == i {
                            assert(all[0].offset == start);
                        } else {
                            let k = choose|k: int|
                                0 <= k < rest.len() && (#[trigger] rest[k]).offset == start;
                            assert(all[k + 1].offset == start);
                        }
                    }
                }
            },
            None => {
                lemma_volumes_from(data, i + 1, room);
            },
        }
    }
}

/// The volumes of an image are those that begin somewhere in it, in ascending order, each as its
/// header says; where more than 32 begin, the first 32.
pub proof fn law_volumes_are_listed_in_order(data: Seq<u8>, start: int, k: int)
    requires
        data.len() <= u32::MAX,
    ensures
        ({
            let all = volumes_from(data, 0, MAX_FV_COUNT as int);
            &&& all.len() <= 32
            &&& 0 <= k < all.len() ==> volume_is(data, all[k])
            &&& 0 < k < all.len() ==> all[k - 1].offset < all[k].offset
            &&& volume_begins(data, start) && all.len() < 32 ==> exists|j: int|
                0 <= j < all.len() && (#[trigger] all[j]).offset == start
        }),
{
    lemma_volumes_from(data, 0, MAX_FV_COUNT as int);
}

/// The first four bytes of an identifier are written last to first, and so are the next two, and
/// the next; the others in their order.
pub proof fn law_guid_is_written_field_by_field(g: Seq<u8>)
    requires
        g.len() == 16,
    ensures
        guid_text(g) == byte_text(g[3]) + byte_text(g[2]) + byte_text(g[1]) + byte_text(g[0])
            + "-"@ + (byte_text(g[5]) + byte_text(g[4])) + "-"@ + (byte_text(g[7]) + byte_text(
            g[6],
        )) + "-"@ + byte_text(g[8]) + byte_text(g[9]) + "-"@ + byte_text(g[10]) + byte_text(g[11])
            + byte_text(g[12]) + byte_text(g[13]) + byte_text(g[14]) + byte_text(g[15]),
{
    lemma_four_bytes(g[0], g[1], g[2], g[3]);
    lemma_push_byte(g[5] as nat, g[4], 2);
    lemma_push_byte(g[7] as nat, g[6], 2);
    assert(le16(g, 4) == g[5] * 0x100 + g[4]);
    assert(le16(g, 6) == g[7] * 0x100 + g[6]);
}

proof fn lemma_four_bytes(a: u8, b: u8, c: u8, d: u8)
    ensures
        radix_text((a + b * 0x100 + c * 0x1_0000 + d * 0x100_0000) as nat, 16, 8, true)
            == byte_text(d) + byte_text(c) + byte_text(b) + byte_text(a),
{
    let n1 = d as nat;
    let n2 = (n1 * 0x100 + c) as nat;
    let n3 = (n2 * 0x100 + b) as nat;
    lemma_push_byte(n1, c, 2);
    lemma_push_byte(n2, b, 4);
    lemma_push_byte(n3, a, 6);
    assert(n3 * 0x100 + a == a + b * 0x100 + c * 0x1_0000 + d * 0x100_0000);
}

/// Two more digits write one more byte.
proof fn lemma_push_byte(n: nat, b: u8, width: nat)
    requires
        width >= 1,
    ensures
        radix_text((n * 0x100 + b) as nat, 16, width + 2, true) == radix_text(n, 16, width, true)
            + byte_text(b),
{
    let m = (n * 0x100 + b) as nat;
    reveal_with_fuel(radix_text, 3);
    assert(m / 16 / 16 == n);
    assert(m % 16 == b as nat % 16);
    assert((m / 16) % 16 == b as nat / 16);
    assert(radix_text(m, 16, width + 2, true) =~= radix_text(n, 16, width, true) + byte_text(b));
}

/// A volume's line shows its offset, its length and its identifier in fixed columns.
pub proof fn law_volume_line_shows_offset_and_length(i: int, fv: FvModel)
    requires
        0 <= i < 10,
        fv.length <= u32::MAX,
    ensures
        volume_line(i, fv).subrange(7, 17) == hex_text(fv.offset as nat, 8),
        volume_line(i, fv).subrange(19, 29) == hex_text(fv.length as nat, 8),
        volume_line(i, fv).skip(31) == left_text(guid_text(fv.guid), 36) + "  "@ + dec_text(
            fv.revision as nat,
        ),
{
    reveal_strlit("  ");
    lemma_hex_column(fv.offset as nat);
    lemma_hex_column(fv.length as nat);
    let line = volume_line(i, fv);
    assert(dec_text(i as nat).len() == 1);
    assert(left_text(dec_text(i as nat), 3).len() == 3);
    assert(line.subrange(7, 17) =~= hex_text(fv.offset as nat, 8));
    assert(line.subrange(19, 29) =~= hex_text(fv.length as nat, 8));
    assert(line.skip(31) =~= left_text(guid_text(fv.guid), 36) + "  "@ + dec_text(
        fv.revision as nat,
    ));
}

/// The report of an image counts its volumes, and has one line for each, in order.
pub proof fn law_every_volume_has_its_line(volumes: Seq<FvModel>, i: int)
    requires
        0 <= i < volumes.len(),
    ensures
        efifv_report(volumes).len() == volumes.len() + 5,
        efifv_report(volumes)[1] == "  volumes: "@ + dec_text(volumes.len()),
        efifv_report(volumes)[i + 5] == volume_line(i, volumes[i]),
{
}

} // verus!
