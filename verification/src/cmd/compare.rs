//! The compare command.
use sha2::Digest;
use vstd::prelude::*;

use crate::args::VoltageChoice;
use crate::chip::ResolvedChip;
use crate::error::Error;
use crate::spi::SpiSpeed;
use crate::text::{
    dec_text, digit_char, hex_text, lines_of, push_dec, push_hex, push_line, push_radix, push_text,
    radix_text, same_text,
};

verus! {

/// Options of the compare command.
#[derive(Debug)]
pub struct CompareOpts {
    pub vc: VoltageChoice,
    pub speed: SpiSpeed,
    pub file: String,
    pub offset: u32,
    pub length: Option<u32>,
    pub layout: Option<String>,
    pub region: Option<String>,
}

/// How many bytes are compared: as asked for, or as the file and the chip both have; the file
/// must have just as many.
pub open spec fn compare_length(size: u32, file_len: int, offset: u32, length: Option<u32>) -> Result<
    u32,
    Error,
> {
    let available = (size - offset) as u32;
    if offset >= size {
        Err(Error::OffsetExceedsChip { offset, size })
    } else if length matches Some(len) && len > available {
        Err(Error::LengthExceedsChip { len: length->0, available })
    } else {
        let len = match length {
            Some(len) => len,
            None => if file_len < available {
                file_len as u32
            } else {
                available
            },
        };
        if file_len != len {
            Err(Error::CompareLength { file: file_len as usize, len })
        } else {
            Ok(len)
        }
    }
}

/// Decides how many bytes are compared.
pub fn length_to_compare(
    chip: &ResolvedChip,
    file_len: usize,
    offset: u32,
    length: Option<u32>,
) -> (r: Result<u32, Error>)
    ensures
        r == compare_length(chip.size_bytes, file_len as int, offset, length),
{
    if offset >= chip.size_bytes {
        return Err(Error::OffsetExceedsChip { offset, size: chip.size_bytes });
    }
    let available: u32 = chip.size_bytes - offset;
    let len: u32 = match length {
        Some(len) => {
            if len > available {
                return Err(Error::LengthExceedsChip { len, available });
            }
            len
        },
        None => if file_len < available as usize {
            file_len as u32
        } else {
            available
        },
    };
    if file_len != len as usize {
        return Err(Error::CompareLength { file: file_len, len });
    }
    Ok(len)
}

/// The SHA-256 digest of bytes.
pub uninterp spec fn sha256(data: Seq<u8>) -> Seq<u8>;

/// `Sha256::digest` of the `sha2` crate computes the SHA-256 digest, 32 bytes that depend on
/// the data alone.
#[verifier::external_body]
fn sha256_digest(data: &[u8]) -> (r: Vec<u8>)
    ensures
        r@ == sha256(data@),
        r@.len() == 32,
{
    sha2::Sha256::digest(data).to_vec()
}

/// Bytes as pairs of hexadecimal digits.
pub open spec fn hex_of(bytes: Seq<u8>, n: int) -> Seq<char>
    decreases n,
{
    if n <= 0 {
        Seq::empty()
    } else {
        hex_of(bytes, n - 1) + radix_text(bytes[n - 1] as nat, 16, 2, false)
    }
}

/// Writes bytes as pairs of hexadecimal digits.
pub fn hex(bytes: &[u8]) -> (s: String)
    ensures
        s@ == hex_of(bytes@, bytes@.len() as int),
{
    let mut s = String::new();
    let mut i: usize = 0;
    assert(s@ =~= hex_of(bytes@, 0));
    while i < bytes.len()
        invariant
            i <= bytes.len(),
            s@ == hex_of(bytes@, i as int),
        decreases bytes.len() - i,
    {
        push_radix(&mut s, bytes[i] as u64, 16, 2, false);
        i += 1;
    }
    s
}

/// The positions below `n` at which two images differ.
pub open spec fn differing(a: Seq<u8>, b: Seq<u8>, n: int) -> Seq<int>
    decreases n,
{
    if n <= 0 {
        Seq::empty()
    } else if a[n - 1] != b[n - 1] {
        differing(a, b, n - 1).push(n - 1)
    } else {
        differing(a, b, n - 1)
    }
}

pub proof fn lemma_no_diffs(a: Seq<u8>, b: Seq<u8>, n: int)
    requires
        0 <= n <= a.len(),
        a.len() == b.len(),
    ensures
        differing(a, b, n).len() == 0 <==> a.take(n) == b.take(n),
        differing(a, b, n).len() <= n,
    decreases n,
{
    if n > 0 {
        lemma_no_diffs(a, b, n - 1);
        assert(a.take(n) =~= a.take(n - 1).push(a[n - 1]));
        assert(b.take(n) =~= b.take(n - 1).push(b[n - 1]));
        if a.take(n) == b.take(n) {
            assert(a.take(n)[n - 1] == b.take(n)[n - 1]);
            assert(a.take(n - 1) =~= a.take(n).take(n - 1));
            assert(b.take(n - 1) =~= b.take(n).take(n - 1));
        }
    } else {
        assert(a.take(n) =~= b.take(n));
    }
}

/// How many bytes of two images differ.
pub fn count_diffs(a: &[u8], b: &[u8]) -> (n: usize)
    requires
        a@.len() == b@.len(),
    ensures
        n == differing(a@, b@, a@.len() as int).len(),
{
    let mut n: usize = 0;
    let mut i: usize = 0;
    while i < a.len()
        invariant
            i <= a@.len(),
            a@.len() == b@.len(),
            n <= i,
            n == differing(a@, b@, i as int).len(),
        decreases a@.len() - i,
    {
        if a[i] != b[i] {
            n += 1;
        }
        i += 1;
    }
    n
}

/// Whether what was read back differs from the data only by cleared bits.
pub open spec fn only_bits_cleared(data: Seq<u8>, readback: Seq<u8>) -> bool {
    data != readback && forall|i: int|
        0 <= i < data.len() && i < readback.len() ==> #[trigger] readback[i] & !data[i] == 0
}

/// Whether what was read back differs from the data only by cleared bits, which is what
/// programming without erasing leaves behind.
pub fn probable_missing_erase(data: &[u8], readback: &[u8]) -> (r: bool)
    requires
        data@.len() == readback@.len(),
    ensures
        r == only_bits_cleared(data@, readback@),
{
    let mut same = true;
    let mut i: usize = 0;
    while i < data.len()
        invariant
            i <= data@.len(),
            data@.len() == readback@.len(),
            same <==> forall|k: int| 0 <= k < i ==> data@[k] == readback@[k],
            forall|k: int| 0 <= k < i ==> #[trigger] readback@[k] & !data@[k] == 0,
        decreases data@.len() - i,
    {
        if readback[i] & !data[i] != 0 {
            assert(readback@[i as int] & !data@[i as int] != 0);
            return false;
        }
        if data[i] != readback[i] {
            same = false;
        }
        i += 1;
    }
    proof {
        if same {
            assert(data@ =~= readback@);
        }
    }
    !same
}

/// Programming without erasing leaves only cleared bits behind: whatever the flash held, what
/// is read back has no bit set that the data does not have.
pub proof fn law_programming_over_leaves_only_cleared_bits(held: u8, data: u8)
    ensures
        (held & data) & !data == 0,
{
    assert((held & data) & !data == 0) by (bit_vector);
}

/// The line of one difference.
pub open spec fn diff_line(offset: u32, i: int, file: u8, flash: u8) -> Seq<char> {
    "  "@ + hex_text((offset + i) as nat, 8) + "  file="@ + hex_text(file as nat, 2) + "  flash="@
        + hex_text(flash as nat, 2)
}

/// How many differences are shown.
pub const MAX_SHOWN: usize = 8;

/// The lines of the first `n` differences.
pub open spec fn diff_lines(
    expected: Seq<u8>,
    flash: Seq<u8>,
    offset: u32,
    diffs: Seq<int>,
    n: int,
) -> Seq<Seq<char>> {
    Seq::new(
        n as nat,
        |k: int| diff_line(offset, diffs[k], expected[diffs[k]], flash[diffs[k]]),
    )
}

/// The report of a comparison, given the two digests.
pub open spec fn compare_report(
    expected: Seq<u8>,
    flash: Seq<u8>,
    file_digest: Seq<u8>,
    flash_digest: Seq<u8>,
    file: Seq<char>,
    offset: u32,
) -> Seq<Seq<char>> {
    let file_hash = hex_of(file_digest, file_digest.len() as int);
    let flash_hash = hex_of(flash_digest, flash_digest.len() as int);
    let diffs = differing(expected, flash, expected.len() as int);
    let shown: int = if diffs.len() < MAX_SHOWN {
        diffs.len() as int
    } else {
        MAX_SHOWN as int
    };
    seq![
        "File:  "@ + file_hash + "  "@ + file,
        "Flash: "@ + flash_hash + "  (offset "@ + hex_text(offset as nat, 8) + ", "@ + dec_text(
            expected.len(),
        ) + " bytes)"@,
    ] + (if file_hash == flash_hash {
        seq!["Match: OK"@]
    } else {
        seq!["Match: FAIL"@, "Diffs: "@ + dec_text(diffs.len()) + " bytes differ"@] + diff_lines(
            expected,
            flash,
            offset,
            diffs,
            shown,
        ) + (if diffs.len() > shown {
            seq!["  ... ("@ + dec_text((diffs.len() - shown) as nat) + " more)"@]
        } else {
            Seq::empty()
        })
    })
}

/// Reports a comparison, given the two digests, and says whether they agree.
pub fn report_comparison(
    expected: &[u8],
    flash: &[u8],
    file_digest: &[u8],
    flash_digest: &[u8],
    file: &str,
    offset: u32,
) -> (r: (Vec<String>, bool))
    requires
        expected@.len() == flash@.len(),
        offset + expected@.len() <= u32::MAX,
    ensures
        lines_of(r.0@) == compare_report(
            expected@,
            flash@,
            file_digest@,
            flash_digest@,
            file@,
            offset,
        ),
        r.1 == (hex_of(file_digest@, file_digest@.len() as int) == hex_of(
            flash_digest@,
            flash_digest@.len() as int,
        )),
{
    let file_hash = hex(file_digest);
    let flash_hash = hex(flash_digest);
    let mut out: Vec<String> = Vec::new();
    let mut s = String::from_str("File:  ");
    s.append(file_hash.as_str());
    s.append("  ");
    s.append(file);
    push_line(&mut out, s);
    let mut s = String::from_str("Flash: ");
    s.append(flash_hash.as_str());
    s.append("  (offset ");
    push_hex(&mut s, offset as u64, 8);
    s.append(", ");
    push_dec(&mut s, expected.len() as u64);
    s.append(" bytes)");
    push_line(&mut out, s);
    if same_text(file_hash.as_str(), flash_hash.as_str()) {
        push_text(&mut out, "Match: OK");
        assert(lines_of(out@) =~= compare_report(
            expected@,
            flash@,
            file_digest@,
            flash_digest@,
            file@,
            offset,
        ));
        return (out, true);
    }
    push_text(&mut out, "Match: FAIL");
    let total: usize = count_diffs(expected, flash);
    let mut s = String::from_str("Diffs: ");
    push_dec(&mut s, total as u64);
    s.append(" bytes differ");
    push_line(&mut out, s);
    let ghost head = lines_of(out@);
    let ghost diffs = differing(expected@, flash@, expected@.len() as int);
    let mut shown: usize = 0;
    let mut i: usize = 0;
    while i < expected.len() && shown < MAX_SHOWN
        invariant
            expected@.len() == flash@.len(),
            offset + expected@.len() <= u32::MAX,
            i <= expected@.len(),
            diffs == differing(expected@, flash@, expected@.len() as int),
            shown <= MAX_SHOWN,
            shown == differing(expected@, flash@, i as int).len(),
            lines_of(out@) =~= head + diff_lines(
                expected@,
                flash@,
                offset,
                diffs,
                shown as int,
            ),
        decreases expected@.len() - i,
    {
        if expected[i] != flash[i] {
            let mut s = String::from_str("  ");
            push_hex(&mut s, (offset + i as u32) as u64, 8);
            s.append("  file=");
            push_hex(&mut s, expected[i] as u64, 2);
            s.append("  flash=");
            push_hex(&mut s, flash[i] as u64, 2);
            assert(s@ =~= diff_line(offset, i as int, expected@[i as int], flash@[i as int]));
            proof {
                lemma_diff_prefix(expected@, flash@, i + 1, expected@.len() as int);
                assert(diffs[shown as int] == i);
            }
            push_line(&mut out, s);
            shown += 1;
        }
        i += 1;
    }
    proof {
        lemma_diff_prefix(expected@, flash@, i as int, expected@.len() as int);
        assert(diffs.len() == total);
    }
    if total > shown {
        let mut s = String::from_str("  ... (");
        push_dec(&mut s, (total - shown) as u64);
        s.append(" more)");
        push_line(&mut out, s);
    }
    assert(lines_of(out@) =~= compare_report(
        expected@,
        flash@,
        file_digest@,
        flash_digest@,
        file@,
        offset,
    ));
    (out, false)
}

proof fn lemma_diff_prefix(a: Seq<u8>, b: Seq<u8>, m: int, n: int)
    requires
        0 <= m <= n,
    ensures
        differing(a, b, m).len() <= differing(a, b, n).len(),
        forall|k: int|
            0 <= k < differing(a, b, m).len() ==> #[trigger] differing(a, b, n)[k] == differing(
                a,
                b,
                m,
            )[k],
    decreases n - m,
{
    if m < n {
        lemma_diff_prefix(a, b, m, n - 1);
    }
}

/// Compares a file with what the flash holds: reports both digests and, where they differ,
/// the first differences, and says whether they agree.
pub fn compare(expected: &[u8], flash: &[u8], file: &str, offset: u32) -> (r: (Vec<String>, bool))
    requires
        expected@.len() == flash@.len(),
        offset + expected@.len() <= u32::MAX,
    ensures
        lines_of(r.0@) == compare_report(
            expected@,
            flash@,
            sha256(expected@),
            sha256(flash@),
            file@,
            offset,
        ),
        r.1 == (sha256(expected@) == sha256(flash@)),
{
    let file_digest = sha256_digest(expected);
    let flash_digest = sha256_digest(flash);
    proof {
        law_hash_texts_agree_iff_digests_agree(file_digest@, flash_digest@);
    }
    report_comparison(
        expected,
        flash,
        file_digest.as_slice(),
        flash_digest.as_slice(),
        file,
        offset,
    )
}

proof fn lemma_byte_digits(b: u8)
    ensures
        radix_text(b as nat, 16, 2, false) == seq![
            digit_char(b as int / 16, false),
            digit_char(b as int % 16, false),
        ],
{
    reveal_with_fuel(radix_text, 3);
    assert(radix_text(b as nat, 16, 2, false) =~= seq![
        digit_char(b as int / 16, false),
        digit_char(b as int % 16, false),
    ]);
}

proof fn lemma_hex_len(a: Seq<u8>, n: int)
    requires
        0 <= n,
    ensures
        hex_of(a, n).len() == 2 * n,
    decreases n,
{
    if n > 0 {
        lemma_hex_len(a, n - 1);
        lemma_byte_digits(a[n - 1]);
    }
}

proof fn lemma_hex_injective(a: Seq<u8>, b: Seq<u8>, n: int)
    requires
        0 <= n <= a.len(),
        a.len() == b.len(),
        hex_of(a, n) == hex_of(b, n),
    ensures
        a.take(n) == b.take(n),
    decreases n,
{
    if n > 0 {
        lemma_hex_len(a, n - 1);
        lemma_hex_len(b, n - 1);
        lemma_byte_digits(a[n - 1]);
        lemma_byte_digits(b[n - 1]);
        let x = hex_of(a, n);
        let y = hex_of(b, n);
        assert(hex_of(a, n - 1) =~= x.take(2 * n - 2));
        assert(hex_of(b, n - 1) =~= y.take(2 * n - 2));
        lemma_hex_injective(a, b, n - 1);
        assert(x[2 * n - 2] == digit_char(a[n - 1] as int / 16, false));
        assert(y[2 * n - 2] == digit_char(b[n - 1] as int / 16, false));
        assert(x[2 * n - 1] == digit_char(a[n - 1] as int % 16, false));
        assert(y[2 * n - 1] == digit_char(b[n - 1] as int % 16, false));
        lemma_digits_differ(a[n - 1] as int / 16, b[n - 1] as int / 16);
        lemma_digits_differ(a[n - 1] as int % 16, b[n - 1] as int % 16);
        assert(a.take(n) =~= a.take(n - 1).push(a[n - 1]));
        assert(b.take(n) =~= b.take(n - 1).push(b[n - 1]));
    } else {
        assert(a.take(0) =~= b.take(0));
    }
}

proof fn lemma_digits_differ(x: int, y: int)
    requires
        0 <= x < 16,
        0 <= y < 16,
        digit_char(x, false) == digit_char(y, false),
    ensures
        x == y,
{
}

/// Two digests of one length have the same text exactly if they are equal.
pub proof fn law_hash_texts_agree_iff_digests_agree(a: Seq<u8>, b: Seq<u8>)
    requires
        a.len() == b.len(),
    ensures
        hex_of(a, a.len() as int) == hex_of(b, b.len() as int) <==> a == b,
{
    if hex_of(a, a.len() as int) == hex_of(b, b.len() as int) {
        lemma_hex_injective(a, b, a.len() as int);
        assert(a.take(a.len() as int) =~= a);
        assert(b.take(b.len() as int) =~= b);
    }
}

/// The differences between two images are the positions at which they differ, all of them, in
/// ascending order.
pub proof fn law_differences_are_all_found_in_order(a: Seq<u8>, b: Seq<u8>, n: int, i: int)
    requires
        0 <= n,
    ensures
        differing(a, b, n).contains(i) <==> 0 <= i < n && a[i] != b[i],
        forall|j: int, k: int|
            0 <= j < k < differing(a, b, n).len() ==> #[trigger] differing(a, b, n)[j]
                < #[trigger] differing(a, b, n)[k],
        forall|k: int|
            0 <= k < differing(a, b, n).len() ==> 0 <= #[trigger] differing(a, b, n)[k] < n,
    decreases n,
{
    if n > 0 {
        law_differences_are_all_found_in_order(a, b, n - 1, i);
        let rest = differing(a, b, n - 1);
        let all = differing(a, b, n);
        if a[n - 1] != b[n - 1] {
            assert(all[rest.len() as int] == n - 1);
            if rest.contains(i) {
                let k = choose|k: int| 0 <= k < rest.len() && rest[k] == i;
                assert(all[k] == i);
            }
            if all.contains(i) && i != n - 1 {
                let k = choose|k: int| 0 <= k < all.len() && all[k] == i;
                assert(rest[k] == i);
            }
        }
    }
}

/// A comparison goes ahead just where the range begins on the chip and the file fills it: as many
/// bytes as were asked for, or, without a length, as the file has; and never past the end of the
/// chip.
pub proof fn law_comparison_covers_the_whole_file(
    size: u32,
    file_len: int,
    offset: u32,
    length: Option<u32>,
)
    requires
        0 <= file_len,
    ensures
        compare_length(size, file_len, offset, length) is Ok <==> offset < size && offset + file_len
            <= size && (length matches Some(len) ==> len == file_len),
        compare_length(size, file_len, offset, length) matches Ok(len) ==> len == file_len,
        offset >= size ==> compare_length(size, file_len, offset, length) == Err::<u32, _>(
            Error::OffsetExceedsChip { offset, size },
        ),
{
}

/// A comparison is reported as a match just where the digests agree; else the number of different
/// bytes is told, and of the first eight of them, one line each, the address, the byte of the file
/// and that of the flash, and how many more there are.
pub proof fn law_comparison_report_tells_the_differences(
    expected: Seq<u8>,
    flash: Seq<u8>,
    file_digest: Seq<u8>,
    flash_digest: Seq<u8>,
    file: Seq<char>,
    offset: u32,
    k: int,
    i: int,
)
    requires
        expected.len() == flash.len(),
        file_digest.len() == flash_digest.len(),
        0 <= k,
    ensures
        ({
            let lines = compare_report(expected, flash, file_digest, flash_digest, file, offset);
            let n = differing(expected, flash, expected.len() as int).len();
            &&& file_digest == flash_digest ==> lines.len() == 3 && lines[2] == "Match: OK"@
            &&& file_digest != flash_digest ==> {
                &&& lines[2] == "Match: FAIL"@
                &&& lines[3] == "Diffs: "@ + dec_text(n) + " bytes differ"@
                &&& n <= 8 ==> lines.len() == 4 + n
                &&& n > 8 ==> lines.len() == 13 && lines[12] == "  ... ("@ + dec_text(
                    (n - 8) as nat,
                ) + " more)"@
                &&& k < 8 && 0 <= i < expected.len() && expected[i] != flash[i] && differing(
                    expected,
                    flash,
                    i,
                ).len() == k ==> lines[4 + k] == "  "@ + hex_text((offset + i) as nat, 8)
                    + "  file="@ + hex_text(expected[i] as nat, 2) + "  flash="@ + hex_text(
                    flash[i] as nat,
                    2,
                )
            }
        }),
{
    law_hash_texts_agree_iff_digests_agree(file_digest, flash_digest);
    if 0 <= i < expected.len() && expected[i] != flash[i] && differing(expected, flash, i).len()
        == k {
        lemma_diff_prefix(expected, flash, i + 1, expected.len() as int);
        assert(differing(expected, flash, i + 1)[k] == i);
        assert(differing(expected, flash, expected.len() as int)[k] == i);
    }
}

/// What programming leaves behind over flash that was not erased is told from other failures: it
/// differs from the data by cleared bits only.
pub proof fn law_missing_erase_is_recognised(held: Seq<u8>, data: Seq<u8>)
    requires
        held.len() == data.len(),
    ensures
        crate::flash::programmed(held, 0, data) != data <==> only_bits_cleared(
            data,
            crate::flash::programmed(held, 0, data),
        ),
{
    let readback = crate::flash::programmed(held, 0, data);
    assert forall|i: int| 0 <= i < data.len() && i < readback.len() implies #[trigger] readback[i]
        & !data[i] == 0 by {
        law_programming_over_leaves_only_cleared_bits(held[i], data[i]);
    }
}

/// A readback in which some byte has a bit that the data does not have does not look like a
/// missing erase.
pub proof fn law_set_bit_is_no_missing_erase(data: Seq<u8>, readback: Seq<u8>, i: int)
    requires
        data.len() == readback.len(),
        0 <= i < data.len(),
        readback[i] | data[i] != data[i],
    ensures
        !only_bits_cleared(data, readback),
{
    let a: u8 = data[i];
    let b: u8 = readback[i];
    assert(b | a != a ==> b & !a != 0) by (bit_vector);
}

/// The two digests stand behind the head of their line, each spelled by two digits a byte; the
/// second line ends in the range that was compared.
pub proof fn law_comparison_report_shows_the_digests(
    expected: Seq<u8>,
    flash: Seq<u8>,
    file_digest: Seq<u8>,
    flash_digest: Seq<u8>,
    file: Seq<char>,
    offset: u32,
    i: int,
)
    requires
        0 <= i < file_digest.len(),
        file_digest.len() == flash_digest.len(),
    ensures
        ({
            let lines = compare_report(expected, flash, file_digest, flash_digest, file, offset);
            let n = 2 * file_digest.len() as int;
            &&& lines[0].subrange(7 + 2 * i, 9 + 2 * i) == radix_text(
                file_digest[i] as nat,
                16,
                2,
                false,
            )
            &&& lines[1].subrange(7 + 2 * i, 9 + 2 * i) == radix_text(
                flash_digest[i] as nat,
                16,
                2,
                false,
            )
            &&& lines[0].skip(9 + n) == file
            &&& lines[1].subrange(17 + n, 27 + n) == hex_text(offset as nat, 8)
            &&& lines[1].skip(27 + n) == ", "@ + dec_text(expected.len()) + " bytes)"@
        }),
{
    reveal_strlit("File:  ");
    reveal_strlit("Flash: ");
    reveal_strlit("  ");
    reveal_strlit("  (offset ");
    lemma_digest_digits(file_digest, file_digest.len() as int, i);
    lemma_digest_digits(flash_digest, flash_digest.len() as int, i);
    crate::text::lemma_hex_column(offset as nat);
    let lines = compare_report(expected, flash, file_digest, flash_digest, file, offset);
    let n = 2 * file_digest.len() as int;
    let a = hex_of(file_digest, file_digest.len() as int);
    let b = hex_of(flash_digest, flash_digest.len() as int);
    assert(lines[0].subrange(7 + 2 * i, 9 + 2 * i) =~= a.subrange(2 * i, 2 * i + 2));
    assert(lines[1].subrange(7 + 2 * i, 9 + 2 * i) =~= b.subrange(2 * i, 2 * i + 2));
    assert(lines[0].skip(9 + n) =~= file);
    assert(lines[1].subrange(17 + n, 27 + n) =~= hex_text(offset as nat, 8));
    assert(lines[1].skip(27 + n) =~= ", "@ + dec_text(expected.len()) + " bytes)"@);
}

proof fn lemma_digest_digits(bytes: Seq<u8>, n: int, i: int)
    requires
        0 <= n <= bytes.len(),
    ensures
        hex_of(bytes, n).len() == 2 * n,
        0 <= i < n ==> hex_of(bytes, n).subrange(2 * i, 2 * i + 2) == radix_text(
            bytes[i] as nat,
            16,
            2,
            false,
        ),
    decreases n,
{
    if n > 0 {
        lemma_digest_digits(bytes, n - 1, i);
        crate::text::law_byte_takes_two_digits(bytes[n - 1], false);
        let before = hex_of(bytes, n - 1);
        let last = radix_text(bytes[n - 1] as nat, 16, 2, false);
        if i == n - 1 {
            assert(hex_of(bytes, n).subrange(2 * i, 2 * i + 2) =~= last);
        } else if 0 <= i < n - 1 {
            assert(hex_of(bytes, n).subrange(2 * i, 2 * i + 2) =~= before.subrange(
                2 * i,
                2 * i + 2,
            ));
        }
    }
}

} // verus!
