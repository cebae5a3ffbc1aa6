//! Text building: numbers in a radix, padding, and reports made of lines.
//!
//! A text is modelled as its sequence of characters, a report as the sequence of its
//! lines.
use vstd::prelude::*;

verus! {

/// `String::push` appends one character.
pub assume_specification[ String::push ](s: &mut String, c: char)
    ensures
        final(s)@ == old(s)@.push(c),
;

/// The digit that stands for `d` in a radix of at most sixteen.
pub open spec fn digit_char(d: int, upper: bool) -> char {
    if d < 10 {
        (('0' as int) + d) as char
    } else if upper {
        (('A' as int) + d - 10) as char
    } else {
        (('a' as int) + d - 10) as char
    }
}

/// Dividing by a radix makes a positive number smaller and keeps zero.
pub proof fn lemma_quotient_shrinks(n: nat, radix: nat)
    by (nonlinear_arith)
    requires
        radix >= 2,
    ensures
        n / radix < n || n == 0,
        n == 0 ==> n / radix == 0,
        n % radix < radix,
{
}

/// `n` written in `radix`, zero-padded on the left to at least `width` digits.
pub open spec fn radix_text(n: nat, radix: nat, width: nat, upper: bool) -> Seq<char>
    decreases n, width,
{
    if radix < 2 || (n < radix && width <= 1) {
        seq![digit_char(n as int, upper)]
    } else {
        proof {
            lemma_quotient_shrinks(n, radix);
        }
        radix_text(
            n / radix,
            radix,
            if width > 0 {
                (width - 1) as nat
            } else {
                0
            },
            upper,
        ).push(digit_char((n % radix) as int, upper))
    }
}

/// `n` in decimal.
pub open spec fn dec_text(n: nat) -> Seq<char> {
    radix_text(n, 10, 1, false)
}

/// `n` in lower-case hexadecimal with at least `width` digits, behind `0x`.
pub open spec fn hex_text(n: nat, width: nat) -> Seq<char> {
    "0x"@ + radix_text(n, 16, width, false)
}

fn digit(d: u32, upper: bool) -> (c: char)
    requires
        d < 16,
    ensures
        c == digit_char(d as int, upper),
{
    let b: u8 = if d < 10 {
        48 + d as u8
    } else if upper {
        65 + (d - 10) as u8
    } else {
        97 + (d - 10) as u8
    };
    b as char
}

/// Appends a number in a radix, with leading zeros up to a width.
pub fn push_radix(out: &mut String, n: u64, radix: u64, width: u32, upper: bool)
    requires
        2 <= radix <= 16,
    ensures
        final(out)@ == old(out)@ + radix_text(n as nat, radix as nat, width as nat, upper),
    decreases n, width,
{
    if n < radix && width <= 1 {
        out.push(digit(n as u32, upper));
        assert(out@ =~= old(out)@ + radix_text(n as nat, radix as nat, width as nat, upper));
    } else {
        let rest: u32 = if width > 0 {
            width - 1
        } else {
            0
        };
        proof {
            lemma_quotient_shrinks(n as nat, radix as nat);
        }
        push_radix(out, n / radix, radix, rest, upper);
        out.push(digit((n % radix) as u32, upper));
        assert(out@ =~= old(out)@ + radix_text(n as nat, radix as nat, width as nat, upper));
    }
}

/// Appends a decimal number.
pub fn push_dec(out: &mut String, n: u64)
    ensures
        final(out)@ == old(out)@ + dec_text(n as nat),
{
    push_radix(out, n, 10, 1, false);
}

/// Appends `0x` and a hexadecimal number, with leading zeros up to a width.
pub fn push_hex(out: &mut String, n: u64, width: u32)
    ensures
        final(out)@ == old(out)@ + hex_text(n as nat, width as nat),
{
    out.append("0x");
    push_radix(out, n, 16, width, false);
    assert(out@ =~= old(out)@ + hex_text(n as nat, width as nat));
}

/// `n` copies of `c`.
pub open spec fn repeat_char(c: char, n: nat) -> Seq<char> {
    Seq::new(n, |i: int| c)
}

/// Appends a character a number of times.
pub fn push_repeat(out: &mut String, c: char, n: usize)
    ensures
        final(out)@ == old(out)@ + repeat_char(c, n as nat),
{
    let mut i: usize = 0;
    while i < n
        invariant
            i <= n,
            out@ =~= old(out)@ + repeat_char(c, i as nat),
        decreases n - i,
    {
        out.push(c);
        i += 1;
    }
}

/// `s` padded on the right with spaces to at least `width` characters.
pub open spec fn left_text(s: Seq<char>, width: nat) -> Seq<char> {
    s + repeat_char(
        ' ',
        if s.len() < width {
            (width - s.len()) as nat
        } else {
            0
        },
    )
}

/// Appends `s`, left-justified in a column of `width` characters.
pub fn push_left(out: &mut String, s: &str, width: usize)
    ensures
        final(out)@ == old(out)@ + left_text(s@, width as nat),
{
    out.append(s);
    let len: usize = s.unicode_len();
    if len < width {
        push_repeat(out, ' ', width - len);
    } else {
        push_repeat(out, ' ', 0);
    }
    assert(out@ =~= old(out)@ + left_text(s@, width as nat));
}

/// Appends `n` in decimal, left-justified in a column of `width` characters.
pub fn push_left_dec(out: &mut String, n: u64, width: usize)
    ensures
        final(out)@ == old(out)@ + left_text(dec_text(n as nat), width as nat),
{
    let mut digits = String::new();
    push_dec(&mut digits, n);
    assert(digits@ =~= dec_text(n as nat));
    push_left(out, digits.as_str(), width);
}

/// The characters of each line of a report.
pub open spec fn lines_of(lines: Seq<String>) -> Seq<Seq<char>> {
    Seq::new(lines.len(), |i: int| lines[i]@)
}

/// Appends one line to a report.
pub fn push_line(out: &mut Vec<String>, line: String)
    ensures
        lines_of(final(out)@) == lines_of(old(out)@).push(line@),
{
    out.push(line);
    assert(lines_of(out@) =~= lines_of(old(out)@).push(line@));
}

/// Appends one fixed line to a report.
pub fn push_text(out: &mut Vec<String>, line: &str)
    ensures
        lines_of(final(out)@) == lines_of(old(out)@).push(line@),
{
    push_line(out, line.to_owned());
}

/// Whether two texts are the same.
pub fn same_text(a: &str, b: &str) -> (r: bool)
    ensures
        r == (a@ == b@),
{
    a.to_owned() == b.to_owned()
}

/// Whether `s` begins with `prefix`.
pub open spec fn begins_with(s: Seq<char>, prefix: Seq<char>) -> bool {
    prefix.len() <= s.len() && s.take(prefix.len() as int) == prefix
}

/// Whether `s` begins with `prefix`.
pub fn starts_with(s: &str, prefix: &str) -> (r: bool)
    ensures
        r == begins_with(s@, prefix@),
{
    let n: usize = prefix.unicode_len();
    if s.unicode_len() < n {
        return false;
    }
    let mut i: usize = 0;
    while i < n
        invariant
            i <= n,
            n == prefix@.len(),
            n <= s@.len(),
            s@.take(i as int) =~= prefix@.take(i as int),
        decreases n - i,
    {
        if s.get_char(i) != prefix.get_char(i) {
            assert(s@.take(n as int)[i as int] != prefix@[i as int]);
            return false;
        }
        i += 1;
    }
    assert(prefix@.take(n as int) =~= prefix@);
    true
}

/// The characters of a text.
pub fn chars_of(s: &str) -> (r: Vec<char>)
    ensures
        r@ == s@,
{
    let mut out: Vec<char> = Vec::new();
    for c in it: s.chars()
        invariant
            out@ == it.seq().take(it.index() as int),
            it.seq() == s@,
    {
        out.push(c);
    }
    out
}

/// The text of characters.
pub fn text_of(chars: &[char]) -> (s: String)
    ensures
        s@ == chars@,
{
    let mut s = String::new();
    let mut i: usize = 0;
    while i < chars.len()
        invariant
            i <= chars.len(),
            s@ == chars@.take(i as int),
        decreases chars.len() - i,
    {
        s.push(chars[i]);
        assert(chars@.take(i + 1) =~= chars@.take(i as int).push(chars@[i as int]));
        i += 1;
    }
    assert(chars@.take(i as int) =~= chars@);
    s
}

/// The characters with the Unicode property White_Space.
pub open spec fn white(c: char) -> bool {
    let u = c as u32;
    0x09 <= u <= 0x0D || u == 0x20 || u == 0x85 || u == 0xA0 || u == 0x1680 || 0x2000 <= u
        <= 0x200A || u == 0x2028 || u == 0x2029 || u == 0x202F || u == 0x205F || u == 0x3000
}

/// Whether a character is white space.
pub fn is_white(c: char) -> (r: bool)
    ensures
        r == white(c),
{
    let u: u32 = c as u32;
    (0x09 <= u && u <= 0x0D) || u == 0x20 || u == 0x85 || u == 0xA0 || u == 0x1680 || (0x2000 <= u
        && u <= 0x200A) || u == 0x2028 || u == 0x2029 || u == 0x202F || u == 0x205F || u == 0x3000
}

/// Where the text without leading white space begins.
pub open spec fn trim_start(s: Seq<char>, i: int) -> int
    decreases s.len() - i,
{
    if 0 <= i < s.len() && white(s[i]) {
        trim_start(s, i + 1)
    } else {
        i
    }
}

/// Where the part of the text before `j` ends without trailing white space, not before `i`.
pub open spec fn trim_end(s: Seq<char>, i: int, j: int) -> int
    decreases j,
{
    if 0 <= i < j <= s.len() && white(s[j - 1]) {
        trim_end(s, i, j - 1)
    } else {
        j
    }
}

/// The text without white space at both ends.
pub open spec fn trimmed(s: Seq<char>) -> Seq<char> {
    let i = trim_start(s, 0);
    s.subrange(i, trim_end(s, i, s.len() as int))
}

/// Leaves white space at both ends out.
pub fn trim<'a>(s: &'a [char]) -> (r: &'a [char])
    ensures
        r@ == trimmed(s@),
{
    let mut i: usize = 0;
    while i < s.len() && is_white(s[i])
        invariant
            i <= s.len(),
            trim_start(s@, 0) == trim_start(s@, i as int),
        decreases s.len() - i,
    {
        i += 1;
    }
    let mut j: usize = s.len();
    while i < j && is_white(s[j - 1])
        invariant
            i <= j <= s.len(),
            trim_end(s@, i as int, s@.len() as int) == trim_end(s@, i as int, j as int),
        decreases j,
    {
        j -= 1;
    }
    vstd::slice::slice_subrange(s, i, j)
}

/// The first position at or after `i` that holds `c`; the length where there is none.
pub open spec fn find_from(s: Seq<char>, c: char, i: int) -> int
    decreases s.len() - i,
{
    if i < 0 || i >= s.len() {
        s.len() as int
    } else if s[i] == c {
        i
    } else {
        find_from(s, c, i + 1)
    }
}

/// Finds the first position at or after `i` that holds `c`.
pub fn find_char(s: &[char], c: char, i: usize) -> (r: usize)
    requires
        i <= s@.len(),
    ensures
        r == find_from(s@, c, i as int),
        i <= r <= s@.len(),
        r < s@.len() ==> s@[r as int] == c,
{
    let mut k: usize = i;
    while k < s.len() && s[k] != c
        invariant
            i <= k <= s@.len(),
            find_from(s@, c, i as int) == find_from(s@, c, k as int),
        decreases s@.len() - k,
    {
        k += 1;
    }
    k
}

/// The first position at or after `i` that holds white space; the length where there is none.
pub open spec fn white_from(s: Seq<char>, i: int) -> int
    decreases s.len() - i,
{
    if i < 0 || i >= s.len() {
        s.len() as int
    } else if white(s[i]) {
        i
    } else {
        white_from(s, i + 1)
    }
}

/// Finds the first white space.
pub fn find_white(s: &[char]) -> (r: usize)
    ensures
        r == white_from(s@, 0),
        r <= s@.len(),
{
    let mut k: usize = 0;
    while k < s.len() && !is_white(s[k])
        invariant
            k <= s@.len(),
            white_from(s@, 0) == white_from(s@, k as int),
        decreases s@.len() - k,
    {
        k += 1;
    }
    k
}

/// A character with ASCII capitals made small.
pub open spec fn ascii_lower(c: char) -> char {
    if 'A' <= c <= 'Z' {
        (c as u32 + 32) as char
    } else {
        c
    }
}

/// Whether two texts are the same but for the case of ASCII letters.
pub open spec fn same_but_case(a: Seq<char>, b: Seq<char>) -> bool {
    a.len() == b.len() && forall|i: int|
        0 <= i < a.len() ==> ascii_lower(#[trigger] a[i]) == ascii_lower(b[i])
}

fn lower_code(c: char) -> (r: u32)
    ensures
        r == ascii_lower(c) as u32,
{
    let u: u32 = c as u32;
    if 65 <= u && u <= 90 {
        u + 32
    } else {
        u
    }
}

/// Whether two texts are the same but for the case of ASCII letters.
pub fn equal_but_case(a: &[char], b: &[char]) -> (r: bool)
    ensures
        r == same_but_case(a@, b@),
{
    if a.len() != b.len() {
        return false;
    }
    let mut i: usize = 0;
    while i < a.len()
        invariant
            i <= a@.len(),
            a@.len() == b@.len(),
            forall|k: int|
                0 <= k < i ==> ascii_lower(#[trigger] a@[k]) == ascii_lower(b@[k]),
        decreases a@.len() - i,
    {
        if lower_code(a[i]) != lower_code(b[i]) {
            assert(ascii_lower(a@[i as int]) != ascii_lower(b@[i as int]));
            return false;
        }
        i += 1;
    }
    true
}

/// A search finds the first position at or after `i` that holds the character, and the end where
/// there is none.
pub proof fn law_search_finds_the_first(s: Seq<char>, c: char, i: int)
    requires
        0 <= i <= s.len(),
    ensures
        i <= find_from(s, c, i) <= s.len(),
        forall|k: int| i <= k < find_from(s, c, i) ==> #[trigger] s[k] != c,
        find_from(s, c, i) < s.len() ==> s[find_from(s, c, i)] == c,
    decreases s.len() - i,
{
    if i < s.len() && s[i] != c {
        law_search_finds_the_first(s, c, i + 1);
    }
}

/// The search for white space finds the first position that holds some, and the end where there
/// is none.
pub proof fn law_search_finds_the_first_white(s: Seq<char>, i: int)
    requires
        0 <= i <= s.len(),
    ensures
        i <= white_from(s, i) <= s.len(),
        forall|k: int| i <= k < white_from(s, i) ==> !white(#[trigger] s[k]),
        white_from(s, i) < s.len() ==> white(s[white_from(s, i)]),
    decreases s.len() - i,
{
    if i < s.len() && !white(s[i]) {
        law_search_finds_the_first_white(s, i + 1);
    }
}

/// Whether every character from `i` up to `j` is white space.
pub open spec fn all_white(s: Seq<char>, i: int, j: int) -> bool {
    forall|k: int| i <= k < j ==> white(#[trigger] s[k])
}

pub proof fn lemma_trim_start(s: Seq<char>, i: int)
    requires
        0 <= i <= s.len(),
    ensures
        i <= trim_start(s, i) <= s.len(),
        all_white(s, i, trim_start(s, i)),
        trim_start(s, i) < s.len() ==> !white(s[trim_start(s, i)]),
    decreases s.len() - i,
{
    if i < s.len() && white(s[i]) {
        lemma_trim_start(s, i + 1);
    }
}

pub proof fn lemma_trim_end(s: Seq<char>, i: int, j: int)
    requires
        0 <= i <= j <= s.len(),
    ensures
        i <= trim_end(s, i, j) <= j,
        all_white(s, trim_end(s, i, j), j),
        i < trim_end(s, i, j) ==> !white(s[trim_end(s, i, j) - 1]),
    decreases j,
{
    if i < j && white(s[j - 1]) {
        lemma_trim_end(s, i, j - 1);
    }
}

/// Trimming takes away white space at both ends, all of it, and nothing else.
pub proof fn law_trimming_takes_white_space_off_both_ends(
    before: Seq<char>,
    core: Seq<char>,
    after: Seq<char>,
)
    requires
        all_white(before, 0, before.len() as int),
        all_white(after, 0, after.len() as int),
        core.len() > 0 ==> !white(core[0]) && !white(core.last()),
    ensures
        trimmed(before + core + after) == core,
{
    let s = before + core + after;
    let n = before.len() as int;
    let m = n + core.len();
    let i = trim_start(s, 0);
    let j = trim_end(s, i, s.len() as int);
    lemma_trim_start(s, 0);
    lemma_trim_end(s, i, s.len() as int);
    assert forall|k: int| 0 <= k < n implies white(#[trigger] s[k]) by {
        assert(s[k] == before[k]);
    }
    assert forall|k: int| m <= k < s.len() implies white(#[trigger] s[k]) by {
        assert(s[k] == after[k - m]);
    }
    if core.len() > 0 {
        assert(s[n] == core[0]);
        assert(s[m - 1] == core.last());
        assert(i == n);
        assert(j == m);
        assert(trimmed(s) =~= core);
    } else {
        if i < s.len() {
            assert(white(s[i]));
        }
        assert(trimmed(s) =~= core);
    }
}

/// Text in a column starts with the text, goes on with spaces, and is as wide as the column or
/// the text.
pub proof fn law_column_is_filled_with_spaces(s: Seq<char>, width: nat, k: int)
    ensures
        left_text(s, width).len() == if s.len() < width {
            width
        } else {
            s.len()
        },
        left_text(s, width).take(s.len() as int) == s,
        s.len() <= k < left_text(s, width).len() ==> left_text(s, width)[k] == ' ',
{
    assert(left_text(s, width).take(s.len() as int) =~= s);
}

/// Upper and lower case of an ASCII letter count as the same, and no other two characters do.
pub proof fn law_only_ascii_case_is_ignored(a: char, b: char)
    ensures
        same_but_case(seq![a], seq![b]) <==> a == b || (65 <= a as int <= 90 && b as int == a as int
            + 32) || (65 <= b as int <= 90 && a as int == b as int + 32),
{
    let s = seq![a];
    let t = seq![b];
    assert(s[0] == a && t[0] == b);
    assert(same_but_case(s, t) <==> ascii_lower(a) == ascii_lower(b));
}

/// A number has just as many digits as it needs, but no fewer than the width.
pub proof fn law_number_is_as_wide_as_asked_for(n: nat, radix: nat, width: nat, upper: bool)
    requires
        radix >= 2,
    ensures
        radix_text(n, radix, width, upper).len() >= width,
        radix_text(n, radix, width, upper).len() >= 1,
        n < radix ==> radix_text(n, radix, width, upper).len() == if width > 1 {
            width
        } else {
            1
        },
        n >= radix && width > 0 ==> radix_text(n, radix, width, upper).len() == radix_text(
            n / radix,
            radix,
            (width - 1) as nat,
            upper,
        ).len() + 1,
    decreases n, width,
{
    lemma_quotient_shrinks(n, radix);
    if !(n < radix && width <= 1) {
        law_number_is_as_wide_as_asked_for(
            n / radix,
            radix,
            if width > 0 {
                (width - 1) as nat
            } else {
                0
            },
            upper,
        );
        if n < radix {
            assert(n / radix == 0) by (nonlinear_arith)
                requires
                    n < radix,
            ;
        }
    }
}

/// A number of no more hexadecimal digits than the width has just that width.
pub proof fn law_hexadecimal_fills_its_width(n: nat, width: nat, upper: bool)
    requires
        width >= 1,
        n < vstd::arithmetic::power::pow(16, width),
    ensures
        radix_text(n, 16, width, upper).len() == width,
    decreases width,
{
    reveal(vstd::arithmetic::power::pow);
    if width == 1 {
        assert(vstd::arithmetic::power::pow(16, 0) == 1);
    } else {
        let m = vstd::arithmetic::power::pow(16, (width - 1) as nat);
        assert(n / 16 < m);
        law_hexadecimal_fills_its_width(n / 16, (width - 1) as nat, upper);
    }
}

/// A 32-bit number behind `0x` takes ten characters.
pub proof fn lemma_hex_column(n: nat)
    requires
        n <= u32::MAX,
    ensures
        hex_text(n, 8).len() == 10,
{
    reveal_with_fuel(vstd::arithmetic::power::pow, 9);
    assert(vstd::arithmetic::power::pow(16, 8) == 0x1_0000_0000);
    law_hexadecimal_fills_its_width(n, 8, false);
    reveal_strlit("0x");
}

/// A byte takes two hexadecimal digits.
pub proof fn law_byte_takes_two_digits(b: u8, upper: bool)
    ensures
        radix_text(b as nat, 16, 2, upper) == seq![
            digit_char(b as int / 16, upper),
            digit_char(b as int % 16, upper),
        ],
{
    reveal_with_fuel(radix_text, 3);
    assert(radix_text(b as nat, 16, 2, upper) =~= seq![
        digit_char(b as int / 16, upper),
        digit_char(b as int % 16, upper),
    ]);
}

/// A report is seen line by line.
pub proof fn law_report_is_seen_line_by_line(lines: Seq<String>, i: int)
    requires
        0 <= i < lines.len(),
    ensures
        lines_of(lines).len() == lines.len(),
        lines_of(lines)[i] == lines[i]@,
{
}

} // verus!
