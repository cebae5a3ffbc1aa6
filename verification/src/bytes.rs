//! Little-endian numbers in byte sequences.
use vstd::prelude::*;

verus! {

/// The 16-bit number at byte `at`.
pub open spec fn le16(t: Seq<u8>, at: int) -> u16 {
    (t[at] + t[at + 1] * 0x100) as u16
}

/// The 32-bit number at byte `at`.
pub open spec fn le32(t: Seq<u8>, at: int) -> u32 {
    (t[at] + t[at + 1] * 0x100 + t[at + 2] * 0x1_0000 + t[at + 3] * 0x100_0000) as u32
}

/// The 64-bit number at byte `at`.
pub open spec fn le64(t: Seq<u8>, at: int) -> u64 {
    (le32(t, at) + le32(t, at + 4) * 0x1_0000_0000) as u64
}

/// Reads the 16-bit number at byte `at`.
pub fn read_le16(t: &[u8], at: usize) -> (w: u16)
    requires
        at + 2 <= t@.len(),
    ensures
        w == le16(t@, at as int),
{
    t[at] as u16 + t[at + 1] as u16 * 0x100
}

/// Reads the 32-bit number at byte `at`.
pub fn read_le32(t: &[u8], at: usize) -> (w: u32)
    requires
        at + 4 <= t@.len(),
    ensures
        w == le32(t@, at as int),
{
    t[at] as u32 + t[at + 1] as u32 * 0x100 + t[at + 2] as u32 * 0x1_0000 + t[at + 3] as u32
        * 0x100_0000
}

/// Reads the 64-bit number at byte `at`.
pub fn read_le64(t: &[u8], at: usize) -> (w: u64)
    requires
        at + 8 <= t@.len(),
    ensures
        w == le64(t@, at as int),
{
    assert(at + 8 <= t.len());
    read_le32(t, at) as u64 + read_le32(t, at + 4) as u64 * 0x1_0000_0000
}

/// The number that bytes spell, least significant first.
pub open spec fn le_value(bytes: Seq<u8>) -> int
    decreases bytes.len(),
{
    if bytes.len() == 0 {
        0
    } else {
        bytes[0] + 0x100 * le_value(bytes.drop_first())
    }
}

/// Numbers in byte sequences are what their two, four or eight bytes spell, least significant
/// first.
pub proof fn law_numbers_are_spelled_low_byte_first(t: Seq<u8>, at: int)
    requires
        0 <= at,
    ensures
        at + 2 <= t.len() ==> le16(t, at) == le_value(t.subrange(at, at + 2)),
        at + 4 <= t.len() ==> le32(t, at) == le_value(t.subrange(at, at + 4)),
        at + 8 <= t.len() ==> le64(t, at) == le_value(t.subrange(at, at + 8)),
{
    if at + 2 <= t.len() {
        lemma_le2(t.subrange(at, at + 2));
    }
    if at + 4 <= t.len() {
        lemma_le4(t.subrange(at, at + 4));
    }
    if at + 8 <= t.len() {
        let s = t.subrange(at, at + 8);
        lemma_le4(t.subrange(at, at + 4));
        lemma_le4(t.subrange(at + 4, at + 8));
        lemma_le_split(s, 4);
        assert(s.take(4) =~= t.subrange(at, at + 4));
        assert(s.skip(4) =~= t.subrange(at + 4, at + 8));
        reveal_with_fuel(vstd::arithmetic::power::pow, 5);
        assert(vstd::arithmetic::power::pow(0x100, 4) == 0x1_0000_0000);
        assert(le64(t, at) == le32(t, at) + le32(t, at + 4) * 0x1_0000_0000);
    }
}

proof fn lemma_le2(s: Seq<u8>)
    requires
        s.len() == 2,
    ensures
        le_value(s) == s[0] + s[1] * 0x100,
{
    reveal_with_fuel(le_value, 3);
    assert(s.drop_first()[0] == s[1]);
    assert(s.drop_first().drop_first().len() == 0);
}

proof fn lemma_le4(s: Seq<u8>)
    requires
        s.len() == 4,
    ensures
        le_value(s) == s[0] + s[1] * 0x100 + s[2] * 0x1_0000 + s[3] * 0x100_0000,
{
    reveal_with_fuel(le_value, 5);
    let a = s.drop_first();
    let b = a.drop_first();
    let c = b.drop_first();
    assert(a[0] == s[1] && b[0] == s[2] && c[0] == s[3]);
    assert(c.drop_first().len() == 0);
}

proof fn lemma_le_split(s: Seq<u8>, n: int)
    requires
        0 <= n <= s.len(),
    ensures
        le_value(s) == le_value(s.take(n)) + vstd::arithmetic::power::pow(0x100, n as nat)
            * le_value(s.skip(n)),
    decreases n,
{
    reveal(vstd::arithmetic::power::pow);
    if n == 0 {
        assert(s.skip(0) =~= s);
    } else {
        let t = s.drop_first();
        lemma_le_split(t, n - 1);
        assert(s.take(n).drop_first() =~= t.take(n - 1));
        assert(t.skip(n - 1) =~= s.skip(n));
        let p = vstd::arithmetic::power::pow(0x100, (n - 1) as nat);
        let x = le_value(s.skip(n));
        assert(0x100 * (p * x) == (0x100 * p) * x) by (nonlinear_arith);
    }
}

} // verus!
