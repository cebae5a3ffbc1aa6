//! What the labels of a status report promise.
use vstd::arithmetic::power2::pow2;
use vstd::prelude::*;

use crate::cmd::status::{
    bits_text, bp_short, bp_text, cr_mx25l_f_head_lines, drv_text, en25qh_report, field, flag, gd25q256d_report, gd25q_report,
    layout_of, lock_warning, mx25l_f_report, mx25l_legacy_report, ods_text, register, register_opcodes,
    report, sr1_3bit_lines, sr1_4bit_lines, sr1_5bit_lines, sr2_gd25q256d_lines, sr2_gd25q_lines,
    sr2_w25q_lines, sr3_3bit_lines, sr3_4bit_lines, sr3_gd25q256d_lines, sr3_gd25q_lines,
    sr_en25qh_lines, sr_mx25l_f_lines, sr_mx25l_legacy_lines, sr_universal_lines, w25q_3bit_report,
    w25q_4bit_report, w25q_warnings, StatusDecoder,
};
use crate::spi::bus::bit_set;
use crate::text::{begins_with, digit_char, hex_text, radix_text};

verus! {

/// Bit `k` of a number, by halving.
pub open spec fn bit_at(n: nat, k: nat) -> nat
    decreases k,
{
    if k == 0 {
        n % 2
    } else {
        bit_at(n / 2, (k - 1) as nat)
    }
}

/// The digit that shows bit `k` of a register.
pub open spec fn bit_digit(reg: u8, k: int) -> char {
    if bit_at(reg as nat, k as nat) == 1 {
        '1'
    } else {
        '0'
    }
}

/// The digit that a label names a bit by.
pub open spec fn label_digit(k: int) -> char {
    (48 + k) as char
}

/// Whether a label at `at` names one bit, and the digit behind it is that bit of the register.
pub open spec fn shows_bit(line: Seq<char>, reg: u8, at: int, k: int) -> bool {
    &&& 0 <= at
    &&& at + 7 <= line.len()
    &&& line[at] == '['
    &&& line[at + 1] == label_digit(k)
    &&& line[at + 2] == ']'
    &&& line[at + 3] == ' '
    &&& line[at + 4] == '='
    &&& line[at + 5] == ' '
    &&& line[at + 6] == bit_digit(reg, k)
}

/// Whether a label at `at` names the bits from `hi` down to `lo`, and the digits behind it are
/// these bits of the register.
pub open spec fn shows_bits(line: Seq<char>, reg: u8, at: int, hi: int, lo: int) -> bool {
    &&& 0 <= at
    &&& at + 9 + hi - lo <= line.len()
    &&& line[at] == '['
    &&& line[at + 1] == label_digit(hi)
    &&& line[at + 2] == ':'
    &&& line[at + 3] == label_digit(lo)
    &&& line[at + 4] == ']'
    &&& line[at + 5] == ' '
    &&& line[at + 6] == '='
    &&& line[at + 7] == ' '
    &&& forall|i: int| 0 <= i <= hi - lo ==> #[trigger] line[at + 8 + i] == bit_digit(reg, hi - i)
}

/// Whether a line has a label that names one bit or several, and the digits behind it are those
/// bits of the register.
pub open spec fn shows_what_it_names(line: Seq<char>, reg: u8) -> bool {
    ||| exists|at: int, k: int| 0 <= k < 8 && #[trigger] shows_bit(line, reg, at, k)
    ||| exists|at: int, hi: int, lo: int|
        0 <= lo <= hi < 8 && #[trigger] shows_bits(line, reg, at, hi, lo)
}

/// Whether every line behind the first two shows the bits of a register that it names.
pub open spec fn shows_register(lines: Seq<Seq<char>>, reg: u8) -> bool {
    forall|j: int| 2 <= j < lines.len() ==> shows_what_it_names(#[trigger] lines[j], reg)
}

proof fn lemma_bit_shift(n: nat, lo: nat, k: nat)
    ensures
        bit_at(n, lo + k) == bit_at(n / pow2(lo), k),
    decreases lo,
{
    vstd::arithmetic::power2::lemma2_to64();
    if lo > 0 {
        lemma_bit_shift(n / 2, (lo - 1) as nat, k);
        vstd::arithmetic::power2::lemma_pow2_unfold(lo);
        vstd::arithmetic::power2::lemma_pow2_pos((lo - 1) as nat);
        vstd::arithmetic::div_mod::lemma_div_denominator(
            n as int,
            2,
            pow2((lo - 1) as nat) as int,
        );
    } else {
        assert(n / pow2(0) == n) by (nonlinear_arith)
            requires
                pow2(0) == 1,
        ;
    }
}

proof fn lemma_bit_mod(n: nat, w: nat, k: nat)
    requires
        k < w,
    ensures
        bit_at(n % pow2(w), k) == bit_at(n, k),
    decreases k,
{
    let m = pow2((w - 1) as nat);
    vstd::arithmetic::power2::lemma_pow2_unfold(w);
    vstd::arithmetic::power2::lemma_pow2_pos((w - 1) as nat);
    vstd::arithmetic::div_mod::lemma_mod_breakdown(n as int, 2, m as int);
    assert(n % pow2(w) == 2 * ((n / 2) % m) + n % 2);
    if k > 0 {
        lemma_bit_mod(n / 2, (w - 1) as nat, (k - 1) as nat);
    }
}

/// A number in binary shows its bits, the highest first.
proof fn lemma_binary(n: nat, w: nat)
    requires
        w >= 1,
        n < pow2(w),
    ensures
        radix_text(n, 2, w, false).len() == w,
        forall|i: int|
            0 <= i < w ==> #[trigger] radix_text(n, 2, w, false)[i] == digit_char(
                bit_at(n, (w - 1 - i) as nat) as int,
                false,
            ),
    decreases w,
{
    vstd::arithmetic::power2::lemma2_to64();
    let text = radix_text(n, 2, w, false);
    if w == 1 {
        assert(text =~= seq![digit_char(n as int, false)]);
    } else {
        vstd::arithmetic::power2::lemma_pow2_unfold(w);
        lemma_binary(n / 2, (w - 1) as nat);
        let high = radix_text(n / 2, 2, (w - 1) as nat, false);
        assert(text =~= high.push(digit_char((n % 2) as int, false)));
        assert forall|i: int| 0 <= i < w implies #[trigger] text[i] == digit_char(
            bit_at(n, (w - 1 - i) as nat) as int,
            false,
        ) by {
            if i < w - 1 {
                assert(text[i] == high[i]);
            }
        }
    }
}

proof fn lemma_bit_is_binary(n: nat, k: nat)
    ensures
        bit_at(n, k) == 0 || bit_at(n, k) == 1,
    decreases k,
{
    if k > 0 {
        lemma_bit_is_binary(n / 2, (k - 1) as nat);
    }
}

/// A line of one bit shows the bit that its label names.
proof fn lemma_flag(
    head: Seq<char>,
    reg: u8,
    weight: u8,
    mid: Seq<char>,
    off: Seq<char>,
    on: Seq<char>,
    tail: Seq<char>,
    k: int,
)
    requires
        0 <= k < 8,
        weight == pow2(k as nat),
        head.len() >= 6,
        head[head.len() - 6] == '[',
        head[head.len() - 5] == label_digit(k),
        head[head.len() - 4] == ']',
        head[head.len() - 3] == ' ',
        head[head.len() - 2] == '=',
        head[head.len() - 1] == ' ',
    ensures
        shows_what_it_names(flag(head, reg, weight, mid, off, on, tail), reg),
{
    reveal_strlit("1");
    reveal_strlit("0");
    let line = flag(head, reg, weight, mid, off, on, tail);
    lemma_bit_shift(reg as nat, k as nat, 0);
    let q = reg as nat / pow2(k as nat);
    vstd::arithmetic::power2::lemma_pow2_pos(k as nat);
    vstd::arithmetic::div_mod::lemma_div_pos_is_pos(reg as int, pow2(k as nat) as int);
    assert(bit_at(q, 0) == q % 2);
    assert(bit_at(reg as nat, k as nat) == q % 2);
    assert(bit_set(reg, weight) <==> bit_at(reg as nat, k as nat) == 1);
    if bit_set(reg, weight) {
        assert(line =~= head + "1"@ + (mid + on + tail));
    } else {
        assert(line =~= head + "0"@ + (mid + off + tail));
    }
    assert(line[head.len() as int] == bit_digit(reg, k));
    assert(shows_bit(line, reg, head.len() - 6, k));
}

/// A line of several bits shows the bits that its label names.
proof fn lemma_field(
    head: Seq<char>,
    reg: u8,
    value: u8,
    width: nat,
    mid: Seq<char>,
    text: Seq<char>,
    hi: int,
    lo: int,
)
    requires
        0 <= lo <= hi < 8,
        width == hi - lo + 1,
        lo > 0 ==> value == (reg as nat / pow2(lo as nat)) % pow2(width),
        lo == 0 ==> value == reg as nat % pow2(width),
        head.len() >= 8,
        head[head.len() - 8] == '[',
        head[head.len() - 7] == label_digit(hi),
        head[head.len() - 6] == ':',
        head[head.len() - 5] == label_digit(lo),
        head[head.len() - 4] == ']',
        head[head.len() - 3] == ' ',
        head[head.len() - 2] == '=',
        head[head.len() - 1] == ' ',
    ensures
        shows_what_it_names(field(head, value, width, mid, text), reg),
{
    let line = field(head, value, width, mid, text);
    let digits = radix_text(value as nat, 2, width, false);
    let at = head.len() - 8;
    vstd::arithmetic::power2::lemma2_to64();
    if lo == 0 {
        assert(reg as nat / pow2(0) == reg as nat) by (nonlinear_arith)
            requires
                pow2(0) == 1,
        ;
    }
    vstd::arithmetic::power2::lemma_pow2_pos(width);
    vstd::arithmetic::div_mod::lemma_mod_bound(
        reg as int / pow2(lo as nat) as int,
        pow2(width) as int,
    );
    lemma_binary(value as nat, width);
    assert forall|i: int| 0 <= i <= hi - lo implies #[trigger] line[at + 8 + i] == bit_digit(
        reg,
        hi - i,
    ) by {
        let k = (hi - lo - i) as nat;
        assert(line[at + 8 + i] == digits[i]);
        lemma_bit_mod(reg as nat / pow2(lo as nat), width, k);
        lemma_bit_shift(reg as nat, lo as nat, k);
        lemma_bit_is_binary(reg as nat, (hi - i) as nat);
        assert(lo as nat + k == (hi - i) as nat);
    }
    assert(shows_bits(line, reg, at, hi, lo));
}

/// Every line of these shows the bits of the register that its label names.
pub proof fn law_sr1_4bit_lines_show_what_they_name(sr1: u8)
    ensures
        sr1_4bit_lines(sr1).len() == 7,
        shows_register(sr1_4bit_lines(sr1), sr1),
{
    vstd::arithmetic::power2::lemma2_to64();
    let lines = sr1_4bit_lines(sr1);
    reveal_strlit("  BP[3:0] [5:2] = ");
    reveal_strlit("  BUSY    [0] = ");
    reveal_strlit("  SRP0    [7] = ");
    reveal_strlit("  TB      [6] = ");
    reveal_strlit("  WEL     [1] = ");
    lemma_flag("  BUSY    [0] = "@, sr1, 1, "   "@, "idle"@, "program/erase in progress"@, ""@, 0);
    lemma_flag("  WEL     [1] = "@, sr1, 2, "   "@, "write-disabled"@, "write-enabled"@, ""@, 1);
    lemma_field("  BP[3:0] [5:2] = "@, sr1, (sr1 / 4) % 16, 4, "  "@, bp_text((sr1 / 4) % 16), 5, 2);
    lemma_flag("  TB      [6] = "@, sr1, 64, "   protect from "@, "TOP"@, "BOTTOM"@, ""@, 6);
    lemma_flag("  SRP0    [7] = "@, sr1, 128, "   "@, "status reg writable (software protect)"@, "status reg locked (hardware/WP# protect)"@, ""@, 7);
    assert(shows_what_it_names(lines[2], sr1));
    assert(shows_what_it_names(lines[3], sr1));
    assert(shows_what_it_names(lines[4], sr1));
    assert(shows_what_it_names(lines[5], sr1));
    assert(shows_what_it_names(lines[6], sr1));
}

/// Every line of these shows the bits of the register that its label names.
pub proof fn law_sr1_3bit_lines_show_what_they_name(sr1: u8)
    ensures
        sr1_3bit_lines(sr1).len() == 8,
        shows_register(sr1_3bit_lines(sr1), sr1),
{
    vstd::arithmetic::power2::lemma2_to64();
    let lines = sr1_3bit_lines(sr1);
    reveal_strlit("  BP[2:0] [4:2] = ");
    reveal_strlit("  BUSY    [0] = ");
    reveal_strlit("  SEC     [6] = ");
    reveal_strlit("  SRP0    [7] = ");
    reveal_strlit("  TB      [5] = ");
    reveal_strlit("  WEL     [1] = ");
    lemma_flag("  BUSY    [0] = "@, sr1, 1, "   "@, "idle"@, "program/erase in progress"@, ""@, 0);
    lemma_flag("  WEL     [1] = "@, sr1, 2, "   "@, "write-disabled"@, "write-enabled"@, ""@, 1);
    lemma_field("  BP[2:0] [4:2] = "@, sr1, (sr1 / 4) % 8, 3, "  "@, bp_short((sr1 / 4) % 8), 4, 2);
    lemma_flag("  TB      [5] = "@, sr1, 32, "   protect from "@, "TOP"@, "BOTTOM"@, ""@, 5);
    lemma_flag("  SEC     [6] = "@, sr1, 64, "   protect unit: "@, "64KB blocks"@, "4KB sectors"@, ""@, 6);
    lemma_flag("  SRP0    [7] = "@, sr1, 128, "   "@, "status reg writable (software protect)"@, "status reg locked (hardware/WP# protect)"@, ""@, 7);
    assert(shows_what_it_names(lines[2], sr1));
    assert(shows_what_it_names(lines[3], sr1));
    assert(shows_what_it_names(lines[4], sr1));
    assert(shows_what_it_names(lines[5], sr1));
    assert(shows_what_it_names(lines[6], sr1));
    assert(shows_what_it_names(lines[7], sr1));
}

/// Every line of these shows the bits of the register that its label names.
pub proof fn law_sr1_5bit_lines_show_what_they_name(sr1: u8)
    ensures
        sr1_5bit_lines(sr1).len() == 6,
        shows_register(sr1_5bit_lines(sr1), sr1),
{
    vstd::arithmetic::power2::lemma2_to64();
    let lines = sr1_5bit_lines(sr1);
    reveal_strlit("  BP[4:0] [6:2] = ");
    reveal_strlit("  BUSY    [0] = ");
    reveal_strlit("  SRP0    [7] = ");
    reveal_strlit("  WEL     [1] = ");
    lemma_flag("  BUSY    [0] = "@, sr1, 1, "   "@, "idle"@, "program/erase in progress"@, ""@, 0);
    lemma_flag("  WEL     [1] = "@, sr1, 2, "   "@, "write-disabled"@, "write-enabled"@, ""@, 1);
    lemma_field("  BP[4:0] [6:2] = "@, sr1, (sr1 / 4) % 32, 5, "  "@, bp_text((sr1 / 4) % 32), 6, 2);
    lemma_flag("  SRP0    [7] = "@, sr1, 128, "   "@, "status reg writable (software protect)"@, "status reg locked (hardware/WP# protect)"@, ""@, 7);
    assert(shows_what_it_names(lines[2], sr1));
    assert(shows_what_it_names(lines[3], sr1));
    assert(shows_what_it_names(lines[4], sr1));
    assert(shows_what_it_names(lines[5], sr1));
}

/// Every line of these shows the bits of the register that its label names.
pub proof fn law_sr2_w25q_lines_show_what_they_name(sr2: u8)
    ensures
        sr2_w25q_lines(sr2).len() == 9,
        shows_register(sr2_w25q_lines(sr2), sr2),
{
    vstd::arithmetic::power2::lemma2_to64();
    let lines = sr2_w25q_lines(sr2);
    reveal_strlit("  CMP     [6] = ");
    reveal_strlit("  LB1     [3] = ");
    reveal_strlit("  LB2     [4] = ");
    reveal_strlit("  LB3     [5] = ");
    reveal_strlit("  QE      [1] = ");
    reveal_strlit("  SRL     [0] = ");
    reveal_strlit("  SUS     [7] = ");
    lemma_flag("  SRL     [0] = "@, sr2, 1, "   "@, "not power-cycle locked"@, "POWER-CYCLE LOCKED (SRP1)"@, ""@, 0);
    lemma_flag("  QE      [1] = "@, sr2, 2, "   quad mode "@, "disabled"@, "ENABLED"@, ""@, 1);
    lemma_flag("  LB1     [3] = "@, sr2, 8, "   security reg 1 "@, "unlocked"@, "OTP-LOCKED"@, ""@, 3);
    lemma_flag("  LB2     [4] = "@, sr2, 16, "   security reg 2 "@, "unlocked"@, "OTP-LOCKED"@, ""@, 4);
    lemma_flag("  LB3     [5] = "@, sr2, 32, "   security reg 3 "@, "unlocked"@, "OTP-LOCKED"@, ""@, 5);
    lemma_flag("  CMP     [6] = "@, sr2, 64, "   protection "@, "normal"@, "INVERTED (complement)"@, ""@, 6);
    lemma_flag("  SUS     [7] = "@, sr2, 128, "   "@, "no operation suspended"@, "ERASE/PROGRAM SUSPENDED"@, ""@, 7);
    assert(shows_what_it_names(lines[2], sr2));
    assert(shows_what_it_names(lines[3], sr2));
    assert(shows_what_it_names(lines[4], sr2));
    assert(shows_what_it_names(lines[5], sr2));
    assert(shows_what_it_names(lines[6], sr2));
    assert(shows_what_it_names(lines[7], sr2));
    assert(shows_what_it_names(lines[8], sr2));
}

/// Every line of these shows the bits of the register that its label names.
pub proof fn law_sr2_gd25q_lines_show_what_they_name(sr2: u8)
    ensures
        sr2_gd25q_lines(sr2).len() == 10,
        shows_register(sr2_gd25q_lines(sr2), sr2),
{
    vstd::arithmetic::power2::lemma2_to64();
    let lines = sr2_gd25q_lines(sr2);
    reveal_strlit("  CMP     [6] = ");
    reveal_strlit("  LB1     [3] = ");
    reveal_strlit("  LB2     [4] = ");
    reveal_strlit("  LB3     [5] = ");
    reveal_strlit("  QE      [1] = ");
    reveal_strlit("  SRL     [0] = ");
    reveal_strlit("  SUS1    [7] = ");
    reveal_strlit("  SUS2    [2] = ");
    lemma_flag("  SRL     [0] = "@, sr2, 1, "   "@, "not power-cycle locked"@, "POWER-CYCLE LOCKED (SRP1)"@, ""@, 0);
    lemma_flag("  QE      [1] = "@, sr2, 2, "   quad mode "@, "disabled"@, "ENABLED"@, ""@, 1);
    lemma_flag("  SUS2    [2] = "@, sr2, 4, "   "@, "no program suspended"@, "PROGRAM SUSPENDED"@, ""@, 2);
    lemma_flag("  LB1     [3] = "@, sr2, 8, "   security reg 1 "@, "unlocked"@, "OTP-LOCKED"@, ""@, 3);
    lemma_flag("  LB2     [4] = "@, sr2, 16, "   security reg 2 "@, "unlocked"@, "OTP-LOCKED"@, ""@, 4);
    lemma_flag("  LB3     [5] = "@, sr2, 32, "   security reg 3 "@, "unlocked"@, "OTP-LOCKED"@, ""@, 5);
    lemma_flag("  CMP     [6] = "@, sr2, 64, "   protection "@, "normal"@, "INVERTED (complement)"@, ""@, 6);
    lemma_flag("  SUS1    [7] = "@, sr2, 128, "   "@, "no erase suspended"@, "ERASE SUSPENDED"@, ""@, 7);
    assert(shows_what_it_names(lines[2], sr2));
    assert(shows_what_it_names(lines[3], sr2));
    assert(shows_what_it_names(lines[4], sr2));
    assert(shows_what_it_names(lines[5], sr2));
    assert(shows_what_it_names(lines[6], sr2));
    assert(shows_what_it_names(lines[7], sr2));
    assert(shows_what_it_names(lines[8], sr2));
    assert(shows_what_it_names(lines[9], sr2));
}

/// Every line of these shows the bits of the register that its label names.
pub proof fn law_sr2_gd25q256d_lines_show_what_they_name(sr2: u8)
    ensures
        sr2_gd25q256d_lines(sr2).len() == 10,
        shows_register(sr2_gd25q256d_lines(sr2), sr2),
{
    vstd::arithmetic::power2::lemma2_to64();
    let lines = sr2_gd25q256d_lines(sr2);
    reveal_strlit("  ADS     [0] = ");
    reveal_strlit("  LB1     [3] = ");
    reveal_strlit("  LB2     [4] = ");
    reveal_strlit("  LB3     [5] = ");
    reveal_strlit("  QE      [1] = ");
    reveal_strlit("  SRP1    [6] = ");
    reveal_strlit("  SUS1    [7] = ");
    reveal_strlit("  SUS2    [2] = ");
    lemma_flag("  ADS     [0] = "@, sr2, 1, "   currently in "@, "3"@, "4"@, "-byte address mode"@, 0);
    lemma_flag("  QE      [1] = "@, sr2, 2, "   quad mode "@, "disabled"@, "ENABLED"@, ""@, 1);
    lemma_flag("  SUS2    [2] = "@, sr2, 4, "   "@, "no program suspended"@, "PROGRAM SUSPENDED"@, ""@, 2);
    lemma_flag("  LB1     [3] = "@, sr2, 8, "   security reg 1 "@, "unlocked"@, "OTP-LOCKED"@, ""@, 3);
    lemma_flag("  LB2     [4] = "@, sr2, 16, "   security reg 2 "@, "unlocked"@, "OTP-LOCKED"@, ""@, 4);
    lemma_flag("  LB3     [5] = "@, sr2, 32, "   security reg 3 "@, "unlocked"@, "OTP-LOCKED"@, ""@, 5);
    lemma_flag("  SRP1    [6] = "@, sr2, 64, "   "@, "not power-cycle locked"@, "POWER-CYCLE LOCKED"@, ""@, 6);
    lemma_flag("  SUS1    [7] = "@, sr2, 128, "   "@, "no erase suspended"@, "ERASE SUSPENDED"@, ""@, 7);
    assert(shows_what_it_names(lines[2], sr2));
    assert(shows_what_it_names(lines[3], sr2));
    assert(shows_what_it_names(lines[4], sr2));
    assert(shows_what_it_names(lines[5], sr2));
    assert(shows_what_it_names(lines[6], sr2));
    assert(shows_what_it_names(lines[7], sr2));
    assert(shows_what_it_names(lines[8], sr2));
    assert(shows_what_it_names(lines[9], sr2));
}

/// Every line of these shows the bits of the register that its label names.
pub proof fn law_sr3_4bit_lines_show_what_they_name(sr3: u8)
    ensures
        sr3_4bit_lines(sr3).len() == 6,
        shows_register(sr3_4bit_lines(sr3), sr3),
{
    vstd::arithmetic::power2::lemma2_to64();
    let lines = sr3_4bit_lines(sr3);
    reveal_strlit("  ADP     [1] = ");
    reveal_strlit("  ADS     [0] = ");
    reveal_strlit("  DRV[1:0] [6:5] = ");
    reveal_strlit("  WPS     [2] = ");
    lemma_flag("  ADS     [0] = "@, sr3, 1, "   currently in "@, "3"@, "4"@, "-byte address mode"@, 0);
    lemma_flag("  ADP     [1] = "@, sr3, 2, "   powers up in "@, "3"@, "4"@, "-byte address mode"@, 1);
    lemma_flag("  WPS     [2] = "@, sr3, 4, "   protection scheme: "@, "BP/TB (status register)"@, "individual block lock"@, ""@, 2);
    lemma_field("  DRV[1:0] [6:5] = "@, sr3, (sr3 / 32) % 4, 2, "  output driver strength: "@, drv_text((sr3 / 32) % 4), 6, 5);
    assert(shows_what_it_names(lines[2], sr3));
    assert(shows_what_it_names(lines[3], sr3));
    assert(shows_what_it_names(lines[4], sr3));
    assert(shows_what_it_names(lines[5], sr3));
}

/// Every line of these shows the bits of the register that its label names.
pub proof fn law_sr3_3bit_lines_show_what_they_name(sr3: u8)
    ensures
        sr3_3bit_lines(sr3).len() == 5,
        shows_register(sr3_3bit_lines(sr3), sr3),
{
    vstd::arithmetic::power2::lemma2_to64();
    let lines = sr3_3bit_lines(sr3);
    reveal_strlit("  DRV[1:0] [6:5] = ");
    reveal_strlit("  HOLD/RST [7] = ");
    reveal_strlit("  WPS     [2] = ");
    lemma_flag("  WPS     [2] = "@, sr3, 4, "   protection scheme: "@, "BP/TB/SEC (status register)"@, "individual block lock"@, ""@, 2);
    lemma_field("  DRV[1:0] [6:5] = "@, sr3, (sr3 / 32) % 4, 2, "  output driver strength: "@, drv_text((sr3 / 32) % 4), 6, 5);
    lemma_flag("  HOLD/RST [7] = "@, sr3, 128, "   pin function: "@, "HOLD#"@, "RESET#"@, ""@, 7);
    assert(shows_what_it_names(lines[2], sr3));
    assert(shows_what_it_names(lines[3], sr3));
    assert(shows_what_it_names(lines[4], sr3));
}

/// Every line of these shows the bits of the register that its label names.
pub proof fn law_sr3_gd25q_lines_show_what_they_name(sr3: u8)
    ensures
        sr3_gd25q_lines(sr3).len() == 5,
        shows_register(sr3_gd25q_lines(sr3), sr3),
{
    vstd::arithmetic::power2::lemma2_to64();
    let lines = sr3_gd25q_lines(sr3);
    reveal_strlit("  DC      [0] = ");
    reveal_strlit("  DRV[1:0] [6:5] = ");
    reveal_strlit("  HOLD/RST [7] = ");
    lemma_flag("  DC      [0] = "@, sr3, 1, "   dummy cycles "@, "default"@, "configured"@, ""@, 0);
    lemma_field("  DRV[1:0] [6:5] = "@, sr3, (sr3 / 32) % 4, 2, "  output driver strength: "@, drv_text((sr3 / 32) % 4), 6, 5);
    lemma_flag("  HOLD/RST [7] = "@, sr3, 128, "   pin function: "@, "HOLD#"@, "RESET#"@, ""@, 7);
    assert(shows_what_it_names(lines[2], sr3));
    assert(shows_what_it_names(lines[3], sr3));
    assert(shows_what_it_names(lines[4], sr3));
}

/// Every line of these shows the bits of the register that its label names.
pub proof fn law_sr3_gd25q256d_lines_show_what_they_name(sr3: u8)
    ensures
        sr3_gd25q256d_lines(sr3).len() == 8,
        shows_register(sr3_gd25q256d_lines(sr3), sr3),
{
    vstd::arithmetic::power2::lemma2_to64();
    let lines = sr3_gd25q256d_lines(sr3);
    reveal_strlit("  ADP     [4] = ");
    reveal_strlit("  DRV[1:0] [6:5] = ");
    reveal_strlit("  EE      [3] = ");
    reveal_strlit("  HOLD/RST [7] = ");
    reveal_strlit("  LC[1:0] [1:0] = ");
    reveal_strlit("  PE      [2] = ");
    lemma_field("  LC[1:0] [1:0] = "@, sr3, sr3 % 4, 2, "  DTR latency code (DTR-capable parts only)"@, ""@, 1, 0);
    lemma_flag("  PE      [2] = "@, sr3, 4, "   "@, "last program OK"@, "PROGRAM ERROR"@, ""@, 2);
    lemma_flag("  EE      [3] = "@, sr3, 8, "   "@, "last erase OK"@, "ERASE ERROR"@, ""@, 3);
    lemma_flag("  ADP     [4] = "@, sr3, 16, "   powers up in "@, "3"@, "4"@, "-byte address mode"@, 4);
    lemma_field("  DRV[1:0] [6:5] = "@, sr3, (sr3 / 32) % 4, 2, "  output driver strength: "@, drv_text((sr3 / 32) % 4), 6, 5);
    lemma_flag("  HOLD/RST [7] = "@, sr3, 128, "   pin function: "@, "HOLD#"@, "RESET#"@, ""@, 7);
    assert(shows_what_it_names(lines[2], sr3));
    assert(shows_what_it_names(lines[3], sr3));
    assert(shows_what_it_names(lines[4], sr3));
    assert(shows_what_it_names(lines[5], sr3));
    assert(shows_what_it_names(lines[6], sr3));
    assert(shows_what_it_names(lines[7], sr3));
}

/// Every line of these shows the bits of the register that its label names.
pub proof fn law_sr_mx25l_f_lines_show_what_they_name(sr: u8)
    ensures
        sr_mx25l_f_lines(sr).len() == 7,
        shows_register(sr_mx25l_f_lines(sr), sr),
{
    vstd::arithmetic::power2::lemma2_to64();
    let lines = sr_mx25l_f_lines(sr);
    reveal_strlit("  BP[3:0] [5:2] = ");
    reveal_strlit("  QE      [6] = ");
    reveal_strlit("  SRWD    [7] = ");
    reveal_strlit("  WEL     [1] = ");
    reveal_strlit("  WIP     [0] = ");
    lemma_flag("  WIP     [0] = "@, sr, 1, "   "@, "idle"@, "program/erase in progress"@, ""@, 0);
    lemma_flag("  WEL     [1] = "@, sr, 2, "   "@, "write-disabled"@, "write-enabled"@, ""@, 1);
    lemma_field("  BP[3:0] [5:2] = "@, sr, (sr / 4) % 16, 4, "  "@, bp_text((sr / 4) % 16), 5, 2);
    lemma_flag("  QE      [6] = "@, sr, 64, "   quad mode "@, "disabled"@, "ENABLED"@, ""@, 6);
    lemma_flag("  SRWD    [7] = "@, sr, 128, "   "@, "status reg writable"@, "status reg locked (with WP# pin)"@, ""@, 7);
    assert(shows_what_it_names(lines[2], sr));
    assert(shows_what_it_names(lines[3], sr));
    assert(shows_what_it_names(lines[4], sr));
    assert(shows_what_it_names(lines[5], sr));
    assert(shows_what_it_names(lines[6], sr));
}

/// Every line of these shows the bits of the register that its label names.
pub proof fn law_cr_mx25l_f_head_lines_show_what_they_name(cr: u8)
    ensures
        cr_mx25l_f_head_lines(cr).len() == 5,
        shows_register(cr_mx25l_f_head_lines(cr), cr),
{
    vstd::arithmetic::power2::lemma2_to64();
    let lines = cr_mx25l_f_head_lines(cr);
    reveal_strlit("  ODS[2:0] [2:0] = ");
    reveal_strlit("  TB      [3] = ");
    reveal_strlit("  reserved [4] = ");
    lemma_field("  ODS[2:0] [2:0] = "@, cr, cr % 8, 3, "  output driver: "@, ods_text(cr % 8), 2, 0);
    lemma_flag("  TB      [3] = "@, cr, 8, "   protect from "@, "TOP"@, "BOTTOM"@, " (OTP)"@, 3);
    lemma_flag("  reserved [4] = "@, cr, 16, ""@, ""@, ""@, ""@, 4);
    assert(shows_what_it_names(lines[2], cr));
    assert(shows_what_it_names(lines[3], cr));
    assert(shows_what_it_names(lines[4], cr));
}

/// Every line of these shows the bits of the register that its label names.
pub proof fn law_sr_mx25l_legacy_lines_show_what_they_name(sr: u8)
    ensures
        sr_mx25l_legacy_lines(sr).len() == 7,
        shows_register(sr_mx25l_legacy_lines(sr), sr),
{
    vstd::arithmetic::power2::lemma2_to64();
    let lines = sr_mx25l_legacy_lines(sr);
    reveal_strlit("  (reserved) [6] = ");
    reveal_strlit("  BP[3:0] [5:2] = ");
    reveal_strlit("  SRWD    [7] = ");
    reveal_strlit("  WEL     [1] = ");
    reveal_strlit("  WIP     [0] = ");
    lemma_flag("  WIP     [0] = "@, sr, 1, "   "@, "idle"@, "program/erase in progress"@, ""@, 0);
    lemma_flag("  WEL     [1] = "@, sr, 2, "   "@, "write-disabled"@, "write-enabled"@, ""@, 1);
    lemma_field("  BP[3:0] [5:2] = "@, sr, (sr / 4) % 16, 4, "  "@, bp_text((sr / 4) % 16), 5, 2);
    lemma_flag("  (reserved) [6] = "@, sr, 64, "   hard-wired 0 (no QE bit on this generation)"@, ""@, ""@, ""@, 6);
    lemma_flag("  SRWD    [7] = "@, sr, 128, "   "@, "status reg writable"@, "status reg locked (with WP# pin)"@, ""@, 7);
    assert(shows_what_it_names(lines[2], sr));
    assert(shows_what_it_names(lines[3], sr));
    assert(shows_what_it_names(lines[4], sr));
    assert(shows_what_it_names(lines[5], sr));
    assert(shows_what_it_names(lines[6], sr));
}

/// Every line of these shows the bits of the register that its label names.
pub proof fn law_sr_en25qh_lines_show_what_they_name(sr: u8)
    ensures
        sr_en25qh_lines(sr).len() == 7,
        shows_register(sr_en25qh_lines(sr), sr),
{
    vstd::arithmetic::power2::lemma2_to64();
    let lines = sr_en25qh_lines(sr);
    reveal_strlit("  BP[3:0] [5:2] = ");
    reveal_strlit("  SRP     [7] = ");
    reveal_strlit("  WEL     [1] = ");
    reveal_strlit("  WHDIS   [6] = ");
    reveal_strlit("  WIP     [0] = ");
    lemma_flag("  WIP     [0] = "@, sr, 1, "   "@, "idle"@, "program/erase in progress"@, ""@, 0);
    lemma_flag("  WEL     [1] = "@, sr, 2, "   "@, "write-disabled"@, "write-enabled"@, ""@, 1);
    lemma_field("  BP[3:0] [5:2] = "@, sr, (sr / 4) % 16, 4, "  "@, bp_text((sr / 4) % 16), 5, 2);
    lemma_flag("  WHDIS   [6] = "@, sr, 64, "   WP# and HOLD# pin functions "@, "ENABLED (default)"@, "DISABLED (pins free for IO2/IO3)"@, ""@, 6);
    lemma_flag("  SRP     [7] = "@, sr, 128, "   "@, "status reg writable"@, "status reg locked (with WP# pin) / OTP_LOCK in OTP mode"@, ""@, 7);
    assert(shows_what_it_names(lines[2], sr));
    assert(shows_what_it_names(lines[3], sr));
    assert(shows_what_it_names(lines[4], sr));
    assert(shows_what_it_names(lines[5], sr));
    assert(shows_what_it_names(lines[6], sr));
}

/// Every line of these shows the bits of the register that its label names.
pub proof fn law_sr_universal_lines_show_what_they_name(sr1: u8)
    ensures
        sr_universal_lines(sr1).len() == 4,
        shows_register(sr_universal_lines(sr1), sr1),
{
    vstd::arithmetic::power2::lemma2_to64();
    let lines = sr_universal_lines(sr1);
    reveal_strlit("  WEL     [1] = ");
    reveal_strlit("  WIP     [0] = ");
    lemma_flag("  WIP     [0] = "@, sr1, 1, "   "@, "idle"@, "program/erase in progress"@, ""@, 0);
    lemma_flag("  WEL     [1] = "@, sr1, 2, "   "@, "write-disabled"@, "write-enabled"@, ""@, 1);
    assert(shows_what_it_names(lines[2], sr1));
    assert(shows_what_it_names(lines[3], sr1));
}

/// A register is shown in two groups of four binary digits, the highest bit first.
pub proof fn law_register_is_shown_in_binary(reg: u8, k: int)
    requires
        0 <= k < 8,
    ensures
        bits_text(reg).len() == 9,
        bits_text(reg)[4] == ' ',
        bits_text(reg)[if k < 4 {
            k
        } else {
            k + 1
        }] == bit_digit(reg, 7 - k),
{
    vstd::arithmetic::power2::lemma2_to64();
    reveal_strlit(" ");
    lemma_binary((reg / 16) as nat, 4);
    lemma_binary((reg % 16) as nat, 4);
    lemma_bit_is_binary(reg as nat, (7 - k) as nat);
    if k < 4 {
        lemma_bit_shift(reg as nat, 4, (3 - k) as nat);
        assert(bits_text(reg)[k] == radix_text((reg / 16) as nat, 2, 4, false)[k]);
    } else {
        lemma_bit_mod(reg as nat, 4, (7 - k) as nat);
        assert(bits_text(reg)[k + 1] == radix_text((reg % 16) as nat, 2, 4, false)[k - 4]);
    }
}

/// Of the warnings about a locked status register there is one, with an empty line in front, where
/// either protect bit is set, and none where neither is.
pub proof fn law_locked_register_is_warned_of_once(
    srp0: bool,
    srp1: bool,
    both: Seq<char>,
    power: Seq<char>,
)
    ensures
        ({
            let w = lock_warning(srp0, srp1, both, power);
            &&& !srp0 && !srp1 ==> w.len() == 0
            &&& srp0 || srp1 ==> w.len() == 2
            &&& srp0 && srp1 ==> w[1] == both
            &&& !srp0 && srp1 ==> w[1] == power
        }),
{
}

/// A report of Winbond parts ends in warnings just where a protect bit, the complement bit or the
/// suspend bit is set.
pub proof fn law_winbond_report_warns_of_the_bits_that_matter(a: u8, b: u8, c: u8)
    ensures
        w25q_4bit_report(a, b, c).len() == 22 <==> a < 128 && b as int % 2 == 0 && (b as int / 64)
            % 2 == 0 && b < 128,
        w25q_3bit_report(a, b, c).len() == 22 <==> a < 128 && b as int % 2 == 0 && (b as int / 64)
            % 2 == 0 && b < 128,
{
    let w = w25q_warnings(a, b);
    assert(w.len() == 0 <==> a < 128 && b as int % 2 == 0 && (b as int / 64) % 2 == 0 && b < 128);
    law_sr1_4bit_lines_show_what_they_name(a);
    law_sr1_3bit_lines_show_what_they_name(a);
    law_sr2_w25q_lines_show_what_they_name(b);
    law_sr3_4bit_lines_show_what_they_name(c);
    law_sr3_3bit_lines_show_what_they_name(c);
    assert(w25q_4bit_report(a, b, c).len() == 22 + w.len());
    assert(w25q_3bit_report(a, b, c).len() == 22 + w.len());
}

/// A report of GigaDevice parts ends in warnings just where a protect bit, the complement bit or a
/// suspend bit is set.
pub proof fn law_gigadevice_report_warns_of_the_bits_that_matter(a: u8, b: u8, c: u8)
    ensures
        gd25q_report(a, b, c).len() == 21 <==> a < 128 && b as int % 2 == 0 && (b as int / 64) % 2
            == 0 && b < 128 && (b as int / 4) % 2 == 0,
{
    let x = sr1_5bit_lines(a) + sr2_gd25q_lines(b) + sr3_gd25q_lines(c);
    assert(sr1_5bit_lines(a).len() == 6);
    assert(sr2_gd25q_lines(b).len() == 10);
    assert(sr3_gd25q_lines(c).len() == 5);
    lemma_top_bit(a);
    lemma_top_bit(b);
    lemma_warned(bit_set(a, 128), bit_set(b, 1));
}

/// A report of the GD25Q256D ends in warnings just where a protect bit, a suspend bit or an error
/// bit is set.
pub proof fn law_gd25q256d_report_warns_of_the_bits_that_matter(a: u8, b: u8, c: u8)
    ensures
        gd25q256d_report(a, b, c).len() == 25 <==> a < 128 && (b as int / 64) % 2 == 0 && (c as int
            / 4) % 2 == 0 && (c as int / 8) % 2 == 0 && b < 128 && (b as int / 4) % 2 == 0,
{
    assert(sr1_4bit_lines(a).len() == 7);
    assert(sr2_gd25q256d_lines(b).len() == 10);
    assert(sr3_gd25q256d_lines(c).len() == 8);
    lemma_top_bit(a);
    lemma_top_bit(b);
    lemma_warned(bit_set(a, 128), bit_set(b, 64));
}

proof fn lemma_top_bit(reg: u8)
    ensures
        bit_set(reg, 128) <==> reg >= 128,
        bit_set(reg, 1) <==> reg as int % 2 == 1,
{
}

proof fn lemma_warned(srp0: bool, srp1: bool)
    ensures
        forall|both: Seq<char>, power: Seq<char>| #[trigger]
            lock_warning(srp0, srp1, both, power).len() == if srp0 || srp1 {
                2nat
            } else {
                0
            },
{
}

/// A report of Macronix and EON parts ends in warnings just where one of the two highest bits of
/// the status register is set.
pub proof fn law_other_report_warns_of_the_bits_that_matter(a: u8, b: u8, wide: bool)
    ensures
        mx25l_f_report(a, b, wide).len() == 14 <==> a < 128 && (a as int / 64) % 2 == 0,
        mx25l_legacy_report(a).len() == 7 <==> a < 128 && (a as int / 64) % 2 == 0,
        en25qh_report(a).len() == 7 <==> a < 128 && (a as int / 64) % 2 == 0,
{
    law_sr_mx25l_f_lines_show_what_they_name(a);
    law_cr_mx25l_f_head_lines_show_what_they_name(b);
    law_sr_mx25l_legacy_lines_show_what_they_name(a);
    law_sr_en25qh_lines_show_what_they_name(a);
    assert(bit_set(a, 128) <==> a >= 128);
}

/// Which layout a chip's registers have goes by manufacturer and size: Winbond parts from 32 MiB
/// on have four BP bits and smaller ones three; GigaDevice parts have five, but for the
/// GD25Q256D; Macronix parts from 16 MiB on are F-grade, from 32 MiB on with a 4-byte mode bit.
pub proof fn law_register_layout_goes_by_the_part(mfr: u8, size: u32, name: Seq<char>)
    ensures
        mfr == 0xEF ==> layout_of(mfr, size, name) == Some(
            if size >= 32 * 1024 * 1024 {
                StatusDecoder::W25q4BitBp
            } else {
                StatusDecoder::W25q3BitBp
            },
        ),
        mfr == 0xC8 && !(size >= 32 * 1024 * 1024 && begins_with(name, "GD25Q256D"@)) ==> layout_of(
            mfr,
            size,
            name,
        ) == Some(StatusDecoder::Gd25q5BitBp),
        mfr == 0xC8 && size >= 32 * 1024 * 1024 && begins_with(name, "GD25Q256D"@) ==> layout_of(
            mfr,
            size,
            name,
        ) == Some(StatusDecoder::Gd25q256d),
        mfr == 0xC2 && size < 16 * 1024 * 1024 ==> layout_of(mfr, size, name) == Some(
            StatusDecoder::Mx25lLegacy,
        ),
        mfr == 0xC2 && size >= 16 * 1024 * 1024 ==> layout_of(mfr, size, name) == Some(
            StatusDecoder::Mx25lF { has_4byte_bit: size >= 32 * 1024 * 1024 },
        ),
        mfr == 0x1C ==> layout_of(mfr, size, name) == Some(StatusDecoder::En25qh),
        mfr != 0xEF && mfr != 0xC8 && mfr != 0xC2 && mfr != 0x1C ==> layout_of(mfr, size, name) is None,
{
}

/// Whether a report has a line that names the opcode of a register and shows its value.
pub open spec fn titled(lines: Seq<Seq<char>>, opcode: u8, value: u8) -> bool {
    exists|j: int| 0 <= j < lines.len() && titled_line(#[trigger] lines[j], opcode, value)
}

/// Whether a line names the opcode of a register, behind its name, and shows its value.
pub open spec fn titled_line(line: Seq<char>, opcode: u8, value: u8) -> bool {
    line.len() >= 17 && line.subrange(4, 17) == "("@ + hex_text(opcode as nat, 2) + ") = "@
        + hex_text(value as nat, 2)
}

proof fn lemma_title(title: Seq<char>, opcode: u8, reg: u8)
    requires
        title.len() == 13,
        title[4] == '(',
        title[5] == '0',
        title[6] == 'x',
        title[7] == digit_char(opcode as int / 16, false),
        title[8] == digit_char(opcode as int % 16, false),
        title[9] == ')',
        title[10] == ' ',
        title[11] == '=',
        title[12] == ' ',
    ensures
        titled_line(register(title, reg), opcode, reg),
{
    reveal_strlit("(");
    reveal_strlit(") = ");
    reveal_strlit("0x");
    reveal_with_fuel(radix_text, 3);
    let line = register(title, reg);
    let goal = "("@ + hex_text(opcode as nat, 2) + ") = "@ + hex_text(reg as nat, 2);
    let o = radix_text(opcode as nat, 16, 2, false);
    let v = radix_text(reg as nat, 16, 2, false);
    assert(o =~= seq![digit_char(opcode as int / 16, false), digit_char(opcode as int % 16, false)]);
    assert(v =~= seq![digit_char(reg as int / 16, false), digit_char(reg as int % 16, false)]);
    assert(line.subrange(4, 17) =~= goal);
}

proof fn lemma_title_of(
    before: Seq<Seq<char>>,
    own: Seq<Seq<char>>,
    after: Seq<Seq<char>>,
    opcode: u8,
    value: u8,
)
    requires
        own.len() >= 2,
        titled_line(own[1], opcode, value),
    ensures
        titled(before + own + after, opcode, value),
{
    let all = before + own + after;
    assert(all[before.len() as int + 1] == own[1]);
    assert(titled_line(all[before.len() as int + 1], opcode, value));
}

/// Each register of a layout is read by the opcode under which it is reported, and the value that
/// is reported there is the one that was read.
#[verifier::rlimit(60)]
#[verifier::spinoff_prover]
pub proof fn law_each_register_is_reported_under_its_opcode(
    decoder: Option<StatusDecoder>,
    regs: Seq<u8>,
    i: int,
)
    requires
        regs.len() == register_opcodes(decoder).len(),
        0 <= i < regs.len(),
    ensures
        titled(report(decoder, regs), register_opcodes(decoder)[i], regs[i]),
{
    let none = Seq::<Seq<char>>::empty();
    let all = report(decoder, regs);
    let a = regs[0];
    let b = regs[1];
    let c = regs[2];
    lemma_titles(a, b, c);
    let (x, y, z) = match decoder {
        Some(StatusDecoder::W25q4BitBp) => (
            sr1_4bit_lines(a),
            sr2_w25q_lines(b),
            sr3_4bit_lines(c),
        ),
        Some(StatusDecoder::W25q3BitBp) => (
            sr1_3bit_lines(a),
            sr2_w25q_lines(b),
            sr3_3bit_lines(c),
        ),
        Some(StatusDecoder::Gd25q256d) => (
            sr1_4bit_lines(a),
            sr2_gd25q256d_lines(b),
            sr3_gd25q256d_lines(c),
        ),
        Some(StatusDecoder::Gd25q5BitBp) => (
            sr1_5bit_lines(a),
            sr2_gd25q_lines(b),
            sr3_gd25q_lines(c),
        ),
        Some(StatusDecoder::Mx25lF { .. }) => (
            sr_mx25l_f_lines(a),
            cr_mx25l_f_head_lines(b),
            none,
        ),
        Some(StatusDecoder::Mx25lLegacy) => (sr_mx25l_legacy_lines(a), none, none),
        Some(StatusDecoder::En25qh) => (sr_en25qh_lines(a), none, none),
        None => (sr_universal_lines(a), none, none),
    };
    assert(x.len() >= 2 && titled_line(x[1], 0x05, a));
    if regs.len() == 3 {
        assert(y.len() >= 2 && titled_line(y[1], 0x35, b));
        assert(z.len() >= 2 && titled_line(z[1], 0x15, c));
    }
    if regs.len() == 2 {
        assert(y.len() >= 2 && titled_line(y[1], 0x15, b));
    }
    let n = (x + y + z).len() as int;
    assert(x + y + z + all.skip(n) =~= all) by {
        lemma_report_begins(decoder, regs, x, y, z);
    }
    if i == 0 {
        lemma_title_of(none, x, y + z + all.skip(n), 0x05, a);
        assert(none + x + (y + z + all.skip(n)) =~= all);
    } else if i == 1 {
        lemma_title_of(
            x,
            y,
            z + all.skip(n),
            if regs.len() == 3 {
                0x35
            } else {
                0x15
            },
            b,
        );
        assert(x + y + (z + all.skip(n)) =~= all);
    } else {
        lemma_title_of(x + y, z, all.skip(n), 0x15, c);
        assert(x + y + z + all.skip(n) =~= all);
    }
}

proof fn lemma_titles(a: u8, b: u8, c: u8)
    ensures
        titled_line(sr1_4bit_lines(a)[1], 0x05, a),
        titled_line(sr1_3bit_lines(a)[1], 0x05, a),
        titled_line(sr1_5bit_lines(a)[1], 0x05, a),
        titled_line(sr_mx25l_f_lines(a)[1], 0x05, a),
        titled_line(sr_mx25l_legacy_lines(a)[1], 0x05, a),
        titled_line(sr_en25qh_lines(a)[1], 0x05, a),
        titled_line(sr_universal_lines(a)[1], 0x05, a),
        titled_line(sr2_w25q_lines(b)[1], 0x35, b),
        titled_line(sr2_gd25q_lines(b)[1], 0x35, b),
        titled_line(sr2_gd25q256d_lines(b)[1], 0x35, b),
        titled_line(cr_mx25l_f_head_lines(b)[1], 0x15, b),
        titled_line(sr3_4bit_lines(c)[1], 0x15, c),
        titled_line(sr3_3bit_lines(c)[1], 0x15, c),
        titled_line(sr3_gd25q_lines(c)[1], 0x15, c),
        titled_line(sr3_gd25q256d_lines(c)[1], 0x15, c),
{
    reveal_strlit("SR1 (0x05) = ");
    reveal_strlit("SR2 (0x35) = ");
    reveal_strlit("SR3 (0x15) = ");
    reveal_strlit("SR  (0x05) = ");
    reveal_strlit("CR  (0x15) = ");
    lemma_title("SR1 (0x05) = "@, 0x05, a);
    lemma_title("SR  (0x05) = "@, 0x05, a);
    lemma_title("SR2 (0x35) = "@, 0x35, b);
    lemma_title("CR  (0x15) = "@, 0x15, b);
    lemma_title("SR3 (0x15) = "@, 0x15, c);
}

proof fn lemma_report_begins(
    decoder: Option<StatusDecoder>,
    regs: Seq<u8>,
    x: Seq<Seq<char>>,
    y: Seq<Seq<char>>,
    z: Seq<Seq<char>>,
)
    requires
        regs.len() == register_opcodes(decoder).len(),
        decoder == Some(StatusDecoder::W25q4BitBp) ==> x == sr1_4bit_lines(regs[0]) && y
            == sr2_w25q_lines(regs[1]) && z == sr3_4bit_lines(regs[2]),
        decoder == Some(StatusDecoder::W25q3BitBp) ==> x == sr1_3bit_lines(regs[0]) && y
            == sr2_w25q_lines(regs[1]) && z == sr3_3bit_lines(regs[2]),
        decoder == Some(StatusDecoder::Gd25q256d) ==> x == sr1_4bit_lines(regs[0]) && y
            == sr2_gd25q256d_lines(regs[1]) && z == sr3_gd25q256d_lines(regs[2]),
        decoder == Some(StatusDecoder::Gd25q5BitBp) ==> x == sr1_5bit_lines(regs[0]) && y
            == sr2_gd25q_lines(regs[1]) && z == sr3_gd25q_lines(regs[2]),
        decoder matches Some(StatusDecoder::Mx25lF { .. }) ==> x == sr_mx25l_f_lines(regs[0]) && y
            == cr_mx25l_f_head_lines(regs[1]) && z == Seq::<Seq<char>>::empty(),
        decoder == Some(StatusDecoder::Mx25lLegacy) ==> x == sr_mx25l_legacy_lines(regs[0]) && y
            == Seq::<Seq<char>>::empty() && z == Seq::<Seq<char>>::empty(),
        decoder == Some(StatusDecoder::En25qh) ==> x == sr_en25qh_lines(regs[0]) && y == Seq::<
            Seq<char>,
        >::empty() && z == Seq::<Seq<char>>::empty(),
        decoder is None ==> x == sr_universal_lines(regs[0]) && y == Seq::<Seq<char>>::empty() && z
            == Seq::<Seq<char>>::empty(),
    ensures
        report(decoder, regs).len() >= (x + y + z).len(),
        report(decoder, regs).take((x + y + z).len() as int) == x + y + z,
{
    let all = report(decoder, regs);
    assert(all.take((x + y + z).len() as int) =~= x + y + z);
}

} // verus!
