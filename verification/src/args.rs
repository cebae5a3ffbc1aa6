//! Command-line values: numbers, clocks, voltages.
use vstd::prelude::*;

use crate::fpga::Voltage;
use crate::spi::SpiSpeed;
use crate::text::{
    chars_of, dec_text, digit_char, hex_text, lemma_quotient_shrinks, radix_text, same_text,
};

verus! {

/// Why a text is not a number.
#[derive(Debug, Clone, Copy, PartialEq, Eq, Structural)]
pub enum NumError {
    Empty,
    InvalidDigit,
    Overflow,
}

/// The value of a digit in a radix of at most sixteen.
pub open spec fn digit_value(c: char, radix: int) -> Option<int> {
    let v: int = if '0' <= c <= '9' {
        c as int - '0' as int
    } else if 'a' <= c <= 'f' {
        c as int - 'a' as int + 10
    } else if 'A' <= c <= 'F' {
        c as int - 'A' as int + 10
    } else {
        radix
    };
    if v < radix {
        Some(v)
    } else {
        None
    }
}

/// The number that the digits from `i` on spell behind `acc`.
pub open spec fn digits_from(s: Seq<char>, i: int, radix: int, acc: int, max: int) -> Result<
    int,
    NumError,
>
    decreases s.len() - i,
{
    if i < 0 || i >= s.len() {
        Ok(acc)
    } else {
        match digit_value(s[i], radix) {
            None => Err(NumError::InvalidDigit),
            Some(d) => if acc * radix + d > max {
                Err(NumError::Overflow)
            } else {
                digits_from(s, i + 1, radix, acc * radix + d, max)
            },
        }
    }
}

/// The unsigned number that a text spells from `from` on: an optional plus sign and at least
/// one digit, at most `max`.
pub open spec fn number_from(s: Seq<char>, from: int, radix: int, max: int) -> Result<
    int,
    NumError,
> {
    if from >= s.len() {
        Err(NumError::Empty)
    } else if from + 1 == s.len() && (s[from] == '+' || s[from] == '-') {
        Err(NumError::InvalidDigit)
    } else if s[from] == '+' {
        digits_from(s, from + 1, radix, 0, max)
    } else {
        digits_from(s, from, radix, 0, max)
    }
}

fn digit_of(c: char, radix: u64) -> (r: Option<u64>)
    requires
        2 <= radix <= 16,
    ensures
        match digit_value(c, radix as int) {
            Some(d) => r == Some(d as u64) && 0 <= d < radix,
            None => r is None,
        },
{
    let code: u32 = c as u32;
    let v: u64 = if 48 <= code && code <= 57 {
        (code - 48) as u64
    } else if 97 <= code && code <= 102 {
        (code - 97 + 10) as u64
    } else if 65 <= code && code <= 70 {
        (code - 65 + 10) as u64
    } else {
        radix
    };
    if v < radix {
        Some(v)
    } else {
        None
    }
}

/// Parses an unsigned number from position `from` on.
pub fn parse_number(s: &[char], from: usize, radix: u64, max: u64) -> (r: Result<u64, NumError>)
    requires
        2 <= radix <= 16,
        max <= u32::MAX,
    ensures
        match number_from(s@, from as int, radix as int, max as int) {
            Ok(n) => r == Ok::<u64, NumError>(n as u64) && 0 <= n <= max,
            Err(e) => r == Err::<u64, _>(e),
        },
{
    if from >= s.len() {
        return Err(NumError::Empty);
    }
    if from + 1 == s.len() && (s[from] == '+' || s[from] == '-') {
        return Err(NumError::InvalidDigit);
    }
    let start: usize = if s[from] == '+' {
        from + 1
    } else {
        from
    };
    let ghost goal = number_from(s@, from as int, radix as int, max as int);
    let mut acc: u64 = 0;
    let mut i: usize = start;
    while i < s.len()
        invariant
            2 <= radix <= 16,
            max <= u32::MAX,
            i <= s.len(),
            acc <= max,
            goal == number_from(s@, from as int, radix as int, max as int),
            goal == digits_from(s@, i as int, radix as int, acc as int, max as int),
        decreases s.len() - i,
    {
        let d: u64 = match digit_of(s[i], radix) {
            Some(d) => d,
            None => return Err(NumError::InvalidDigit),
        };
        assert(acc * radix + d <= u32::MAX * 16 + 16) by (nonlinear_arith)
            requires
                acc <= u32::MAX,
                radix <= 16,
                d < 16,
        ;
        let next: u64 = acc * radix + d;
        if next > max {
            return Err(NumError::Overflow);
        }
        acc = next;
        i += 1;
    }
    Ok(acc)
}

/// The number a text spells: hexadecimal behind `0x` or `0X`, else decimal.
pub open spec fn hex_or_dec(s: Seq<char>) -> Result<int, NumError> {
    if s.len() >= 2 && s[0] == '0' && (s[1] == 'x' || s[1] == 'X') {
        number_from(s, 2, 16, u32::MAX as int)
    } else {
        number_from(s, 0, 10, u32::MAX as int)
    }
}

/// Parses a number of 32 bits, given in the characters of a text.
pub fn parse_hex_or_dec_chars(s: &[char]) -> (r: Result<u32, NumError>)
    ensures
        match hex_or_dec(s@) {
            Ok(n) => r == Ok::<u32, NumError>(n as u32) && 0 <= n <= u32::MAX,
            Err(e) => r == Err::<u32, _>(e),
        },
{
    let parsed = if s.len() >= 2 && s[0] == '0' && (s[1] == 'x' || s[1] == 'X') {
        parse_number(s, 2, 16, u32::MAX as u64)
    } else {
        parse_number(s, 0, 10, u32::MAX as u64)
    };
    match parsed {
        Ok(n) => Ok(n as u32),
        Err(e) => Err(e),
    }
}

/// Parses a number of 32 bits: hexadecimal behind `0x` or `0X`, else decimal.
pub fn parse_hex_or_dec(s: &str) -> (r: Result<u32, NumError>)
    ensures
        match hex_or_dec(s@) {
            Ok(n) => r == Ok::<u32, NumError>(n as u32) && 0 <= n <= u32::MAX,
            Err(e) => r == Err::<u32, _>(e),
        },
{
    let chars = chars_of(s);
    parse_hex_or_dec_chars(chars.as_slice())
}

/// Why a text is not a clock.
#[derive(Debug, Clone, Copy, PartialEq, Eq, Structural)]
pub enum MhzError {
    NotANumber,
    Unsupported(u8),
}

/// The clock in MHz that a text stands for.
pub open spec fn mhz_of(s: Seq<char>) -> Result<u8, MhzError> {
    match number_from(s, 0, 10, 255) {
        Err(_) => Err(MhzError::NotANumber),
        Ok(n) => if SpiSpeed::speeds().contains(SpiSpeed(n as u8)) {
            Ok(n as u8)
        } else {
            Err(MhzError::Unsupported(n as u8))
        },
    }
}

/// Parses a clock in MHz: one that a programmer can run at.
pub fn parse_mhz(s: &str) -> (r: Result<u8, MhzError>)
    ensures
        r == mhz_of(s@),
{
    let chars = chars_of(s);
    match parse_number(chars.as_slice(), 0, 10, 255) {
        Err(_) => Err(MhzError::NotANumber),
        Ok(n) => {
            let mhz: u8 = n as u8;
            if SpiSpeed(mhz).is_supported() {
                Ok(mhz)
            } else {
                Err(MhzError::Unsupported(mhz))
            }
        },
    }
}

/// The voltage to work at.
#[derive(Debug, Clone, Copy, PartialEq, Eq, Structural)]
pub enum VoltageChoice {
    /// Find out.
    Auto,
    Explicit(Voltage),
}

/// The voltage choice that a text stands for.
pub open spec fn voltage_of(s: Seq<char>) -> Option<VoltageChoice> {
    if s == "auto"@ {
        Some(VoltageChoice::Auto)
    } else if s == "1v8"@ || s == "1.8"@ {
        Some(VoltageChoice::Explicit(Voltage::V1_8))
    } else if s == "3v3"@ || s == "3.3"@ {
        Some(VoltageChoice::Explicit(Voltage::V3_3))
    } else if s == "5v"@ || s == "5.0"@ {
        Some(VoltageChoice::Explicit(Voltage::V5_0))
    } else {
        None
    }
}

/// Parses a voltage choice.
pub fn parse_voltage(s: &str) -> (r: Option<VoltageChoice>)
    ensures
        r == voltage_of(s@),
{
    if same_text(s, "auto") {
        Some(VoltageChoice::Auto)
    } else if same_text(s, "1v8") || same_text(s, "1.8") {
        Some(VoltageChoice::Explicit(Voltage::V1_8))
    } else if same_text(s, "3v3") || same_text(s, "3.3") {
        Some(VoltageChoice::Explicit(Voltage::V3_3))
    } else if same_text(s, "5v") || same_text(s, "5.0") {
        Some(VoltageChoice::Explicit(Voltage::V5_0))
    } else {
        None
    }
}

proof fn lemma_digit(d: int, radix: int, upper: bool)
    requires
        2 <= radix <= 16,
        0 <= d < radix,
    ensures
        digit_value(digit_char(d, upper), radix) == Some(d),
        digit_char(d, upper) != '+',
        digit_char(d, upper) != '-',
        digit_char(d, upper) != 'x',
        digit_char(d, upper) != 'X',
        digit_char(d, upper) != ':',
        digit_char(d, upper) != '#',
        !crate::text::white(digit_char(d, upper)),
{
}

/// One more digit behind a number.
proof fn lemma_digits_push(s: Seq<char>, c: char, i: int, radix: int, acc: int, max: int)
    requires
        0 <= i <= s.len(),
    ensures
        digits_from(s.push(c), i, radix, acc, max) == match digits_from(s, i, radix, acc, max) {
            Err(e) => Err::<int, NumError>(e),
            Ok(v) => match digit_value(c, radix) {
                None => Err(NumError::InvalidDigit),
                Some(d) => if v * radix + d > max {
                    Err(NumError::Overflow)
                } else {
                    Ok(v * radix + d)
                },
            },
        },
    decreases s.len() - i,
{
    let t = s.push(c);
    if i == s.len() {
        assert(t[i] == c);
        reveal_with_fuel(digits_from, 2);
    } else {
        assert(t[i] == s[i]);
        if let Some(d) = digit_value(s[i], radix) {
            if acc * radix + d <= max {
                lemma_digits_push(s, c, i + 1, radix, acc * radix + d, max);
            }
        }
    }
}

/// The digits of a number behind some other text read back as the number, where it fits.
pub proof fn lemma_digits_read_back(
    front: Seq<char>,
    n: nat,
    radix: nat,
    width: nat,
    upper: bool,
    max: int,
)
    requires
        2 <= radix <= 16,
        0 <= max,
    ensures
        digits_from(
            front + radix_text(n, radix, width, upper),
            front.len() as int,
            radix as int,
            0,
            max,
        ) == if n <= max {
            Ok::<int, NumError>(n as int)
        } else {
            Err(NumError::Overflow)
        },
    decreases n, width,
{
    let text = radix_text(n, radix, width, upper);
    lemma_quotient_shrinks(n, radix);
    if n < radix && width <= 1 {
        lemma_digit(n as int, radix as int, upper);
        assert(front + text =~= front.push(digit_char(n as int, upper)));
        lemma_digits_push(
            front,
            digit_char(n as int, upper),
            front.len() as int,
            radix as int,
            0,
            max,
        );
    } else {
        let rest: nat = if width > 0 {
            (width - 1) as nat
        } else {
            0
        };
        let high = radix_text(n / radix, radix, rest, upper);
        let c = digit_char((n % radix) as int, upper);
        lemma_digits_read_back(front, n / radix, radix, rest, upper, max);
        lemma_digit((n % radix) as int, radix as int, upper);
        assert(front + text =~= (front + high).push(c));
        lemma_digits_push(front + high, c, front.len() as int, radix as int, 0, max);
        vstd::arithmetic::div_mod::lemma_fundamental_div_mod(n as int, radix as int);
        assert((n / radix) * radix + n % radix == n) by (nonlinear_arith)
            requires
                n == radix * (n / radix) + n % radix,
        ;
        assert(n >= n / radix);
    }
}

/// A number is written in digits only.
pub proof fn lemma_digits_only(n: nat, radix: nat, width: nat, upper: bool)
    requires
        2 <= radix <= 16,
    ensures
        radix_text(n, radix, width, upper).len() > 0,
        forall|i: int|
            0 <= i < radix_text(n, radix, width, upper).len() ==> {
                let c = #[trigger] radix_text(n, radix, width, upper)[i];
                &&& c != '+' && c != '-' && c != 'x' && c != 'X' && c != ':' && c != '#'
                &&& !crate::text::white(c)
                &&& digit_value(c, radix as int) is Some
            },
    decreases n, width,
{
    let text = radix_text(n, radix, width, upper);
    lemma_quotient_shrinks(n, radix);
    if n < radix && width <= 1 {
        lemma_digit(n as int, radix as int, upper);
    } else {
        let rest: nat = if width > 0 {
            (width - 1) as nat
        } else {
            0
        };
        let high = radix_text(n / radix, radix, rest, upper);
        lemma_digits_only(n / radix, radix, rest, upper);
        lemma_digit((n % radix) as int, radix as int, upper);
        assert forall|i: int| 0 <= i < text.len() implies {
            let c = #[trigger] text[i];
            &&& c != '+' && c != '-' && c != 'x' && c != 'X' && c != ':' && c != '#'
            &&& !crate::text::white(c)
            &&& digit_value(c, radix as int) is Some
        } by {
            if i < high.len() {
                assert(text[i] == high[i]);
            }
        }
    }
}

/// A number that is written in decimal, or in hexadecimal behind `0x`, in small letters or
/// capitals, reads back as itself, and is refused as too large where it has more than 32 bits.
pub proof fn law_written_number_reads_back(n: nat, width: nat)
    ensures
        hex_or_dec(dec_text(n)) == if n <= u32::MAX {
            Ok::<int, NumError>(n as int)
        } else {
            Err(NumError::Overflow)
        },
        hex_or_dec(hex_text(n, width)) == if n <= u32::MAX {
            Ok::<int, NumError>(n as int)
        } else {
            Err(NumError::Overflow)
        },
        hex_or_dec(seq!['0', 'X'] + radix_text(n, 16, width, true)) == if n <= u32::MAX {
            Ok::<int, NumError>(n as int)
        } else {
            Err(NumError::Overflow)
        },
        hex_or_dec(seq!['+'] + dec_text(n)) == if n <= u32::MAX {
            Ok::<int, NumError>(n as int)
        } else {
            Err(NumError::Overflow)
        },
{
    let max = u32::MAX as int;
    let dec = dec_text(n);
    let none = Seq::<char>::empty();
    lemma_digits_only(n, 10, 1, false);
    lemma_digits_read_back(none, n, 10, 1, false, max);
    assert(none + dec =~= dec);
    reveal_strlit("0x");
    assert("0x"@ =~= seq!['0', 'x']);
    let hex = hex_text(n, width);
    lemma_digits_only(n, 16, width, false);
    lemma_digits_read_back("0x"@, n, 16, width, false, max);
    assert(hex[0] == '0' && hex[1] == 'x' && hex[2] == radix_text(n, 16, width, false)[0]);
    let caps = seq!['0', 'X'] + radix_text(n, 16, width, true);
    lemma_digits_only(n, 16, width, true);
    lemma_digits_read_back(seq!['0', 'X'], n, 16, width, true, max);
    assert(caps[0] == '0' && caps[1] == 'X' && caps[2] == radix_text(n, 16, width, true)[0]);
    let plus = seq!['+'] + dec;
    lemma_digits_read_back(seq!['+'], n, 10, 1, false, max);
    assert(plus[0] == '+' && plus[1] == dec[0]);
}

proof fn lemma_digits_valid(s: Seq<char>, i: int, radix: int, acc: int, max: int, k: int)
    requires
        0 <= i <= k < s.len(),
        digits_from(s, i, radix, acc, max) is Ok,
    ensures
        digit_value(s[k], radix) is Some,
    decreases s.len() - i,
{
    if i < k {
        let d = digit_value(s[i], radix)->0;
        lemma_digits_valid(s, i + 1, radix, acc * radix + d, max, k);
    }
}

/// Nothing but digits makes a number: a text that is one has at least one digit, and holds, behind
/// an optional `0x` and an optional plus sign, decimal digits only, or hexadecimal ones behind the
/// `0x`.
pub proof fn law_only_digits_make_a_number(s: Seq<char>, k: int)
    requires
        hex_or_dec(s) is Ok,
    ensures
        s.len() > 0,
        ({
            let hex = s.len() >= 2 && s[0] == '0' && (s[1] == 'x' || s[1] == 'X');
            let from: int = if hex {
                2
            } else {
                0
            };
            let c = s[k];
            &&& s.len() > from
            &&& from <= k < s.len() && !(k == from && s[k] == '+') ==> 48 <= c as int <= 57 || hex
                && (97 <= c as int <= 102 || 65 <= c as int <= 70)
            &&& s[from] == '+' ==> s.len() > from + 1
        }),
{
    let hex = s.len() >= 2 && s[0] == '0' && (s[1] == 'x' || s[1] == 'X');
    let from: int = if hex {
        2
    } else {
        0
    };
    let radix: int = if hex {
        16
    } else {
        10
    };
    let start = if s[from] == '+' {
        from + 1
    } else {
        from
    };
    if start <= k < s.len() {
        lemma_digits_valid(s, start, radix, 0, u32::MAX as int, k);
    }
}

/// Of the written numbers, the clocks are 1, 2, 4, 8, 12, 16, 24 and 32; other numbers up to 255
/// are refused by name, and larger ones as no clock at all.
pub proof fn law_clock_reads_back(n: nat)
    ensures
        n == 1 || n == 2 || n == 4 || n == 8 || n == 12 || n == 16 || n == 24 || n == 32 ==> mhz_of(
            dec_text(n),
        ) == Ok::<u8, MhzError>(n as u8),
        n <= 255 && !(n == 1 || n == 2 || n == 4 || n == 8 || n == 12 || n == 16 || n == 24 || n
            == 32) ==> mhz_of(dec_text(n)) == Err::<u8, _>(MhzError::Unsupported(n as u8)),
        n > 255 ==> mhz_of(dec_text(n)) == Err::<u8, _>(MhzError::NotANumber),
{
    let none = Seq::<char>::empty();
    let dec = dec_text(n);
    lemma_digits_only(n, 10, 1, false);
    lemma_digits_read_back(none, n, 10, 1, false, 255);
    assert(none + dec =~= dec);
    let s = SpiSpeed::speeds();
    assert(s[0].0 == 1 && s[1].0 == 2 && s[2].0 == 4 && s[3].0 == 8 && s[4].0 == 12 && s[5].0 == 16
        && s[6].0 == 24 && s[7].0 == 32);
    assert(s[0] == SpiSpeed(1) && s[1] == SpiSpeed(2) && s[2] == SpiSpeed(4) && s[3] == SpiSpeed(8)
        && s[4] == SpiSpeed(12) && s[5] == SpiSpeed(16) && s[6] == SpiSpeed(24) && s[7] == SpiSpeed(
        32,
    ));
}

/// A voltage in tenths of a volt.
pub open spec fn tenths(v: Voltage) -> int {
    match v {
        Voltage::V1_8 => 18,
        Voltage::V3_3 => 33,
        Voltage::V5_0 => 50,
    }
}

/// A voltage may be written with its volts, a point and its tenths, or with `v` for the point, where
/// no tenths are written if there are none; whatever is read as a voltage begins with its volts and,
/// if it goes on behind the point, with its tenths.
pub proof fn law_voltage_reads_back(v: Voltage, s: Seq<char>)
    ensures
        ({
            let volts = digit_char(tenths(v) / 10, false);
            let rest = digit_char(tenths(v) % 10, false);
            let chosen = Some(VoltageChoice::Explicit(v));
            &&& voltage_of(seq![volts, '.', rest]) == chosen
            &&& tenths(v) % 10 != 0 ==> voltage_of(seq![volts, 'v', rest]) == chosen
            &&& tenths(v) % 10 == 0 ==> voltage_of(seq![volts, 'v']) == chosen
            &&& voltage_of(s) == chosen ==> s[0] == volts && (s.len() == 3 && s[2] == rest
                || s.len() == 2 && rest == '0')
        }),
        voltage_of(s) == Some(VoltageChoice::Auto) <==> s == "auto"@,
{
    reveal_strlit("auto");
    reveal_strlit("1v8");
    reveal_strlit("1.8");
    reveal_strlit("3v3");
    reveal_strlit("3.3");
    reveal_strlit("5v");
    reveal_strlit("5.0");
    let volts = digit_char(tenths(v) / 10, false);
    let rest = digit_char(tenths(v) % 10, false);
    let point = seq![volts, '.', rest];
    let letter = seq![volts, 'v', rest];
    let short = seq![volts, 'v'];
    match v {
        Voltage::V1_8 => {
            assert(point =~= "1.8"@);
            assert(letter =~= "1v8"@);
        },
        Voltage::V3_3 => {
            assert(point =~= "3.3"@);
            assert(letter =~= "3v3"@);
            assert(point[0] != "1v8"@[0] && point[0] != "1.8"@[0]);
        },
        Voltage::V5_0 => {
            assert(point =~= "5.0"@);
            assert(short =~= "5v"@);
            assert(point[0] != "1v8"@[0] && point[0] != "3v3"@[0]);
        },
    }
    assert(point[0] != "auto"@[0]);
}

} // verus!
