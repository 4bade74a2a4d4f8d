//! Casts between SQL values.
//!
//! A cast whose result is required treats malformed or out-of-range input as
//! a precondition; the variants with an optional result return `None` for an
//! absent input.
#![allow(non_snake_case)]

use crate::string::{chars_of, string_of};
use chrono::{Datelike, NaiveDate, NaiveDateTime, NaiveTime, Timelike};
use crate::values::{
    max_mantissa, pow10, ByteArray, Date, Decimal, LongInterval, ShortInterval, Time, Timestamp,
};
use vstd::prelude::*;

verus! {

/////////// booleans

/// A boolean as it is.
pub fn cast_to_b_b(value: bool) -> (r: bool)
    ensures
        r == value,
{
    value
}

/// A present boolean as it is.
pub fn cast_to_b_bN(value: Option<bool>) -> (r: bool)
    requires
        value is Some,
    ensures
        r == value->0,
{
    value.unwrap()
}

/// The null literal as an optional boolean.
pub fn cast_to_bN_nullN(_value: Option<()>) -> (r: Option<bool>)
    ensures
        r is None,
{
    None
}

/// A boolean as an optional boolean.
pub fn cast_to_bN_b(value: bool) -> (r: Option<bool>)
    ensures
        r == Some(value),
{
    Some(value)
}

/// An optional boolean as it is.
pub fn cast_to_bN_bN(value: Option<bool>) -> (r: Option<bool>)
    ensures
        r == value,
{
    value
}

/// Whether a code point has the Unicode `White_Space` property, which is
/// what `char::is_whitespace` tests.
pub open spec fn is_whitespace_code(u: u32) -> bool {
    (0x09 <= u <= 0x0D) || u == 0x20 || u == 0x85 || u == 0xA0 || u == 0x1680 || (0x2000 <= u
        <= 0x200A) || u == 0x2028 || u == 0x2029 || u == 0x202F || u == 0x205F || u == 0x3000
}

/// Whether a character is white space.
pub open spec fn is_whitespace_of(c: char) -> bool {
    is_whitespace_code(c as u32)
}

/// Whether a character is white space.
pub(crate) fn whitespace(c: char) -> (r: bool)
    ensures
        r == is_whitespace_of(c),
{
    let u = c as u32;
    (0x09 <= u && u <= 0x0D) || u == 0x20 || u == 0x85 || u == 0xA0 || u == 0x1680 || (0x2000 <= u
        && u <= 0x200A) || u == 0x2028 || u == 0x2029 || u == 0x202F || u == 0x205F || u == 0x3000
}

/// The text without its trailing white space.
pub open spec fn trim_ws_end(s: Seq<char>) -> Seq<char>
    decreases s.len(),
{
    if s.len() > 0 && is_whitespace_of(s.last()) {
        trim_ws_end(s.drop_last())
    } else {
        s
    }
}

/// The text without its leading and trailing white space.
pub open spec fn trim_ws(s: Seq<char>) -> Seq<char>
    decreases s.len(),
{
    if s.len() > 0 && is_whitespace_of(s[0]) {
        trim_ws(s.subrange(1, s.len() as int))
    } else {
        trim_ws_end(s)
    }
}

/// Length of `s` once its trailing white space is dropped.
fn trimmed_end(s: &Vec<char>, lo: usize) -> (r: usize)
    requires
        lo <= s@.len(),
    ensures
        lo <= r <= s@.len(),
        trim_ws_end(s@.subrange(lo as int, s@.len() as int)) == s@.subrange(lo as int, r as int),
{
    let mut j: usize = s.len();
    assert(s@.subrange(lo as int, j as int) =~= s@.subrange(lo as int, s@.len() as int));
    while j > lo && whitespace(s[j - 1])
        invariant
            lo <= j <= s@.len(),
            trim_ws_end(s@.subrange(lo as int, s@.len() as int)) == trim_ws_end(
                s@.subrange(lo as int, j as int),
            ),
        decreases j,
    {
        assert(s@.subrange(lo as int, j as int).drop_last() =~= s@.subrange(lo as int, j - 1));
        j = j - 1;
    }
    j
}

/// Offset of the first character of `s` that is not white space.
fn trimmed_start(s: &Vec<char>) -> (r: usize)
    ensures
        r <= s@.len(),
        trim_ws(s@) == trim_ws_end(s@.subrange(r as int, s@.len() as int)),
{
    let mut i: usize = 0;
    assert(s@.subrange(0, s@.len() as int) =~= s@);
    while i < s.len() && whitespace(s[i])
        invariant
            i <= s@.len(),
            trim_ws(s@) == trim_ws(s@.subrange(i as int, s@.len() as int)),
        decreases s@.len() - i,
    {
        assert(s@.subrange(i as int, s@.len() as int).subrange(1, s@.len() - i) =~= s@.subrange(
            i + 1,
            s@.len() as int,
        ));
        i = i + 1;
    }
    i
}

/// The characters of `s` from `a` to `b`.
fn char_range(s: &Vec<char>, a: usize, b: usize) -> (r: Vec<char>)
    requires
        a <= b <= s@.len(),
    ensures
        r@ == s@.subrange(a as int, b as int),
{
    let mut out: Vec<char> = Vec::new();
    let mut i: usize = a;
    while i < b
        invariant
            a <= i <= b <= s@.len(),
            out@ == s@.subrange(a as int, i as int),
        decreases b - i,
    {
        out.push(s[i]);
        i = i + 1;
        assert(out@ =~= s@.subrange(a as int, i as int));
    }
    out
}

/// A text parsed as a boolean: `true` exactly when, once trimmed, it is
/// `true`; anything else is false.
pub fn cast_to_b_s(value: String) -> (r: bool)
    ensures
        r == (trim_ws(value@) == "true"@),
{
    let cs = chars_of(value.as_str());
    let a = trimmed_start(&cs);
    let b = trimmed_end(&cs, a);
    let t = string_of(&char_range(&cs, a, b));
    crate::string::same_text(t.as_str(), "true")
}

/// `cast_to_b_s` of a present text.
pub fn cast_to_b_sN(value: Option<String>) -> (r: bool)
    requires
        value is Some,
    ensures
        r == (trim_ws(value->0@) == "true"@),
{
    cast_to_b_s(value.unwrap())
}

/////////// dates, times and timestamps

/// The day of a timestamp.
pub fn cast_to_Date_Timestamp(value: Timestamp) -> (r: Date)
    requires
        i32::MIN <= value.milliseconds as int / 86_400_000 <= i32::MAX,
    ensures
        r.days == value.milliseconds as int / 86_400_000,
{
    let ms = value.milliseconds;
    let q = ms / 86_400_000;
    let rem = ms % 86_400_000;
    let days = if rem < 0 {
        q - 1
    } else {
        q
    };
    assert(days == value.milliseconds as int / 86_400_000) by (nonlinear_arith)
        requires
            ms == q * 86_400_000 + rem,
            -86_400_000 < rem < 86_400_000,
            (rem >= 0) == (ms >= 0) || rem == 0,
            (rem < 0 && days == q - 1) || (rem >= 0 && days == q),
            ms == value.milliseconds,
    ;
    Date { days: days as i32 }
}

/// The null literal as an optional date.
pub fn cast_to_DateN_nullN(_value: Option<()>) -> (r: Option<Date>)
    ensures
        r is None,
{
    None
}

/// A date as it is.
pub fn cast_to_Date_Date(value: Date) -> (r: Date)
    ensures
        r == value,
{
    value
}

/// The null literal as an optional time.
pub fn cast_to_TimeN_nullN(_value: Option<()>) -> (r: Option<Time>)
    ensures
        r is None,
{
    None
}

/// A time as it is.
pub fn cast_to_Time_Time(value: Time) -> (r: Time)
    ensures
        r == value,
{
    value
}

/// The time of day of a timestamp.
pub fn cast_to_Time_Timestamp(value: Timestamp) -> (r: Time)
    ensures
        r.nanoseconds == (value.milliseconds as int % 86_400_000) * 1_000_000,
{
    let ms = value.milliseconds;
    let q = ms / 86_400_000;
    let rem = ms % 86_400_000;
    let m = if rem < 0 {
        rem + 86_400_000
    } else {
        rem
    };
    assert(m == value.milliseconds as int % 86_400_000) by (nonlinear_arith)
        requires
            ms == q * 86_400_000 + rem,
            -86_400_000 < rem < 86_400_000,
            (rem >= 0) == (ms >= 0) || rem == 0,
            (rem < 0 && m == rem + 86_400_000) || (rem >= 0 && m == rem),
            ms == value.milliseconds,
    ;
    Time { nanoseconds: (m as u64) * 1_000_000 }
}

/// The start of a day as a timestamp.
pub fn cast_to_Timestamp_Date(value: Date) -> (r: Timestamp)
    ensures
        r.milliseconds == value.days * 86_400_000,
{
    Timestamp { milliseconds: value.days as i64 * 86_400_000 }
}

/// The null literal as an optional timestamp.
pub fn cast_to_TimestampN_nullN(_value: Option<()>) -> (r: Option<Timestamp>)
    ensures
        r is None,
{
    None
}

/// A timestamp as it is.
pub fn cast_to_Timestamp_Timestamp(value: Timestamp) -> (r: Timestamp)
    ensures
        r == value,
{
    value
}

/////////// intervals and integers

/// A weight as a 64-bit integer.
pub fn cast_to_i64_Weight(w: i64) -> (r: i64)
    ensures
        r == w,
{
    w
}

/// The milliseconds of a day-time interval.
pub fn cast_to_i64_ShortInterval(value: ShortInterval) -> (r: i64)
    ensures
        r == value.milliseconds,
{
    value.milliseconds
}

/// `cast_to_i64_ShortInterval` of an optional interval.
pub fn cast_to_i64N_ShortIntervalN(value: Option<ShortInterval>) -> (r: Option<i64>)
    ensures
        r == match value {
            None => None,
            Some(v) => Some(v.milliseconds),
        },
{
    match value {
        None => None,
        Some(v) => Some(cast_to_i64_ShortInterval(v)),
    }
}

/// The months of a year-month interval.
pub fn cast_to_i64_LongInterval(value: LongInterval) -> (r: i64)
    ensures
        r == value.months,
{
    value.months as i64
}

/// `cast_to_i64_LongInterval` of an optional interval.
pub fn cast_to_i64N_LongIntervalN(value: Option<LongInterval>) -> (r: Option<i64>)
    ensures
        r == match value {
            None => None,
            Some(v) => Some(v.months as i64),
        },
{
    match value {
        None => None,
        Some(v) => Some(cast_to_i64_LongInterval(v)),
    }
}

/// A number of milliseconds as a day-time interval.
pub fn cast_to_ShortInterval_i8(value: i8) -> (r: ShortInterval)
    ensures
        r.milliseconds == value,
{
    ShortInterval { milliseconds: value as i64 }
}

/// A number of milliseconds as a day-time interval.
pub fn cast_to_ShortInterval_i16(value: i16) -> (r: ShortInterval)
    ensures
        r.milliseconds == value,
{
    ShortInterval { milliseconds: value as i64 }
}

/// A number of milliseconds as a day-time interval.
pub fn cast_to_ShortInterval_i32(value: i32) -> (r: ShortInterval)
    ensures
        r.milliseconds == value,
{
    ShortInterval { milliseconds: value as i64 }
}

/// A number of milliseconds as a day-time interval.
pub fn cast_to_ShortInterval_i64(value: i64) -> (r: ShortInterval)
    ensures
        r.milliseconds == value,
{
    ShortInterval { milliseconds: value }
}

/// The null literal as an optional day-time interval.
pub fn cast_to_ShortIntervalN_nullN(_value: Option<()>) -> (r: Option<ShortInterval>)
    ensures
        r is None,
{
    None
}

/// A non-negative integer as a size.
pub fn cast_to_u_i32(value: i32) -> (r: usize)
    requires
        value >= 0,
    ensures
        r == value,
{
    value as usize
}

/// A non-negative integer as a size.
pub fn cast_to_u_i64(value: i64) -> (r: usize)
    requires
        0 <= value <= usize::MAX,
    ensures
        r == value,
{
    value as usize
}

/// An integer as a pointer-sized integer.
pub fn cast_to_i_i32(value: i32) -> (r: isize)
    ensures
        r == value,
{
    value as isize
}

/// An integer as a pointer-sized integer.
pub fn cast_to_i_i64(value: i64) -> (r: isize)
    requires
        isize::MIN <= value <= isize::MAX,
    ensures
        r == value,
{
    value as isize
}

/////////// binary strings

/// The null literal as an optional binary string.
pub fn cast_to_bytesN_nullN(_value: Option<()>) -> (r: Option<ByteArray>)
    ensures
        r is None,
{
    None
}

/// A binary string as it is.
pub fn cast_to_bytes_bytes(value: ByteArray) -> (r: ByteArray)
    ensures
        r == value,
{
    value
}

/// A present binary string as it is.
pub fn cast_to_bytes_bytesN(value: Option<ByteArray>) -> (r: ByteArray)
    requires
        value is Some,
    ensures
        r == value->0,
{
    value.unwrap()
}

/// A binary string as an optional one.
pub fn cast_to_bytesN_bytes(value: ByteArray) -> (r: Option<ByteArray>)
    ensures
        r == Some(value),
{
    Some(value)
}

/////////// decimals

/// Number of decimal digits of `n`; 0 has none.
pub open spec fn num_digits(n: nat) -> nat
    decreases n,
{
    if n == 0 {
        0
    } else {
        1 + num_digits(n / 10)
    }
}

/// `a` divided by `b`, rounded toward zero.
pub open spec fn div_toward_zero(a: int, b: nat) -> int {
    if a >= 0 {
        a / (b as int)
    } else {
        -((-a) / (b as int))
    }
}

/// `value` rounded toward zero to at most `scale` fractional digits.
pub open spec fn rounded(value: Decimal, scale: nat) -> Decimal {
    if value.scale <= scale {
        value
    } else {
        Decimal {
            mantissa: div_toward_zero(value.mantissa as int, pow10((value.scale - scale) as nat)) as i128,
            scale: scale as u32,
        }
    }
}

/// Number of digits of the integer part of a decimal.
pub open spec fn int_digits(d: Decimal) -> nat {
    num_digits((if d.mantissa >= 0 {
        d.mantissa as int
    } else {
        -d.mantissa
    }) as nat / pow10(d.scale as nat))
}

/// Whether `value`, rounded toward zero to `scale` fractional digits, has an
/// integer part that fits in `precision - scale` digits.
pub open spec fn fits_decimal(value: Decimal, precision: nat, scale: nat) -> bool {
    precision >= scale && int_digits(rounded(value, scale)) <= precision - scale
}

proof fn lemma_pow10_positive(n: nat)
    ensures
        pow10(n) >= 1,
    decreases n,
{
    if n > 0 {
        lemma_pow10_positive((n - 1) as nat);
    }
}

proof fn lemma_pow10_grows(a: nat, b: nat)
    requires
        a <= b,
    ensures
        1 <= pow10(a) <= pow10(b),
    decreases b,
{
    lemma_pow10_positive(a);
    if a < b {
        lemma_pow10_grows(a, (b - 1) as nat);
    }
}

proof fn lemma_digits_at_most(n: nat)
    ensures
        num_digits(n) <= n,
    decreases n,
{
    if n > 0 {
        lemma_digits_at_most(n / 10);
    }
}

/// 10 to the power `n`, for `n` up to 28.
fn pow10_exec(n: u32) -> (r: i128)
    requires
        n <= 28,
    ensures
        r == pow10(n as nat),
{
    proof {
        reveal_with_fuel(pow10, 29);
        lemma_pow10_grows(n as nat, 28);
        assert(pow10(28) == 10000000000000000000000000000);
    }
    let mut r: i128 = 1;
    let mut i: u32 = 0;
    while i < n
        invariant
            i <= n <= 28,
            r == pow10(i as nat),
            pow10(n as nat) <= 10000000000000000000000000000,
        decreases n - i,
    {
        proof {
            lemma_pow10_grows((i + 1) as nat, n as nat);
        }
        r = r * 10;
        i = i + 1;
    }
    r
}

/// Number of decimal digits of `n`.
fn count_digits(n: u128) -> (r: u128)
    ensures
        r == num_digits(n as nat),
{
    let mut m = n;
    let mut d: u128 = 0;
    proof {
        lemma_digits_at_most(n as nat);
    }
    while m > 0
        invariant
            d + num_digits(m as nat) == num_digits(n as nat),
            num_digits(n as nat) <= n,
        decreases m,
    {
        assert(num_digits(m as nat) == 1 + num_digits((m / 10) as nat));
        m = m / 10;
        d = d + 1;
    }
    d
}

proof fn lemma_digits_bound(n: nat, k: nat)
    requires
        n < pow10(k),
    ensures
        num_digits(n) <= k,
    decreases k,
{
    if k > 0 && n > 0 {
        assert(n / 10 < pow10((k - 1) as nat)) by (nonlinear_arith)
            requires
                n < pow10(k),
                pow10(k) == 10 * pow10((k - 1) as nat),
        ;
        lemma_digits_bound(n / 10, (k - 1) as nat);
    } else if k == 0 {
        assert(n == 0);
    }
}

/// `value` rounded toward zero to at most `scale` fractional digits.
fn round_toward_zero(value: Decimal, scale: u32) -> (r: Decimal)
    requires
        value.wf(),
    ensures
        r == rounded(value, scale as nat),
        r.wf(),
{
    if value.scale <= scale {
        return value;
    }
    let p = pow10_exec(value.scale - scale);
    proof {
        lemma_pow10_grows(0, (value.scale - scale) as nat);
    }
    let m = value.mantissa;
    let q: i128 = if m >= 0 {
        m / p
    } else {
        -((-m) / p)
    };
    proof {
        let a: int = if m >= 0 { m as int } else { -m };
        assert(a / (p as int) <= a) by (nonlinear_arith)
            requires
                a >= 0,
                p >= 1,
        ;
    }
    Decimal { mantissa: q, scale }
}

/// Whether a cast of `value` to `DECIMAL(precision, scale)` is defined.
pub fn decimal_fits(value: Decimal, precision: u32, scale: u32) -> (r: bool)
    requires
        value.wf(),
    ensures
        r == fits_decimal(value, precision as nat, scale as nat),
{
    if precision < scale {
        return false;
    }
    let d = round_toward_zero(value, scale);
    let a: u128 = if d.mantissa >= 0 {
        d.mantissa as u128
    } else {
        (-d.mantissa) as u128
    };
    let p = pow10_exec(d.scale);
    proof {
        lemma_pow10_grows(0, d.scale as nat);
    }
    let int_part = a / (p as u128);
    count_digits(int_part) <= (precision - scale) as u128
}

/// A decimal cast to `DECIMAL(precision, scale)`: rounded toward zero to
/// `scale` fractional digits; the integer part must fit in
/// `precision - scale` digits.
pub fn cast_to_decimal_decimal(value: Decimal, precision: u32, scale: u32) -> (r: Decimal)
    requires
        value.wf(),
        fits_decimal(value, precision as nat, scale as nat),
    ensures
        r == rounded(value, scale as nat),
        r.wf(),
{
    round_toward_zero(value, scale)
}

/// `cast_to_decimal_decimal`, or `None` where the integer part does not fit.
pub fn try_cast_to_decimal_decimal(value: Decimal, precision: u32, scale: u32) -> (r: Option<
    Decimal,
>)
    requires
        value.wf(),
    ensures
        fits_decimal(value, precision as nat, scale as nat) ==> r == Some(
            rounded(value, scale as nat),
        ),
        !fits_decimal(value, precision as nat, scale as nat) ==> r is None,
{
    if decimal_fits(value, precision, scale) {
        Some(cast_to_decimal_decimal(value, precision, scale))
    } else {
        None
    }
}

/// `cast_to_decimal_decimal` of a present decimal.
pub fn cast_to_decimal_decimalN(value: Option<Decimal>, precision: u32, scale: u32) -> (r: Decimal)
    requires
        value matches Some(v) && v.wf() && fits_decimal(v, precision as nat, scale as nat),
    ensures
        r == rounded(value->0, scale as nat),
{
    cast_to_decimal_decimal(value.unwrap(), precision, scale)
}

/// `cast_to_decimal_decimal` as an optional decimal.
pub fn cast_to_decimalN_decimal(value: Decimal, precision: u32, scale: u32) -> (r: Option<Decimal>)
    requires
        value.wf(),
        fits_decimal(value, precision as nat, scale as nat),
    ensures
        r == Some(rounded(value, scale as nat)),
{
    Some(cast_to_decimal_decimal(value, precision, scale))
}

/// `cast_to_decimal_decimal` of an optional decimal.
pub fn cast_to_decimalN_decimalN(value: Option<Decimal>, precision: u32, scale: u32) -> (r: Option<
    Decimal,
>)
    requires
        value matches Some(v) ==> v.wf() && fits_decimal(v, precision as nat, scale as nat),
    ensures
        r == match value {
            None => None,
            Some(v) => Some(rounded(v, scale as nat)),
        },
{
    match value {
        None => None,
        Some(v) => Some(cast_to_decimal_decimal(v, precision, scale)),
    }
}

/// A boolean as `DECIMAL(precision, scale)`: 1 or 0.
pub fn cast_to_decimal_b(value: bool, precision: u32, scale: u32) -> (r: Decimal)
    requires
        precision >= scale,
        value ==> precision > scale,
    ensures
        r.mantissa == (if value {
            1int
        } else {
            0int
        }),
        r.scale == 0,
{
    let d = Decimal { mantissa: if value { 1 } else { 0 }, scale: 0 };
    proof {
        reveal_with_fuel(num_digits, 2);
        assert(pow10(0) == 1);
    }
    cast_to_decimal_decimal(d, precision, scale)
}

/////////// text

/// The first `size` characters of the text, or all of it if it is shorter.
pub open spec fn truncated(s: Seq<char>, size: int) -> Seq<char> {
    if s.len() <= size {
        s
    } else {
        s.subrange(0, size)
    }
}

/// `n` spaces.
pub open spec fn spaces(n: nat) -> Seq<char> {
    Seq::new(n, |i: int| ' ')
}

/// CHAR(size) semantics: padded with spaces or truncated to exactly `size`
/// characters; a negative size only drops trailing white space.
pub open spec fn sized(s: Seq<char>, size: int) -> Seq<char> {
    if size < 0 {
        trim_ws_end(s)
    } else if s.len() >= size {
        s.subrange(0, size)
    } else {
        s + spaces((size - s.len()) as nat)
    }
}

/// VARCHAR(size) semantics: truncated when longer than `size`; a negative
/// size only drops trailing white space.
pub open spec fn limited(s: Seq<char>, size: int) -> Seq<char> {
    if size < 0 {
        trim_ws_end(s)
    } else {
        truncated(s, size)
    }
}

/// The first `size` characters of `value`.
pub fn truncate(value: String, size: usize) -> (r: String)
    ensures
        r@ == truncated(value@, size as int),
{
    let cs = chars_of(value.as_str());
    if cs.len() <= size {
        return value;
    }
    string_of(&char_range(&cs, 0, size))
}

/// `value` without its trailing white space.
fn trim_end_text(value: &String) -> (r: String)
    ensures
        r@ == trim_ws_end(value@),
{
    let cs = chars_of(value.as_str());
    let b = trimmed_end(&cs, 0);
    assert(cs@.subrange(0, cs@.len() as int) =~= cs@);
    string_of(&char_range(&cs, 0, b))
}

/// `value` with exactly `size` characters (CHAR semantics).
pub fn size_string(value: String, size: i32) -> (r: String)
    ensures
        r@ == sized(value@, size as int),
{
    if size < 0 {
        return trim_end_text(&value);
    }
    let sz = size as usize;
    let mut cs = chars_of(value.as_str());
    if cs.len() >= sz {
        string_of(&char_range(&cs, 0, sz))
    } else {
        let ghost c0 = cs@;
        while cs.len() < sz
            invariant
                c0.len() <= cs@.len() <= sz,
                cs@ == c0 + spaces((cs@.len() - c0.len()) as nat),
            decreases sz - cs@.len(),
        {
            cs.push(' ');
            assert(cs@ =~= c0 + spaces((cs@.len() - c0.len()) as nat));
        }
        string_of(&cs)
    }
}

/// `value` with at most `size` characters (VARCHAR semantics).
pub fn limit_string(value: String, size: i32) -> (r: String)
    ensures
        r@ == limited(value@, size as int),
{
    if size < 0 {
        trim_end_text(&value)
    } else {
        truncate(value, size as usize)
    }
}

/// CHAR semantics when `fixed`, VARCHAR semantics otherwise.
pub fn limit_or_size_string(value: String, size: i32, fixed: bool) -> (r: String)
    ensures
        r@ == if fixed {
            sized(value@, size as int)
        } else {
            limited(value@, size as int)
        },
{
    if fixed {
        size_string(value, size)
    } else {
        limit_string(value, size)
    }
}

/// The character of a decimal digit.
pub open spec fn digit_char(d: nat) -> char {
    if d == 0 {
        '0'
    } else if d == 1 {
        '1'
    } else if d == 2 {
        '2'
    } else if d == 3 {
        '3'
    } else if d == 4 {
        '4'
    } else if d == 5 {
        '5'
    } else if d == 6 {
        '6'
    } else if d == 7 {
        '7'
    } else if d == 8 {
        '8'
    } else {
        '9'
    }
}

/// The decimal digits of `n`, most significant first.
pub open spec fn digits_text(n: nat) -> Seq<char>
    decreases n,
{
    if n < 10 {
        seq![digit_char(n)]
    } else {
        digits_text(n / 10).push(digit_char(n % 10))
    }
}

/// The decimal text of an integer, with a leading `-` when negative.
pub open spec fn decimal_text(v: int) -> Seq<char> {
    if v < 0 {
        seq!['-'] + digits_text((-v) as nat)
    } else {
        digits_text(v as nat)
    }
}

fn digit(d: u128) -> (c: char)
    requires
        d < 10,
    ensures
        c == digit_char(d as nat),
{
    if d == 0 {
        '0'
    } else if d == 1 {
        '1'
    } else if d == 2 {
        '2'
    } else if d == 3 {
        '3'
    } else if d == 4 {
        '4'
    } else if d == 5 {
        '5'
    } else if d == 6 {
        '6'
    } else if d == 7 {
        '7'
    } else if d == 8 {
        '8'
    } else {
        '9'
    }
}

/// Appends the decimal digits of `n` to `out`.
fn push_digits(n: u128, out: &mut Vec<char>)
    ensures
        final(out)@ == old(out)@ + digits_text(n as nat),
    decreases n,
{
    if n >= 10 {
        push_digits(n / 10, out);
    }
    out.push(digit(n % 10));
    assert(out@ =~= old(out)@ + digits_text(n as nat));
}

/// The decimal text of an integer.
pub(crate) fn int_text(v: i128) -> (r: String)
    requires
        v > i128::MIN,
    ensures
        r@ == decimal_text(v as int),
{
    let mut out: Vec<char> = Vec::new();
    if v < 0 {
        out.push('-');
        push_digits((-v) as u128, &mut out);
    } else {
        push_digits(v as u128, &mut out);
    }
    string_of(&out)
}

/// The text of a boolean.
pub open spec fn bool_text(b: bool) -> Seq<char> {
    if b {
        "true"@
    } else {
        "false"@
    }
}

/// A boolean as text of the given size.
pub fn cast_to_s_b(value: bool, size: i32, fixed: bool) -> (r: String)
    ensures
        r@ == if fixed {
            sized(bool_text(value), size as int)
        } else {
            limited(bool_text(value), size as int)
        },
{
    let t = if value {
        "true".to_string()
    } else {
        "false".to_string()
    };
    limit_or_size_string(t, size, fixed)
}

/// A text as text of the given size.
pub fn cast_to_s_s(value: String, size: i32, fixed: bool) -> (r: String)
    ensures
        r@ == if fixed {
            sized(value@, size as int)
        } else {
            limited(value@, size as int)
        },
{
    limit_or_size_string(value, size, fixed)
}

/// An integer as text of the given size.
pub fn cast_to_s_i(value: isize, size: i32, fixed: bool) -> (r: String)
    ensures
        r@ == if fixed {
            sized(decimal_text(value as int), size as int)
        } else {
            limited(decimal_text(value as int), size as int)
        },
{
    limit_or_size_string(int_text(value as i128), size, fixed)
}

/// An integer as text of the given size.
pub fn cast_to_s_i8(value: i8, size: i32, fixed: bool) -> (r: String)
    ensures
        r@ == if fixed {
            sized(decimal_text(value as int), size as int)
        } else {
            limited(decimal_text(value as int), size as int)
        },
{
    limit_or_size_string(int_text(value as i128), size, fixed)
}

/// An integer as text of the given size.
pub fn cast_to_s_i16(value: i16, size: i32, fixed: bool) -> (r: String)
    ensures
        r@ == if fixed {
            sized(decimal_text(value as int), size as int)
        } else {
            limited(decimal_text(value as int), size as int)
        },
{
    limit_or_size_string(int_text(value as i128), size, fixed)
}

/// An integer as text of the given size.
pub fn cast_to_s_i32(value: i32, size: i32, fixed: bool) -> (r: String)
    ensures
        r@ == if fixed {
            sized(decimal_text(value as int), size as int)
        } else {
            limited(decimal_text(value as int), size as int)
        },
{
    limit_or_size_string(int_text(value as i128), size, fixed)
}

/// An integer as text of the given size.
pub fn cast_to_s_i64(value: i64, size: i32, fixed: bool) -> (r: String)
    ensures
        r@ == if fixed {
            sized(decimal_text(value as int), size as int)
        } else {
            limited(decimal_text(value as int), size as int)
        },
{
    limit_or_size_string(int_text(value as i128), size, fixed)
}

/// A size as text of the given size.
pub fn cast_to_s_u(value: usize, size: i32, fixed: bool) -> (r: String)
    ensures
        r@ == if fixed {
            sized(decimal_text(value as int), size as int)
        } else {
            limited(decimal_text(value as int), size as int)
        },
{
    limit_or_size_string(int_text(value as i128), size, fixed)
}

/// The null literal as optional text.
pub fn cast_to_sN_nullN(_value: Option<()>, _size: i32, _fixed: bool) -> (r: Option<String>)
    ensures
        r is None,
{
    None
}

/// `cast_to_decimal_b` of a present boolean.
pub fn cast_to_decimal_bN(value: Option<bool>, precision: u32, scale: u32) -> (r: Decimal)
    requires
        value is Some,
        precision >= scale,
        value->0 ==> precision > scale,
    ensures
        r.mantissa == (if value->0 {
            1int
        } else {
            0int
        }),
        r.scale == 0,
{
    cast_to_decimal_b(value.unwrap(), precision, scale)
}

/// `cast_to_decimal_b` as an optional decimal.
pub fn cast_to_decimalN_b(value: bool, precision: u32, scale: u32) -> (r: Option<Decimal>)
    requires
        precision >= scale,
        value ==> precision > scale,
    ensures
        r matches Some(d) && d.scale == 0 && d.mantissa == (if value {
            1int
        } else {
            0int
        }),
{
    Some(cast_to_decimal_b(value, precision, scale))
}

/// `cast_to_decimal_b` of an optional boolean.
pub fn cast_to_decimalN_bN(value: Option<bool>, precision: u32, scale: u32) -> (r: Option<Decimal>)
    requires
        precision >= scale,
        value == Some(true) ==> precision > scale,
    ensures
        value is None ==> r is None,
        value matches Some(b) ==> r matches Some(d) && d.scale == 0 && d.mantissa == (if b {
            1int
        } else {
            0int
        }),
{
    match value {
        None => None,
        Some(b) => Some(cast_to_decimal_b(b, precision, scale)),
    }
}

/// The null literal as an optional decimal.
pub fn cast_to_decimalN_nullN(_value: Option<()>, _precision: u32, _scale: u32) -> (r: Option<Decimal>)
    ensures
        r is None,
{
    None
}

/////////// dates and times as text, and text as dates and times

/// Year, month and day of the day `days` after 1970-01-01, in the proleptic
/// Gregorian calendar: counted in 400-year eras of 146,097 days from
/// 0000-03-01, with years starting in March so that the leap day comes last.
pub open spec fn civil_of(days: int) -> (int, int, int) {
    let z = days + 719_468;
    let era = z / 146_097;
    let doe = z - era * 146_097;
    let yoe = (doe - doe / 1460 + doe / 36_524 - doe / 146_096) / 365;
    let doy = doe - (365 * yoe + yoe / 4 - yoe / 100);
    let mp = (5 * doy + 2) / 153;
    let d = doy - (153 * mp + 2) / 5 + 1;
    let m = if mp < 10 {
        mp + 3
    } else {
        mp - 9
    };
    let y = yoe + era * 400 + if m <= 2 {
        1int
    } else {
        0int
    };
    (y, m, d)
}

/// What reading a text as a date `YYYY-MM-DD` gives: the days after
/// 1970-01-01, or `None` when the text is not such a date.
pub uninterp spec fn date_text_parse(s: Seq<char>) -> Option<int>;

/// What reading a text as a time `HH:MM:SS[.fraction]` gives: the seconds
/// after midnight and the nanoseconds, or `None` when the text is not such a
/// time.
pub uninterp spec fn time_text_parse(s: Seq<char>) -> Option<(int, int)>;

/// What reading a text as a date and time `YYYY-MM-DD HH:MM:SS[.fraction]`
/// gives: the seconds after 1970-01-01 00:00:00 and the nanoseconds, or
/// `None` when the text is not such a date and time.
pub uninterp spec fn datetime_text_parse(s: Seq<char>) -> Option<(int, int)>;

/// Relies on chrono's `NaiveDate::from_epoch_days` and its `year`, `month`
/// and `day`: defined for every day within about 262,000 years of 1970.
#[verifier::external_body]
fn calendar_date(days: i32) -> (r: Option<(i32, u32, u32)>)
    ensures
        r matches Some(t) ==> (t.0 as int, t.1 as int, t.2 as int) == civil_of(days as int) && 1
            <= t.1 <= 12 && 1 <= t.2 <= 31,
        -90_000_000 <= days <= 90_000_000 ==> r is Some,
{
    NaiveDate::from_epoch_days(days).map(|d| (d.year(), d.month(), d.day()))
}

/// Relies on chrono's `NaiveDate::parse_from_str` with `%Y-%m-%d`, and
/// `NaiveDate::to_epoch_days`.
#[verifier::external_body]
fn parse_date_text(s: &str) -> (r: Option<i32>)
    ensures
        r is Some <==> date_text_parse(s@) is Some,
        r matches Some(d) ==> date_text_parse(s@) == Some(d as int),
{
    NaiveDate::parse_from_str(s, "%Y-%m-%d").ok().map(|d| d.to_epoch_days())
}

/// Relies on chrono's `NaiveTime::parse_from_str` with `%H:%M:%S%.f`, and
/// `num_seconds_from_midnight` and `nanosecond` (which exceeds a second only
/// within a leap second).
#[verifier::external_body]
fn parse_time_text(s: &str) -> (r: Option<(u32, u32)>)
    ensures
        r is Some <==> time_text_parse(s@) is Some,
        r matches Some(t) ==> time_text_parse(s@) == Some((t.0 as int, t.1 as int)) && t.0
            < 86_400 && t.1 < 2_000_000_000,
{
    NaiveTime::parse_from_str(s, "%H:%M:%S%.f").ok().map(
        |t| (t.num_seconds_from_midnight(), t.nanosecond()),
    )
}

/// Relies on chrono's `NaiveDateTime::parse_from_str` with
/// `%Y-%m-%d %H:%M:%S%.f`, read as UTC by `timestamp` and
/// `timestamp_subsec_nanos`.
#[verifier::external_body]
fn parse_datetime_text(s: &str) -> (r: Option<(i64, u32)>)
    ensures
        r is Some <==> datetime_text_parse(s@) is Some,
        r matches Some(t) ==> datetime_text_parse(s@) == Some((t.0 as int, t.1 as int)) && t.1
            < 2_000_000_000,
{
    NaiveDateTime::parse_from_str(s, "%Y-%m-%d %H:%M:%S%.f").ok().map(
        |dt| (dt.and_utc().timestamp(), dt.and_utc().timestamp_subsec_nanos()),
    )
}

/// A number of at least two digits, zero-padded.
pub open spec fn two_digits(n: nat) -> Seq<char> {
    if n < 10 {
        seq!['0'] + digits_text(n)
    } else {
        digits_text(n)
    }
}

/// `YYYY-MM-DD` of a year, month and day.
pub open spec fn date_text(t: (int, int, int)) -> Seq<char> {
    decimal_text(t.0) + seq!['-'] + two_digits(t.1 as nat) + seq!['-'] + two_digits(t.2 as nat)
}

/// `HH:MM:SS` of a number of seconds after midnight.
pub open spec fn time_text(secs: nat) -> Seq<char> {
    two_digits(secs / 3600) + seq![':'] + two_digits((secs / 60) % 60) + seq![':'] + two_digits(
        secs % 60,
    )
}

fn push_two_digits(n: u32, out: &mut Vec<char>)
    ensures
        final(out)@ == old(out)@ + two_digits(n as nat),
{
    if n < 10 {
        out.push('0');
    }
    push_digits(n as u128, out);
    assert(out@ =~= old(out)@ + two_digits(n as nat));
}

fn push_time(secs: u64, out: &mut Vec<char>)
    requires
        secs < 86_400,
    ensures
        final(out)@ == old(out)@ + time_text(secs as nat),
{
    push_two_digits((secs / 3600) as u32, out);
    out.push(':');
    push_two_digits(((secs / 60) % 60) as u32, out);
    out.push(':');
    push_two_digits((secs % 60) as u32, out);
    assert(out@ =~= old(out)@ + time_text(secs as nat));
}

fn push_date(days: i32, out: &mut Vec<char>)
    requires
        -90_000_000 <= days <= 90_000_000,
    ensures
        final(out)@ == old(out)@ + date_text(civil_of(days as int)),
{
    let (y, m, d) = calendar_date(days).unwrap();
    if y < 0 {
        out.push('-');
        push_digits((-(y as i128)) as u128, out);
    } else {
        push_digits(y as u128, out);
    }
    out.push('-');
    push_two_digits(m, out);
    out.push('-');
    push_two_digits(d, out);
    assert(out@ =~= old(out)@ + date_text(civil_of(days as int)));
}

/// A date as `YYYY-MM-DD` text of the given size.
pub fn cast_to_s_Date(value: Date, size: i32, fixed: bool) -> (r: String)
    requires
        -90_000_000 <= value.days <= 90_000_000,
    ensures
        r@ == if fixed {
            sized(date_text(civil_of(value.days as int)), size as int)
        } else {
            limited(date_text(civil_of(value.days as int)), size as int)
        },
{
    let mut out: Vec<char> = Vec::new();
    push_date(value.days, &mut out);
    assert(out@ =~= date_text(civil_of(value.days as int)));
    limit_or_size_string(string_of(&out), size, fixed)
}

/// A time of day as `HH:MM:SS` text of the given size; the fraction of a
/// second is dropped.
pub fn cast_to_s_Time(value: Time, size: i32, fixed: bool) -> (r: String)
    requires
        value.nanoseconds < 86_400_000_000_000,
    ensures
        r@ == if fixed {
            sized(time_text((value.nanoseconds / 1_000_000_000) as nat), size as int)
        } else {
            limited(time_text((value.nanoseconds / 1_000_000_000) as nat), size as int)
        },
{
    let mut out: Vec<char> = Vec::new();
    push_time(value.nanoseconds / 1_000_000_000, &mut out);
    assert(out@ =~= time_text((value.nanoseconds / 1_000_000_000) as nat));
    limit_or_size_string(string_of(&out), size, fixed)
}

/// `YYYY-MM-DD HH:MM:SS` of a timestamp.
pub open spec fn timestamp_text(ms: int) -> Seq<char> {
    date_text(civil_of(ms / 86_400_000)) + seq![' '] + time_text(((ms % 86_400_000) / 1000) as nat)
}

/// A timestamp as `YYYY-MM-DD HH:MM:SS` text of the given size; the fraction
/// of a second is dropped.
pub fn cast_to_s_Timestamp(value: Timestamp, size: i32, fixed: bool) -> (r: String)
    requires
        -90_000_000 <= value.milliseconds as int / 86_400_000 <= 90_000_000,
    ensures
        r@ == if fixed {
            sized(timestamp_text(value.milliseconds as int), size as int)
        } else {
            limited(timestamp_text(value.milliseconds as int), size as int)
        },
{
    let day = cast_to_Date_Timestamp(value);
    let tod = cast_to_Time_Timestamp(value);
    let mut out: Vec<char> = Vec::new();
    push_date(day.days, &mut out);
    out.push(' ');
    let secs = tod.nanoseconds / 1_000_000_000;
    assert(secs == ((value.milliseconds as int % 86_400_000) / 1000)) by (nonlinear_arith)
        requires
            tod.nanoseconds == (value.milliseconds as int % 86_400_000) * 1_000_000,
            secs == tod.nanoseconds / 1_000_000_000,
    ;
    push_time(secs, &mut out);
    assert(out@ =~= timestamp_text(value.milliseconds as int));
    limit_or_size_string(string_of(&out), size, fixed)
}

/// A `YYYY-MM-DD` text as a date; the text must be one (a required result).
pub fn cast_to_Date_s(value: String) -> (r: Date)
    requires
        date_text_parse(value@) is Some,
    ensures
        date_text_parse(value@) == Some(r.days as int),
{
    match parse_date_text(value.as_str()) {
        Some(days) => Date { days },
        None => Date { days: 0 },
    }
}

/// A `YYYY-MM-DD` text as a date; `None` when it is not one.
pub fn try_cast_to_Date_s(value: String) -> (r: Option<Date>)
    ensures
        r is Some <==> date_text_parse(value@) is Some,
        r matches Some(d) ==> date_text_parse(value@) == Some(d.days as int),
{
    match parse_date_text(value.as_str()) {
        None => None,
        Some(_) => Some(cast_to_Date_s(value)),
    }
}

/// Nanoseconds after midnight of a time read as seconds and nanoseconds.
pub open spec fn time_nanos(t: (int, int)) -> int {
    t.0 * 1_000_000_000 + t.1
}

/// A `HH:MM:SS[.fraction]` text as a time of day; the text must be one (a
/// required result).
pub fn cast_to_Time_s(value: String) -> (r: Time)
    requires
        time_text_parse(value@) is Some,
    ensures
        r.nanoseconds == time_nanos(time_text_parse(value@)->0),
{
    match parse_time_text(value.as_str()) {
        Some((secs, nanos)) => Time { nanoseconds: secs as u64 * 1_000_000_000 + nanos as u64 },
        None => Time { nanoseconds: 0 },
    }
}

/// A `HH:MM:SS[.fraction]` text as a time of day; `None` when it is not one.
pub fn try_cast_to_Time_s(value: String) -> (r: Option<Time>)
    ensures
        r is Some <==> time_text_parse(value@) is Some,
        r matches Some(t) ==> t.nanoseconds == time_nanos(time_text_parse(value@)->0),
{
    match parse_time_text(value.as_str()) {
        None => None,
        Some(_) => Some(cast_to_Time_s(value)),
    }
}

/// Milliseconds of a time given as seconds and nanoseconds, the nanoseconds
/// rounded to the nearest millisecond (halves up).
pub open spec fn rounded_millis(secs: int, nanos: int) -> int {
    secs * 1000 + (nanos + 500_000) / 1_000_000
}

/// A timestamp from the results of reading a text as a date and time
/// (`datetime`, seconds and nanoseconds) or as a bare date (`date`, days):
/// the first that is present wins, a bare date means midnight; `None` when
/// neither is present or the result does not fit.
pub fn timestamp_from_parts(datetime: Option<(i64, u32)>, date: Option<i32>) -> (r: Option<Timestamp>)
    ensures
        datetime matches Some(t) ==> (if i64::MIN <= rounded_millis(t.0 as int, t.1 as int)
            <= i64::MAX {
            r == Some(Timestamp { milliseconds: rounded_millis(t.0 as int, t.1 as int) as i64 })
        } else {
            r is None
        }),
        datetime is None ==> match date {
            Some(d) => r == Some(Timestamp { milliseconds: (d * 86_400_000) as i64 }),
            None => r is None,
        },
{
    match datetime {
        Some((secs, nanos)) => {
            let frac = ((nanos as u64 + 500_000) / 1_000_000) as i64;
            checked_millis(secs, frac)
        },
        None => match date {
            Some(d) => Some(Timestamp { milliseconds: d as i64 * 86_400_000 }),
            None => None,
        },
    }
}

/// `secs * 1000 + frac` when it fits in 64 bits.
fn checked_millis(secs: i64, frac: i64) -> (r: Option<Timestamp>)
    ensures
        (i64::MIN <= secs * 1000 + frac <= i64::MAX) ==> r == Some(
            Timestamp { milliseconds: (secs * 1000 + frac) as i64 },
        ),
        !(i64::MIN <= secs * 1000 + frac <= i64::MAX) ==> r is None,
{
    let a = secs as i128 * 1000 + frac as i128;
    if a < i64::MIN as i128 || a > i64::MAX as i128 {
        None
    } else {
        Some(Timestamp { milliseconds: a as i64 })
    }
}

/// The milliseconds a text stands for: a date and time rounded to the
/// millisecond, or else a bare date at midnight; `None` when it is neither.
pub open spec fn timestamp_text_millis(s: Seq<char>) -> Option<int> {
    match datetime_text_parse(s) {
        Some(t) => Some(rounded_millis(t.0, t.1)),
        None => match date_text_parse(s) {
            Some(d) => Some(d * 86_400_000),
            None => None,
        },
    }
}

/// Whether a number of milliseconds fits a timestamp.
pub open spec fn fits_i64(v: int) -> bool {
    i64::MIN <= v <= i64::MAX
}

/// A text as a timestamp: `YYYY-MM-DD HH:MM:SS[.fraction]`, rounded to the
/// millisecond, or else `YYYY-MM-DD` at midnight; the text must be one and
/// fit (a required result).
pub fn cast_to_Timestamp_s(value: String) -> (r: Timestamp)
    requires
        timestamp_text_millis(value@) matches Some(ms) && fits_i64(ms),
    ensures
        timestamp_text_millis(value@) == Some(r.milliseconds as int),
{
    let dt = parse_datetime_text(value.as_str());
    let d = match dt {
        Some(_) => None,
        None => parse_date_text(value.as_str()),
    };
    proof {
        if d is Some {
            let x: int = d->0 as int;
            assert(-2147483648 * 86_400_000 <= x * 86_400_000 <= 2147483647 * 86_400_000)
                by (nonlinear_arith)
                requires
                    -2147483648 <= x <= 2147483647,
            ;
        }
    }
    match timestamp_from_parts(dt, d) {
        Some(t) => t,
        None => Timestamp { milliseconds: 0 },
    }
}

/// A text as a timestamp, as `cast_to_Timestamp_s`; `None` when it is
/// neither form or does not fit.
pub fn try_cast_to_Timestamp_s(value: String) -> (r: Option<Timestamp>)
    ensures
        r == match timestamp_text_millis(value@) {
            Some(ms) => if fits_i64(ms) {
                Some(Timestamp { milliseconds: ms as i64 })
            } else {
                None
            },
            None => None,
        },
{
    let dt = parse_datetime_text(value.as_str());
    let d = match dt {
        Some(_) => None,
        None => parse_date_text(value.as_str()),
    };
    proof {
        if d is Some {
            let x: int = d->0 as int;
            assert(-2147483648 * 86_400_000 <= x * 86_400_000 <= 2147483647 * 86_400_000)
                by (nonlinear_arith)
                requires
                    -2147483648 <= x <= 2147483647,
            ;
        }
    }
    match timestamp_from_parts(dt, d) {
        Some(_) => Some(cast_to_Timestamp_s(value)),
        None => None,
    }
}

/// The last `s` decimal digits of `r`, zero-padded.
pub open spec fn fraction_digits(r: nat, s: nat) -> Seq<char>
    decreases s,
{
    if s == 0 {
        Seq::empty()
    } else {
        fraction_digits(r / 10, (s - 1) as nat).push(digit_char(r % 10))
    }
}

/// The text of a decimal: a `-` when negative, the integer part, and when
/// the scale is positive a point and exactly `scale` fractional digits.
pub open spec fn decimal_value_text(d: Decimal) -> Seq<char> {
    let a: nat = (if d.mantissa < 0 {
        -d.mantissa
    } else {
        d.mantissa as int
    }) as nat;
    let p = pow10(d.scale as nat);
    (if d.mantissa < 0 {
        seq!['-']
    } else {
        Seq::empty()
    }) + digits_text(a / p) + if d.scale > 0 {
        seq!['.'] + fraction_digits(a % p, d.scale as nat)
    } else {
        Seq::empty()
    }
}

fn push_fraction(r: u128, s: u32, out: &mut Vec<char>)
    ensures
        final(out)@ == old(out)@ + fraction_digits(r as nat, s as nat),
    decreases s,
{
    if s > 0 {
        push_fraction(r / 10, s - 1, out);
        out.push(digit(r % 10));
        assert(out@ =~= old(out)@ + fraction_digits(r as nat, s as nat));
    } else {
        assert(out@ =~= old(out)@ + fraction_digits(r as nat, s as nat));
    }
}

/// A decimal as text of the given size.
pub fn cast_to_s_decimal(value: Decimal, size: i32, fixed: bool) -> (r: String)
    requires
        value.wf(),
    ensures
        r@ == if fixed {
            sized(decimal_value_text(value), size as int)
        } else {
            limited(decimal_value_text(value), size as int)
        },
{
    let a: u128 = if value.mantissa < 0 {
        (-value.mantissa) as u128
    } else {
        value.mantissa as u128
    };
    let p = pow10_exec(value.scale);
    proof {
        lemma_pow10_grows(0, value.scale as nat);
    }
    let p = p as u128;
    let mut out: Vec<char> = Vec::new();
    if value.mantissa < 0 {
        out.push('-');
    }
    push_digits(a / p, &mut out);
    if value.scale > 0 {
        out.push('.');
        push_fraction(a % p, value.scale, &mut out);
    }
    assert(out@ =~= decimal_value_text(value));
    limit_or_size_string(string_of(&out), size, fixed)
}

/// The value of a sequence of decimal digits.
pub open spec fn digits_value(s: Seq<char>) -> int
    decreases s.len(),
{
    if s.len() == 0 {
        0
    } else {
        digits_value(s.drop_last()) * 10 + (s.last() as int - '0' as int)
    }
}

/// Whether every character is a decimal digit.
pub open spec fn all_digits(s: Seq<char>) -> bool {
    forall|i: int| 0 <= i < s.len() ==> '0' <= #[trigger] s[i] <= '9'
}

pub(crate) proof fn lemma_digits_value_nonneg(s: Seq<char>)
    requires
        all_digits(s),
    ensures
        digits_value(s) >= 0,
    decreases s.len(),
{
    if s.len() > 0 {
        let t = s.drop_last();
        assert(all_digits(t)) by {
            assert forall|i: int| 0 <= i < t.len() implies '0' <= #[trigger] t[i] <= '9' by {
                assert(t[i] == s[i]);
            }
        }
        lemma_digits_value_nonneg(t);
        assert('0' <= s[s.len() - 1]);
    }
}

pub(crate) proof fn lemma_digits_value_grows(s: Seq<char>, k: int)
    requires
        0 <= k <= s.len(),
    ensures
        all_digits(s) ==> digits_value(s.subrange(0, k)) <= digits_value(s),
    decreases s.len() - k,
{
    if k < s.len() && all_digits(s) {
        let t = s.drop_last();
        assert(all_digits(t)) by {
            assert forall|i: int| 0 <= i < t.len() implies '0' <= #[trigger] t[i] <= '9' by {
                assert(t[i] == s[i]);
            }
        }
        lemma_digits_value_grows(t, k);
        lemma_digits_value_nonneg(t);
        assert(t.subrange(0, k) =~= s.subrange(0, k));
        assert('0' <= s[s.len() - 1]);
    } else if k == s.len() {
        assert(s.subrange(0, k) =~= s);
    }
}


/////////// text as integers

/// The integer a text holds: once trimmed, an optional sign and at least one
/// decimal digit, nothing else.
pub open spec fn int_text_value(s: Seq<char>) -> Option<int> {
    let t = trim_ws(s);
    let signed = t.len() > 0 && (t[0] == '+' || t[0] == '-');
    let d = if signed {
        t.subrange(1, t.len() as int)
    } else {
        t
    };
    if d.len() > 0 && all_digits(d) {
        Some(
            if signed && t[0] == '-' {
                -digits_value(d)
            } else {
                digits_value(d)
            },
        )
    } else {
        None
    }
}

/// Two to the power 64.
pub open spec fn two_to_64() -> int {
    18446744073709551616
}

/// The integer a text holds; `None` also when its magnitude exceeds 2^64.
fn parse_int_text(s: &str) -> (r: Option<i128>)
    ensures
        r matches Some(v) ==> int_text_value(s@) == Some(v as int),
        r is None ==> (int_text_value(s@) is None || int_text_value(s@)->0 > two_to_64()
            || int_text_value(s@)->0 < -two_to_64()),
{
    let cs = chars_of(s);
    let a = trimmed_start(&cs);
    let b = trimmed_end(&cs, a);
    let ghost t = cs@.subrange(a as int, b as int);
    assert(trim_ws(s@) == t);
    let mut i = a;
    let mut negative = false;
    if i < b && (cs[i] == '+' || cs[i] == '-') {
        negative = cs[i] == '-';
        i = i + 1;
    }
    let ghost d = cs@.subrange(i as int, b as int);
    assert(d =~= if t.len() > 0 && (t[0] == '+' || t[0] == '-') {
        t.subrange(1, t.len() as int)
    } else {
        t
    });
    if i == b {
        return None;
    }
    let start = i;
    let mut v: i128 = 0;
    while i < b
        invariant
            cs@ == s@,
            start <= i <= b <= cs@.len(),
            d == cs@.subrange(start as int, b as int),
            a <= start,
            t == cs@.subrange(a as int, b as int),
            trim_ws(s@) == t,
            d == (if t.len() > 0 && (t[0] == '+' || t[0] == '-') {
                t.subrange(1, t.len() as int)
            } else {
                t
            }),
            d.len() > 0,
            negative == (t.len() > 0 && t[0] == '-'),
            (t.len() > 0 && (t[0] == '+' || t[0] == '-')) == (start == a + 1),
            v == digits_value(cs@.subrange(start as int, i as int)),
            0 <= v <= two_to_64(),
            all_digits(cs@.subrange(start as int, i as int)),
        decreases b - i,
    {
        let c = cs[i];
        if c < '0' || c > '9' {
            proof {
                assert(d[i - start] == c);
                assert(!all_digits(d));
            }
            return None;
        }
        assert(cs@.subrange(start as int, i + 1).drop_last() =~= cs@.subrange(start as int, i as int));
        v = v * 10 + (c as u32 - '0' as u32) as i128;
        if v > 18446744073709551616 {
            proof {
                lemma_digits_value_grows(d, i + 1 - start);
                assert(d.subrange(0, i + 1 - start) =~= cs@.subrange(start as int, i + 1));
            }
            return None;
        }
        i = i + 1;
        assert(all_digits(cs@.subrange(start as int, i as int)));
    }
    assert(cs@.subrange(start as int, i as int) =~= d);
    if negative {
        Some(-v)
    } else {
        Some(v)
    }
}

/// The i8 a text holds, which must be one (a required result).
pub fn cast_to_i8_s(value: String) -> (r: i8)
    requires
        int_text_value(value@) matches Some(v) && i8::MIN <= v <= i8::MAX,
    ensures
        int_text_value(value@) == Some(r as int),
{
    match parse_int_text(value.as_str()) {
        Some(v) => v as i8,
        None => 0,
    }
}

/// The i8 a text holds; absent when the text is not an integer or the
/// integer does not fit.
pub fn cast_to_i8N_s(value: String) -> (r: Option<i8>)
    ensures
        r == match int_text_value(value@) {
            Some(v) => if i8::MIN <= v <= i8::MAX {
                Some(v as i8)
            } else {
                None
            },
            None => None,
        },
{
    match parse_int_text(value.as_str()) {
        Some(v) => {
            if i8::MIN as i128 <= v && v <= i8::MAX as i128 {
                Some(cast_to_i8_s(value))
            } else {
                None
            }
        },
        None => None,
    }
}

/// The i16 a text holds, which must be one (a required result).
pub fn cast_to_i16_s(value: String) -> (r: i16)
    requires
        int_text_value(value@) matches Some(v) && i16::MIN <= v <= i16::MAX,
    ensures
        int_text_value(value@) == Some(r as int),
{
    match parse_int_text(value.as_str()) {
        Some(v) => v as i16,
        None => 0,
    }
}

/// The i16 a text holds; absent when the text is not an integer or the
/// integer does not fit.
pub fn cast_to_i16N_s(value: String) -> (r: Option<i16>)
    ensures
        r == match int_text_value(value@) {
            Some(v) => if i16::MIN <= v <= i16::MAX {
                Some(v as i16)
            } else {
                None
            },
            None => None,
        },
{
    match parse_int_text(value.as_str()) {
        Some(v) => {
            if i16::MIN as i128 <= v && v <= i16::MAX as i128 {
                Some(cast_to_i16_s(value))
            } else {
                None
            }
        },
        None => None,
    }
}

/// The i32 a text holds, which must be one (a required result).
pub fn cast_to_i32_s(value: String) -> (r: i32)
    requires
        int_text_value(value@) matches Some(v) && i32::MIN <= v <= i32::MAX,
    ensures
        int_text_value(value@) == Some(r as int),
{
    match parse_int_text(value.as_str()) {
        Some(v) => v as i32,
        None => 0,
    }
}

/// The i32 a text holds; absent when the text is not an integer or the
/// integer does not fit.
pub fn cast_to_i32N_s(value: String) -> (r: Option<i32>)
    ensures
        r == match int_text_value(value@) {
            Some(v) => if i32::MIN <= v <= i32::MAX {
                Some(v as i32)
            } else {
                None
            },
            None => None,
        },
{
    match parse_int_text(value.as_str()) {
        Some(v) => {
            if i32::MIN as i128 <= v && v <= i32::MAX as i128 {
                Some(cast_to_i32_s(value))
            } else {
                None
            }
        },
        None => None,
    }
}

/// The i64 a text holds, which must be one (a required result).
pub fn cast_to_i64_s(value: String) -> (r: i64)
    requires
        int_text_value(value@) matches Some(v) && i64::MIN <= v <= i64::MAX,
    ensures
        int_text_value(value@) == Some(r as int),
{
    match parse_int_text(value.as_str()) {
        Some(v) => v as i64,
        None => 0,
    }
}

/// The i64 a text holds; absent when the text is not an integer or the
/// integer does not fit.
pub fn cast_to_i64N_s(value: String) -> (r: Option<i64>)
    ensures
        r == match int_text_value(value@) {
            Some(v) => if i64::MIN <= v <= i64::MAX {
                Some(v as i64)
            } else {
                None
            },
            None => None,
        },
{
    match parse_int_text(value.as_str()) {
        Some(v) => {
            if i64::MIN as i128 <= v && v <= i64::MAX as i128 {
                Some(cast_to_i64_s(value))
            } else {
                None
            }
        },
        None => None,
    }
}


/// A decimal as an i32: rounded toward zero, and the result must fit.
pub fn cast_to_i32_decimal(value: Decimal) -> (r: i32)
    requires
        value.wf(),
        i32::MIN <= div_toward_zero(value.mantissa as int, pow10(value.scale as nat)) <= i32::MAX,
    ensures
        r == div_toward_zero(value.mantissa as int, pow10(value.scale as nat)),
{
    let p = pow10_exec(value.scale);
    proof {
        lemma_pow10_grows(0, value.scale as nat);
    }
    let m = value.mantissa;
    let q: i128 = if m >= 0 {
        m / p
    } else {
        -((-m) / p)
    };
    q as i32
}

/// An i32 as `DECIMAL(precision, scale)`; it must fit.
pub fn cast_to_decimal_i32(value: i32, precision: u32, scale: u32) -> (r: Decimal)
    requires
        fits_decimal(Decimal { mantissa: value as i128, scale: 0 }, precision as nat, scale as nat),
    ensures
        r == (Decimal { mantissa: value as i128, scale: 0 }),
{
    let d = Decimal { mantissa: value as i128, scale: 0 };
    cast_to_decimal_decimal(d, precision, scale)
}

/// A decimal as an i64: rounded toward zero, and the result must fit.
pub fn cast_to_i64_decimal(value: Decimal) -> (r: i64)
    requires
        value.wf(),
        i64::MIN <= div_toward_zero(value.mantissa as int, pow10(value.scale as nat)) <= i64::MAX,
    ensures
        r == div_toward_zero(value.mantissa as int, pow10(value.scale as nat)),
{
    let p = pow10_exec(value.scale);
    proof {
        lemma_pow10_grows(0, value.scale as nat);
    }
    let m = value.mantissa;
    let q: i128 = if m >= 0 {
        m / p
    } else {
        -((-m) / p)
    };
    q as i64
}

/// An i64 as `DECIMAL(precision, scale)`; it must fit.
pub fn cast_to_decimal_i64(value: i64, precision: u32, scale: u32) -> (r: Decimal)
    requires
        fits_decimal(Decimal { mantissa: value as i128, scale: 0 }, precision as nat, scale as nat),
    ensures
        r == (Decimal { mantissa: value as i128, scale: 0 }),
{
    let d = Decimal { mantissa: value as i128, scale: 0 };
    cast_to_decimal_decimal(d, precision, scale)
}


/////////// text as decimals

/// What reading a text as a decimal gives: its mantissa and scale, or
/// `None` when the text is not a decimal number.
pub uninterp spec fn decimal_text_parse(s: Seq<char>) -> Option<(int, int)>;

/// Relies on `FromStr` for `rust_decimal::Decimal`, and its `mantissa` (of
/// at most 96 bits) and `scale` (at most 28).
#[verifier::external_body]
fn parse_decimal_text(s: &str) -> (r: Option<(i128, u32)>)
    ensures
        r is Some <==> decimal_text_parse(s@) is Some,
        r matches Some(t) ==> decimal_text_parse(s@) == Some((t.0 as int, t.1 as int))
            && -max_mantissa() < t.0 < max_mantissa() && t.1 <= 28,
{
    s.parse::<rust_decimal::Decimal>().ok().map(|d| (d.mantissa(), d.scale()))
}

/// The decimal a text holds once trimmed, if it holds one.
pub open spec fn decimal_of_text(s: Seq<char>) -> Option<Decimal> {
    match decimal_text_parse(trim_ws(s)) {
        Some(t) => Some(Decimal { mantissa: t.0 as i128, scale: t.1 as u32 }),
        None => None,
    }
}

/// The decimal a text holds once trimmed.
fn trimmed_decimal(value: &String) -> (r: Option<Decimal>)
    ensures
        r == decimal_of_text(value@),
        r matches Some(d) ==> d.wf(),
{
    let cs = chars_of(value.as_str());
    let a = trimmed_start(&cs);
    let b = trimmed_end(&cs, a);
    let t = string_of(&char_range(&cs, a, b));
    match parse_decimal_text(t.as_str()) {
        Some((m, sc)) => Some(Decimal { mantissa: m, scale: sc }),
        None => None,
    }
}

/// A text as `DECIMAL(precision, scale)`; the text must hold a decimal
/// whose integer part fits (a required result).
pub fn cast_to_decimal_s(value: String, precision: u32, scale: u32) -> (r: Decimal)
    requires
        decimal_of_text(value@) matches Some(d) && fits_decimal(d, precision as nat, scale as nat),
    ensures
        r == rounded(decimal_of_text(value@)->0, scale as nat),
{
    let d = trimmed_decimal(&value).unwrap();
    cast_to_decimal_decimal(d, precision, scale)
}

/// A text as an optional `DECIMAL(precision, scale)`: absent when the text
/// holds no decimal; a decimal it holds must fit.
pub fn cast_to_decimalN_s(value: String, precision: u32, scale: u32) -> (r: Option<Decimal>)
    requires
        decimal_of_text(value@) matches Some(d) ==> fits_decimal(d, precision as nat, scale as nat),
    ensures
        r == match decimal_of_text(value@) {
            Some(d) => Some(rounded(d, scale as nat)),
            None => None,
        },
{
    match trimmed_decimal(&value) {
        None => None,
        Some(_) => Some(cast_to_decimal_s(value, precision, scale)),
    }
}

/// `cast_to_decimalN_s` of an optional text.
pub fn cast_to_decimalN_sN(value: Option<String>, precision: u32, scale: u32) -> (r: Option<Decimal>)
    requires
        value matches Some(v) ==> (decimal_of_text(v@) matches Some(d) ==> fits_decimal(
            d,
            precision as nat,
            scale as nat,
        )),
    ensures
        r == match value {
            Some(v) => match decimal_of_text(v@) {
                Some(d) => Some(rounded(d, scale as nat)),
                None => None,
            },
            None => None,
        },
{
    match value {
        None => None,
        Some(v) => cast_to_decimalN_s(v, precision, scale),
    }
}

/// A text as `DECIMAL(precision, scale)`, or `None` when it holds no decimal
/// or the decimal does not fit.
pub fn try_cast_to_decimal_s(value: String, precision: u32, scale: u32) -> (r: Option<Decimal>)
    ensures
        r == match decimal_of_text(value@) {
            Some(d) => if fits_decimal(d, precision as nat, scale as nat) {
                Some(rounded(d, scale as nat))
            } else {
                None
            },
            None => None,
        },
{
    match trimmed_decimal(&value) {
        None => None,
        Some(d) => {
            if decimal_fits(d, precision, scale) {
                cast_to_decimalN_s(value, precision, scale)
            } else {
                None
            }
        },
    }
}

} // verus!
