//! Civil calendar arithmetic, decimal rendering, and human readable
//! durations, all on plain integers.

use vstd::prelude::*;

use vstd::arithmetic::div_mod::{
    lemma_fundamental_div_mod, lemma_mod_division_less_than_divisor, lemma_multiply_divide_lt,
};

verus! {

// ---------------------------------------------------------------------------
// Decimal rendering (as ASCII bytes)
// ---------------------------------------------------------------------------
/// The ASCII byte of one decimal digit.
pub open spec fn digit_byte(d: int) -> u8 {
    (48 + d) as u8
}

/// The decimal digits of `n`, most significant first.
pub open spec fn dec_digits(n: nat) -> Seq<u8>
    decreases n,
{
    if n < 10 {
        seq![digit_byte(n as int)]
    } else {
        dec_digits(n / 10) + seq![digit_byte((n % 10) as int)]
    }
}

/// The last `width` decimal digits of `n`, zero padded.
pub open spec fn pad_digits(n: nat, width: nat) -> Seq<u8>
    decreases width,
{
    if width == 0 {
        Seq::empty()
    } else {
        pad_digits(n / 10, (width - 1) as nat).push(digit_byte((n % 10) as int))
    }
}

/// Every byte of a decimal rendering is an ASCII digit.
pub proof fn lemma_dec_digits_ascii(n: nat)
    ensures
        dec_digits(n).len() >= 1,
        forall|i: int| 0 <= i < dec_digits(n).len() ==> 48 <= #[trigger] dec_digits(n)[i] <= 57,
    decreases n,
{
    if n >= 10 {
        lemma_dec_digits_ascii(n / 10);
    }
}

/// A padded rendering has exactly `width` bytes, all ASCII digits.
pub proof fn lemma_pad_digits_ascii(n: nat, width: nat)
    ensures
        pad_digits(n, width).len() == width,
        forall|i: int|
            0 <= i < width ==> 48 <= #[trigger] pad_digits(n, width)[i] <= 57,
    decreases width,
{
    if width > 0 {
        lemma_pad_digits_ascii(n / 10, (width - 1) as nat);
    }
}

/// The numeric value of a sequence of ASCII digit bytes, read left to
/// right.
pub open spec fn digits_value(s: Seq<u8>) -> nat
    decreases s.len(),
{
    if s.len() == 0 {
        0
    } else {
        digits_value(s.drop_last()) * 10 + (if s.last() >= 48 {
            (s.last() - 48) as nat
        } else {
            0
        })
    }
}

/// Powers of ten.
pub open spec fn pow10(w: nat) -> nat
    decreases w,
{
    if w == 0 {
        1
    } else {
        10 * pow10((w - 1) as nat)
    }
}

/// Reading the decimal rendering of `n` back yields `n`.
pub proof fn lemma_dec_digits_value(n: nat)
    ensures
        digits_value(dec_digits(n)) == n,
    decreases n,
{
    reveal_with_fuel(digits_value, 3);
    if n < 10 {
        assert(dec_digits(n) =~= seq![digit_byte(n as int)]);
        assert(dec_digits(n).drop_last() =~= Seq::<u8>::empty());
        assert(digit_byte(n as int) == 48 + n);
    } else {
        lemma_dec_digits_value(n / 10);
        assert(dec_digits(n).drop_last() =~= dec_digits(n / 10));
        assert(dec_digits(n).last() == digit_byte((n % 10) as int));
        assert(digit_byte((n % 10) as int) == 48 + (n % 10));
        lemma_fundamental_div_mod(n as int, 10);
    }
}

/// Reading a zero padded rendering back yields `n`, provided `n` fits in
/// the width.
pub proof fn lemma_pad_digits_value(n: nat, width: nat)
    requires
        n < pow10(width),
    ensures
        digits_value(pad_digits(n, width)) == n,
    decreases width,
{
    if width == 0 {
        assert(pad_digits(n, width) =~= Seq::<u8>::empty());
    } else {
        lemma_pad_digits_ascii(n / 10, (width - 1) as nat);
        assert(n / 10 < pow10((width - 1) as nat)) by {
            if n / 10 >= pow10((width - 1) as nat) {
                assert(n >= 10 * (n / 10)) by {
                    lemma_fundamental_div_mod(n as int, 10);
                };
            }
        };
        lemma_pad_digits_value(n / 10, (width - 1) as nat);
        assert(pad_digits(n, width).drop_last() =~= pad_digits(n / 10, (width - 1) as nat));
        lemma_fundamental_div_mod(n as int, 10);
    }
}

/// Appends the decimal digits of `n`.
pub fn push_u64_digits(out: &mut Vec<u8>, n: u64)
    ensures
        final(out)@ == old(out)@ + dec_digits(n as nat),
    decreases n,
{
    if n < 10 {
        out.push(48 + (n as u8));
        proof {
            assert(final(out)@ =~= old(out)@ + dec_digits(n as nat));
        }
    } else {
        push_u64_digits(out, n / 10);
        out.push(48 + ((n % 10) as u8));
        proof {
            assert(final(out)@ =~= old(out)@ + dec_digits(n as nat));
        }
    }
}

/// Appends the last `width` decimal digits of `n`, zero padded.
pub fn push_padded_digits(out: &mut Vec<u8>, n: u64, width: u64)
    ensures
        final(out)@ == old(out)@ + pad_digits(n as nat, width as nat),
    decreases width,
{
    if width == 0 {
        proof {
            assert(final(out)@ =~= old(out)@ + pad_digits(n as nat, width as nat));
        }
    } else {
        push_padded_digits(out, n / 10, width - 1);
        out.push(48 + ((n % 10) as u8));
        proof {
            assert(final(out)@ =~= old(out)@ + pad_digits(n as nat, width as nat));
        }
    }
}

// ---------------------------------------------------------------------------
// Civil calendar (proleptic Gregorian, days since 1970-01-01)
// ---------------------------------------------------------------------------
/// Gregorian leap year rule.
pub open spec fn is_leap_year(y: int) -> bool {
    y % 4 == 0 && (y % 100 != 0 || y % 400 == 0)
}

/// Days in a calendar year.
pub open spec fn days_in_year(y: int) -> int {
    if is_leap_year(y) {
        366
    } else {
        365
    }
}

/// Days in a calendar month (1 = January).
pub open spec fn days_in_month(y: int, m: int) -> int {
    if m == 2 {
        if is_leap_year(y) {
            29
        } else {
            28
        }
    } else if m == 4 || m == 6 || m == 9 || m == 11 {
        30
    } else {
        31
    }
}

/// Days from 1970-01-01 up to the first day of year `y`.
pub open spec fn days_before_year(y: int) -> int
    decreases y - 1970,
{
    if y <= 1970 {
        0
    } else {
        days_before_year(y - 1) + days_in_year(y - 1)
    }
}

/// Days from the first day of year `y` up to the first day of month `m`.
pub open spec fn days_before_month(y: int, m: int) -> int
    decreases m,
{
    if m <= 1 {
        0
    } else {
        days_before_month(y, m - 1) + days_in_month(y, m - 1)
    }
}

/// Day number (since 1970-01-01) of a calendar date.
pub open spec fn days_from_civil(y: int, m: int, d: int) -> int {
    days_before_year(y) + days_before_month(y, m) + (d - 1)
}

/// A calendar date the log line format can carry.
pub open spec fn valid_date(y: int, m: int, d: int) -> bool {
    &&& 1970 <= y < 10000
    &&& 1 <= m <= 12
    &&& 1 <= d <= days_in_month(y, m)
}

/// `days_before_year` grows by whole years.
pub proof fn lemma_days_before_year_mono(y1: int, y2: int)
    requires
        1970 <= y1 <= y2,
    ensures
        days_before_year(y1) + 365 * (y2 - y1) <= days_before_year(y2),
    decreases y2 - y1,
{
    if y1 < y2 {
        lemma_days_before_year_mono(y1, y2 - 1);
    }
}

/// The twelve months of a year sum to the length of the year.
pub proof fn lemma_months_cover_year(y: int)
    ensures
        days_before_month(y, 13) == days_in_year(y),
{
    reveal_with_fuel(days_before_month, 14);
}

/// Remaining days after stepping whole years forward from `y`.
pub open spec fn split_year(y: int, z: int) -> (int, int)
    decreases z,
{
    if z < days_in_year(y) || z < 0 {
        (y, z)
    } else {
        split_year(y + 1, z - days_in_year(y))
    }
}

/// Remaining days after stepping whole months forward from `m`.
pub open spec fn split_month(y: int, m: int, z: int) -> (int, int)
    decreases 12 - m,
{
    if m >= 12 || z < days_in_month(y, m) || z < 0 {
        (m, z)
    } else {
        split_month(y, m + 1, z - days_in_month(y, m))
    }
}

/// The calendar date of a day number.
pub open spec fn civil_of_day(z: int) -> (int, int, int) {
    let year_split = split_year(1970, z);
    let month_split = split_month(year_split.0, 1, year_split.1);
    (year_split.0, month_split.0, month_split.1 + 1)
}

/// Stepping years keeps the total day count and ends inside a year.
pub proof fn lemma_split_year(y: int, z: int)
    requires
        1970 <= y,
        0 <= z,
    ensures
        y <= split_year(y, z).0,
        0 <= split_year(y, z).1 < days_in_year(split_year(y, z).0),
        days_before_year(split_year(y, z).0) + split_year(y, z).1 == days_before_year(y) + z,
    decreases z,
{
    if z >= days_in_year(y) {
        lemma_split_year(y + 1, z - days_in_year(y));
    }
}

/// Stepping months keeps the total day count and ends inside a month.
pub proof fn lemma_split_month(y: int, m: int, z: int)
    requires
        1 <= m <= 12,
        0 <= z,
        days_before_month(y, m) + z < days_in_year(y),
    ensures
        m <= split_month(y, m, z).0 <= 12,
        0 <= split_month(y, m, z).1 < days_in_month(y, split_month(y, m, z).0),
        days_before_month(y, split_month(y, m, z).0) + split_month(y, m, z).1
            == days_before_month(y, m) + z,
    decreases 12 - m,
{
    lemma_months_cover_year(y);
    if !(m >= 12 || z < days_in_month(y, m) || z < 0) {
        lemma_split_month(y, m + 1, z - days_in_month(y, m));
    }
}

/// `civil_of_day` inverts `days_from_civil` and yields a valid date for
/// every representable day number.
pub proof fn lemma_civil_of_day(z: int)
    requires
        0 <= z < 2932897,
    ensures
        valid_date(civil_of_day(z).0, civil_of_day(z).1, civil_of_day(z).2),
        days_from_civil(civil_of_day(z).0, civil_of_day(z).1, civil_of_day(z).2) == z,
{
    lemma_day_limit();
    lemma_split_year(1970, z);
    let y = split_year(1970, z).0;
    let rest = split_year(1970, z).1;
    assert(days_before_month(y, 1) == 0);
    lemma_split_month(y, 1, rest);
    if y >= 10000 {
        lemma_days_before_year_mono(10000, y);
    }
}

/// Leap days counted by whole-number division up to year `n` inclusive.
spec fn leap_count(n: int) -> int {
    n / 4 - n / 100 + n / 400
}

/// Dividing by `d` steps up by one exactly at multiples of `d`.
proof fn lemma_div_step(n: int, d: int)
    requires
        1 <= n,
        1 <= d,
    ensures
        n / d - (n - 1) / d == (if n % d == 0 {
            1int
        } else {
            0int
        }),
{
    let q = n / d;
    let r = n % d;
    lemma_fundamental_div_mod(n, d);
    lemma_mod_division_less_than_divisor(n, d);
    if r == 0 {
        assert(n - 1 == (q - 1) * d + (d - 1)) by (nonlinear_arith)
            requires
                n == d * q,
        ;
        vstd::arithmetic::div_mod::lemma_fundamental_div_mod_converse(n - 1, d, q - 1, d - 1);
    } else {
        assert(n - 1 == q * d + (r - 1)) by (nonlinear_arith)
            requires
                n == d * q + r,
        ;
        vstd::arithmetic::div_mod::lemma_fundamental_div_mod_converse(n - 1, d, q, r - 1);
    }
}

/// The recursive day count agrees with the closed form
/// `365 * (y - 1970) +` the leap days between 1970 and `y`.
#[verifier::rlimit(100)]
#[verifier::spinoff_prover]
proof fn lemma_days_before_year_closed(y: int)
    requires
        1970 <= y,
    ensures
        days_before_year(y) == 365 * (y - 1970) + leap_count(y - 1) - leap_count(1969),
    decreases y - 1970,
{
    if y > 1970 {
        lemma_days_before_year_closed(y - 1);
        let n = y - 1;
        lemma_div_step(n, 4);
        lemma_div_step(n, 100);
        lemma_div_step(n, 400);
        assert(leap_count(n) - leap_count(n - 1) == (if is_leap_year(n) {
            1int
        } else {
            0int
        }));
        assert(days_in_year(n) == 365 + (if is_leap_year(n) {
            1int
        } else {
            0int
        }));
    }
}

/// Day count of the first unrepresentable date, 10000-01-01.
pub proof fn lemma_day_limit()
    ensures
        days_before_year(10000) == 2932897,
{
    lemma_days_before_year_closed(10000);
}

// ---------------------------------------------------------------------------
// Splitting a timestamp into date and time of day
// ---------------------------------------------------------------------------
/// A point in time, split into calendar date and time of day. Stands both
/// for UTC instants (from a timestamp) and for local wall clock readings.
#[derive(Debug, Clone, Copy, PartialEq, Eq, Structural)]
pub struct DateTimeParts {
    pub year: u64,
    pub month: u64,
    pub day: u64,
    pub hour: u64,
    pub minute: u64,
    pub second: u64,
    pub millisecond: u64,
}

/// The loose bounds every local wall clock reading satisfies: calendar
/// field ranges, with the year within a day of the representable UTC
/// years and up to two seconds of subsecond milliseconds around a leap
/// second.
pub open spec fn local_reading(p: DateTimeParts) -> bool {
    &&& 1969 <= p.year <= 10000
    &&& 1 <= p.month <= 12
    &&& 1 <= p.day <= 31
    &&& p.hour < 24
    &&& p.minute < 60
    &&& p.second < 60
    &&& p.millisecond < 2000
}

/// All fields within their calendar and clock ranges.
pub open spec fn parts_valid(p: DateTimeParts) -> bool {
    &&& valid_date(p.year as int, p.month as int, p.day as int)
    &&& p.hour < 24
    &&& p.minute < 60
    &&& p.second < 60
    &&& p.millisecond < 1000
}

/// The UTC timestamp (milliseconds since the epoch) of split parts.
pub open spec fn parts_to_ms(p: DateTimeParts) -> int {
    (days_from_civil(p.year as int, p.month as int, p.day as int) * 86400 + p.hour * 3600
        + p.minute * 60 + p.second) * 1000 + p.millisecond
}

/// The split parts of a UTC timestamp.
pub open spec fn utc_parts(ms: int) -> DateTimeParts {
    let date = civil_of_day(ms / 86400000);
    let r0 = ms % 86400000;
    let r1 = r0 % 3600000;
    let r2 = r1 % 60000;
    DateTimeParts {
        year: date.0 as u64,
        month: date.1 as u64,
        day: date.2 as u64,
        hour: (r0 / 3600000) as u64,
        minute: (r1 / 60000) as u64,
        second: (r2 / 1000) as u64,
        millisecond: (r2 % 1000) as u64,
    }
}

/// Splitting a representable timestamp yields valid parts that stand for
/// exactly that timestamp.
pub proof fn lemma_utc_parts(ms: int)
    requires
        0 <= ms < 253402300800000,
    ensures
        parts_valid(utc_parts(ms)),
        parts_to_ms(utc_parts(ms)) == ms,
{
    let z = ms / 86400000;
    let r0 = ms % 86400000;
    let r1 = r0 % 3600000;
    let r2 = r1 % 60000;
    lemma_fundamental_div_mod(ms, 86400000);
    lemma_mod_division_less_than_divisor(ms, 86400000);
    assert(z < 2932897) by {
        lemma_multiply_divide_lt(ms, 86400000, 2932897);
    };
    assert(0 <= z);
    lemma_civil_of_day(z);
    lemma_fundamental_div_mod(r0, 3600000);
    lemma_mod_division_less_than_divisor(r0, 3600000);
    lemma_fundamental_div_mod(r1, 60000);
    lemma_mod_division_less_than_divisor(r1, 60000);
    lemma_fundamental_div_mod(r2, 1000);
    lemma_mod_division_less_than_divisor(r2, 1000);
    assert(r0 / 3600000 < 24) by {
        lemma_multiply_divide_lt(r0, 3600000, 24);
    };
    assert(r1 / 60000 < 60) by {
        lemma_multiply_divide_lt(r1, 60000, 60);
    };
    assert(r2 / 1000 < 60) by {
        lemma_multiply_divide_lt(r2, 1000, 60);
    };
}

/// Days in a calendar year, executable form.
pub fn days_in_year_x(y: u64) -> (r: u64)
    ensures
        r == days_in_year(y as int),
{
    if y % 4 == 0 && (y % 100 != 0 || y % 400 == 0) {
        366
    } else {
        365
    }
}

/// Days in a calendar month, executable form.
pub fn days_in_month_x(y: u64, m: u64) -> (r: u64)
    ensures
        r == days_in_month(y as int, m as int),
{
    if m == 2 {
        if y % 4 == 0 && (y % 100 != 0 || y % 400 == 0) {
            29
        } else {
            28
        }
    } else if m == 4 || m == 6 || m == 9 || m == 11 {
        30
    } else {
        31
    }
}

/// The calendar date of a representable day number.
pub fn civil_from_days(z: u64) -> (r: (u64, u64, u64))
    requires
        z < 2932897,
    ensures
        r.0 == civil_of_day(z as int).0,
        r.1 == civil_of_day(z as int).1,
        r.2 == civil_of_day(z as int).2,
{
    let mut y: u64 = 1970;
    let mut rem: u64 = z;
    loop
        invariant
            1970 <= y <= 9999,
            z < 2932897,
            days_before_year(y as int) + rem == z,
            split_year(y as int, rem as int) == split_year(1970, z as int),
        ensures
            1970 <= y <= 9999,
            days_before_year(y as int) + rem == z,
            rem < days_in_year(y as int),
            split_year(y as int, rem as int) == split_year(1970, z as int),
        decreases rem,
    {
        let len = days_in_year_x(y);
        if rem < len {
            break ;
        }
        proof {
            lemma_day_limit();
            if y == 9999 {
                assert(days_before_year(10000) == days_before_year(9999) + days_in_year(9999));
                assert(false);
            }
        }
        rem = rem - len;
        y = y + 1;
    }
    proof {
        assert(split_year(y as int, rem as int) == (y as int, rem as int));
    }
    let ghost day_of_year: int = rem as int;
    let mut m: u64 = 1;
    loop
        invariant
            1 <= m <= 12,
            day_of_year == split_year(1970, z as int).1,
            y == split_year(1970, z as int).0,
            day_of_year < days_in_year(y as int),
            days_before_month(y as int, m as int) + rem == day_of_year,
            split_month(y as int, m as int, rem as int) == split_month(y as int, 1, day_of_year),
        ensures
            1 <= m <= 12,
            rem < days_in_month(y as int, m as int),
            split_month(y as int, m as int, rem as int) == split_month(y as int, 1, day_of_year),
        decreases 12 - m,
    {
        let len = days_in_month_x(y, m);
        if rem < len {
            break ;
        }
        proof {
            lemma_months_cover_year(y as int);
            if m == 12 {
                assert(days_before_month(y as int, 13) == days_before_month(y as int, 12)
                    + days_in_month(y as int, 12));
                assert(false);
            }
        }
        rem = rem - len;
        m = m + 1;
    }
    proof {
        assert(split_month(y as int, m as int, rem as int) == (m as int, rem as int));
    }
    (y, m, rem + 1)
}

/// Splits a representable UTC timestamp into its date and time of day.
pub fn utc_date_time(ms: u64) -> (r: DateTimeParts)
    requires
        ms < 253402300800000,
    ensures
        r == utc_parts(ms as int),
        parts_valid(r),
        parts_to_ms(r) == ms,
{
    proof {
        lemma_utc_parts(ms as int);
    }
    let z: u64 = ms / 86400000;
    proof {
        lemma_multiply_divide_lt(ms as int, 86400000, 2932897);
    }
    let date = civil_from_days(z);
    let r0: u64 = ms % 86400000;
    let r1: u64 = r0 % 3600000;
    let r2: u64 = r1 % 60000;
    DateTimeParts {
        year: date.0,
        month: date.1,
        day: date.2,
        hour: r0 / 3600000,
        minute: r1 / 60000,
        second: r2 / 1000,
        millisecond: r2 % 1000,
    }
}

// ---------------------------------------------------------------------------
// Fixed renderings
// ---------------------------------------------------------------------------
/// `YYYY-MM-DD`.
pub open spec fn date_bytes(y: nat, m: nat, d: nat) -> Seq<u8> {
    pad_digits(y, 4) + seq![45u8] + pad_digits(m, 2) + seq![45u8] + pad_digits(d, 2)
}

/// `YYYY-MM-DDTHH:MM:SS.mmmZ` (RFC 3339, UTC, millisecond precision).
pub open spec fn rfc3339_bytes(p: DateTimeParts) -> Seq<u8> {
    date_bytes(p.year as nat, p.month as nat, p.day as nat) + seq![84u8] + pad_digits(
        p.hour as nat,
        2,
    ) + seq![58u8] + pad_digits(p.minute as nat, 2) + seq![58u8] + pad_digits(p.second as nat, 2)
        + seq![46u8] + pad_digits(p.millisecond as nat, 3) + seq![90u8]
}

/// Appends `YYYY-MM-DD`.
pub fn push_date(out: &mut Vec<u8>, y: u64, m: u64, d: u64)
    ensures
        final(out)@ == old(out)@ + date_bytes(y as nat, m as nat, d as nat),
{
    push_padded_digits(out, y, 4);
    out.push(45);
    push_padded_digits(out, m, 2);
    out.push(45);
    push_padded_digits(out, d, 2);
    proof {
        assert(final(out)@ =~= old(out)@ + date_bytes(y as nat, m as nat, d as nat));
    }
}

/// Appends an RFC 3339 UTC rendering of split parts.
pub fn push_rfc3339(out: &mut Vec<u8>, p: &DateTimeParts)
    ensures
        final(out)@ == old(out)@ + rfc3339_bytes(*p),
{
    push_date(out, p.year, p.month, p.day);
    out.push(84);
    push_padded_digits(out, p.hour, 2);
    out.push(58);
    push_padded_digits(out, p.minute, 2);
    out.push(58);
    push_padded_digits(out, p.second, 2);
    out.push(46);
    push_padded_digits(out, p.millisecond, 3);
    out.push(90);
    proof {
        assert(final(out)@ =~= old(out)@ + rfc3339_bytes(*p));
    }
}


/// Months never account for more than 31 days each.
pub proof fn lemma_days_before_month_upper(y: int, m: int)
    requires
        1 <= m,
    ensures
        days_before_month(y, m) <= 31 * (m - 1),
        0 <= days_before_month(y, m),
    decreases m,
{
    if m > 1 {
        lemma_days_before_month_upper(y, m - 1);
    }
}

/// A year is never longer than 366 days accumulated.
pub proof fn lemma_days_before_year_upper(y: int)
    requires
        1970 <= y,
    ensures
        0 <= days_before_year(y) <= 366 * (y - 1970),
    decreases y - 1970,
{
    if y > 1970 {
        lemma_days_before_year_upper(y - 1);
    }
}

/// Every representable date lies before day 2932897 (10000-01-01).
pub proof fn lemma_days_from_civil_bound(y: int, m: int, d: int)
    requires
        valid_date(y, m, d),
    ensures
        0 <= days_from_civil(y, m, d) < 2932897,
{
    lemma_day_limit();
    lemma_days_before_year_upper(y);
    lemma_days_before_month_upper(y, m);
    lemma_dbm_within(y, m);
    assert(days_before_year(y + 1) == days_before_year(y) + days_in_year(y));
    if y + 1 <= 10000 {
        lemma_days_before_year_mono(y + 1, 10000);
    }
}

/// The days of a month lie inside its year.
pub proof fn lemma_dbm_within(y: int, m: int)
    requires
        1 <= m <= 12,
    ensures
        days_before_month(y, m) + days_in_month(y, m) <= days_in_year(y),
    decreases 12 - m,
{
    if m == 12 {
        lemma_months_cover_year(y);
    } else {
        lemma_dbm_within(y, m + 1);
    }
}

/// Day number of a calendar date, executable form.
pub fn days_from_civil_x(y: u64, m: u64, d: u64) -> (r: u64)
    requires
        valid_date(y as int, m as int, d as int),
    ensures
        r == days_from_civil(y as int, m as int, d as int),
        r < 2932897,
{
    proof {
        lemma_days_from_civil_bound(y as int, m as int, d as int);
    }
    let mut acc: u64 = 0;
    let mut yi: u64 = 1970;
    while yi < y
        invariant
            1970 <= yi <= y,
            y < 10000,
            acc == days_before_year(yi as int),
            acc <= 366 * (yi - 1970),
        decreases y - yi,
    {
        proof {
            lemma_days_before_year_upper(yi + 1);
        }
        acc = acc + days_in_year_x(yi);
        yi = yi + 1;
    }
    let mut mi: u64 = 1;
    let mut acc2: u64 = acc;
    while mi < m
        invariant
            1 <= mi <= m,
            m <= 12,
            acc == days_before_year(y as int),
            acc <= 366 * 8030,
            acc2 == acc + days_before_month(y as int, mi as int),
            acc2 <= acc + 31 * (mi - 1),
        decreases m - mi,
    {
        proof {
            lemma_days_before_month_upper(y as int, mi + 1);
        }
        acc2 = acc2 + days_in_month_x(y, mi);
        mi = mi + 1;
    }
    acc2 + (d - 1)
}


// ---------------------------------------------------------------------------
// Human readable durations
// ---------------------------------------------------------------------------
/// `day`.
pub open spec fn unit_day() -> Seq<u8> {
    seq![100u8, 97u8, 121u8]
}

/// `hour`.
pub open spec fn unit_hour() -> Seq<u8> {
    seq![104u8, 111u8, 117u8, 114u8]
}

/// `minute`.
pub open spec fn unit_minute() -> Seq<u8> {
    seq![109u8, 105u8, 110u8, 117u8, 116u8, 101u8]
}

/// `second`.
pub open spec fn unit_second() -> Seq<u8> {
    seq![115u8, 101u8, 99u8, 111u8, 110u8, 100u8]
}

/// `0 seconds`.
pub open spec fn zero_seconds() -> Seq<u8> {
    seq![48u8, 32u8, 115u8, 101u8, 99u8, 111u8, 110u8, 100u8, 115u8]
}

/// One component of a humanized duration: the count, the unit, and a
/// plural `s` unless the count is one.
pub open spec fn unit_part(n: nat, unit: Seq<u8>) -> Seq<u8> {
    dec_digits(n) + seq![32u8] + unit + (if n == 1 {
        Seq::empty()
    } else {
        seq![115u8]
    })
}

/// The non-zero components of a duration, largest unit first.
pub open spec fn humanize_parts(ts: nat) -> Seq<Seq<u8>> {
    let days = ts / 86400;
    let hours = (ts % 86400) / 3600;
    let minutes = (ts % 3600) / 60;
    let seconds = ts % 60;
    (if days > 0 {
        seq![unit_part(days, unit_day())]
    } else {
        Seq::empty()
    }) + (if hours > 0 {
        seq![unit_part(hours, unit_hour())]
    } else {
        Seq::empty()
    }) + (if minutes > 0 {
        seq![unit_part(minutes, unit_minute())]
    } else {
        Seq::empty()
    }) + (if seconds > 0 {
        seq![unit_part(seconds, unit_second())]
    } else {
        Seq::empty()
    })
}

/// Components joined with `, `.
pub open spec fn join_comma(parts: Seq<Seq<u8>>) -> Seq<u8>
    decreases parts.len(),
{
    if parts.len() == 0 {
        Seq::empty()
    } else if parts.len() == 1 {
        parts[0]
    } else {
        join_comma(parts.drop_last()) + seq![44u8, 32u8] + parts.last()
    }
}

/// The humanized rendering of a duration of `ts` whole seconds: the
/// non-zero components joined with commas and a final `and`, or
/// `0 seconds` when there is none.
pub open spec fn spec_humanize(ts: nat) -> Seq<u8> {
    let parts = humanize_parts(ts);
    if parts.len() == 0 {
        zero_seconds()
    } else if parts.len() == 1 {
        parts[0]
    } else {
        join_comma(parts.drop_last()) + seq![32u8, 97u8, 110u8, 100u8, 32u8] + parts.last()
    }
}

/// A component is ASCII when its unit is.
proof fn lemma_unit_part_ascii(n: nat, unit: Seq<u8>)
    requires
        forall|i: int| 0 <= i < unit.len() ==> #[trigger] unit[i] < 128,
    ensures
        forall|i: int| 0 <= i < unit_part(n, unit).len() ==> #[trigger] unit_part(n, unit)[i]
            < 128,
{
    lemma_dec_digits_ascii(n);
    assert forall|i: int| 0 <= i < unit_part(n, unit).len() implies #[trigger] unit_part(
        n,
        unit,
    )[i] < 128 by {
        lemma_dec_digits_ascii(n);
    }
}

/// Appends one component.
fn push_unit_part(out: &mut Vec<u8>, n: u64, unit: &[u8])
    ensures
        final(out)@ == old(out)@ + unit_part(n as nat, unit@),
{
    push_u64_digits(out, n);
    out.push(32);
    crate::strutil::push_bytes(out, unit);
    if n != 1 {
        out.push(115);
    }
    proof {
        assert(final(out)@ =~= old(out)@ + unit_part(n as nat, unit@));
    }
}

/// Anything that can describe itself in rough, human units.
pub trait Humanize {
    /// What the description says, as characters.
    spec fn humanized(&self) -> Seq<char>;

    /// Renders the description.
    fn humanize(&self) -> (r: String)
        ensures
            r@ == self.humanized(),
    ;
}

/// A duration in milliseconds describes itself in days, hours, minutes
/// and seconds.
impl Humanize for u64 {
    open spec fn humanized(&self) -> Seq<char> {
        crate::strutil::chars_of(spec_humanize((*self / 1000) as nat))
    }

    #[verifier::rlimit(100)]
    #[verifier::spinoff_prover]
    fn humanize(&self) -> (r: String) {
        let ts: u64 = *self / 1000;
        let ghost tsn = ts as nat;
        let days: u64 = ts / 86400;
        let hours: u64 = (ts % 86400) / 3600;
        let minutes: u64 = (ts % 3600) / 60;
        let seconds: u64 = ts % 60;
        let mut parts: Vec<Vec<u8>> = Vec::new();
        let u_day = [100u8, 97u8, 121u8];
        let u_hour = [104u8, 111u8, 117u8, 114u8];
        let u_minute = [109u8, 105u8, 110u8, 117u8, 116u8, 101u8];
        let u_second = [115u8, 101u8, 99u8, 111u8, 110u8, 100u8];
        if days > 0 {
            let mut p: Vec<u8> = Vec::new();
            push_unit_part(&mut p, days, u_day.as_slice());
            parts.push(p);
        }
        if hours > 0 {
            let mut p: Vec<u8> = Vec::new();
            push_unit_part(&mut p, hours, u_hour.as_slice());
            parts.push(p);
        }
        if minutes > 0 {
            let mut p: Vec<u8> = Vec::new();
            push_unit_part(&mut p, minutes, u_minute.as_slice());
            parts.push(p);
        }
        if seconds > 0 {
            let mut p: Vec<u8> = Vec::new();
            push_unit_part(&mut p, seconds, u_second.as_slice());
            parts.push(p);
        }
        proof {
            assert(parts@.map_values(|p: Vec<u8>| p@) =~= humanize_parts(tsn));
            lemma_unit_part_ascii(days as nat, unit_day());
            lemma_unit_part_ascii(hours as nat, unit_hour());
            lemma_unit_part_ascii(minutes as nat, unit_minute());
            lemma_unit_part_ascii(seconds as nat, unit_second());
        }
        let ghost pviews = parts@.map_values(|p: Vec<u8>| p@);
        let mut bytes: Vec<u8> = Vec::new();
        if parts.len() == 0 {
            bytes.push(48);
            bytes.push(32);
            bytes.push(115);
            bytes.push(101);
            bytes.push(99);
            bytes.push(111);
            bytes.push(110);
            bytes.push(100);
            bytes.push(115);
            proof {
                assert(bytes@ =~= spec_humanize(tsn));
            }
        } else if parts.len() == 1 {
            crate::strutil::push_bytes(&mut bytes, parts[0].as_slice());
            proof {
                assert(bytes@ =~= spec_humanize(tsn));
            }
        } else {
            let upto: usize = parts.len() - 1;
            let mut i: usize = 0;
            while i < upto
                invariant
                    upto == parts@.len() - 1,
                    parts@.len() >= 2,
                    i <= upto,
                    pviews == parts@.map_values(|p: Vec<u8>| p@),
                    i >= 1 ==> bytes@ == join_comma(pviews.subrange(0, i as int)),
                    i == 0 ==> bytes@ == Seq::<u8>::empty(),
                decreases upto - i,
            {
                if i > 0 {
                    bytes.push(44);
                    bytes.push(32);
                }
                crate::strutil::push_bytes(&mut bytes, parts[i].as_slice());
                i = i + 1;
                proof {
                    assert(pviews.subrange(0, i as int).drop_last() =~= pviews.subrange(
                        0,
                        i - 1,
                    ));
                    assert(pviews.subrange(0, i as int).last() == pviews[i - 1]);
                    assert(bytes@ =~= join_comma(pviews.subrange(0, i as int)));
                }
            }
            bytes.push(32);
            bytes.push(97);
            bytes.push(110);
            bytes.push(100);
            bytes.push(32);
            crate::strutil::push_bytes(&mut bytes, parts[upto].as_slice());
            proof {
                assert(pviews.subrange(0, upto as int) =~= pviews.drop_last());
                assert(bytes@ =~= spec_humanize(tsn));
            }
        }
        proof {
            assert forall|k: int| 0 <= k < bytes@.len() implies #[trigger] bytes@[k] < 128 by {
                lemma_humanize_ascii(tsn);
            }
        }
        crate::strutil::ascii_string(&bytes)
    }
}

/// The humanized rendering is ASCII.
proof fn lemma_humanize_ascii(ts: nat)
    ensures
        forall|i: int| 0 <= i < spec_humanize(ts).len() ==> #[trigger] spec_humanize(ts)[i]
            < 128,
{
    let parts = humanize_parts(ts);
    lemma_unit_part_ascii(ts / 86400, unit_day());
    lemma_unit_part_ascii((ts % 86400) / 3600, unit_hour());
    lemma_unit_part_ascii((ts % 3600) / 60, unit_minute());
    lemma_unit_part_ascii(ts % 60, unit_second());
    lemma_join_ascii(parts);
    if parts.len() > 1 {
        lemma_join_ascii(parts.drop_last());
    }
}

/// Joining ASCII components yields ASCII bytes.
proof fn lemma_join_ascii(parts: Seq<Seq<u8>>)
    requires
        forall|i: int, j: int|
            0 <= i < parts.len() && 0 <= j < parts[i].len() ==> #[trigger] parts[i][j] < 128,
    ensures
        forall|k: int| 0 <= k < join_comma(parts).len() ==> #[trigger] join_comma(parts)[k]
            < 128,
    decreases parts.len(),
{
    if parts.len() <= 1 {
        assert forall|k: int| 0 <= k < join_comma(parts).len() implies #[trigger] join_comma(
            parts,
        )[k] < 128 by {
            if parts.len() == 1 {
                assert(join_comma(parts)[k] == parts[0][k]);
            }
        }
    } else {
        assert forall|i: int, j: int|
            0 <= i < parts.drop_last().len() && 0 <= j < parts.drop_last()[i].len() implies
            #[trigger] parts.drop_last()[i][j] < 128 by {
            assert(parts.drop_last()[i] == parts[i]);
        }
        lemma_join_ascii(parts.drop_last());
        let pre = join_comma(parts.drop_last());
        assert forall|k: int| 0 <= k < join_comma(parts).len() implies #[trigger] join_comma(
            parts,
        )[k] < 128 by {
            if k < pre.len() {
                assert(join_comma(parts)[k] == pre[k]);
            } else if k >= pre.len() + 2 {
                assert(join_comma(parts)[k] == parts.last()[k - pre.len() - 2]);
                assert(parts[parts.len() - 1][k - pre.len() - 2] < 128);
            }
        }
    }
}

} // verus!
