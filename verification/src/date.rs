//! Log timestamps as plain calendar fields.
//!
//! A [`LogDate`] holds a civil date and time of day.  The conversions here
//! are exact: building a date from a count of seconds since the Unix epoch
//! is proved to invert [`spec_epoch_secs`], and rendering and parsing are
//! specified character by character.

use vstd::prelude::*;

use crate::error::LogError;
use crate::text::{all_digits, digits_val, is_digit, lemma_count_char_concat,
    lemma_count_char_single, lemma_count_char_zero, lemma_digit_char_value, parse_u64, push_char,
    push_two_digits, spec_count_char, spec_dec, spec_digit_char, spec_two_digits, substring};

verus! {

/// A log timestamp: a civil date with nanosecond time of day.
#[derive(Copy, Clone, Debug, Eq, PartialEq, Structural, Hash)]
pub struct LogDate {
    /// 0...999999999
    pub nano: u32,
    /// 0...59
    pub sec: u8,
    /// 0...59
    pub min: u8,
    /// 0...23
    pub hour: u8,
    /// 1...31
    pub day: u8,
    /// 1...12
    pub mon: u8,
    /// 1970...9999
    pub year: u16,
}

/// Is `y` a leap year of the Gregorian calendar?
pub open spec fn spec_is_leap(y: nat) -> bool {
    y % 4 == 0 && (y % 100 != 0 || y % 400 == 0)
}

/// The number of days of month `m` (1-based) in year `y`.
pub open spec fn spec_days_in_mon(m: nat, y: nat) -> nat {
    if m == 2 {
        if spec_is_leap(y) {
            29
        } else {
            28
        }
    } else if m == 4 || m == 6 || m == 9 || m == 11 {
        30
    } else {
        31
    }
}

/// The number of days of the months before month `m` (1-based) in year `y`.
pub open spec fn spec_ydays_before(m: nat, y: nat) -> nat
    decreases m,
{
    if m <= 1 {
        0
    } else {
        spec_ydays_before((m - 1) as nat, y) + spec_days_in_mon((m - 1) as nat, y)
    }
}

/// The number of days in year `y`.
pub open spec fn spec_year_len(y: nat) -> nat {
    if spec_is_leap(y) {
        366
    } else {
        365
    }
}

/// The number of days between 1970-01-01 and the start of year `y`.
pub open spec fn spec_days_before_year(y: nat) -> nat
    decreases y,
{
    if y <= 1970 {
        0
    } else {
        spec_days_before_year((y - 1) as nat) + spec_year_len((y - 1) as nat)
    }
}

/// The count of seconds from the Unix epoch to the timestamp `d`
/// (whole seconds; the nanosecond field does not enter).
pub open spec fn spec_epoch_secs(d: LogDate) -> int {
    (spec_days_before_year(d.year as nat) + spec_ydays_before(d.mon as nat, d.year as nat)
        + d.day - 1) * 86400 + d.hour * 3600 + d.min * 60 + d.sec
}

/// The year that day number `days` (counted from the start of year `y`)
/// falls in, with the days left over within that year.
pub open spec fn spec_year_of(days: nat, y: nat) -> (nat, nat)
    decreases days,
{
    if days < spec_year_len(y) {
        (y, days)
    } else {
        spec_year_of((days - spec_year_len(y)) as nat, y + 1)
    }
}

/// The month that day number `days` (counted from the start of month `m`
/// of year `y`) falls in, with the days left over within that month.
pub open spec fn spec_mon_of(days: nat, m: nat, y: nat) -> (nat, nat)
    decreases 12 - m,
{
    if m >= 12 || days < spec_days_in_mon(m, y) {
        (m, days)
    } else {
        spec_mon_of((days - spec_days_in_mon(m, y)) as nat, m + 1, y)
    }
}

/// The timestamp `secs` seconds and `nanos` nanoseconds after the Unix
/// epoch, as calendar fields.
pub open spec fn spec_date_of_epoch(secs: nat, nanos: nat) -> LogDate {
    let days = secs / 86400;
    let sod = secs % 86400;
    let (y, yd) = spec_year_of(days, 1970);
    let (m, md) = spec_mon_of(yd, 1, y);
    LogDate {
        nano: nanos as u32,
        sec: (sod % 3600 % 60) as u8,
        min: (sod % 3600 / 60) as u8,
        hour: (sod / 3600) as u8,
        day: (md + 1) as u8,
        mon: m as u8,
        year: y as u16,
    }
}

/// The record's epoch second moved by the zone offset `off`, clamped into
/// the year span this library supports.
pub open spec fn spec_shift_sec(now_sec: u64, off: int) -> nat {
    let s = now_sec + off;
    if s < 0 {
        0
    } else if s > 253402300799 {
        253402300799
    } else {
        s as nat
    }
}

/// A subsecond field clamped below one second.
pub open spec fn spec_clamp_nano(n: u32) -> nat {
    if n < 1000000000 {
        n as nat
    } else {
        999999999
    }
}

/// The calendar fields a record's timestamp renders as, under zone offset
/// `off`.
pub open spec fn spec_record_date(rec: crate::appender::FastLogRecord, off: int) -> LogDate {
    spec_date_of_epoch(spec_shift_sec(rec.now_sec, off), spec_clamp_nano(rec.now_nano))
}

/// The six-digit zero-padded decimal rendering of `n` (modulo 10^6).
pub open spec fn spec_six_digits(n: nat) -> Seq<char> {
    seq![
        spec_digit_char(n / 100000 % 10),
        spec_digit_char(n / 10000 % 10),
        spec_digit_char(n / 1000 % 10),
        spec_digit_char(n / 100 % 10),
        spec_digit_char(n / 10 % 10),
        spec_digit_char(n % 10),
    ]
}

/// The timestamp `d` rendered for an archive file name: like the plain
/// rendering, but colon-free and with microsecond precision, so that the
/// lexicographic order of archive names is their chronological order.
pub open spec fn spec_archive_stamp(d: LogDate) -> Seq<char> {
    spec_four_digits(d.year as nat) + seq!['-'] + spec_two_digits(d.mon as nat) + seq!['-']
        + spec_two_digits(d.day as nat) + seq!['T'] + spec_two_digits(d.hour as nat) + seq!['-']
        + spec_two_digits(d.min as nat) + seq!['-'] + spec_two_digits(d.sec as nat) + seq!['.']
        + spec_six_digits((d.nano / 1000) as nat) + seq!['.', 'l', 'o', 'g']
}

/// Do the fields of `d` name a real calendar instant?  The time-of-day
/// fields are in range, the day exists in its month, the year is within
/// the supported span, and no fraction of a second is carried.
pub open spec fn spec_is_valid(d: LogDate) -> bool {
    &&& d.sec < 60
    &&& d.min < 60
    &&& d.hour < 24
    &&& 0 < d.day
    &&& d.day <= spec_days_in_mon(d.mon as nat, d.year as nat)
    &&& 0 < d.mon <= 12
    &&& 1970 <= d.year <= 9999
    &&& d.nano == 0
}

/// Is `y` a leap year?
pub fn is_leap_year(y: u16) -> (r: bool)
    ensures
        r == spec_is_leap(y as nat),
{
    y % 4 == 0 && (y % 100 != 0 || y % 400 == 0)
}

/// The number of days of month `m` (1-based) in year `y`.
fn days_in_mon(m: u8, y: u16) -> (r: u8)
    ensures
        r == spec_days_in_mon(m as nat, y as nat),
        28 <= r <= 31,
{
    if m == 2 {
        if is_leap_year(y) {
            29
        } else {
            28
        }
    } else if m == 4 || m == 6 || m == 9 || m == 11 {
        30
    } else {
        31
    }
}

impl LogDate {
    /// Do the fields of this timestamp name a real calendar instant, with
    /// no fractional second?
    pub fn is_valid(&self) -> (r: bool)
        ensures
            r == spec_is_valid(*self),
    {
        self.sec < 60 && self.min < 60 && self.hour < 24 && self.day > 0 && self.mon > 0
            && self.mon <= 12 && self.day <= days_in_mon(self.mon, self.year) && self.year >= 1970
            && self.year <= 9999 && self.nano == 0
    }

    /// The timestamp `secs` seconds and `nanos` nanoseconds after the Unix
    /// epoch: the unique field assignment in range whose second count is
    /// `secs` again.
    pub fn from_epoch(secs: u64, nanos: u32) -> (r: LogDate)
        requires
            secs < 253402300800,
            nanos < 1000000000,
        ensures
            spec_epoch_secs(r) == secs,
            r == spec_date_of_epoch(secs as nat, nanos as nat),
            r.nano == nanos,
            r.sec < 60,
            r.min < 60,
            r.hour < 24,
            0 < r.day,
            r.day <= spec_days_in_mon(r.mon as nat, r.year as nat),
            0 < r.mon <= 12,
            r.year >= 1970,
    {
        let days_total: u64 = secs / 86400;
        let secs_of_day: u64 = secs % 86400;
        assert(secs == 86400 * days_total + secs_of_day) by {
            vstd::arithmetic::div_mod::lemma_fundamental_div_mod(secs as int, 86400);
        }
        let mut year: u16 = 1970;
        let mut days: u64 = days_total;
        loop
            invariant
                1970 <= year,
                spec_days_before_year(year as nat) + days == days_total,
                days_total <= 2932896,
                spec_year_of(days_total as nat, 1970) == spec_year_of(days as nat, year as nat),
            ensures
                1970 <= year,
                spec_days_before_year(year as nat) + days == days_total,
                days < spec_year_len(year as nat),
                spec_year_of(days_total as nat, 1970) == (year as nat, days as nat),
            decreases days,
        {
            proof {
                lemma_days_before_year_lower(year as nat);
            }
            let ylen: u64 = if is_leap_year(year) {
                366
            } else {
                365
            };
            if days < ylen {
                break;
            }
            days = days - ylen;
            year = year + 1;
        }
        let ghost ydays = days;
        let mut mon: u8 = 1;
        loop
            invariant
                1 <= mon <= 12,
                spec_ydays_before(mon as nat, year as nat) + days == days_total
                    - spec_days_before_year(year as nat),
                spec_ydays_before(mon as nat, year as nat) + days < spec_year_len(year as nat),
                spec_mon_of(ydays as nat, 1, year as nat) == spec_mon_of(
                    days as nat,
                    mon as nat,
                    year as nat,
                ),
            ensures
                1 <= mon <= 12,
                spec_ydays_before(mon as nat, year as nat) + days == days_total
                    - spec_days_before_year(year as nat),
                days < spec_days_in_mon(mon as nat, year as nat),
                spec_mon_of(ydays as nat, 1, year as nat) == (mon as nat, days as nat),
            decreases 12 - mon,
        {
            let mlen: u8 = days_in_mon(mon, year);
            if days < mlen as u64 {
                break;
            }
            proof {
                if mon == 12 {
                    lemma_ydays_total(year as nat);
                }
            }
            days = days - mlen as u64;
            mon = mon + 1;
        }
        let day: u8 = (days + 1) as u8;
        let hour: u8 = (secs_of_day / 3600) as u8;
        let rem: u64 = secs_of_day % 3600;
        let min: u8 = (rem / 60) as u8;
        let sec: u8 = (rem % 60) as u8;
        proof {
            vstd::arithmetic::div_mod::lemma_fundamental_div_mod(secs_of_day as int, 3600);
            vstd::arithmetic::div_mod::lemma_fundamental_div_mod(rem as int, 60);
            assert(spec_year_of((secs as nat) / 86400, 1970) == (year as nat, ydays as nat));
        }
        LogDate { nano: nanos, sec, min, hour, day, mon, year }
    }
}

/// Ten to the power `n`.
pub open spec fn spec_pow10(n: nat) -> nat
    decreases n,
{
    if n == 0 {
        1
    } else {
        10 * spec_pow10((n - 1) as nat)
    }
}

/// A string of `n` digits reads as a number below ten to the `n`.
proof fn lemma_digits_val_lt_pow10(s: Seq<char>)
    requires
        all_digits(s),
    ensures
        digits_val(s) < spec_pow10(s.len()),
    decreases s.len(),
{
    if s.len() > 0 {
        lemma_digits_val_lt_pow10(s.drop_last());
        assert(is_digit(s.last()));
    }
}

/// The four-digit zero-padded decimal rendering of `n` (modulo 10000).
pub open spec fn spec_four_digits(n: nat) -> Seq<char> {
    seq![
        spec_digit_char(n / 1000 % 10),
        spec_digit_char(n / 100 % 10),
        spec_digit_char(n / 10 % 10),
        spec_digit_char(n % 10),
    ]
}

/// The nine-digit zero-padded decimal rendering of `n` (modulo 10^9).
pub open spec fn spec_nine_digits(n: nat) -> Seq<char> {
    seq![
        spec_digit_char(n / 100000000 % 10),
        spec_digit_char(n / 10000000 % 10),
        spec_digit_char(n / 1000000 % 10),
        spec_digit_char(n / 100000 % 10),
        spec_digit_char(n / 10000 % 10),
        spec_digit_char(n / 1000 % 10),
        spec_digit_char(n / 100 % 10),
        spec_digit_char(n / 10 % 10),
        spec_digit_char(n % 10),
    ]
}

/// The rendering of `d` in the shape `0000-00-00 00:00:00.000000000`.
pub open spec fn spec_display_date(d: LogDate) -> Seq<char> {
    spec_four_digits(d.year as nat) + seq!['-'] + spec_two_digits(d.mon as nat) + seq!['-']
        + spec_two_digits(d.day as nat) + seq![' '] + spec_two_digits(d.hour as nat) + seq![':']
        + spec_two_digits(d.min as nat) + seq![':'] + spec_two_digits(d.sec as nat) + seq!['.']
        + spec_nine_digits(d.nano as nat)
}

/// The number read from the digit range `[a, b)` of `s`; zero when the
/// string is too short for a date (five characters or fewer), when the
/// range runs past its end, or when the range holds a non-digit.
pub open spec fn spec_date_field(s: Seq<char>, a: int, b: int) -> nat {
    if s.len() > 4 && b <= s.len() {
        if all_digits(s.subrange(a, b)) {
            digits_val(s.subrange(a, b))
        } else {
            0
        }
    } else {
        0
    }
}

/// The date read from `s` in the shape `0000-00-00 00:00:00.000000000`:
/// each field parsed from its fixed character range, unparsable or missing
/// fields left zero.  Separator characters are not inspected.
pub open spec fn spec_parse_date(s: Seq<char>) -> LogDate {
    LogDate {
        nano: spec_date_field(s, 20, 29) as u32,
        sec: spec_date_field(s, 17, 19) as u8,
        min: spec_date_field(s, 14, 16) as u8,
        hour: spec_date_field(s, 11, 13) as u8,
        day: spec_date_field(s, 8, 10) as u8,
        mon: spec_date_field(s, 5, 7) as u8,
        year: spec_date_field(s, 0, 4) as u16,
    }
}

impl LogDate {
    /// Render this timestamp in the shape `0000-00-00 00:00:00.000000000`.
    pub fn to_string(&self) -> (r: String)
        ensures
            r@ == spec_display_date(*self),
    {
        let mut out: String = String::new();
        push_four_digits(&mut out, self.year);
        push_char(&mut out, '-');
        push_two_digits(&mut out, self.mon);
        push_char(&mut out, '-');
        push_two_digits(&mut out, self.day);
        push_char(&mut out, ' ');
        push_two_digits(&mut out, self.hour);
        push_char(&mut out, ':');
        push_two_digits(&mut out, self.min);
        push_char(&mut out, ':');
        push_two_digits(&mut out, self.sec);
        push_char(&mut out, '.');
        push_nine_digits(&mut out, self.nano);
        proof {
            assert(out@ =~= spec_display_date(*self));
        }
        out
    }

    /// Render this timestamp for an archive file name, with a `.log`
    /// extension: `0000-00-00T00-00-00.000000.log`.
    pub fn archive_stamp(&self) -> (r: String)
        ensures
            r@ == spec_archive_stamp(*self),
    {
        let mut out: String = String::new();
        push_four_digits(&mut out, self.year);
        push_char(&mut out, '-');
        push_two_digits(&mut out, self.mon);
        push_char(&mut out, '-');
        push_two_digits(&mut out, self.day);
        push_char(&mut out, 'T');
        push_two_digits(&mut out, self.hour);
        push_char(&mut out, '-');
        push_two_digits(&mut out, self.min);
        push_char(&mut out, '-');
        push_two_digits(&mut out, self.sec);
        push_char(&mut out, '.');
        push_six_digits(&mut out, self.nano / 1000);
        push_char(&mut out, '.');
        push_char(&mut out, 'l');
        push_char(&mut out, 'o');
        push_char(&mut out, 'g');
        proof {
            assert(out@ =~= spec_archive_stamp(*self));
        }
        out
    }

    /// Read a timestamp written in the shape `0000-00-00 00:00:00.000000000`:
    /// each field comes from its fixed character range, and a field whose
    /// range is missing or holds a non-digit is left zero.
    pub fn from_str(s: &str) -> (r: Result<LogDate, LogError>)
        ensures
            r == Ok::<LogDate, LogError>(spec_parse_date(s@)),
    {
        proof {
            reveal_with_fuel(spec_pow10, 10);
        }
        let year: u16 = date_field(s, 0, 4) as u16;
        let mon: u8 = date_field(s, 5, 7) as u8;
        let day: u8 = date_field(s, 8, 10) as u8;
        let hour: u8 = date_field(s, 11, 13) as u8;
        let min: u8 = date_field(s, 14, 16) as u8;
        let sec: u8 = date_field(s, 17, 19) as u8;
        let nano: u32 = date_field(s, 20, 29) as u32;
        Ok(LogDate { nano, sec, min, hour, day, mon, year })
    }
}

/// Push `n` as exactly four decimal digits (modulo 10000) onto `out`.
pub fn push_four_digits(out: &mut String, n: u16)
    ensures
        final(out)@ == old(out)@ + spec_four_digits(n as nat),
{
    push_char(out, (48 + (n / 1000 % 10) as u8) as char);
    push_char(out, (48 + (n / 100 % 10) as u8) as char);
    push_char(out, (48 + (n / 10 % 10) as u8) as char);
    push_char(out, (48 + (n % 10) as u8) as char);
    proof {
        assert(out@ =~= old(out)@ + spec_four_digits(n as nat));
    }
}

/// Push `n` as exactly nine decimal digits (modulo 10^9) onto `out`.
fn push_nine_digits(out: &mut String, n: u32)
    ensures
        final(out)@ == old(out)@ + spec_nine_digits(n as nat),
{
    push_char(out, (48 + (n / 100000000 % 10) as u8) as char);
    push_char(out, (48 + (n / 10000000 % 10) as u8) as char);
    push_char(out, (48 + (n / 1000000 % 10) as u8) as char);
    push_char(out, (48 + (n / 100000 % 10) as u8) as char);
    push_char(out, (48 + (n / 10000 % 10) as u8) as char);
    push_char(out, (48 + (n / 1000 % 10) as u8) as char);
    push_char(out, (48 + (n / 100 % 10) as u8) as char);
    push_char(out, (48 + (n / 10 % 10) as u8) as char);
    push_char(out, (48 + (n % 10) as u8) as char);
    proof {
        assert(out@ =~= old(out)@ + spec_nine_digits(n as nat));
    }
}

/// Push `n` as exactly six decimal digits (modulo 10^6) onto `out`.
fn push_six_digits(out: &mut String, n: u32)
    ensures
        final(out)@ == old(out)@ + spec_six_digits(n as nat),
{
    push_char(out, (48 + (n / 100000 % 10) as u8) as char);
    push_char(out, (48 + (n / 10000 % 10) as u8) as char);
    push_char(out, (48 + (n / 1000 % 10) as u8) as char);
    push_char(out, (48 + (n / 100 % 10) as u8) as char);
    push_char(out, (48 + (n / 10 % 10) as u8) as char);
    push_char(out, (48 + (n % 10) as u8) as char);
    proof {
        assert(out@ =~= old(out)@ + spec_six_digits(n as nat));
    }
}

/// The calendar fields of a record timestamp under zone offset `off`.
pub fn local_date(now_sec: u64, now_nano: u32, off: i32) -> (r: LogDate)
    ensures
        r == spec_date_of_epoch(spec_shift_sec(now_sec, off as int), spec_clamp_nano(now_nano)),
{
    let s: i128 = now_sec as i128 + off as i128;
    let shifted: u64 = if s < 0 {
        0
    } else if s > 253402300799 {
        253402300799
    } else {
        s as u64
    };
    let nn: u32 = if now_nano < 1000000000 {
        now_nano
    } else {
        999999999
    };
    LogDate::from_epoch(shifted, nn)
}

/// The number in the character range `[a, b)` of `s`, zero when missing or
/// not all digits; the range may hold at most nine characters.
fn date_field(s: &str, a: usize, b: usize) -> (r: u64)
    requires
        a <= b,
        b - a <= 9,
    ensures
        r == spec_date_field(s@, a as int, b as int),
        r < spec_pow10((b - a) as nat),
{
    proof {
        reveal_with_fuel(spec_pow10, 10);
    }
    let n: usize = s.unicode_len();
    if n <= 4 || b > n {
        return 0;
    }
    let t: String = substring(s, a, b);
    proof {
        if all_digits(t@) {
            lemma_digits_val_lt_pow10(t@);
        }
    }
    match parse_u64(t.as_str()) {
        Some(v) => v,
        None => 0,
    }
}

/// A digit group of width two reads back as the number it rendered.
proof fn lemma_two_digits_roundtrip(x: nat)
    requires
        x <= 99,
    ensures
        all_digits(spec_two_digits(x)),
        digits_val(spec_two_digits(x)) == x,
{
    reveal_with_fuel(digits_val, 4);
    lemma_digit_char_value(x / 10 % 10);
    lemma_digit_char_value(x % 10);
    vstd::arithmetic::div_mod::lemma_fundamental_div_mod(x as int, 10);
    vstd::arithmetic::div_mod::lemma_small_mod(x / 10, 10);
    assert(spec_two_digits(x).drop_last() =~= seq![spec_digit_char(x / 10 % 10)]);
    assert(seq![spec_digit_char(x / 10 % 10)].drop_last() =~= Seq::<char>::empty());
}

/// A digit group of width four reads back as the number it rendered.
proof fn lemma_four_digits_roundtrip(y: nat)
    requires
        y <= 9999,
    ensures
        all_digits(spec_four_digits(y)),
        digits_val(spec_four_digits(y)) == y,
{
    reveal_with_fuel(digits_val, 6);
    lemma_digit_char_value(y / 1000 % 10);
    lemma_digit_char_value(y / 100 % 10);
    lemma_digit_char_value(y / 10 % 10);
    lemma_digit_char_value(y % 10);
    vstd::arithmetic::div_mod::lemma_fundamental_div_mod(y as int, 10);
    vstd::arithmetic::div_mod::lemma_fundamental_div_mod(y as int / 10, 10);
    vstd::arithmetic::div_mod::lemma_fundamental_div_mod(y as int / 100, 10);
    vstd::arithmetic::div_mod::lemma_small_mod(y / 1000, 10);
    let s = spec_four_digits(y);
    assert(s.drop_last() =~= seq![
        spec_digit_char(y / 1000 % 10),
        spec_digit_char(y / 100 % 10),
        spec_digit_char(y / 10 % 10),
    ]);
    assert(s.drop_last().drop_last() =~= seq![
        spec_digit_char(y / 1000 % 10),
        spec_digit_char(y / 100 % 10),
    ]);
    assert(s.drop_last().drop_last().drop_last() =~= seq![spec_digit_char(y / 1000 % 10)]);
    assert(s.drop_last().drop_last().drop_last().drop_last() =~= Seq::<char>::empty());
    assert((y as int / 10) / 10 == y as int / 100) by {
        vstd::arithmetic::div_mod::lemma_div_denominator(y as int, 10, 10);
    }
    assert((y as int / 100) / 10 == y as int / 1000) by {
        vstd::arithmetic::div_mod::lemma_div_denominator(y as int, 100, 10);
    }
}

/// A digit group of width nine reads back as the number it rendered.
proof fn lemma_nine_digits_roundtrip(n: nat)
    requires
        n <= 999999999,
    ensures
        all_digits(spec_nine_digits(n)),
        digits_val(spec_nine_digits(n)) == n,
{
    reveal_with_fuel(digits_val, 11);
    lemma_digit_char_value(n / 100000000 % 10);
    lemma_digit_char_value(n / 10000000 % 10);
    lemma_digit_char_value(n / 1000000 % 10);
    lemma_digit_char_value(n / 100000 % 10);
    lemma_digit_char_value(n / 10000 % 10);
    lemma_digit_char_value(n / 1000 % 10);
    lemma_digit_char_value(n / 100 % 10);
    lemma_digit_char_value(n / 10 % 10);
    lemma_digit_char_value(n % 10);
    vstd::arithmetic::div_mod::lemma_fundamental_div_mod(n as int, 10);
    vstd::arithmetic::div_mod::lemma_fundamental_div_mod(n as int / 10, 10);
    vstd::arithmetic::div_mod::lemma_fundamental_div_mod(n as int / 100, 10);
    vstd::arithmetic::div_mod::lemma_fundamental_div_mod(n as int / 1000, 10);
    vstd::arithmetic::div_mod::lemma_fundamental_div_mod(n as int / 10000, 10);
    vstd::arithmetic::div_mod::lemma_fundamental_div_mod(n as int / 100000, 10);
    vstd::arithmetic::div_mod::lemma_fundamental_div_mod(n as int / 1000000, 10);
    vstd::arithmetic::div_mod::lemma_fundamental_div_mod(n as int / 10000000, 10);
    vstd::arithmetic::div_mod::lemma_small_mod(n / 100000000, 10);
    assert((n as int / 10) / 10 == n as int / 100) by {
        vstd::arithmetic::div_mod::lemma_div_denominator(n as int, 10, 10);
    }
    assert((n as int / 100) / 10 == n as int / 1000) by {
        vstd::arithmetic::div_mod::lemma_div_denominator(n as int, 100, 10);
    }
    assert((n as int / 1000) / 10 == n as int / 10000) by {
        vstd::arithmetic::div_mod::lemma_div_denominator(n as int, 1000, 10);
    }
    assert((n as int / 10000) / 10 == n as int / 100000) by {
        vstd::arithmetic::div_mod::lemma_div_denominator(n as int, 10000, 10);
    }
    assert((n as int / 100000) / 10 == n as int / 1000000) by {
        vstd::arithmetic::div_mod::lemma_div_denominator(n as int, 100000, 10);
    }
    assert((n as int / 1000000) / 10 == n as int / 10000000) by {
        vstd::arithmetic::div_mod::lemma_div_denominator(n as int, 1000000, 10);
    }
    assert((n as int / 10000000) / 10 == n as int / 100000000) by {
        vstd::arithmetic::div_mod::lemma_div_denominator(n as int, 10000000, 10);
    }
    let s = spec_nine_digits(n);
    assert(s.drop_last() =~= seq![
        spec_digit_char(n / 100000000 % 10),
        spec_digit_char(n / 10000000 % 10),
        spec_digit_char(n / 1000000 % 10),
        spec_digit_char(n / 100000 % 10),
        spec_digit_char(n / 10000 % 10),
        spec_digit_char(n / 1000 % 10),
        spec_digit_char(n / 100 % 10),
        spec_digit_char(n / 10 % 10),
    ]);
}

/// Round trip: rendering a timestamp and reading the rendering back
/// yields the very timestamp, for any timestamp whose fields fit their
/// printed widths.
#[verifier::rlimit(100)]
pub proof fn lemma_display_parse_round_trip(d: LogDate)
    requires
        d.year <= 9999,
        d.mon <= 99,
        d.day <= 99,
        d.hour <= 99,
        d.min <= 99,
        d.sec <= 99,
        d.nano <= 999999999,
    ensures
        spec_parse_date(spec_display_date(d)) == d,
{
    let s = spec_display_date(d);
    lemma_four_digits_roundtrip(d.year as nat);
    lemma_two_digits_roundtrip(d.mon as nat);
    lemma_two_digits_roundtrip(d.day as nat);
    lemma_two_digits_roundtrip(d.hour as nat);
    lemma_two_digits_roundtrip(d.min as nat);
    lemma_two_digits_roundtrip(d.sec as nat);
    lemma_nine_digits_roundtrip(d.nano as nat);
    assert(s.len() == 29);
    assert(s.subrange(0, 4) =~= spec_four_digits(d.year as nat));
    assert(s.subrange(5, 7) =~= spec_two_digits(d.mon as nat));
    assert(s.subrange(8, 10) =~= spec_two_digits(d.day as nat));
    assert(s.subrange(11, 13) =~= spec_two_digits(d.hour as nat));
    assert(s.subrange(14, 16) =~= spec_two_digits(d.min as nat));
    assert(s.subrange(17, 19) =~= spec_two_digits(d.sec as nat));
    assert(s.subrange(20, 29) =~= spec_nine_digits(d.nano as nat));
}

/// No character of a four-digit group is a newline.
proof fn lemma_four_digits_no_newline(n: nat)
    ensures
        spec_count_char(spec_four_digits(n), '\n') == 0,
{
    lemma_digit_char_value(n / 1000 % 10);
    lemma_digit_char_value(n / 100 % 10);
    lemma_digit_char_value(n / 10 % 10);
    lemma_digit_char_value(n % 10);
    lemma_count_char_zero(spec_four_digits(n), '\n');
}

/// No character of a two-digit group is a newline.
proof fn lemma_two_digits_no_newline(n: nat)
    ensures
        spec_count_char(spec_two_digits(n), '\n') == 0,
{
    lemma_digit_char_value(n / 10 % 10);
    lemma_digit_char_value(n % 10);
    lemma_count_char_zero(spec_two_digits(n), '\n');
}

/// No character of a nine-digit group is a newline.
proof fn lemma_nine_digits_no_newline(n: nat)
    ensures
        spec_count_char(spec_nine_digits(n), '\n') == 0,
{
    lemma_digit_char_value(n / 100000000 % 10);
    lemma_digit_char_value(n / 10000000 % 10);
    lemma_digit_char_value(n / 1000000 % 10);
    lemma_digit_char_value(n / 100000 % 10);
    lemma_digit_char_value(n / 10000 % 10);
    lemma_digit_char_value(n / 1000 % 10);
    lemma_digit_char_value(n / 100 % 10);
    lemma_digit_char_value(n / 10 % 10);
    lemma_digit_char_value(n % 10);
    lemma_count_char_zero(spec_nine_digits(n), '\n');
}

/// A rendered timestamp holds no newline.
pub proof fn lemma_display_date_no_newline(d: LogDate)
    ensures
        spec_count_char(spec_display_date(d), '\n') == 0,
{
    let c = '\n';
    lemma_count_char_single('-', c);
    lemma_count_char_single(' ', c);
    lemma_count_char_single(':', c);
    lemma_count_char_single('.', c);
    let a1 = spec_four_digits(d.year as nat);
    let a2 = a1 + seq!['-'];
    let a3 = a2 + spec_two_digits(d.mon as nat);
    let a4 = a3 + seq!['-'];
    let a5 = a4 + spec_two_digits(d.day as nat);
    let a6 = a5 + seq![' '];
    let a7 = a6 + spec_two_digits(d.hour as nat);
    let a8 = a7 + seq![':'];
    let a9 = a8 + spec_two_digits(d.min as nat);
    let a10 = a9 + seq![':'];
    let a11 = a10 + spec_two_digits(d.sec as nat);
    let a12 = a11 + seq!['.'];
    lemma_four_digits_no_newline(d.year as nat);
    lemma_count_char_concat(a1, seq!['-'], c);
    lemma_two_digits_no_newline(d.mon as nat);
    lemma_count_char_concat(a2, spec_two_digits(d.mon as nat), c);
    lemma_count_char_concat(a3, seq!['-'], c);
    lemma_two_digits_no_newline(d.day as nat);
    lemma_count_char_concat(a4, spec_two_digits(d.day as nat), c);
    lemma_count_char_concat(a5, seq![' '], c);
    lemma_two_digits_no_newline(d.hour as nat);
    lemma_count_char_concat(a6, spec_two_digits(d.hour as nat), c);
    lemma_count_char_concat(a7, seq![':'], c);
    lemma_two_digits_no_newline(d.min as nat);
    lemma_count_char_concat(a8, spec_two_digits(d.min as nat), c);
    lemma_count_char_concat(a9, seq![':'], c);
    lemma_two_digits_no_newline(d.sec as nat);
    lemma_count_char_concat(a10, spec_two_digits(d.sec as nat), c);
    lemma_count_char_concat(a11, seq!['.'], c);
    lemma_nine_digits_no_newline(d.nano as nat);
    lemma_count_char_concat(a12, spec_nine_digits(d.nano as nat), c);
}

/// The decimal rendering of a number holds no newline.
pub proof fn lemma_dec_no_newline(n: nat)
    ensures
        spec_count_char(spec_dec(n), '\n') == 0,
    decreases n,
{
    lemma_digit_char_value(n % 10);
    if n < 10 {
        assert(spec_dec(n) == seq![spec_digit_char(n)]);
        lemma_count_char_single(spec_digit_char(n), '\n');
    } else {
        lemma_dec_no_newline(n / 10);
        assert(spec_dec(n) == spec_dec(n / 10).push(spec_digit_char(n % 10)));
        assert(spec_dec(n).drop_last() =~= spec_dec(n / 10));
        assert(spec_dec(n).last() == spec_digit_char(n % 10));
        assert(spec_count_char(spec_dec(n).drop_last(), '\n') == 0);
    }
}

/// Each year has at least 365 days, so the span since 1970 bounds the year.
proof fn lemma_days_before_year_lower(y: nat)
    requires
        y >= 1970,
    ensures
        spec_days_before_year(y) >= 365 * (y - 1970),
    decreases y,
{
    if y > 1970 {
        lemma_days_before_year_lower((y - 1) as nat);
    }
}

/// The months of a year sum to its length.
proof fn lemma_ydays_total(y: nat)
    ensures
        spec_ydays_before(13, y) == spec_year_len(y),
{
    reveal_with_fuel(spec_ydays_before, 14);
}

} // verus!
