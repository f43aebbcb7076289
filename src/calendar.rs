//! The proleptic Gregorian calendar at minute resolution, and the conversions
//! between calendar fields and the counter's unit: minutes since
//! 1970-01-01T00:00 UTC. The conversions themselves are chrono's.
use chrono::{DateTime, Datelike, Months, NaiveDate, Timelike};
use std::fmt::Write;
use vstd::prelude::*;

verus! {

/// Earliest year that chrono's dates reach.
pub const MIN_YEAR: i32 = -262143;

/// Latest year that chrono's dates reach.
pub const MAX_YEAR: i32 = 262142;

pub const MINUTES_PER_HOUR: u32 = 60;

pub const MINUTES_PER_DAY: u32 = 1440;

/// A calendar date.
#[derive(Clone, Copy, Debug, PartialEq, Eq, Structural)]
pub struct CivilDate {
    pub year: i32,
    pub month: u32,
    pub day: u32,
}

/// A calendar date with a time of day at minute resolution.
#[derive(Clone, Copy, Debug, PartialEq, Eq, Structural)]
pub struct CivilDateTime {
    pub date: CivilDate,
    pub hour: u32,
    pub minute: u32,
}

pub open spec fn is_leap_year(y: int) -> bool {
    y % 4 == 0 && (y % 100 != 0 || y % 400 == 0)
}

pub open spec fn days_in_month(y: int, m: int) -> int {
    if m == 2 {
        if is_leap_year(y) {
            29
        } else {
            28
        }
    } else if m == 4 || m == 6 || m == 9 || m == 11 {
        30
    } else {
        31
    }
}

pub open spec fn days_in_year(y: int) -> int {
    if is_leap_year(y) {
        366
    } else {
        365
    }
}

pub open spec fn is_valid_date(d: CivilDate) -> bool {
    &&& MIN_YEAR <= d.year <= MAX_YEAR
    &&& 1 <= d.month <= 12
    &&& 1 <= d.day <= days_in_month(d.year as int, d.month as int)
}

pub open spec fn is_valid_datetime(c: CivilDateTime) -> bool {
    is_valid_date(c.date) && c.hour < 24 && c.minute < 60
}

/// Leap years strictly before year `y`, counted from year 0 and shifted by a
/// constant for years before it; only differences of this count matter.
pub open spec fn leap_years_before(y: int) -> int {
    (y - 1) / 4 - (y - 1) / 100 + (y - 1) / 400
}

/// Days from 1970-01-01 to the first day of year `y`.
pub open spec fn days_before_year(y: int) -> int {
    365 * (y - 1970) + leap_years_before(y) - leap_years_before(1970)
}

/// Days from the first day of year `y` to the first day of month `m`.
pub open spec fn days_before_month(y: int, m: int) -> int {
    let common: int = if m == 1 {
        0
    } else if m == 2 {
        31
    } else if m == 3 {
        59
    } else if m == 4 {
        90
    } else if m == 5 {
        120
    } else if m == 6 {
        151
    } else if m == 7 {
        181
    } else if m == 8 {
        212
    } else if m == 9 {
        243
    } else if m == 10 {
        273
    } else if m == 11 {
        304
    } else {
        334
    };
    if m > 2 && is_leap_year(y) {
        common + 1
    } else {
        common
    }
}

/// Days from 1970-01-01 to a date; negative before it.
pub open spec fn day_number(d: CivilDate) -> int {
    days_before_year(d.year as int) + days_before_month(d.year as int, d.month as int) + d.day - 1
}

/// Minutes from 1970-01-01T00:00 to a date and time.
pub open spec fn minute_number(c: CivilDateTime) -> int {
    day_number(c.date) * MINUTES_PER_DAY + c.hour * MINUTES_PER_HOUR + c.minute
}

/// The date and time `m` minutes after 1970-01-01T00:00.
pub open spec fn civil_of(m: int) -> CivilDateTime {
    choose|c: CivilDateTime| is_valid_datetime(c) && minute_number(c) == m
}

/// A date moved by `k` whole months; a day that the target month lacks
/// becomes that month's last day.
pub open spec fn months_shifted(d: CivilDate, k: int) -> CivilDate {
    let total = d.year * 12 + (d.month - 1) + k;
    let y = total / 12;
    let m = total % 12 + 1;
    let last = days_in_month(y, m);
    CivilDate { year: y as i32, month: m as u32, day: if d.day <= last { d.day } else { last as u32 } }
}

/// A valid date moved by `k` months, when the result stays in range.
pub open spec fn shift_result(d: CivilDate, k: int) -> Option<CivilDate> {
    if is_valid_date(d) && is_valid_date(months_shifted(d, k)) {
        Some(months_shifted(d, k))
    } else {
        None
    }
}

/// The nearest minute count that the counter can hold.
pub open spec fn clamp_to_counter(m: int) -> u32 {
    if m < 0 {
        0
    } else if m > u32::MAX {
        u32::MAX
    } else {
        m as u32
    }
}

/// chrono's rendering of the UTC instant `seconds` after 1970-01-01T00:00
/// with a strftime-style pattern; `None` when the pattern does not parse.
pub uninterp spec fn strftime(pattern: Seq<char>, seconds: int) -> Option<Seq<char>>;

/// A numeric field that chrono's strftime patterns know: year, month, day,
/// hour and minute.
pub open spec fn is_field_spec(c: char) -> bool {
    c == 'Y' || c == 'm' || c == 'd' || c == 'H' || c == 'M'
}

/// A pattern whose every `%` starts one of those fields, possibly marked
/// unpadded with `-`.
pub open spec fn is_simple_pattern(p: Seq<char>) -> bool {
    forall|i: int|
        0 <= i < p.len() && #[trigger] p[i] == '%' ==> (i + 1 < p.len() && is_field_spec(p[i + 1]))
            || (i + 2 < p.len() && p[i + 1] == '-' && is_field_spec(p[i + 2]))
}

/// The decimal digit character of `d`, for `0 <= d < 10`.
pub open spec fn digit_char(d: int) -> char {
    if d == 0 {
        '0'
    } else if d == 1 {
        '1'
    } else if d == 2 {
        '2'
    } else if d == 3 {
        '3'
    } else if d == 4 {
        '4'
    } else if d == 5 {
        '5'
    } else if d == 6 {
        '6'
    } else if d == 7 {
        '7'
    } else if d == 8 {
        '8'
    } else {
        '9'
    }
}

/// The last `width` decimal digits of a non-negative `n`, zero-padded.
pub open spec fn padded_decimal(n: int, width: nat) -> Seq<char>
    decreases width,
{
    if width == 0 {
        Seq::empty()
    } else {
        padded_decimal(n / 10, (width - 1) as nat).push(digit_char(n % 10))
    }
}

/// What chrono writes for a pattern made of one numeric field, or of literal
/// text only, at the date and time `c`: the year with four digits while it has
/// at most four, the other fields with two, literal text as it stands.
pub open spec fn field_rendering(pattern: Seq<char>, c: CivilDateTime) -> Option<Seq<char>> {
    if pattern == seq!['%', 'Y'] {
        if 0 <= c.date.year <= 9999 {
            Some(padded_decimal(c.date.year as int, 4))
        } else {
            None
        }
    } else if pattern == seq!['%', 'm'] {
        Some(padded_decimal(c.date.month as int, 2))
    } else if pattern == seq!['%', 'd'] {
        Some(padded_decimal(c.date.day as int, 2))
    } else if pattern == seq!['%', 'H'] {
        Some(padded_decimal(c.hour as int, 2))
    } else if pattern == seq!['%', 'M'] {
        Some(padded_decimal(c.minute as int, 2))
    } else if forall|i: int| 0 <= i < pattern.len() ==> pattern[i] != '%' {
        Some(pattern)
    } else {
        None
    }
}

pub open spec fn text_of(r: Option<String>) -> Option<Seq<char>> {
    match r {
        Some(s) => Some(s@),
        None => None,
    }
}

/// Relies on chrono's `DateTime::from_timestamp`: the UTC date and time that
/// many seconds after 1970-01-01T00:00, for every count of seconds up to
/// 262,000 years either way.
#[verifier::external_body]
fn civil_of_seconds(secs: i64) -> (r: Option<CivilDateTime>)
    requires
        secs % 60 == 0,
    ensures
        r matches Some(c) ==> is_valid_datetime(c) && minute_number(c) * 60 == secs,
        0 <= secs <= 60 * u32::MAX ==> r is Some,
{
    DateTime::from_timestamp(secs, 0).map(
        |t| CivilDateTime {
            date: CivilDate { year: t.year(), month: t.month(), day: t.day() },
            hour: t.hour(),
            minute: t.minute(),
        },
    )
}

/// Relies on chrono's `NaiveDate::from_ymd_opt` and `and_hms_opt`, which accept
/// exactly the valid dates and times, and on the UTC timestamp of the result:
/// its seconds since 1970-01-01T00:00.
#[verifier::external_body]
fn seconds_of_civil(c: CivilDateTime) -> (r: Option<i64>)
    ensures
        r == if is_valid_datetime(c) {
            Some((minute_number(c) * 60) as i64)
        } else {
            None::<i64>
        },
{
    match NaiveDate::from_ymd_opt(c.date.year, c.date.month, c.date.day) {
        Some(d) => match d.and_hms_opt(c.hour, c.minute, 0) {
            Some(t) => Some(t.and_utc().timestamp()),
            None => None,
        },
        None => None,
    }
}

/// Relies on chrono's `NaiveDate::checked_add_months`: the date `months`
/// later, its day clamped to the target month's length, unless that leaves
/// chrono's range.
#[verifier::external_body]
fn add_months(d: CivilDate, months: u32) -> (r: Option<CivilDate>)
    requires
        months <= 1200,
    ensures
        r == shift_result(d, months as int),
{
    match NaiveDate::from_ymd_opt(d.year, d.month, d.day) {
        Some(n) => n.checked_add_months(Months::new(months)).map(
            |t| CivilDate { year: t.year(), month: t.month(), day: t.day() },
        ),
        None => None,
    }
}

/// Relies on chrono's `NaiveDate::checked_sub_months`: the date `months`
/// earlier, its day clamped to the target month's length, unless that leaves
/// chrono's range.
#[verifier::external_body]
fn sub_months(d: CivilDate, months: u32) -> (r: Option<CivilDate>)
    requires
        months <= 1200,
    ensures
        r == shift_result(d, 0 - months),
{
    match NaiveDate::from_ymd_opt(d.year, d.month, d.day) {
        Some(n) => n.checked_sub_months(Months::new(months)).map(
            |t| CivilDate { year: t.year(), month: t.month(), day: t.day() },
        ),
        None => None,
    }
}

/// Relies on chrono's `DateTime::from_timestamp` and its strftime-style
/// `format`; writing the formatted value fails only on a pattern item that
/// does not parse, and the numeric fields always write. `%Y` writes a year of
/// 0 to 9999 with four digits, `%m`, `%d`, `%H` and `%M` write two digits, and
/// text without `%` is written as it stands.
#[verifier::external_body]
fn format_seconds(secs: i64, pattern: &str) -> (r: Option<String>)
    ensures
        0 <= secs <= 60 * u32::MAX ==> text_of(r) == strftime(pattern@, secs as int),
        0 <= secs <= 60 * u32::MAX && is_simple_pattern(pattern@) ==> r is Some,
        0 <= secs <= 60 * u32::MAX && secs % 60 == 0 && field_rendering(
            pattern@,
            civil_of(secs / 60),
        ) is Some ==> text_of(r) == field_rendering(pattern@, civil_of(secs / 60)),
{
    match DateTime::from_timestamp(secs, 0) {
        Some(t) => {
            let mut out = String::new();
            match write!(out, "{}", t.format(pattern)) {
                Ok(()) => Some(out),
                Err(_) => None,
            }
        },
        None => None,
    }
}

/// The date and time of a counter value.
pub fn datetime_from_counter(counter: u32) -> (r: CivilDateTime)
    ensures
        is_valid_datetime(r),
        minute_number(r) == counter,
        r == civil_of(counter as int),
{
    match civil_of_seconds(counter as i64 * 60) {
        Some(c) => {
            proof {
                lemma_civil_of(c);
            }
            c
        },
        None => {
            proof {
                assert(false);
            }
            CivilDateTime { date: CivilDate { year: 1970, month: 1, day: 1 }, hour: 0, minute: 0 }
        },
    }
}

/// The counter value of a date and time, clamped to the counter's range.
pub fn counter_from_datetime(datetime: CivilDateTime) -> (r: u32)
    requires
        is_valid_datetime(datetime),
    ensures
        r == clamp_to_counter(minute_number(datetime)),
{
    match seconds_of_civil(datetime) {
        Some(secs) => {
            let minutes = secs / 60;
            if minutes < 0 {
                0
            } else if minutes > u32::MAX as i64 {
                u32::MAX
            } else {
                minutes as u32
            }
        },
        None => 0,
    }
}

/// Render the instant of a counter value with a strftime-style pattern.
pub fn format_counter(counter: u32, pattern: &str) -> (r: Option<String>)
    ensures
        text_of(r) == strftime(pattern@, counter * 60),
        is_simple_pattern(pattern@) ==> r is Some,
        field_rendering(pattern@, civil_of(counter as int)) is Some ==> text_of(r)
            == field_rendering(pattern@, civil_of(counter as int)),
{
    proof {
        assert((counter * 60) / 60 == counter);
    }
    format_seconds(counter as i64 * 60, pattern)
}

/// The counter value moved by `k` calendar months, keeping the time of day; a
/// move out of chrono's range leaves the date as it is.
pub fn move_months(counter: u32, months: u32, forward: bool) -> (r: u32)
    requires
        months <= 1200,
    ensures
        r == months_moved(counter, months as int, forward),
{
    let c = datetime_from_counter(counter);
    let moved = if forward {
        add_months(c.date, months)
    } else {
        sub_months(c.date, months)
    };
    let date = match moved {
        Some(d) => d,
        None => c.date,
    };
    counter_from_datetime(CivilDateTime { date, hour: c.hour, minute: c.minute })
}

/// The counter value `counter` moved by `k` months forward or backward.
pub open spec fn months_moved(counter: u32, k: int, forward: bool) -> u32 {
    let c = civil_of(counter as int);
    let target = months_shifted(c.date, if forward { k } else { -k });
    let date = if is_valid_date(target) { target } else { c.date };
    clamp_to_counter(minute_number(CivilDateTime { date, hour: c.hour, minute: c.minute }))
}

// ---- uniqueness of calendar fields ----

proof fn lemma_year_step(y: int)
    ensures
        days_before_year(y + 1) == days_before_year(y) + days_in_year(y),
{
    assert(leap_years_before(y + 1) - leap_years_before(y) == if is_leap_year(y) {
        1int
    } else {
        0int
    }) by {
        vstd::arithmetic::div_mod::lemma_fundamental_div_mod(y, 4);
        vstd::arithmetic::div_mod::lemma_fundamental_div_mod(y - 1, 4);
        vstd::arithmetic::div_mod::lemma_fundamental_div_mod(y, 100);
        vstd::arithmetic::div_mod::lemma_fundamental_div_mod(y - 1, 100);
        vstd::arithmetic::div_mod::lemma_fundamental_div_mod(y, 400);
        vstd::arithmetic::div_mod::lemma_fundamental_div_mod(y - 1, 400);
    }
}

proof fn lemma_days_before_year_grows(y1: int, y2: int)
    requires
        y1 < y2,
    ensures
        days_before_year(y1) + days_in_year(y1) <= days_before_year(y2),
    decreases y2 - y1,
{
    lemma_year_step(y1);
    if y1 + 1 < y2 {
        lemma_days_before_year_grows(y1 + 1, y2);
    }
}

proof fn lemma_month_bounds(y: int, m1: int, m2: int)
    requires
        1 <= m1 <= 12,
        1 <= m2 <= 12,
    ensures
        0 <= days_before_month(y, m1),
        days_before_month(y, m1) + days_in_month(y, m1) <= days_in_year(y),
        m1 < m2 ==> days_before_month(y, m1) + days_in_month(y, m1) <= days_before_month(y, m2),
{
}

proof fn lemma_day_number_order(a: CivilDate, b: CivilDate)
    requires
        is_valid_date(a),
        is_valid_date(b),
        a.year < b.year || (a.year == b.year && a.month < b.month) || (a.year == b.year && a.month
            == b.month && a.day < b.day),
    ensures
        day_number(a) < day_number(b),
{
    lemma_month_bounds(a.year as int, a.month as int, b.month as int);
    lemma_month_bounds(b.year as int, b.month as int, a.month as int);
    if a.year < b.year {
        lemma_days_before_year_grows(a.year as int, b.year as int);
    }
}

/// Valid dates and times with the same minute count are the same.
pub proof fn lemma_civil_unique(a: CivilDateTime, b: CivilDateTime)
    requires
        is_valid_datetime(a),
        is_valid_datetime(b),
        minute_number(a) == minute_number(b),
    ensures
        a == b,
{
    let (da, db) = (day_number(a.date), day_number(b.date));
    let (ra, rb) = (a.hour * 60 + a.minute, b.hour * 60 + b.minute);
    assert(da == db && ra == rb) by (nonlinear_arith)
        requires
            da * 1440 + ra == db * 1440 + rb,
            0 <= ra < 1440,
            0 <= rb < 1440,
    ;
    if a.date != b.date {
        if a.date.year < b.date.year || (a.date.year == b.date.year && a.date.month < b.date.month)
            || (a.date.year == b.date.year && a.date.month == b.date.month && a.date.day
            < b.date.day) {
            lemma_day_number_order(a.date, b.date);
        } else {
            lemma_day_number_order(b.date, a.date);
        }
    }
}

proof fn lemma_civil_of(c: CivilDateTime)
    requires
        is_valid_datetime(c),
    ensures
        civil_of(minute_number(c)) == c,
{
    let d = civil_of(minute_number(c));
    assert(is_valid_datetime(d) && minute_number(d) == minute_number(c));
    lemma_civil_unique(c, d);
}

} // verus!
