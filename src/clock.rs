use vstd::prelude::*;

use chrono::{Datelike, Timelike};

verus! {

/// Seconds that a UTC offset stays strictly within.
pub const DAY_SECONDS: i32 = 86400;

/// Instants, in epoch seconds, that every conversion here accepts (about
/// 126,000 years each way).
pub const INSTANT_LIMIT: i64 = 4_000_000_000_000;

/// The earliest and latest years of the calendar that chrono represents.
pub const MIN_YEAR: i32 = -262143;
pub const MAX_YEAR: i32 = 262142;

/// A local calendar date and time of day, to the second.
#[derive(Clone, Copy, Debug, PartialEq, Eq, Structural)]
pub struct WallClock {
    pub year: i32,
    pub month: u32,
    pub day: u32,
    pub hour: u32,
    pub minute: u32,
    pub second: u32,
}

pub open spec fn is_leap_year(y: int) -> bool {
    (y % 4 == 0 && y % 100 != 0) || y % 400 == 0
}

pub open spec fn days_in_month(y: int, m: int) -> int {
    if m == 2 {
        if is_leap_year(y) { 29 } else { 28 }
    } else if m == 4 || m == 6 || m == 9 || m == 11 {
        30
    } else {
        31
    }
}

/// A real date of the proleptic Gregorian calendar, within the years that
/// chrono represents, and a time of day.
pub open spec fn valid_clock(w: WallClock) -> bool {
    &&& MIN_YEAR <= w.year <= MAX_YEAR
    &&& 1 <= w.month <= 12
    &&& 1 <= w.day <= days_in_month(w.year as int, w.month as int)
    &&& w.hour < 24
    &&& w.minute < 60
    &&& w.second < 60
}

/// Days from 1970-01-01 to the given date.
pub open spec fn days_from_civil(y: int, m: int, d: int) -> int {
    let yy = if m <= 2 { y - 1 } else { y };
    let era = yy / 400;
    let yoe = yy - era * 400;
    let mp = if m > 2 { m - 3 } else { m + 9 };
    let doy = (153 * mp + 2) / 5 + d - 1;
    let doe = yoe * 365 + yoe / 4 - yoe / 100 + doy;
    era * 146097 + doe - 719468
}

/// Seconds from 1970-01-01 00:00:00 to the wall clock.
pub open spec fn clock_seconds(w: WallClock) -> int {
    days_from_civil(w.year as int, w.month as int, w.day as int) * 86400 + w.hour * 3600
        + w.minute * 60 + w.second
}

pub open spec fn digit(d: int) -> char {
    seq!['0', '1', '2', '3', '4', '5', '6', '7', '8', '9'][d]
}

/// `v` as two decimal digits, the first of them zero for `v < 10`.
pub open spec fn two_digits(v: int) -> Seq<char> {
    seq![digit(v / 10), digit(v % 10)]
}

/// The hour on a 12-hour dial: 12, 1, ..., 11.
pub open spec fn hour12(h: int) -> int {
    if h % 12 == 0 { 12 } else { h % 12 }
}

/// `MM/DD/YY hh:mm:ss AM`: month, day, year of the century, hour on the
/// 12-hour dial, minutes, seconds, then AM or PM.
pub open spec fn stamp_of(w: WallClock) -> Seq<char> {
    two_digits(w.month as int) + seq!['/'] + two_digits(w.day as int) + seq!['/']
        + two_digits(w.year as int % 100) + seq![' '] + two_digits(hour12(w.hour as int))
        + seq![':'] + two_digits(w.minute as int) + seq![':'] + two_digits(w.second as int)
        + seq![' ', if w.hour >= 12 { 'P' } else { 'A' }, 'M']
}

/// The value of a decimal digit character.
pub open spec fn digit_value(c: char) -> int {
    if c == '0' { 0 } else if c == '1' { 1 } else if c == '2' { 2 } else if c == '3' { 3 }
    else if c == '4' { 4 } else if c == '5' { 5 } else if c == '6' { 6 } else if c == '7' { 7 }
    else if c == '8' { 8 } else { 9 }
}

pub open spec fn two_digit_value(t: Seq<char>, at: int) -> int {
    digit_value(t[at]) * 10 + digit_value(t[at + 1])
}

/// What a stamp reads as: month, day, year of the century, hour of the day
/// (0 to 23), minute, second.
pub open spec fn stamp_fields(t: Seq<char>) -> (int, int, int, int, int, int) {
    let h12 = two_digit_value(t, 9);
    let pm = t[18] == 'P';
    let hour = if h12 == 12 {
        if pm { 12int } else { 0int }
    } else {
        if pm { h12 + 12 } else { h12 }
    };
    (two_digit_value(t, 0), two_digit_value(t, 3), two_digit_value(t, 6), hour,
        two_digit_value(t, 12), two_digit_value(t, 15))
}

proof fn lemma_digit_value(d: int)
    requires
        0 <= d < 10,
    ensures
        digit_value(digit(d)) == d,
{
}

proof fn lemma_two_digits(v: int)
    requires
        0 <= v < 100,
    ensures
        two_digit_value(two_digits(v), 0) == v,
{
    lemma_digit_value(v / 10);
    lemma_digit_value(v % 10);
}

/// A formatted wall clock reads back as the same month, day, year of the
/// century, hour, minute and second.
pub proof fn lemma_stamp_round_trip(w: WallClock)
    requires
        valid_clock(w),
    ensures
        stamp_of(w).len() == 20,
        stamp_fields(stamp_of(w)) == (w.month as int, w.day as int, w.year as int % 100,
            w.hour as int, w.minute as int, w.second as int),
{
    let t = stamp_of(w);
    let h = hour12(w.hour as int);
    lemma_two_digits(w.month as int);
    lemma_two_digits(w.day as int);
    lemma_two_digits(w.year as int % 100);
    lemma_two_digits(h);
    lemma_two_digits(w.minute as int);
    lemma_two_digits(w.second as int);
    assert(t.subrange(0, 2) =~= two_digits(w.month as int));
    assert(t.subrange(3, 5) =~= two_digits(w.day as int));
    assert(t.subrange(6, 8) =~= two_digits(w.year as int % 100));
    assert(t.subrange(9, 11) =~= two_digits(h));
    assert(t.subrange(12, 14) =~= two_digits(w.minute as int));
    assert(t.subrange(15, 17) =~= two_digits(w.second as int));
    assert(two_digit_value(t, 0) == two_digit_value(t.subrange(0, 2), 0));
    assert(two_digit_value(t, 3) == two_digit_value(t.subrange(3, 5), 0));
    assert(two_digit_value(t, 6) == two_digit_value(t.subrange(6, 8), 0));
    assert(two_digit_value(t, 9) == two_digit_value(t.subrange(9, 11), 0));
    assert(two_digit_value(t, 12) == two_digit_value(t.subrange(12, 14), 0));
    assert(two_digit_value(t, 15) == two_digit_value(t.subrange(15, 17), 0));
}

/// Relies on chrono's `Local` time zone: the offset of local time from UTC,
/// in seconds, at the given instant. It depends on the machine's zone.
#[verifier::external_body]
fn local_offset(ts: i64) -> (r: i32)
    requires
        -INSTANT_LIMIT <= ts <= INSTANT_LIMIT,
    ensures
        -DAY_SECONDS < r < DAY_SECONDS,
{
    let utc = chrono::DateTime::from_timestamp(ts, 0).unwrap();
    utc.with_timezone(&chrono::Local).offset().local_minus_utc()
}

/// Relies on chrono's `DateTime::from_timestamp` and `FixedOffset`: the local
/// calendar date and time of an epoch-second instant at a UTC offset.
#[verifier::external_body]
fn wall_clock(ts: i64, offset: i32) -> (r: WallClock)
    requires
        -INSTANT_LIMIT <= ts <= INSTANT_LIMIT,
        -DAY_SECONDS < offset < DAY_SECONDS,
    ensures
        valid_clock(r),
        clock_seconds(r) == ts + offset,
{
    let zone = chrono::FixedOffset::east_opt(offset).unwrap();
    let t = chrono::DateTime::from_timestamp(ts, 0).unwrap().with_timezone(&zone).naive_local();
    WallClock { year: t.year(), month: t.month(), day: t.day(), hour: t.hour(), minute: t.minute(), second: t.second() }
}

/// Relies on chrono's `NaiveDateTime::format` with the pattern `%D %r`.
#[verifier::external_body]
fn format_clock(w: &WallClock) -> (r: String)
    requires
        valid_clock(*w),
    ensures
        r@ == stamp_of(*w),
{
    let date = chrono::NaiveDate::from_ymd_opt(w.year, w.month, w.day).unwrap();
    date.and_hms_opt(w.hour, w.minute, w.second).unwrap().format("%D %r").to_string()
}

/// The local wall clock of an epoch-second instant, in the machine's zone.
pub fn local_clock(ts: i64) -> (r: WallClock)
    requires
        -INSTANT_LIMIT <= ts <= INSTANT_LIMIT,
    ensures
        valid_clock(r),
        -DAY_SECONDS < clock_seconds(r) - ts < DAY_SECONDS,
{
    let offset = local_offset(ts);
    wall_clock(ts, offset)
}

/// The wall clock of an epoch-second instant at a given UTC offset.
pub fn clock_at(ts: i64, offset: i32) -> (r: WallClock)
    requires
        -INSTANT_LIMIT <= ts <= INSTANT_LIMIT,
        -DAY_SECONDS < offset < DAY_SECONDS,
    ensures
        valid_clock(r),
        clock_seconds(r) == ts + offset,
{
    wall_clock(ts, offset)
}

/// The wall clock as `MM/DD/YY hh:mm:ss AM`.
pub fn stamp(w: &WallClock) -> (r: String)
    requires
        valid_clock(*w),
    ensures
        r@ == stamp_of(*w),
{
    format_clock(w)
}

} // verus!
