//! Calendar dates and times of day in the proleptic Gregorian calendar.
use chrono::{Datelike, NaiveDate, NaiveDateTime, TimeDelta, TimeZone, Timelike};
use crate::text::{decimal_text, zero_padded};
use std::time::{SystemTime, UNIX_EPOCH};
use vstd::prelude::*;

verus! {

/// The earliest year that a date can have.
pub const MIN_YEAR: i32 = -262143;

/// The latest year that a date can have.
pub const MAX_YEAR: i32 = 262142;

/// The largest number of days, in either direction, by which a date can be moved in one step.
pub const MAX_DAY_SHIFT: i64 = 106751991167;

pub open spec fn is_leap_year(y: int) -> bool {
    y % 4 == 0 && (y % 100 != 0 || y % 400 == 0)
}

pub open spec fn year_length(y: int) -> int {
    if is_leap_year(y) { 366 } else { 365 }
}

/// Number of days in month `m` of year `y`.
pub open spec fn month_length(y: int, m: int) -> int {
    if m == 2 {
        if is_leap_year(y) { 29 } else { 28 }
    } else if m == 4 || m == 6 || m == 9 || m == 11 {
        30
    } else {
        31
    }
}

/// `(y, m, d)` names a day that a date can hold.
pub open spec fn valid_ymd(y: int, m: int, d: int) -> bool {
    &&& MIN_YEAR <= y <= MAX_YEAR
    &&& 1 <= m <= 12
    &&& 1 <= d <= month_length(y, m)
}

/// Number of days from 0001-01-01 (exclusive of it) back to the start of year `y`:
/// the days of all years before `y`.
pub open spec fn days_before_year(y: int) -> int {
    365 * (y - 1) + (y - 1) / 4 - (y - 1) / 100 + (y - 1) / 400
}

/// Number of days of year `y` before the first of month `m`.
pub open spec fn days_before_month(y: int, m: int) -> int {
    let common: int = if m == 1 { 0 }
        else if m == 2 { 31 }
        else if m == 3 { 59 }
        else if m == 4 { 90 }
        else if m == 5 { 120 }
        else if m == 6 { 151 }
        else if m == 7 { 181 }
        else if m == 8 { 212 }
        else if m == 9 { 243 }
        else if m == 10 { 273 }
        else if m == 11 { 304 }
        else { 334 };
    if m > 2 && is_leap_year(y) { common + 1 } else { common }
}

/// The ordinal number of a day, counting 0001-01-01 as day 1.
pub open spec fn day_number_of(y: int, m: int, d: int) -> int {
    days_before_year(y) + days_before_month(y, m) + d
}

/// The day numbers that dates can have.
pub open spec fn day_number_in_range(n: int) -> bool {
    day_number_of(MIN_YEAR as int, 1, 1) <= n <= day_number_of(MAX_YEAR as int, 12, 31)
}

/// A calendar day.
#[derive(Clone, Copy, Debug, PartialEq, Eq, Structural, PartialOrd, Ord, Hash)]
pub struct Date {
    pub year: i32,
    pub month: u32,
    pub day: u32,
}

impl Date {
    pub open spec fn is_valid(self) -> bool {
        valid_ymd(self.year as int, self.month as int, self.day as int)
    }

    pub open spec fn day_number(self) -> int {
        day_number_of(self.year as int, self.month as int, self.day as int)
    }

    /// `self` comes strictly before `other` in (year, month, day) order.
    pub open spec fn before(self, other: Date) -> bool {
        ||| self.year < other.year
        ||| self.year == other.year && self.month < other.month
        ||| self.year == other.year && self.month == other.month && self.day < other.day
    }
}

/// Calls `chrono::NaiveDate::from_ymd_opt`: a date exists for the arguments exactly when the year
/// lies in chrono's range (`MIN_YEAR..=MAX_YEAR`) and the month and day name a day of that month.
#[verifier::external_body]
fn chrono_from_ymd(year: i32, month: u32, day: u32) -> (r: Option<Date>)
    ensures
        r == (if valid_ymd(year as int, month as int, day as int) {
            Some(Date { year, month, day })
        } else {
            None
        }),
{
    match NaiveDate::from_ymd_opt(year, month, day) {
        Some(d) => Some(Date { year: d.year(), month: d.month(), day: d.day() }),
        None => None,
    }
}

/// Calls `chrono::NaiveDate::checked_add_signed` with a whole number of days: the result is the
/// day that lies `days` days later (earlier, when negative), and there is none when that day
/// falls outside chrono's range.
#[verifier::external_body]
fn chrono_add_days(d: Date, days: i64) -> (r: Option<Date>)
    requires
        d.is_valid(),
        -MAX_DAY_SHIFT <= days <= MAX_DAY_SHIFT,
    ensures
        match r {
            Some(x) => x.is_valid() && x.day_number() == d.day_number() + days,
            None => !day_number_in_range(d.day_number() + days),
        },
{
    let nd = NaiveDate::from_ymd_opt(d.year, d.month, d.day).unwrap();
    match nd.checked_add_signed(TimeDelta::days(days)) {
        Some(x) => Some(Date { year: x.year(), month: x.month(), day: x.day() }),
        None => None,
    }
}


/// Moving from year `y` to year `y + 1` adds the length of year `y`.
pub proof fn lemma_days_before_next_year(y: int)
    ensures
        days_before_year(y + 1) == days_before_year(y) + year_length(y),
{
    lemma_floor_div_step(y, 4);
    lemma_floor_div_step(y, 100);
    lemma_floor_div_step(y, 400);
}

/// Stepping `y - 1` to `y` raises `y / k` by one exactly when `k` divides `y`.
pub proof fn lemma_floor_div_step(y: int, k: int)
    requires
        k > 0,
    ensures
        y / k - (y - 1) / k == (if y % k == 0 { 1int } else { 0int }),
{
    let q = (y - 1) / k;
    let r = (y - 1) % k;
    vstd::arithmetic::div_mod::lemma_fundamental_div_mod(y - 1, k);
    vstd::arithmetic::div_mod::lemma_mod_bound(y - 1, k);
    if r == k - 1 {
        assert(y == (q + 1) * k + 0) by (nonlinear_arith)
            requires y - 1 == k * q + r, r == k - 1;
        vstd::arithmetic::div_mod::lemma_fundamental_div_mod_converse(y, k, q + 1, 0);
    } else {
        assert(y == q * k + (r + 1)) by (nonlinear_arith)
            requires y - 1 == k * q + r;
        vstd::arithmetic::div_mod::lemma_fundamental_div_mod_converse(y, k, q, r + 1);
    }
}

/// Years further on start at least one whole year later.
pub proof fn lemma_days_before_year_grows(y1: int, y2: int)
    requires
        y1 < y2,
    ensures
        days_before_year(y1) + year_length(y1) <= days_before_year(y2),
    decreases y2 - y1,
{
    lemma_days_before_next_year(y1);
    if y1 + 1 < y2 {
        lemma_days_before_year_grows(y1 + 1, y2);
    }
}

/// A valid day lies within its year.
pub proof fn lemma_day_number_within_year(d: Date)
    requires
        d.is_valid(),
    ensures
        days_before_year(d.year as int) < d.day_number(),
        d.day_number() <= days_before_year(d.year as int) + year_length(d.year as int),
{
}

/// Day numbers follow the (year, month, day) order of valid dates.
pub proof fn lemma_day_number_ordered(a: Date, b: Date)
    requires
        a.is_valid(),
        b.is_valid(),
        a.before(b),
    ensures
        a.day_number() < b.day_number(),
{
    if a.year < b.year {
        lemma_day_number_within_year(a);
        lemma_day_number_within_year(b);
        lemma_days_before_year_grows(a.year as int, b.year as int);
    }
}

/// Two valid dates with the same day number are the same date.
pub proof fn lemma_day_number_injective(a: Date, b: Date)
    requires
        a.is_valid(),
        b.is_valid(),
        a.day_number() == b.day_number(),
    ensures
        a == b,
{
    if a.before(b) {
        lemma_day_number_ordered(a, b);
    } else if b.before(a) {
        lemma_day_number_ordered(b, a);
    }
}

/// The day after the last of a month is the first of the next month.
pub proof fn lemma_month_end_then_next(y: int, m: int)
    requires
        1 <= m <= 12,
    ensures
        day_number_of(y, m, month_length(y, m)) + 1 == (if m == 12 {
            day_number_of(y + 1, 1, 1)
        } else {
            day_number_of(y, m + 1, 1)
        }),
{
    if m == 12 {
        lemma_days_before_next_year(y);
    }
}

/// Every valid date has a day number in the representable range.
pub proof fn lemma_valid_date_in_range(d: Date)
    requires
        d.is_valid(),
    ensures
        day_number_in_range(d.day_number()),
{
    let lo = Date { year: MIN_YEAR, month: 1, day: 1 };
    let hi = Date { year: MAX_YEAR, month: 12, day: 31 };
    if lo.before(d) {
        lemma_day_number_ordered(lo, d);
    }
    if d.before(hi) {
        lemma_day_number_ordered(d, hi);
    }
}

impl Date {
    /// The date with the given year, month and day, if there is one.
    pub fn from_ymd_opt(year: i32, month: u32, day: u32) -> (r: Option<Date>)
        ensures
            r == (if valid_ymd(year as int, month as int, day as int) {
                Some(Date { year, month, day })
            } else {
                None
            }),
    {
        chrono_from_ymd(year, month, day)
    }
}


impl Date {
    /// The day `days` days after this one (before it, when negative), if it is in range.
    pub fn checked_add_days(self, days: i64) -> (r: Option<Date>)
        requires
            self.is_valid(),
            -MAX_DAY_SHIFT <= days <= MAX_DAY_SHIFT,
        ensures
            r is Some <==> day_number_in_range(self.day_number() + days),
            r matches Some(x) ==> x.is_valid() && x.day_number() == self.day_number() + days,
    {
        let r = chrono_add_days(self, days);
        proof {
            if let Some(x) = r {
                lemma_valid_date_in_range(x);
            }
        }
        r
    }

    /// Whether this is a date that exists in the calendar's range.
    pub fn is_valid_date(&self) -> (r: bool)
        ensures
            r == self.is_valid(),
    {
        Date::from_ymd_opt(self.year, self.month, self.day).is_some()
    }

    /// Whether `self` is no later than `other`.
    pub fn no_later_than(&self, other: &Date) -> (r: bool)
        ensures
            r == !other.before(*self),
    {
        if self.year != other.year {
            self.year < other.year
        } else if self.month != other.month {
            self.month < other.month
        } else {
            self.day <= other.day
        }
    }
}

/// A moment of a day: a date and a time of day to the second.
#[derive(Clone, Copy, Debug, PartialEq, Eq, Structural, PartialOrd, Ord, Hash)]
pub struct DateTime {
    pub date: Date,
    pub hour: u32,
    pub minute: u32,
    pub second: u32,
}

/// 2^32: every field of a date or time is below it.
pub open spec fn field_base() -> int {
    0x1_0000_0000int
}

impl Date {
    /// An integer that orders dates as (year, month, day) does.
    pub open spec fn sort_key(self) -> int {
        (self.year as int * field_base() + self.month as int) * field_base() + self.day as int
    }
}

impl DateTime {
    pub open spec fn is_valid(self) -> bool {
        &&& self.date.is_valid()
        &&& self.hour < 24
        &&& self.minute < 60
        &&& self.second < 60
    }

    /// An integer that orders moments as (date, hour, minute, second) does.
    pub open spec fn sort_key(self) -> int {
        ((self.date.sort_key() * field_base() + self.hour as int) * field_base()
            + self.minute as int) * field_base() + self.second as int
    }

    /// Whether this is a moment that exists: a valid date and a time of day.
    pub fn is_valid_moment(&self) -> (r: bool)
        ensures
            r == self.is_valid(),
    {
        self.date.is_valid_date() && self.hour < 24 && self.minute < 60 && self.second < 60
    }

    /// Seconds since the start of 0001-01-01, less one day.
    pub open spec fn seconds(self) -> int {
        self.date.day_number() * 86400 + self.hour as int * 3600 + self.minute as int * 60
            + self.second as int
    }

    /// Whether `self` is no later than `other`.
    pub fn no_later_than(&self, other: &DateTime) -> (r: bool)
        ensures
            r == (self.sort_key() <= other.sort_key()),
    {
        let a = self;
        let b = other;
        let ghost base = field_base();
        assert(a.date.sort_key() < b.date.sort_key() ==> a.sort_key() < b.sort_key()) by (nonlinear_arith)
            requires base == field_base(), a.hour < base, a.minute < base, a.second < base,
                b.hour < base, b.minute < base, b.second < base;
        if a.date.year != b.date.year || a.date.month != b.date.month || a.date.day != b.date.day {
            let r = a.date.no_later_than(&b.date);
            assert(r ==> a.date.sort_key() < b.date.sort_key()) by (nonlinear_arith)
                requires base == field_base(), r == !b.date.before(a.date),
                    a.date.year != b.date.year || a.date.month != b.date.month || a.date.day != b.date.day,
                    a.date.month < base, a.date.day < base, b.date.month < base, b.date.day < base;
            assert(!r ==> b.date.sort_key() < a.date.sort_key()) by (nonlinear_arith)
                requires base == field_base(), r == !b.date.before(a.date),
                    a.date.month < base, a.date.day < base, b.date.month < base, b.date.day < base;
            assert(b.date.sort_key() < a.date.sort_key() ==> b.sort_key() < a.sort_key()) by (nonlinear_arith)
                requires base == field_base(), a.hour < base, a.minute < base, a.second < base,
                    b.hour < base, b.minute < base, b.second < base;
            r
        } else if a.hour != b.hour {
            assert(a.hour < b.hour ==> a.sort_key() < b.sort_key()) by (nonlinear_arith)
                requires base == field_base(), a.date == b.date, a.minute < base, a.second < base,
                    b.minute < base, b.second < base;
            assert(b.hour < a.hour ==> b.sort_key() < a.sort_key()) by (nonlinear_arith)
                requires base == field_base(), a.date == b.date, a.minute < base, a.second < base,
                    b.minute < base, b.second < base;
            a.hour < b.hour
        } else if a.minute != b.minute {
            assert(a.minute < b.minute ==> a.sort_key() < b.sort_key()) by (nonlinear_arith)
                requires base == field_base(), a.date == b.date, a.hour == b.hour, a.second < base,
                    b.second < base;
            assert(b.minute < a.minute ==> b.sort_key() < a.sort_key()) by (nonlinear_arith)
                requires base == field_base(), a.date == b.date, a.hour == b.hour, a.second < base,
                    b.second < base;
            a.minute < b.minute
        } else {
            a.second <= b.second
        }
    }
}


/// Two valid moments with the same second count are the same moment.
pub proof fn lemma_seconds_injective(a: DateTime, b: DateTime)
    requires
        a.is_valid(),
        b.is_valid(),
        a.seconds() == b.seconds(),
    ensures
        a == b,
{
    let ta = a.hour as int * 3600 + a.minute as int * 60 + a.second as int;
    let tb = b.hour as int * 3600 + b.minute as int * 60 + b.second as int;
    let da = a.date.day_number();
    let db = b.date.day_number();
    assert(da == db && ta == tb) by (nonlinear_arith)
        requires
            da * 86400 + ta == db * 86400 + tb,
            0 <= ta < 86400,
            0 <= tb < 86400,
    {
        if da < db {
            assert(da * 86400 + 86400 <= db * 86400);
        } else if db < da {
            assert(db * 86400 + 86400 <= da * 86400);
        }
    }
    lemma_day_number_injective(a.date, b.date);
    let ma = a.minute as int * 60 + a.second as int;
    let mb = b.minute as int * 60 + b.second as int;
    assert(a.hour == b.hour && ma == mb) by (nonlinear_arith)
        requires
            a.hour as int * 3600 + ma == b.hour as int * 3600 + mb,
            0 <= ma < 3600,
            0 <= mb < 3600,
    {
        if a.hour < b.hour {
            assert(a.hour as int * 3600 + 3600 <= b.hour as int * 3600);
        } else if b.hour < a.hour {
            assert(b.hour as int * 3600 + 3600 <= a.hour as int * 3600);
        }
    }
    assert(a.minute == b.minute && a.second == b.second) by (nonlinear_arith)
        requires
            a.minute as int * 60 + a.second as int == b.minute as int * 60 + b.second as int,
            a.second < 60,
            b.second < 60,
    {
        if a.minute < b.minute {
            assert(a.minute as int * 60 + 60 <= b.minute as int * 60);
        } else if b.minute < a.minute {
            assert(b.minute as int * 60 + 60 <= a.minute as int * 60);
        }
    }
}

/// A valid moment's second count lies in the range of second counts.
pub proof fn lemma_valid_seconds_in_range(dt: DateTime)
    requires
        dt.is_valid(),
    ensures
        seconds_in_range(dt.seconds()),
{
    lemma_valid_date_in_range(dt.date);
    let d = dt.date.day_number();
    let t = dt.hour as int * 3600 + dt.minute as int * 60 + dt.second as int;
    let lo = day_number_of(MIN_YEAR as int, 1, 1);
    let hi = day_number_of(MAX_YEAR as int, 12, 31);
    assert(lo * 86400 <= d * 86400 + t < (hi + 1) * 86400) by (nonlinear_arith)
        requires
            lo <= d <= hi,
            0 <= t < 86400,
    ;
}

/// Whole minutes in `secs` seconds, rounded toward zero.
pub open spec fn truncated_minutes(secs: int) -> int {
    if secs >= 0 { secs / 60 } else { -((-secs) / 60) }
}

/// Calls `NaiveDateTime::signed_duration_since` and `TimeDelta::num_minutes`: the whole minutes
/// from `start` to `end`, rounded toward zero.
#[verifier::external_body]
pub(crate) fn chrono_minutes_between(start: DateTime, end: DateTime) -> (r: i64)
    requires
        start.is_valid(),
        end.is_valid(),
    ensures
        r == truncated_minutes(end.seconds() - start.seconds()),
{
    let s = NaiveDate::from_ymd_opt(start.date.year, start.date.month, start.date.day).unwrap()
        .and_hms_opt(start.hour, start.minute, start.second).unwrap();
    let e = NaiveDate::from_ymd_opt(end.date.year, end.date.month, end.date.day).unwrap()
        .and_hms_opt(end.hour, end.minute, end.second).unwrap();
    e.signed_duration_since(s).num_minutes()
}


/// Reads the system clock and gives the local date of that moment, as
/// `chrono::Local::now().date_naive()` does, without its panics at the ends of the range:
/// `SystemTime::now().duration_since(UNIX_EPOCH)`, `chrono::DateTime::from_timestamp`, the local
/// offset from `Local.offset_from_utc_datetime`, added with `NaiveDateTime::checked_add_offset`.
/// Nothing comes back when the clock reads earlier than the epoch or when the moment or its local
/// time falls outside chrono's range. Of a date that comes back only its validity is promised:
/// which date it is depends on the time and on the machine's time zone. Left unsaid: chrono's
/// lookup of the local offset (its `offset/local/unix.rs`) ends in `expect` where its zone data
/// cannot place the moment, which for a moment in chrono's range comes only from zone data that
/// it cannot read right; it falls back to UTC where no zone data is found.
#[verifier::external_body]
fn local_clock_date() -> (r: Option<Date>)
    ensures
        r matches Some(d) ==> d.is_valid(),
{
    let since_epoch = SystemTime::now().duration_since(UNIX_EPOCH).ok()?;
    let secs = i64::try_from(since_epoch.as_secs()).ok()?;
    let utc = chrono::DateTime::from_timestamp(secs, since_epoch.subsec_nanos())?.naive_utc();
    let offset = chrono::Local.offset_from_utc_datetime(&utc);
    let d = utc.checked_add_offset(offset)?.date();
    Some(Date { year: d.year(), month: d.month(), day: d.day() })
}

/// The day the Unix epoch falls on, 1970-01-01.
pub open spec fn epoch_date() -> Date {
    Date { year: 1970, month: 1, day: 1 }
}

/// The date that a clock reading gives: the date read, or 1970-01-01 where the clock gave none.
pub open spec fn date_of_reading(reading: Option<Date>) -> Date {
    match reading {
        Some(d) => d,
        None => epoch_date(),
    }
}

/// The date for a clock reading (see `date_of_reading`).
pub fn date_from_clock(reading: Option<Date>) -> (r: Date)
    ensures
        r == date_of_reading(reading),
{
    match reading {
        Some(d) => d,
        None => Date { year: 1970, month: 1, day: 1 },
    }
}

/// Today's date where the program runs: `date_from_clock` of the clock's reading, so 1970-01-01
/// where the clock reads earlier than the Unix epoch. Which date it is depends on the time, so
/// only its validity is stated.
pub fn today() -> (r: Date)
    ensures
        r.is_valid(),
{
    let reading = local_clock_date();
    date_from_clock(reading)
}


/// A year as `%Y` writes it: four digits, zero-padded, for years 0 to 9999; otherwise a sign
/// followed by at least four digits.
pub open spec fn year_text(y: int) -> Seq<char> {
    if 0 <= y <= 9999 {
        zero_padded(decimal_text(y as nat), 4)
    } else if y < 0 {
        seq!['-'] + zero_padded(decimal_text((-y) as nat), 4)
    } else {
        seq!['+'] + zero_padded(decimal_text(y as nat), 4)
    }
}

/// A number written with at least two digits.
pub open spec fn two_digit_text(n: int) -> Seq<char> {
    zero_padded(decimal_text(n as nat), 2)
}

/// A date as `%Y-%m-%d` writes it.
pub open spec fn date_text(d: Date) -> Seq<char> {
    year_text(d.year as int) + seq!['-'] + two_digit_text(d.month as int) + seq!['-'] + two_digit_text(d.day as int)
}

/// A time of day as `%H:%M` writes it.
pub open spec fn time_text(hour: int, minute: int) -> Seq<char> {
    two_digit_text(hour) + seq![':'] + two_digit_text(minute)
}

/// A moment as `%Y-%m-%d %H:%M` writes it.
pub open spec fn datetime_text(dt: DateTime) -> Seq<char> {
    date_text(dt.date) + seq![' '] + time_text(dt.hour as int, dt.minute as int)
}

/// Formats a date with chrono's `format("%Y-%m-%d")`. Parsing the text with the same pattern
/// (`parsed_date`) reads the date back: years outside 0 to 9999 are written with the sign that
/// parsing them needs.
#[verifier::external_body]
pub(crate) fn format_date(d: Date) -> (r: String)
    requires
        d.is_valid(),
    ensures
        r@ == date_text(d),
        parsed_date(r@) == Some(d),
{
    NaiveDate::from_ymd_opt(d.year, d.month, d.day).unwrap().format("%Y-%m-%d").to_string()
}

/// Formats the time of day of a moment with chrono's `format("%H:%M")`. Parsing the text with
/// the same pattern (`parsed_time`) reads the hour and minute back.
#[verifier::external_body]
pub(crate) fn format_time(dt: DateTime) -> (r: String)
    requires
        dt.is_valid(),
    ensures
        r@ == time_text(dt.hour as int, dt.minute as int),
        parsed_time(r@) == Some((dt.hour, dt.minute)),
{
    let d = NaiveDate::from_ymd_opt(dt.date.year, dt.date.month, dt.date.day).unwrap();
    d.and_hms_opt(dt.hour, dt.minute, dt.second).unwrap().format("%H:%M").to_string()
}

/// The moment `dt` with its seconds dropped.
pub open spec fn to_the_minute(dt: DateTime) -> DateTime {
    DateTime { second: 0, ..dt }
}

/// Formats a moment with chrono's `format("%Y-%m-%d %H:%M")`. Parsing the text with the same
/// pattern (`parsed_datetime`) reads the moment back, to the minute: the pattern writes every
/// field but the seconds, and years outside 0 to 9999 with the sign that parsing them needs.
#[verifier::external_body]
pub(crate) fn format_datetime(dt: DateTime) -> (r: String)
    requires
        dt.is_valid(),
    ensures
        r@ == datetime_text(dt),
        parsed_datetime(r@) == Some(to_the_minute(dt)),
{
    let d = NaiveDate::from_ymd_opt(dt.date.year, dt.date.month, dt.date.day).unwrap();
    d.and_hms_opt(dt.hour, dt.minute, dt.second).unwrap().format("%Y-%m-%d %H:%M").to_string()
}

/// The three-letter English name of month `m` (1 to 12), as `%b` writes it; `???` for any other number.
pub open spec fn short_month_name(m: int) -> Seq<char> {
    if m == 1 { "Jan"@ }
    else if m == 2 { "Feb"@ }
    else if m == 3 { "Mar"@ }
    else if m == 4 { "Apr"@ }
    else if m == 5 { "May"@ }
    else if m == 6 { "Jun"@ }
    else if m == 7 { "Jul"@ }
    else if m == 8 { "Aug"@ }
    else if m == 9 { "Sep"@ }
    else if m == 10 { "Oct"@ }
    else if m == 11 { "Nov"@ }
    else if m == 12 { "Dec"@ }
    else { "???"@ }
}

/// A date as `%b %d` writes it.
pub open spec fn month_day_text(d: Date) -> Seq<char> {
    short_month_name(d.month as int) + seq![' '] + two_digit_text(d.day as int)
}

/// A date as `%b %d, %Y` writes it.
pub open spec fn month_day_year_text(d: Date) -> Seq<char> {
    month_day_text(d) + seq![',', ' '] + year_text(d.year as int)
}

/// Formats a date with chrono's `format("%b %d")`.
#[verifier::external_body]
pub(crate) fn format_month_day(d: Date) -> (r: String)
    requires
        d.is_valid(),
    ensures
        r@ == month_day_text(d),
{
    NaiveDate::from_ymd_opt(d.year, d.month, d.day).unwrap().format("%b %d").to_string()
}

/// Formats a date with chrono's `format("%b %d, %Y")`.
#[verifier::external_body]
pub(crate) fn format_month_day_year(d: Date) -> (r: String)
    requires
        d.is_valid(),
    ensures
        r@ == month_day_year_text(d),
{
    NaiveDate::from_ymd_opt(d.year, d.month, d.day).unwrap().format("%b %d, %Y").to_string()
}

/// What `NaiveDate::parse_from_str(s, "%Y-%m-%d")` reads from `s`.
pub uninterp spec fn parsed_date(s: Seq<char>) -> Option<Date>;

/// What `NaiveTime::parse_from_str(s, "%H:%M")` reads from `s`: hour and minute.
pub uninterp spec fn parsed_time(s: Seq<char>) -> Option<(u32, u32)>;

/// What `NaiveDateTime::parse_from_str(s, "%Y-%m-%d %H:%M")` reads from `s`.
pub uninterp spec fn parsed_datetime(s: Seq<char>) -> Option<DateTime>;

/// Calls `NaiveDate::parse_from_str(s, "%Y-%m-%d")`; what it reads is named by `parsed_date`,
/// and is a valid date.
#[verifier::external_body]
pub(crate) fn parse_date(s: &str) -> (r: Option<Date>)
    ensures
        r == parsed_date(s@),
        r matches Some(d) ==> d.is_valid(),
{
    match NaiveDate::parse_from_str(s, "%Y-%m-%d") {
        Ok(d) => Some(Date { year: d.year(), month: d.month(), day: d.day() }),
        Err(_) => None,
    }
}

/// Calls `NaiveTime::parse_from_str(s, "%H:%M")`; the hour and minute it reads are named by
/// `parsed_time`, and are a time of day.
#[verifier::external_body]
pub(crate) fn parse_time(s: &str) -> (r: Option<(u32, u32)>)
    ensures
        r == parsed_time(s@),
        r matches Some((h, m)) ==> h < 24 && m < 60,
{
    match chrono::NaiveTime::parse_from_str(s, "%H:%M") {
        Ok(t) => Some((t.hour(), t.minute())),
        Err(_) => None,
    }
}

/// Calls `NaiveDateTime::parse_from_str(s, "%Y-%m-%d %H:%M")`; what it reads is named by
/// `parsed_datetime`, and is a valid moment.
#[verifier::external_body]
pub(crate) fn parse_datetime(s: &str) -> (r: Option<DateTime>)
    ensures
        r == parsed_datetime(s@),
        r matches Some(dt) ==> dt.is_valid(),
{
    match NaiveDateTime::parse_from_str(s, "%Y-%m-%d %H:%M") {
        Ok(t) => Some(DateTime {
            date: Date { year: t.year(), month: t.month(), day: t.day() },
            hour: t.hour(),
            minute: t.minute(),
            second: t.second(),
        }),
        Err(_) => None,
    }
}

/// The largest number of minutes that a single time span can hold.
pub const MAX_SPAN_MINUTES: i64 = 153722867280912;

/// The second counts that moments can have.
pub open spec fn seconds_in_range(n: int) -> bool {
    day_number_of(MIN_YEAR as int, 1, 1) * 86400 <= n < (day_number_of(MAX_YEAR as int, 12, 31) + 1) * 86400
}

/// Calls `NaiveDateTime::checked_add_signed` with `TimeDelta::minutes(minutes)`: the moment that
/// many minutes later, or none when it falls outside chrono's range of dates.
#[verifier::external_body]
pub(crate) fn add_minutes(dt: DateTime, minutes: i64) -> (r: Option<DateTime>)
    requires
        dt.is_valid(),
        -MAX_SPAN_MINUTES <= minutes <= MAX_SPAN_MINUTES,
    ensures
        match r {
            Some(x) => x.is_valid() && x.seconds() == dt.seconds() + minutes * 60,
            None => !seconds_in_range(dt.seconds() + minutes * 60),
        },
{
    let d = NaiveDate::from_ymd_opt(dt.date.year, dt.date.month, dt.date.day).unwrap();
    let t = d.and_hms_opt(dt.hour, dt.minute, dt.second).unwrap();
    match t.checked_add_signed(TimeDelta::minutes(minutes)) {
        Some(x) => Some(DateTime {
            date: Date { year: x.year(), month: x.month(), day: x.day() },
            hour: x.hour(),
            minute: x.minute(),
            second: x.second(),
        }),
        None => None,
    }
}

/// Calls `Datelike::weekday` and `Weekday::num_days_from_sunday`: 0 for Sunday through 6 for
/// Saturday. Day 1 (0001-01-01) is a Monday, so this is the day number modulo 7.
#[verifier::external_body]
pub(crate) fn days_from_sunday(d: Date) -> (r: u32)
    requires
        d.is_valid(),
    ensures
        r == d.day_number() % 7,
{
    NaiveDate::from_ymd_opt(d.year, d.month, d.day).unwrap().weekday().num_days_from_sunday()
}

/// Calls `NaiveDate::and_hms_opt`: the moment at the given time of that day, if it is a time of day.
#[verifier::external_body]
fn chrono_and_hms(d: Date, hour: u32, minute: u32, second: u32) -> (r: Option<DateTime>)
    requires
        d.is_valid(),
    ensures
        r == (if hour < 24 && minute < 60 && second < 60 {
            Some(DateTime { date: d, hour, minute, second })
        } else {
            None
        }),
{
    match NaiveDate::from_ymd_opt(d.year, d.month, d.day).unwrap().and_hms_opt(hour, minute, second) {
        Some(t) => Some(DateTime {
            date: Date { year: t.year(), month: t.month(), day: t.day() },
            hour: t.hour(),
            minute: t.minute(),
            second: t.second(),
        }),
        None => None,
    }
}

impl Date {
    /// The moment at the given time of this day, if the time is a time of day.
    pub fn and_hms_opt(&self, hour: u32, minute: u32, second: u32) -> (r: Option<DateTime>)
        requires
            self.is_valid(),
        ensures
            r == (if hour < 24 && minute < 60 && second < 60 {
                Some(DateTime { date: *self, hour, minute, second })
            } else {
                None
            }),
    {
        chrono_and_hms(*self, hour, minute, second)
    }
}


} // verus!
