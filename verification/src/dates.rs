//! Calendar dates and wall-clock times, and the calendar arithmetic that is
//! delegated to `chrono`.
use vstd::prelude::*;
use chrono::Datelike;
use chrono::Timelike;
use crate::text::padded;

verus! {

/// Smallest year that a date may have.
pub const MIN_YEAR: i32 = -262143;

/// Largest year that a date may have.
pub const MAX_YEAR: i32 = 262142;

/// A day of the proleptic Gregorian calendar.
#[derive(Debug, Clone, Copy, PartialEq, Eq, PartialOrd, Ord, Hash)]
pub struct Date {
    pub year: i32,
    pub month: u32,
    pub day: u32,
}

/// A time of day, without fractions of a second.
#[derive(Debug, Clone, Copy, PartialEq, Eq, PartialOrd, Ord, Hash)]
pub struct Time {
    pub hour: u32,
    pub minute: u32,
    pub second: u32,
}

/// A date together with a time of day.
#[derive(Debug, Clone, Copy, PartialEq, Eq, PartialOrd, Ord, Hash)]
pub struct DateTime {
    pub date: Date,
    pub time: Time,
}

pub open spec fn is_leap_year(y: int) -> bool {
    y % 4 == 0 && (y % 100 != 0 || y % 400 == 0)
}

pub open spec fn days_in_month(y: int, m: int) -> int {
    if m == 2 {
        if is_leap_year(y) { 29 } else { 28 }
    } else if m == 4 || m == 6 || m == 9 || m == 11 {
        30
    } else {
        31
    }
}

/// A year, month and day that name an existing day in the supported range.
pub open spec fn valid_ymd(y: int, m: int, d: int) -> bool {
    &&& MIN_YEAR <= y <= MAX_YEAR
    &&& 1 <= m <= 12
    &&& 1 <= d <= days_in_month(y, m)
}

/// An hour, minute and second that name a time of day.
pub open spec fn valid_hms(h: int, m: int, s: int) -> bool {
    0 <= h < 24 && 0 <= m < 60 && 0 <= s < 60
}

/// Days from 0000-01-01 to the first day of year `y`.
pub open spec fn days_before_year(y: int) -> int {
    365 * y + (y + 3) / 4 - (y + 99) / 100 + (y + 399) / 400
}

/// Days from the first day of year `y` to the first day of month `m`.
pub open spec fn days_before_month(y: int, m: int) -> int
    decreases m,
{
    if m <= 1 {
        0
    } else {
        days_before_month(y, m - 1) + days_in_month(y, m - 1)
    }
}

/// Days elapsed since 0000-01-01.
pub open spec fn ymd_day_number(y: int, m: int, d: int) -> int {
    days_before_year(y) + days_before_month(y, m) + d - 1
}

/// Seconds elapsed since 0000-01-01T00:00:00.
pub open spec fn seconds_number(day: int, h: int, m: int, s: int) -> int {
    day * 86400 + h * 3600 + m * 60 + s
}

/// Day number of the last supported day.
pub open spec fn max_day_number() -> int {
    ymd_day_number(MAX_YEAR as int, 12, 31)
}

/// Second number of the last supported second.
pub open spec fn max_seconds_number() -> int {
    seconds_number(max_day_number(), 23, 59, 59)
}

impl Date {
    pub open spec fn wf(self) -> bool {
        valid_ymd(self.year as int, self.month as int, self.day as int)
    }

    pub open spec fn day_number(self) -> int {
        ymd_day_number(self.year as int, self.month as int, self.day as int)
    }
}

impl Time {
    pub open spec fn wf(self) -> bool {
        valid_hms(self.hour as int, self.minute as int, self.second as int)
    }

    pub open spec fn seconds_of_day(self) -> int {
        self.hour * 3600 + self.minute * 60 + self.second
    }
}

impl DateTime {
    pub open spec fn wf(self) -> bool {
        self.date.wf() && self.time.wf()
    }

    pub open spec fn seconds(self) -> int {
        seconds_number(self.date.day_number(), self.time.hour as int, self.time.minute as int, self.time.second as int)
    }
}


/// The number of days in year `y`.
pub open spec fn days_in_year(y: int) -> int {
    if is_leap_year(y) { 366 } else { 365 }
}

proof fn lemma_days_before_year_step(y: int)
    ensures
        days_before_year(y + 1) == days_before_year(y) + days_in_year(y),
{
    assert((y + 4) / 4 == (y + 3) / 4 + (if y % 4 == 0 { 1int } else { 0int })) by (nonlinear_arith);
    assert((y + 100) / 100 == (y + 99) / 100 + (if y % 100 == 0 { 1int } else { 0int })) by (nonlinear_arith);
    assert((y + 400) / 400 == (y + 399) / 400 + (if y % 400 == 0 { 1int } else { 0int })) by (nonlinear_arith);
    assert(y % 400 == 0 ==> y % 100 == 0) by (nonlinear_arith);
    assert(y % 100 == 0 ==> y % 4 == 0) by (nonlinear_arith);
}

proof fn lemma_days_before_year_mono(y1: int, y2: int)
    requires
        y1 <= y2,
    ensures
        days_before_year(y1) + 365 * (y2 - y1) <= days_before_year(y2),
    decreases y2 - y1,
{
    if y1 < y2 {
        lemma_days_before_year_mono(y1, y2 - 1);
        lemma_days_before_year_step(y2 - 1);
    }
}

proof fn lemma_days_before_month_mono(y: int, m1: int, m2: int)
    requires
        1 <= m1 <= m2,
    ensures
        days_before_month(y, m1) + 28 * (m2 - m1) <= days_before_month(y, m2),
    decreases m2 - m1,
{
    if m1 < m2 {
        lemma_days_before_month_mono(y, m1, m2 - 1);
    }
}

proof fn lemma_days_before_month_year(y: int)
    ensures
        days_before_month(y, 13) == days_in_year(y),
{
    reveal_with_fuel(days_before_month, 13);
}

/// The day number of a valid date lies within its year.
proof fn lemma_day_number_in_year(d: Date)
    requires
        d.wf(),
    ensures
        days_before_year(d.year as int) <= d.day_number() < days_before_year(d.year + 1),
        d.day_number() == days_before_year(d.year as int) + days_before_month(d.year as int, d.month as int) + d.day - 1,
{
    let y = d.year as int;
    lemma_days_before_year_step(y);
    lemma_days_before_month_year(y);
    lemma_days_before_month_mono(y, d.month as int + 1, 13);
    lemma_days_before_month_mono(y, 1, d.month as int);
    assert(days_before_month(y, d.month + 1) == days_before_month(y, d.month as int) + days_in_month(y, d.month as int));
}

/// Distinct valid dates have distinct day numbers.
pub proof fn lemma_day_number_injective(d1: Date, d2: Date)
    requires
        d1.wf(),
        d2.wf(),
        d1.day_number() == d2.day_number(),
    ensures
        d1 == d2,
{
    lemma_day_number_in_year(d1);
    lemma_day_number_in_year(d2);
    if d1.year < d2.year {
        lemma_days_before_year_mono(d1.year + 1, d2.year as int);
    } else if d2.year < d1.year {
        lemma_days_before_year_mono(d2.year + 1, d1.year as int);
    }
    assert(d1.year == d2.year);
    let y = d1.year as int;
    if d1.month < d2.month {
        lemma_days_before_month_mono(y, d1.month + 1, d2.month as int);
    } else if d2.month < d1.month {
        lemma_days_before_month_mono(y, d2.month + 1, d1.month as int);
    }
}

/// Distinct valid date-times have distinct second numbers.
pub proof fn lemma_seconds_injective(t1: DateTime, t2: DateTime)
    requires
        t1.wf(),
        t2.wf(),
        t1.seconds() == t2.seconds(),
    ensures
        t1 == t2,
{
    let n1 = t1.date.day_number();
    let n2 = t2.date.day_number();
    let s1 = t1.time.seconds_of_day();
    let s2 = t2.time.seconds_of_day();
    assert(0 <= s1 < 86400 && 0 <= s2 < 86400) by (nonlinear_arith)
        requires
            t1.time.wf(),
            t2.time.wf(),
            s1 == t1.time.hour * 3600 + t1.time.minute * 60 + t1.time.second,
            s2 == t2.time.hour * 3600 + t2.time.minute * 60 + t2.time.second;
    assert(n1 == n2) by (nonlinear_arith)
        requires
            n1 * 86400 + s1 == n2 * 86400 + s2,
            0 <= s1 < 86400,
            0 <= s2 < 86400;
    lemma_day_number_injective(t1.date, t2.date);
    let (h1, m1, c1) = (t1.time.hour as int, t1.time.minute as int, t1.time.second as int);
    let (h2, m2, c2) = (t2.time.hour as int, t2.time.minute as int, t2.time.second as int);
    assert(h1 == h2 && m1 == m2 && c1 == c2) by (nonlinear_arith)
        requires
            h1 * 3600 + m1 * 60 + c1 == h2 * 3600 + m2 * 60 + c2,
            0 <= h1 < 24, 0 <= m1 < 60, 0 <= c1 < 60,
            0 <= h2 < 24, 0 <= m2 < 60, 0 <= c2 < 60;
}


/// Every valid date lies on or before the last supported day, and every
/// valid date-time on or before the last supported second.
pub proof fn lemma_within_range(t: DateTime)
    requires
        t.wf(),
    ensures
        t.date.day_number() <= max_day_number(),
        t.seconds() <= max_seconds_number(),
{
    let d = t.date;
    lemma_day_number_in_year(d);
    lemma_days_before_year_mono(d.year + 1, MAX_YEAR + 1);
    lemma_days_before_year_step(MAX_YEAR as int);
    lemma_days_before_month_year(MAX_YEAR as int);
    assert(days_before_month(MAX_YEAR as int, 13) == days_before_month(MAX_YEAR as int, 12) + 31);
    let n = d.day_number();
    let m = max_day_number();
    let tod = t.time.hour * 3600 + t.time.minute * 60 + t.time.second;
    assert(t.seconds() == n * 86400 + tod);
    assert(tod < 86400) by (nonlinear_arith)
        requires t.time.wf(), tod == t.time.hour * 3600 + t.time.minute * 60 + t.time.second;
    assert(n * 86400 + tod <= m * 86400 + 86399) by (nonlinear_arith)
        requires n <= m, 0 <= tod < 86400;
}

/// Day number of the first supported day.
pub open spec fn min_day_number() -> int {
    ymd_day_number(MIN_YEAR as int, 1, 1)
}

/// The valid date after a valid date that is not the last supported day.
proof fn lemma_next_date(d: Date)
    requires
        d.wf(),
        d.day_number() < max_day_number(),
    ensures
        exists|e: Date| e.wf() && e.day_number() == d.day_number() + 1,
{
    let y = d.year as int;
    let m = d.month as int;
    if (d.day as int) < days_in_month(y, m) {
        let e = Date { year: d.year, month: d.month, day: (d.day + 1) as u32 };
        assert(e.wf() && e.day_number() == d.day_number() + 1);
    } else if m < 12 {
        let e = Date { year: d.year, month: (d.month + 1) as u32, day: 1 };
        assert(days_before_month(y, m + 1) == days_before_month(y, m) + days_in_month(y, m));
        assert(e.wf() && e.day_number() == d.day_number() + 1);
    } else {
        lemma_days_before_month_year(y);
        lemma_days_before_year_step(y);
        assert(days_before_month(y, 13) == days_before_month(y, 12) + days_in_month(y, 12));
        assert(y < MAX_YEAR);
        let e = Date { year: (d.year + 1) as i32, month: 1, day: 1 };
        assert(e.wf() && e.day_number() == d.day_number() + 1);
    }
}

/// Every valid date lies on or after the first supported day.
pub proof fn lemma_day_number_lower(d: Date)
    requires
        d.wf(),
    ensures
        min_day_number() <= d.day_number(),
{
    lemma_day_number_in_year(d);
    lemma_days_before_year_mono(MIN_YEAR as int, d.year as int);
}

/// Every day number between the first and the last supported day is that
/// of a valid date.
pub proof fn lemma_date_exists(n: int)
    requires
        min_day_number() <= n <= max_day_number(),
    ensures
        date_at(n).wf(),
        date_at(n).day_number() == n,
    decreases n - min_day_number(),
{
    if n == min_day_number() {
        let d = Date { year: MIN_YEAR, month: 1, day: 1 };
        assert(d.wf() && d.day_number() == n);
    } else {
        lemma_date_exists(n - 1);
        lemma_next_date(date_at(n - 1));
    }
}

/// Every second number between the first second of the first supported day
/// and the last supported second is that of a valid date-time.
pub proof fn lemma_datetime_exists(n: int)
    requires
        min_day_number() * 86400 <= n <= max_seconds_number(),
    ensures
        datetime_at(n).wf(),
        datetime_at(n).seconds() == n,
{
    let day = n / 86400;
    let r = n % 86400;
    assert(0 <= r < 86400 && n == day * 86400 + r) by (nonlinear_arith)
        requires day == n / 86400, r == n % 86400;
    assert(min_day_number() <= day <= max_day_number()) by (nonlinear_arith)
        requires
            n == day * 86400 + r,
            0 <= r < 86400,
            min_day_number() * 86400 <= n,
            n <= max_day_number() * 86400 + 86399;
    lemma_date_exists(day);
    let h = r / 3600;
    let m = (r % 3600) / 60;
    let c = r % 60;
    assert(0 <= h < 24 && 0 <= m < 60 && 0 <= c < 60 && r == h * 3600 + m * 60 + c) by (nonlinear_arith)
        requires 0 <= r < 86400, h == r / 3600, m == (r % 3600) / 60, c == r % 60;
    let w = DateTime { date: date_at(day), time: Time { hour: h as u32, minute: m as u32, second: c as u32 } };
    assert(w.wf() && w.seconds() == n);
}

/// Adding months to a valid date gives a valid date when it stays in range.
pub proof fn lemma_add_months_wf(d: Date, n: int)
    requires
        d.wf(),
    ensures
        add_months_spec(d, n) matches Some(x) ==> x.wf(),
{
    if n != 0 {
        let total = d.year * 12 + d.month - 1 + n;
        let y = total / 12;
        let m = total % 12 + 1;
        assert(1 <= m <= 12);
        assert(days_in_month(y, m) >= 28);
    }
}

/// For years from 0 on, a year starts between 365 and 366 days per year after 0000-01-01.
proof fn lemma_days_before_year_bounds(y: int)
    requires
        y >= 0,
    ensures
        365 * y <= days_before_year(y) <= 366 * y,
{
    assert(0 <= (y + 3) / 4 - (y + 99) / 100 + (y + 399) / 400 <= y) by (nonlinear_arith)
        requires y >= 0;
}

/// The day number of a valid date from year 0 on is at most 366 days per year.
pub proof fn lemma_day_number_upper(d: Date)
    requires
        d.wf(),
        d.year >= 0,
    ensures
        0 <= d.day_number() < 366 * (d.year + 1),
{
    lemma_day_number_in_year(d);
    lemma_days_before_year_bounds(d.year as int);
    lemma_days_before_year_bounds(d.year + 1);
}

pub proof fn lemma_max_day_number()
    ensures
        max_day_number() >= 365 * 262142,
{
    lemma_days_before_year_bounds(MAX_YEAR as int);
    lemma_days_before_month_mono(MAX_YEAR as int, 1, 12);
}

/// The date `months` calendar months after `d`, with the day clamped to the
/// length of the resulting month; `None` when it lies outside the supported range.
pub open spec fn add_months_spec(d: Date, months: int) -> Option<Date> {
    if months == 0 {
        Some(d)
    } else {
        let total = d.year * 12 + d.month - 1 + months;
        let y = total / 12;
        let m = total % 12 + 1;
        let day = if d.day > days_in_month(y, m) { days_in_month(y, m) } else { d.day as int };
        if MIN_YEAR <= y <= MAX_YEAR {
            Some(Date { year: y as i32, month: m as u32, day: day as u32 })
        } else {
            None
        }
    }
}

/// The valid date with the given day number.
pub open spec fn date_at(n: int) -> Date {
    choose|d: Date| d.wf() && d.day_number() == n
}

/// The valid date-time with the given second number.
pub open spec fn datetime_at(n: int) -> DateTime {
    choose|t: DateTime| t.wf() && t.seconds() == n
}

/// Calls `chrono::NaiveDate::from_ymd_opt`. Claimed: it gives a date exactly
/// when year, month and day name an existing day of the proleptic Gregorian
/// calendar between the years -262143 and 262142, and that date carries the
/// given year, month and day.
#[verifier::external_body]
pub(crate) fn chrono_from_ymd(year: i32, month: u32, day: u32) -> (r: Option<Date>)
    ensures
        r is Some <==> valid_ymd(year as int, month as int, day as int),
        r matches Some(d) ==> d == (Date { year, month, day }),
{
    match chrono::NaiveDate::from_ymd_opt(year, month, day) {
        Some(n) => Some(Date { year: n.year(), month: n.month(), day: n.day() }),
        None => None,
    }
}

/// Calls `chrono::NaiveTime::from_hms_opt`. Claimed: it gives a time exactly
/// when the hour is below 24 and minute and second below 60, and that time
/// carries the given hour, minute and second.
#[verifier::external_body]
pub(crate) fn chrono_from_hms(hour: u32, minute: u32, second: u32) -> (r: Option<Time>)
    ensures
        r is Some <==> valid_hms(hour as int, minute as int, second as int),
        r matches Some(t) ==> t == (Time { hour, minute, second }),
{
    match chrono::NaiveTime::from_hms_opt(hour, minute, second) {
        Some(n) => Some(Time { hour: n.hour(), minute: n.minute(), second: n.second() }),
        None => None,
    }
}

/// Calls `chrono::NaiveDate::checked_add_months`. Claimed: the result is the
/// date `months` months later with the day clamped to the last day of the
/// resulting month, or `None` when that date is out of range (as
/// `add_months_spec` states).
#[verifier::external_body]
pub(crate) fn chrono_add_months(d: Date, months: u32) -> (r: Option<Date>)
    requires
        d.wf(),
    ensures
        r == add_months_spec(d, months as int),
{
    let n = chrono::NaiveDate::from_ymd_opt(d.year, d.month, d.day).unwrap();
    match n.checked_add_months(chrono::Months::new(months)) {
        Some(n) => Some(Date { year: n.year(), month: n.month(), day: n.day() }),
        None => None,
    }
}

/// Calls `chrono::NaiveDate::checked_add_days`. Claimed: the result is the
/// valid date whose day number is `days` more than that of `d`, and it is
/// `None` exactly when that day lies after the last supported day.
#[verifier::external_body]
pub(crate) fn chrono_add_days(d: Date, days: u64) -> (r: Option<Date>)
    requires
        d.wf(),
    ensures
        r is Some <==> d.day_number() + days <= max_day_number(),
        r matches Some(x) ==> x.wf() && x.day_number() == d.day_number() + days,
{
    let n = chrono::NaiveDate::from_ymd_opt(d.year, d.month, d.day).unwrap();
    match n.checked_add_days(chrono::Days::new(days)) {
        Some(n) => Some(Date { year: n.year(), month: n.month(), day: n.day() }),
        None => None,
    }
}

/// Calls `chrono::NaiveDateTime + std::time::Duration` with a duration of
/// `secs` whole seconds. Claimed: the result is the valid date-time `secs`
/// seconds later. The addition panics when the result is out of range, which
/// the precondition rules out.
#[verifier::external_body]
pub(crate) fn chrono_add_seconds(t: DateTime, secs: u64) -> (r: DateTime)
    requires
        t.wf(),
        t.seconds() + secs <= max_seconds_number(),
    ensures
        r.wf(),
        r.seconds() == t.seconds() + secs,
{
    let date = chrono::NaiveDate::from_ymd_opt(t.date.year, t.date.month, t.date.day).unwrap();
    let time = chrono::NaiveTime::from_hms_opt(t.time.hour, t.time.minute, t.time.second).unwrap();
    let n = chrono::NaiveDateTime::new(date, time) + std::time::Duration::from_secs(secs);
    DateTime {
        date: Date { year: n.year(), month: n.month(), day: n.day() },
        time: Time { hour: n.hour(), minute: n.minute(), second: n.second() },
    }
}

/// Calls `chrono::NaiveDateTime + chrono::TimeDelta::days(1)` and takes the
/// date of the result. Claimed: that is the valid date whose day number is one
/// more than that of `t`. The addition panics past the last supported day,
/// which the precondition rules out.
#[verifier::external_body]
pub(crate) fn chrono_next_day(t: DateTime) -> (r: Date)
    requires
        t.wf(),
        t.date.day_number() < max_day_number(),
    ensures
        r.wf(),
        r.day_number() == t.date.day_number() + 1,
{
    let date = chrono::NaiveDate::from_ymd_opt(t.date.year, t.date.month, t.date.day).unwrap();
    let time = chrono::NaiveTime::from_hms_opt(t.time.hour, t.time.minute, t.time.second).unwrap();
    let n = (chrono::NaiveDateTime::new(date, time) + chrono::TimeDelta::days(1)).date();
    Date { year: n.year(), month: n.month(), day: n.day() }
}


/// The year as `%Y` writes it: four digits at least, with a sign outside
/// the years 0 to 9999.
pub open spec fn year_text(y: int) -> Seq<char> {
    if 0 <= y <= 9999 {
        padded(y as nat, 4)
    } else if y > 9999 {
        seq!['+'] + padded(y as nat, 4)
    } else {
        seq!['-'] + padded((-y) as nat, 4)
    }
}

/// The date as `%Y-%m-%d` writes it.
pub open spec fn date_text(d: Date) -> Seq<char> {
    year_text(d.year as int) + seq!['-'] + padded(d.month as nat, 2) + seq!['-'] + padded(d.day as nat, 2)
}

/// Calls the `Display` implementation of `chrono::NaiveDate`. Claimed, as
/// its documentation says: the date is written in the format `%Y-%m-%d`,
/// the year with at least four digits and with a sign when it lies outside
/// the years 0 to 9999, month and day with two digits.
#[verifier::external_body]
pub(crate) fn chrono_date_text(d: Date) -> (r: String)
    requires
        d.wf(),
    ensures
        r@ == date_text(d),
{
    format!("{}", chrono::NaiveDate::from_ymd_opt(d.year, d.month, d.day).unwrap())
}

impl Date {
    /// The date with the given year, month and day, if it exists.
    pub fn from_ymd_opt(year: i32, month: u32, day: u32) -> (r: Option<Date>)
        ensures
            r is Some <==> valid_ymd(year as int, month as int, day as int),
            r matches Some(d) ==> d == (Date { year, month, day }),
    {
        chrono_from_ymd(year, month, day)
    }
}

impl Time {
    /// The time of day with the given hour, minute and second, if it exists.
    pub fn from_hms_opt(hour: u32, minute: u32, second: u32) -> (r: Option<Time>)
        ensures
            r is Some <==> valid_hms(hour as int, minute as int, second as int),
            r matches Some(t) ==> t == (Time { hour, minute, second }),
    {
        chrono_from_hms(hour, minute, second)
    }
}

impl DateTime {
    /// The date-time made of a date and a time of day.
    pub fn new(date: Date, time: Time) -> (r: DateTime)
        ensures
            r == (DateTime { date, time }),
    {
        DateTime { date, time }
    }
}

} // verus!
