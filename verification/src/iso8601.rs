//! ISO 8601 dates, times, periods and intervals.
use vstd::prelude::*;
use crate::dates::{chrono_from_ymd, chrono_from_hms, chrono_next_day, Date, Time, DateTime, valid_ymd, valid_hms, add_months_spec, seconds_number, max_day_number,
    max_seconds_number, datetime_at, date_at, chrono_add_months, chrono_add_days, chrono_add_seconds,
    lemma_seconds_injective, lemma_day_number_injective, lemma_within_range, lemma_day_number_upper, lemma_max_day_number,
    lemma_day_number_lower, lemma_date_exists, lemma_datetime_exists, lemma_add_months_wf, min_day_number};
use crate::error::{ErrorKind, IResult, NomErrorKind};
use crate::scan::{SRes, PRes, SFail, SMode, Fail, Mode, rv, serr, sfailure, scut, sp_u16, sp_char, sp_tag2, bounded,
    p_u16, p_char, p_tag2, cut, fail_failure, complete, reports, report,
    is_digit, in_class, CharClass, lemma_run_end_char, lemma_run_end, digits_value, run_end};
use crate::text::{chars_of, decimal, push_decimal, push_char, lemma_decimal};

verus! {

/// Holds duration (like a time delta but seconds, minutes etc are stored separately)
///
/// Converts losslessly back and forth to a ISO8601 period
#[derive(Debug, Default, Clone, Copy, PartialEq, Eq, PartialOrd, Ord, Hash)]
pub struct TimeDuration {
    pub years: u16,
    pub months: u16,
    pub weeks: u16,
    pub days: u16,
    pub hours: u16,
    pub minutes: u16,
    pub seconds: u16,
}

pub open spec fn zero_duration() -> TimeDuration {
    TimeDuration { years: 0, months: 0, weeks: 0, days: 0, hours: 0, minutes: 0, seconds: 0 }
}

impl TimeDuration {
    pub fn years(years: u16) -> (r: Self)
        ensures
            r == (TimeDuration { years, ..zero_duration() }),
    {
        TimeDuration { years, months: 0, weeks: 0, days: 0, hours: 0, minutes: 0, seconds: 0 }
    }

    pub fn months(months: u16) -> (r: Self)
        ensures
            r == (TimeDuration { months, ..zero_duration() }),
    {
        TimeDuration { years: 0, months, weeks: 0, days: 0, hours: 0, minutes: 0, seconds: 0 }
    }

    pub fn weeks(weeks: u16) -> (r: Self)
        ensures
            r == (TimeDuration { weeks, ..zero_duration() }),
    {
        TimeDuration { years: 0, months: 0, weeks, days: 0, hours: 0, minutes: 0, seconds: 0 }
    }

    pub fn days(days: u16) -> (r: Self)
        ensures
            r == (TimeDuration { days, ..zero_duration() }),
    {
        TimeDuration { years: 0, months: 0, weeks: 0, days, hours: 0, minutes: 0, seconds: 0 }
    }

    pub fn hours(hours: u16) -> (r: Self)
        ensures
            r == (TimeDuration { hours, ..zero_duration() }),
    {
        TimeDuration { years: 0, months: 0, weeks: 0, days: 0, hours, minutes: 0, seconds: 0 }
    }

    pub fn minutes(minutes: u16) -> (r: Self)
        ensures
            r == (TimeDuration { minutes, ..zero_duration() }),
    {
        TimeDuration { years: 0, months: 0, weeks: 0, days: 0, hours: 0, minutes, seconds: 0 }
    }

    pub fn seconds(seconds: u16) -> (r: Self)
        ensures
            r == (TimeDuration { seconds, ..zero_duration() }),
    {
        TimeDuration { years: 0, months: 0, weeks: 0, days: 0, hours: 0, minutes: 0, seconds }
    }

    /// True when every part is zero.
    pub fn is_zero(&self) -> (b: bool)
        ensures
            b == (*self == zero_duration()),
    {
        self.years == 0 && self.months == 0 && self.weeks == 0 && self.days == 0
            && self.hours == 0 && self.minutes == 0 && self.seconds == 0
    }
}


/// `v` and the letter `unit`, or nothing when `v` is zero.
pub open spec fn unit_text(v: u16, unit: char) -> Seq<char> {
    if v > 0 { decimal(v as nat).push(unit) } else { seq![] }
}

/// The time part of a period: `T` and its hours, minutes and seconds, or
/// nothing when they are all zero.
pub open spec fn time_part_text(d: TimeDuration) -> Seq<char> {
    if d.hours > 0 || d.minutes > 0 || d.seconds > 0 {
        seq!['T'] + unit_text(d.hours, 'H') + unit_text(d.minutes, 'M') + unit_text(d.seconds, 'S')
    } else {
        seq![]
    }
}

/// A period as ISO 8601 writes it after the `P`: the non-zero parts with
/// their letters; `T0S` for the zero period.
pub open spec fn duration_text(d: TimeDuration) -> Seq<char> {
    if d == zero_duration() {
        seq!['T', '0', 'S']
    } else {
        unit_text(d.years, 'Y') + unit_text(d.months, 'M') + unit_text(d.weeks, 'W') + unit_text(d.days, 'D')
            + time_part_text(d)
    }
}

fn push_unit(out: &mut String, v: u16, unit: char)
    ensures
        final(out)@ == old(out)@ + unit_text(v, unit),
{
    if v > 0 {
        push_decimal(out, v as u64);
        push_char(out, unit);
        assert(old(out)@ + decimal(v as nat) + seq![unit] =~= old(out)@ + unit_text(v, unit));
    } else {
        assert(old(out)@ + unit_text(v, unit) =~= old(out)@);
    }
}

impl TimeDuration {
    /// Writes the period as ISO 8601 does after the `P`.
    pub fn to_string(&self) -> (r: String)
        ensures
            r@ == duration_text(*self),
    {
        let mut out = String::new();
        if self.is_zero() {
            // something has to be written for it to be valid
            push_char(&mut out, 'T');
            push_decimal(&mut out, self.seconds as u64);
            push_char(&mut out, 'S');
            assert(out@ =~= seq!['T', '0', 'S']);
        } else {
            push_unit(&mut out, self.years, 'Y');
            push_unit(&mut out, self.months, 'M');
            push_unit(&mut out, self.weeks, 'W');
            push_unit(&mut out, self.days, 'D');
            let ghost before = out@;
            if self.hours > 0 || self.minutes > 0 || self.seconds > 0 {
                push_char(&mut out, 'T');
                push_unit(&mut out, self.hours, 'H');
                push_unit(&mut out, self.minutes, 'M');
                push_unit(&mut out, self.seconds, 'S');
            }
            assert(out@ =~= before + time_part_text(*self));
            assert(out@ =~= duration_text(*self));
        }
        out
    }
}

/// A span of time from `start` to `end`, recurring every `interval` when
/// that is present.
#[derive(Debug, Clone, Copy, PartialEq, Eq, PartialOrd, Ord, Hash)]
pub struct Interval {
    pub start: DateTime,
    pub end: DateTime,
    pub interval: Option<TimeDuration>,
}

/// The end of an interval as it is written.
#[derive(Debug, Clone, Copy, PartialEq, Eq)]
pub enum End {
    DateTime(DateTime),
    Date(Date),
    Time(Time),
    Period(TimeDuration),
}

pub open spec fn midnight() -> Time {
    Time { hour: 0, minute: 0, second: 0 }
}

/// Months added for the years of a period: twelve per year.
pub open spec fn year_months(p: TimeDuration) -> int {
    p.years * 12
}

/// Days added for the weeks of a period: seven per week.
pub open spec fn week_days(p: TimeDuration) -> int {
    p.weeks * 7
}

/// The date-time `p` after `t`: its years and months are added as calendar
/// months (clamping the day), then its weeks and days, then its hours,
/// minutes and seconds. `None` when a step leaves the supported range.
pub open spec fn add_duration_spec(t: DateTime, p: TimeDuration) -> Option<DateTime> {
    match add_months_spec(t.date, year_months(p)) {
        None => None,
        Some(d1) => match add_months_spec(d1, p.months as int) {
            None => None,
            Some(d2) => {
                let n3 = d2.day_number() + week_days(p);
                let n4 = n3 + p.days;
                let secs = seconds_number(n4, t.time.hour as int, t.time.minute as int, t.time.second as int)
                    + p.hours * 3600 + p.minutes * 60 + p.seconds;
                if n3 > max_day_number() || n4 > max_day_number() || secs > max_seconds_number() {
                    None
                } else {
                    Some(datetime_at(secs))
                }
            }
        }
    }
}

/// Adding the hours, minutes and seconds of `p` stays in range whenever the
/// calendar part of the addition does.
pub open spec fn duration_time_part_fits(t: DateTime, p: TimeDuration) -> bool {
    match add_months_spec(t.date, year_months(p)) {
        None => true,
        Some(d1) => match add_months_spec(d1, p.months as int) {
            None => true,
            Some(d2) => {
                let n4 = d2.day_number() + week_days(p) + p.days;
                n4 <= max_day_number() ==> seconds_number(n4, t.time.hour as int, t.time.minute as int, t.time.second as int)
                    + p.hours * 3600 + p.minutes * 60 + p.seconds <= max_seconds_number()
            }
        }
    }
}

proof fn lemma_datetime_at(t: DateTime)
    requires
        t.wf(),
    ensures
        datetime_at(t.seconds()) == t,
{
    let u = datetime_at(t.seconds());
    assert(u.wf() && u.seconds() == t.seconds());
    lemma_seconds_injective(t, u);
}

proof fn lemma_date_at(d: Date)
    requires
        d.wf(),
    ensures
        date_at(d.day_number()) == d,
{
    let u = date_at(d.day_number());
    assert(u.wf() && u.day_number() == d.day_number());
    lemma_day_number_injective(d, u);
}


/// Adding the zero period leaves a date-time unchanged.
pub proof fn lemma_add_zero_duration(t: DateTime)
    requires
        t.wf(),
    ensures
        add_duration_spec(t, zero_duration()) == Some(t),
        duration_time_part_fits(t, zero_duration()),
{
    lemma_within_range(t);
    lemma_datetime_at(t);
}

/// The calendar part of a period: its years, months, weeks and days.
pub open spec fn calendar_part(p: TimeDuration) -> TimeDuration {
    TimeDuration { hours: 0, minutes: 0, seconds: 0, ..p }
}

/// The seconds in the hours, minutes and seconds of a period.
pub open spec fn clock_seconds(p: TimeDuration) -> int {
    p.hours * 3600 + p.minutes * 60 + p.seconds
}

/// The hours, minutes and seconds of a period move the date-time reached by
/// its calendar part forward by exactly that many seconds: the result is that
/// date-time's second number plus `3600 h + 60 m + s`, and it exists exactly
/// when that stays within the last supported second.
pub proof fn lemma_add_duration_clock(t: DateTime, p: TimeDuration)
    requires
        t.wf(),
    ensures
        add_duration_spec(t, p) matches Some(x) ==> add_duration_spec(t, calendar_part(p)) is Some && x.wf(),
        add_duration_spec(t, calendar_part(p)) matches Some(y) ==> y.wf() && (add_duration_spec(t, p) is Some
            <==> y.seconds() + clock_seconds(p) <= max_seconds_number()),
        add_duration_spec(t, p) matches Some(x) ==> x.seconds() == add_duration_spec(t, calendar_part(p))->Some_0.seconds()
            + clock_seconds(p),
{
    let c = calendar_part(p);
    assert(year_months(c) == year_months(p) && week_days(c) == week_days(p));
    lemma_add_months_wf(t.date, year_months(p));
    if let Some(d1) = add_months_spec(t.date, year_months(p)) {
        lemma_add_months_wf(d1, p.months as int);
        if let Some(d2) = add_months_spec(d1, p.months as int) {
            lemma_day_number_lower(d2);
            let n4 = d2.day_number() + week_days(p) + p.days;
            let (h, m, s) = (t.time.hour as int, t.time.minute as int, t.time.second as int);
            let base = seconds_number(n4, h, m, s);
            assert(min_day_number() * 86400 <= base) by (nonlinear_arith)
                requires base == n4 * 86400 + h * 3600 + m * 60 + s, min_day_number() <= n4, 0 <= h, 0 <= m, 0 <= s;
            assert(clock_seconds(p) >= 0);
            if base <= max_seconds_number() {
                lemma_datetime_exists(base);
            }
            if base + clock_seconds(p) <= max_seconds_number() {
                lemma_datetime_exists(base + clock_seconds(p));
            }
        }
    }
}

/// A period of hours, minutes and seconds only moves a date-time forward by
/// exactly `3600 h + 60 m + s` seconds; there is a result exactly when that
/// stays within the last supported second.
pub proof fn lemma_add_clock_period(t: DateTime, p: TimeDuration)
    requires
        t.wf(),
        p.years == 0 && p.months == 0 && p.weeks == 0 && p.days == 0,
    ensures
        add_duration_spec(t, p) is Some <==> t.seconds() + clock_seconds(p) <= max_seconds_number(),
        add_duration_spec(t, p) matches Some(x) ==> x.wf() && x.seconds() == t.seconds() + clock_seconds(p),
{
    lemma_add_duration_clock(t, p);
    assert(calendar_part(p) == zero_duration());
    lemma_add_zero_duration(t);
}

/// Adding `a` days and then `b` days gives what adding `a + b` days gives,
/// and nothing when the first step leaves the supported range.
pub proof fn lemma_add_days_twice(t: DateTime, a: u16, b: u16)
    requires
        t.wf(),
        a + b <= 0xFFFF,
    ensures
        match add_duration_spec(t, TimeDuration { days: a, ..zero_duration() }) {
            Some(x) => add_duration_spec(x, TimeDuration { days: b, ..zero_duration() })
                == add_duration_spec(t, TimeDuration { days: (a + b) as u16, ..zero_duration() }),
            None => add_duration_spec(t, TimeDuration { days: (a + b) as u16, ..zero_duration() }) is None,
        },
{
    let n = t.date.day_number();
    let (h, m, c) = (t.time.hour as int, t.time.minute as int, t.time.second as int);
    assert(year_months(TimeDuration { days: a, ..zero_duration() }) == 0);
    assert(year_months(TimeDuration { days: b, ..zero_duration() }) == 0);
    assert(year_months(TimeDuration { days: (a + b) as u16, ..zero_duration() }) == 0);
    if n + a <= max_day_number() {
        lemma_within_range(t);
        lemma_day_number_lower(t.date);
        lemma_date_exists(n + a);
        let w = DateTime { date: date_at(n + a), time: t.time };
        let secs = seconds_number(n + a, h, m, c);
        assert(secs <= max_seconds_number()) by (nonlinear_arith)
            requires
                secs == (n + a) * 86400 + h * 3600 + m * 60 + c,
                n + a <= max_day_number(),
                max_seconds_number() == max_day_number() * 86400 + 23 * 3600 + 59 * 60 + 59,
                0 <= h < 24, 0 <= m < 60, 0 <= c < 60;
        assert(w.wf() && w.seconds() == secs);
        let x = datetime_at(secs);
        assert(x.wf() && x.seconds() == secs);
        lemma_seconds_injective(x, w);
    }
}

impl DateTime {
    /// The date-time `rhs` after `self`, computed as `add_duration_spec`
    /// states; `None` when a calendar step leaves the supported range.
    pub fn add_duration(self, rhs: TimeDuration) -> (r: Option<DateTime>)
        requires
            self.wf(),
            duration_time_part_fits(self, rhs),
        ensures
            r == add_duration_spec(self, rhs),
            r matches Some(x) ==> x.wf(),
    {
        let ym: u32 = (rhs.years as u32) * 12;
        let d1 = match chrono_add_months(self.date, ym) {
            Some(d) => d,
            None => return None,
        };
        assert(d1.wf());
        let d2 = match chrono_add_months(d1, rhs.months as u32) {
            Some(d) => d,
            None => return None,
        };
        assert(d2.wf());
        let wd: u64 = ((rhs.weeks as u32) * 7) as u64;
        let d3 = match chrono_add_days(d2, wd) {
            Some(d) => d,
            None => return None,
        };
        let d4 = match chrono_add_days(d3, rhs.days as u64) {
            Some(d) => d,
            None => return None,
        };
        let t0 = DateTime { date: d4, time: self.time };
        let ghost base = t0.seconds();
        assert(base == seconds_number(d2.day_number() + week_days(rhs) + rhs.days, self.time.hour as int,
            self.time.minute as int, self.time.second as int));
        let t1 = chrono_add_seconds(t0, (rhs.hours as u64) * 3600);
        let t2 = chrono_add_seconds(t1, (rhs.minutes as u64) * 60);
        let t3 = chrono_add_seconds(t2, rhs.seconds as u64);
        proof {
            lemma_datetime_at(t3);
        }
        Some(t3)
    }
}


// ----- parsers -----

pub fn p_date(s: &Vec<char>, i: usize) -> (r: PRes<Date>)
    requires
        i <= s@.len(),
    ensures
        complete(r),
        rv(r) == sp_date(s@, i as int),
        bounded(r, i as int, s@.len() as int),
        r matches Ok((_, d)) ==> d.wf() && 0 <= d.year <= 0xffff,
{
    let (i1, y) = match p_u16(s, i) {
        Ok(x) => x,
        Err(e) => return Err(e),
    };
    let (i2, _) = match p_char(s, i1, '-') {
        Ok(x) => x,
        Err(e) => return Err(e),
    };
    let (i3, m) = match p_u16(s, i2) {
        Ok(x) => x,
        Err(e) => return Err(cut(e)),
    };
    let (i4, _) = match p_char(s, i3, '-') {
        Ok(x) => x,
        Err(e) => return Err(cut(e)),
    };
    let (i5, d) = match p_u16(s, i4) {
        Ok(x) => x,
        Err(e) => return Err(cut(e)),
    };
    match chrono_from_ymd(y as i32, m as u32, d as u32) {
        Some(date) => Ok((i5, date)),
        None => Err(fail_failure(i5, ErrorKind::InvalidDate)),
    }
}

pub fn p_colon_u16(s: &Vec<char>, i: usize) -> (r: PRes<Option<u16>>)
    requires
        i <= s@.len(),
    ensures
        complete(r),
        rv(r) == sp_colon_u16(s@, i as int),
        bounded(r, i as int, s@.len() as int),
{
    match p_char(s, i, ':') {
        Err(_) => Ok((i, None)),
        Ok((j, _)) => match p_u16(s, j) {
            Err(e) => Err(cut(e)),
            Ok((k, v)) => Ok((k, Some(v))),
        },
    }
}

pub fn p_time(s: &Vec<char>, i: usize) -> (r: PRes<Time>)
    requires
        i <= s@.len(),
    ensures
        complete(r),
        rv(r) == sp_time(s@, i as int),
        bounded(r, i as int, s@.len() as int),
        r matches Ok((_, t)) ==> t.wf(),
{
    let (i1, h) = match p_u16(s, i) {
        Ok(x) => x,
        Err(e) => return Err(e),
    };
    let (i2, m) = match p_colon_u16(s, i1) {
        Ok(x) => x,
        Err(e) => return Err(e),
    };
    let (i3, c) = match p_colon_u16(s, i2) {
        Ok(x) => x,
        Err(e) => return Err(e),
    };
    let mm: u16 = match m { Some(x) => x, None => 0 };
    let cc: u16 = match c { Some(x) => x, None => 0 };
    match chrono_from_hms(h as u32, mm as u32, cc as u32) {
        Some(t) => Ok((i3, t)),
        None => Err(fail_failure(i3, ErrorKind::InvalidTime)),
    }
}

pub fn p_timestamp(s: &Vec<char>, i: usize) -> (r: PRes<DateTime>)
    requires
        i <= s@.len(),
    ensures
        complete(r),
        rv(r) == sp_timestamp(s@, i as int),
        bounded(r, i as int, s@.len() as int),
        r matches Ok((_, t)) ==> t.wf() && 0 <= t.date.year <= 0xffff,
{
    let (i1, d) = match p_date(s, i) {
        Ok(x) => x,
        Err(e) => return Err(e),
    };
    let (i2, _) = match p_char(s, i1, 'T') {
        Ok(x) => x,
        Err(e) => return Err(e),
    };
    match p_time(s, i2) {
        Err(e) => Err(cut(e)),
        Ok((i3, t)) => Ok((i3, DateTime { date: d, time: t })),
    }
}

pub fn p_unit(s: &Vec<char>, i: usize, unit: char) -> (r: (usize, Option<u16>))
    requires
        i <= s@.len(),
    ensures
        (r.0 as int, r.1) == sp_unit(s@, i as int, unit),
        i <= r.0 <= s@.len(),
{
    reveal(sp_unit);
    match p_u16(s, i) {
        Err(_) => (i, None),
        Ok((j, v)) => match p_char(s, j, unit) {
            Err(_) => (i, None),
            Ok((k, _)) => (k, Some(v)),
        },
    }
}

pub fn p_period(s: &Vec<char>, i: usize) -> (r: PRes<TimeDuration>)
    requires
        i <= s@.len(),
    ensures
        complete(r),
        rv(r) == sp_period(s@, i as int),
        bounded(r, i as int, s@.len() as int),
{
    let (i1, y) = p_unit(s, i, 'Y');
    let (i2, mo) = p_unit(s, i1, 'M');
    let (i3, w) = p_unit(s, i2, 'W');
    let (i4, d) = p_unit(s, i3, 'D');
    let (end, h, mi, se) = if i4 < s.len() && s[i4] == 'T' {
        let (i5, h) = p_unit(s, i4 + 1, 'H');
        let (i6, mi) = p_unit(s, i5, 'M');
        let (i7, se) = p_unit(s, i6, 'S');
        (i7, h, mi, se)
    } else {
        (i4, None, None, None)
    };
    if end == i || (end == i + 1 && s[i] == 'T') {
        Err(fail_failure(i, ErrorKind::InvalidPeriod))
    } else {
        Ok((end, TimeDuration {
            years: unwrap_zero(y),
            months: unwrap_zero(mo),
            weeks: unwrap_zero(w),
            days: unwrap_zero(d),
            hours: unwrap_zero(h),
            minutes: unwrap_zero(mi),
            seconds: unwrap_zero(se),
        }))
    }
}

fn unwrap_zero(v: Option<u16>) -> (r: u16)
    ensures
        r == or_zero(v),
{
    match v {
        Some(x) => x,
        None => 0,
    }
}

pub fn p_start(s: &Vec<char>, i: usize) -> (r: PRes<DateTime>)
    requires
        i <= s@.len(),
    ensures
        complete(r),
        rv(r) == sp_start(s@, i as int),
        bounded(r, i as int, s@.len() as int),
        r matches Ok((_, t)) ==> t.wf() && 0 <= t.date.year <= 0xffff,
{
    match p_timestamp(s, i) {
        Ok(x) => Ok(x),
        Err(e) => match e.mode {
            Mode::Error => match p_date(s, i) {
                Ok((j, d)) => Ok((j, DateTime { date: d, time: Time { hour: 0, minute: 0, second: 0 } })),
                Err(e2) => Err(e2),
            },
            _ => Err(e),
        },
    }
}

pub fn p_end(s: &Vec<char>, i: usize) -> (r: PRes<End>)
    requires
        i <= s@.len(),
    ensures
        complete(r),
        rv(r) == sp_end(s@, i as int),
        bounded(r, i as int, s@.len() as int),
        r matches Ok((_, End::Time(t))) ==> t.wf(),
        r matches Ok((_, End::Date(d))) ==> d.wf(),
        r matches Ok((_, End::DateTime(t))) ==> t.wf(),
{
    match p_char(s, i, 'P') {
        Ok((j, _)) => match p_period(s, j) {
            Err(e) => Err(cut(e)),
            Ok((k, p)) => Ok((k, End::Period(p))),
        },
        Err(_) => match p_timestamp(s, i) {
            Ok((k, t)) => Ok((k, End::DateTime(t))),
            Err(e1) => match e1.mode {
                Mode::Error => match p_date(s, i) {
                    Ok((k, d)) => Ok((k, End::Date(d))),
                    Err(e2) => match e2.mode {
                        Mode::Error => match p_time(s, i) {
                            Ok((k, t)) => Ok((k, End::Time(t))),
                            Err(e3) => match e3.mode {
                                Mode::Error => Err(Fail {
                                    mode: Mode::Error,
                                    pos: i,
                                    kind: ErrorKind::Nom(NomErrorKind::Fail),
                                    missing_end: true,
                                }),
                                _ => Err(e3),
                            },
                        },
                        _ => Err(e2),
                    },
                },
                _ => Err(e1),
            },
        },
    }
}

pub fn p_slash_end(s: &Vec<char>, i: usize, must: bool) -> (r: PRes<Option<End>>)
    requires
        i <= s@.len(),
    ensures
        complete(r),
        rv(r) == sp_slash_end(s@, i as int, must),
        bounded(r, i as int, s@.len() as int),
        r matches Ok((_, Some(End::Time(t)))) ==> t.wf(),
        r matches Ok((_, Some(End::Date(d)))) ==> d.wf(),
        r matches Ok((_, Some(End::DateTime(t)))) ==> t.wf(),
{
    match p_char(s, i, '/') {
        Err(_) => Ok((i, None)),
        Ok((j, _)) => match p_end(s, j) {
            Ok((k, e)) => Ok((k, Some(e))),
            Err(e) => if must {
                Err(cut(e))
            } else {
                match e.mode {
                    Mode::Error => Ok((i, None)),
                    _ => Err(e),
                }
            },
        },
    }
}

pub fn p_interval_parts(s: &Vec<char>, i: usize) -> (r: PRes<(DateTime, Option<End>, Option<TimeDuration>)>)
    requires
        i <= s@.len(),
    ensures
        complete(r),
        rv(r) == sp_interval_parts(s@, i as int),
        bounded(r, i as int, s@.len() as int),
        r matches Ok((_, (t, _, _))) ==> t.wf() && 0 <= t.date.year <= 0xffff,
        r matches Ok((_, (_, Some(End::Time(t)), _))) ==> t.wf(),
        r matches Ok((_, (_, Some(End::Date(d)), _))) ==> d.wf(),
        r matches Ok((_, (_, Some(End::DateTime(t)), _))) ==> t.wf(),
{
    let recurring = p_recurring(s, i);
    match recurring {
        Ok(x) => Ok(x),
        Err(e) => match e.mode {
            Mode::Error => match p_start(s, i) {
                Err(e) => Err(e),
                Ok((i1, start)) => match p_slash_end(s, i1, true) {
                    Err(e) => Err(e),
                    Ok((i2, end)) => Ok((i2, (start, end, None))),
                },
            },
            _ => Err(e),
        },
    }
}

pub open spec fn sp_recurring(s: Seq<char>, i: int) -> SRes<(DateTime, Option<End>, Option<TimeDuration>)> {
    match sp_tag2(s, i, 'R', '/') {
        Err(e) => Err(e),
        Ok((i1, _)) => match sp_start(s, i1) {
            Err(e) => Err(scut(e)),
            Ok((i2, start)) => match sp_slash_end(s, i2, false) {
                Err(e) => Err(e),
                Ok((i3, end)) => match sp_tag2(s, i3, '/', 'F') {
                    Err(e) => Err(e),
                    Ok((i4, _)) => match sp_period(s, i4) {
                        Err(e) => Err(scut(e)),
                        Ok((i5, p)) => Ok((i5, (start, end, Some(p)))),
                    },
                },
            },
        },
    }
}

fn p_recurring(s: &Vec<char>, i: usize) -> (r: PRes<(DateTime, Option<End>, Option<TimeDuration>)>)
    requires
        i <= s@.len(),
    ensures
        complete(r),
        rv(r) == sp_recurring(s@, i as int),
        bounded(r, i as int, s@.len() as int),
        r matches Ok((_, (t, _, _))) ==> t.wf() && 0 <= t.date.year <= 0xffff,
        r matches Ok((_, (_, Some(End::Time(t)), _))) ==> t.wf(),
        r matches Ok((_, (_, Some(End::Date(d)), _))) ==> d.wf(),
        r matches Ok((_, (_, Some(End::DateTime(t)), _))) ==> t.wf(),
{
    let (i1, _) = match p_tag2(s, i, 'R', '/') {
        Ok(x) => x,
        Err(e) => return Err(e),
    };
    let (i2, start) = match p_start(s, i1) {
        Ok(x) => x,
        Err(e) => return Err(cut(e)),
    };
    let (i3, end) = match p_slash_end(s, i2, false) {
        Ok(x) => x,
        Err(e) => return Err(e),
    };
    let (i4, _) = match p_tag2(s, i3, '/', 'F') {
        Ok(x) => x,
        Err(e) => return Err(e),
    };
    match p_period(s, i4) {
        Err(e) => Err(cut(e)),
        Ok((i5, p)) => Ok((i5, (start, end, Some(p)))),
    }
}


pub fn p_interval(s: &Vec<char>, i: usize) -> (r: PRes<Interval>)
    requires
        i <= s@.len(),
    ensures
        complete(r),
        rv(r) == sp_interval(s@, i as int),
        bounded(r, i as int, s@.len() as int),
        r matches Ok((_, v)) ==> v.start.wf() && v.end.wf(),
{
    reveal(sp_interval);
    let (j, (start, end, rec)) = match p_interval_parts(s, i) {
        Ok(x) => x,
        Err(e) => return Err(e),
    };
    let e = match end {
        Some(End::Time(t)) => DateTime { date: start.date, time: t },
        Some(End::Date(d)) => DateTime { date: d, time: Time { hour: 0, minute: 0, second: 0 } },
        Some(End::Period(p)) => {
            proof {
                lemma_duration_fits(start, p);
            }
            match start.add_duration(p) {
                Some(t) => t,
                None => return Err(fail_failure(j, ErrorKind::InvalidPeriod)),
            }
        },
        Some(End::DateTime(t)) => t,
        None => {
            proof {
                lemma_day_number_upper(start.date);
                lemma_max_day_number();
            }
            let d = chrono_next_day(start);
            proof {
                lemma_date_at(d);
            }
            DateTime { date: d, time: Time { hour: 0, minute: 0, second: 0 } }
        },
    };
    Ok((j, Interval { start, end: e, interval: rec }))
}


/// Parses a date `YYYY-MM-DD`.
pub fn parse_date(input: &str) -> (r: IResult<'_, Date>)
    ensures
        reports(input@, r, sp_date(input@, 0)),
        r matches Err(e) ==> !(e is Incomplete),
{
    let s = chars_of(input);
    let n = s.len();
    let res = p_date(&s, 0);
    report(input, n, res)
}

/// Parses a time of day `hh[:mm[:ss]]`.
pub fn parse_time(input: &str) -> (r: IResult<'_, Time>)
    ensures
        reports(input@, r, sp_time(input@, 0)),
        r matches Err(e) ==> !(e is Incomplete),
{
    let s = chars_of(input);
    let n = s.len();
    let res = p_time(&s, 0);
    report(input, n, res)
}

/// Parses a date and time `YYYY-MM-DDThh[:mm[:ss]]`.
pub fn parse_timestamp(input: &str) -> (r: IResult<'_, DateTime>)
    ensures
        reports(input@, r, sp_timestamp(input@, 0)),
        r matches Err(e) ==> !(e is Incomplete),
{
    let s = chars_of(input);
    let n = s.len();
    let res = p_timestamp(&s, 0);
    report(input, n, res)
}

/// Parses a period `[nY][nM][nW][nD][T[nH][nM][nS]]` (without the leading `P`).
pub fn parse_period(input: &str) -> (r: IResult<'_, TimeDuration>)
    ensures
        reports(input@, r, sp_period(input@, 0)),
        r matches Err(e) ==> !(e is Incomplete),
{
    let s = chars_of(input);
    let n = s.len();
    let res = p_period(&s, 0);
    report(input, n, res)
}

/// Parses interval like `2020-01-01T20:00/22:00` or `R/2020-01-01/F2D`
pub fn parse_interval(input: &str) -> (r: IResult<'_, Interval>)
    ensures
        reports(input@, r, sp_interval(input@, 0)),
        r matches Err(e) ==> !(e is Incomplete),
        r matches Ok((_, v)) ==> v.start.wf() && v.end.wf(),
{
    let s = chars_of(input);
    let n = s.len();
    let res = p_interval(&s, 0);
    report(input, n, res)
}

/// Adding any period to a start from the years 0 to 65535 stays in range.
proof fn lemma_duration_fits(t: DateTime, p: TimeDuration)
    requires
        t.wf(),
        0 <= t.date.year <= 0xffff,
    ensures
        duration_time_part_fits(t, p),
        add_duration_spec(t, p) is Some,
{
    let ym = year_months(p);
    assert(0 <= ym <= 0xffff * 12);
    lemma_add_months_bounds(t.date, ym);
    match add_months_spec(t.date, ym) {
        None => {},
        Some(d1) => {
            assert(d1.year <= 0xffff + 0xffff + 1);
            lemma_add_months_bounds(d1, p.months as int);
            match add_months_spec(d1, p.months as int) {
                None => {},
                Some(d2) => {
                    assert(d2.year <= 0xffff + 0xffff + 1 + 5461 + 1);
                    lemma_day_number_upper(d2);
                    lemma_max_day_number();
                    let wd = week_days(p);
                    assert(0 <= wd <= 0xffff * 7);
                    let n4 = d2.day_number() + wd + p.days;
                    assert(n4 < 366 * 136534 + 0x80000);
                    let tod = t.time.hour * 3600 + t.time.minute * 60 + t.time.second;
                    assert(tod < 86400) by (nonlinear_arith)
                        requires t.time.wf(), tod == t.time.hour * 3600 + t.time.minute * 60 + t.time.second;
                    let extra = p.hours * 3600 + p.minutes * 60 + p.seconds;
                    assert(extra <= 0xffff * 3661) by (nonlinear_arith)
                        requires extra == p.hours * 3600 + p.minutes * 60 + p.seconds, p.hours <= 0xffff,
                            p.minutes <= 0xffff, p.seconds <= 0xffff;
                    assert(n4 * 86400 + tod + extra <= max_day_number() * 86400 + 86399) by (nonlinear_arith)
                        requires n4 < 366 * 136534 + 0x80000, max_day_number() >= 365 * 262142, tod < 86400,
                            extra <= 0xffff * 3661;
                    assert(n4 <= max_day_number());
                },
            }
        },
    }
}

/// Adding `n` months to a date from the year 0 on moves it forward by at
/// most `n / 12 + 1` years, and keeps it valid when that stays in range.
proof fn lemma_add_months_bounds(d: Date, n: int)
    requires
        d.wf(),
        0 <= d.year,
        0 <= n,
        d.year + n / 12 + 1 <= 262142,
    ensures
        add_months_spec(d, n) matches Some(x) ==> x.wf() && d.year <= x.year <= d.year + n / 12 + 1,
        add_months_spec(d, n) is Some,
{
    if n != 0 {
        let total = d.year * 12 + d.month - 1 + n;
        let y = total / 12;
        let m = total % 12 + 1;
        assert(d.year <= y <= d.year + n / 12 + 1) by (nonlinear_arith)
            requires total == d.year * 12 + d.month - 1 + n, y == total / 12, 1 <= d.month <= 12, 0 <= n, 0 <= d.year;
        assert(1 <= m <= 12);
    }
}

// ----- grammar -----

/// `YYYY-MM-DD` with 16-bit numbers; after the first `-` nothing may be
/// missing, and the numbers must name an existing day.
pub open spec fn sp_date(s: Seq<char>, i: int) -> SRes<Date> {
    match sp_u16(s, i) {
        Err(e) => Err(e),
        Ok((i1, y)) => match sp_char(s, i1, '-') {
            Err(e) => Err(e),
            Ok((i2, _)) => match sp_u16(s, i2) {
                Err(e) => Err(scut(e)),
                Ok((i3, m)) => match sp_char(s, i3, '-') {
                    Err(e) => Err(scut(e)),
                    Ok((i4, _)) => match sp_u16(s, i4) {
                        Err(e) => Err(scut(e)),
                        Ok((i5, d)) => if valid_ymd(y as int, m as int, d as int) {
                            Ok((i5, Date { year: y as i32, month: m as u32, day: d as u32 }))
                        } else {
                            Err(sfailure(i5, ErrorKind::InvalidDate))
                        },
                    },
                },
            },
        },
    }
}

/// An optional `:` followed by a number that must then be present.
pub open spec fn sp_colon_u16(s: Seq<char>, i: int) -> SRes<Option<u16>> {
    match sp_char(s, i, ':') {
        Err(_) => Ok((i, None)),
        Ok((j, _)) => match sp_u16(s, j) {
            Err(e) => Err(scut(e)),
            Ok((k, v)) => Ok((k, Some(v))),
        },
    }
}

pub open spec fn or_zero(v: Option<u16>) -> u16 {
    match v {
        Some(x) => x,
        None => 0,
    }
}

/// `hh[:mm[:ss]]`, naming a time of day.
pub open spec fn sp_time(s: Seq<char>, i: int) -> SRes<Time> {
    match sp_u16(s, i) {
        Err(e) => Err(e),
        Ok((i1, h)) => match sp_colon_u16(s, i1) {
            Err(e) => Err(e),
            Ok((i2, m)) => match sp_colon_u16(s, i2) {
                Err(e) => Err(e),
                Ok((i3, c)) => if valid_hms(h as int, or_zero(m) as int, or_zero(c) as int) {
                    Ok((i3, Time { hour: h as u32, minute: or_zero(m) as u32, second: or_zero(c) as u32 }))
                } else {
                    Err(sfailure(i3, ErrorKind::InvalidTime))
                },
            },
        },
    }
}

/// A date, `T` and a time.
pub open spec fn sp_timestamp(s: Seq<char>, i: int) -> SRes<DateTime> {
    match sp_date(s, i) {
        Err(e) => Err(e),
        Ok((i1, d)) => match sp_char(s, i1, 'T') {
            Err(e) => Err(e),
            Ok((i2, _)) => match sp_time(s, i2) {
                Err(e) => Err(scut(e)),
                Ok((i3, t)) => Ok((i3, DateTime { date: d, time: t })),
            },
        },
    }
}

/// An optional number followed by the letter `unit`.
#[verifier::opaque]
pub open spec fn sp_unit(s: Seq<char>, i: int, unit: char) -> (int, Option<u16>) {
    match sp_u16(s, i) {
        Err(_) => (i, None),
        Ok((j, v)) => match sp_char(s, j, unit) {
            Err(_) => (i, None),
            Ok((k, _)) => (k, Some(v)),
        },
    }
}

/// `[nY][nM][nW][nD][T[nH][nM][nS]]`, which must not be empty or just `T`.
pub open spec fn sp_period(s: Seq<char>, i: int) -> SRes<TimeDuration> {
    let (i1, y) = sp_unit(s, i, 'Y');
    let (i2, mo) = sp_unit(s, i1, 'M');
    let (i3, w) = sp_unit(s, i2, 'W');
    let (i4, d) = sp_unit(s, i3, 'D');
    let (end, h, mi, se) = if 0 <= i4 < s.len() && s[i4] == 'T' {
        let (i5, h) = sp_unit(s, i4 + 1, 'H');
        let (i6, mi) = sp_unit(s, i5, 'M');
        let (i7, se) = sp_unit(s, i6, 'S');
        (i7, h, mi, se)
    } else {
        (i4, None, None, None)
    };
    if end == i || (end == i + 1 && s[i] == 'T') {
        Err(sfailure(i, ErrorKind::InvalidPeriod))
    } else {
        Ok((end, TimeDuration {
            years: or_zero(y),
            months: or_zero(mo),
            weeks: or_zero(w),
            days: or_zero(d),
            hours: or_zero(h),
            minutes: or_zero(mi),
            seconds: or_zero(se),
        }))
    }
}

/// A timestamp, or a date at midnight.
pub open spec fn sp_start(s: Seq<char>, i: int) -> SRes<DateTime> {
    match sp_timestamp(s, i) {
        Ok(x) => Ok(x),
        Err(e) => if e.mode is Error {
            match sp_date(s, i) {
                Ok((j, d)) => Ok((j, DateTime { date: d, time: midnight() })),
                Err(e2) => Err(e2),
            }
        } else {
            Err(e)
        },
    }
}

/// The failure of an interval whose end is missing.
pub open spec fn missing_end_error(i: int) -> SFail {
    SFail { mode: SMode::Error, pos: i, kind: ErrorKind::Nom(NomErrorKind::Fail), missing_end: true }
}

/// `P` and a period, a timestamp, a date, or a time.
pub open spec fn sp_end(s: Seq<char>, i: int) -> SRes<End> {
    match sp_char(s, i, 'P') {
        Ok((j, _)) => match sp_period(s, j) {
            Err(e) => Err(scut(e)),
            Ok((k, p)) => Ok((k, End::Period(p))),
        },
        Err(_) => match sp_timestamp(s, i) {
            Ok((k, t)) => Ok((k, End::DateTime(t))),
            Err(e1) => if !(e1.mode is Error) {
                Err(e1)
            } else {
                match sp_date(s, i) {
                    Ok((k, d)) => Ok((k, End::Date(d))),
                    Err(e2) => if !(e2.mode is Error) {
                        Err(e2)
                    } else {
                        match sp_time(s, i) {
                            Ok((k, t)) => Ok((k, End::Time(t))),
                            Err(e3) => if !(e3.mode is Error) {
                                Err(e3)
                            } else {
                                Err(missing_end_error(i))
                            },
                        }
                    },
                }
            },
        },
    }
}

/// An optional `/` and end. With `cut`, a `/` must be followed by an end.
pub open spec fn sp_slash_end(s: Seq<char>, i: int, cut: bool) -> SRes<Option<End>> {
    match sp_char(s, i, '/') {
        Err(_) => Ok((i, None)),
        Ok((j, _)) => match sp_end(s, j) {
            Ok((k, e)) => Ok((k, Some(e))),
            Err(e) => if cut {
                Err(scut(e))
            } else if e.mode is Error {
                Ok((i, None))
            } else {
                Err(e)
            },
        },
    }
}

/// The parts of an interval as written: start, optional end, optional recurrence.
pub open spec fn sp_interval_parts(s: Seq<char>, i: int) -> SRes<(DateTime, Option<End>, Option<TimeDuration>)> {
    let recurring = sp_recurring(s, i);
    match recurring {
        Ok(x) => Ok(x),
        Err(e) => if !(e.mode is Error) {
            Err(e)
        } else {
            match sp_start(s, i) {
                Err(e) => Err(e),
                Ok((i1, start)) => match sp_slash_end(s, i1, true) {
                    Err(e) => Err(e),
                    Ok((i2, end)) => Ok((i2, (start, end, None))),
                },
            }
        },
    }
}

/// The end of an interval: a time is on the start's day, a date is at
/// midnight, a period is added to the start, and a missing end is the
/// midnight after the start.
pub open spec fn resolve_end(start: DateTime, end: Option<End>, pos: int) -> SRes<DateTime> {
    match end {
        Some(End::Time(t)) => Ok((pos, DateTime { date: start.date, time: t })),
        Some(End::Date(d)) => Ok((pos, DateTime { date: d, time: midnight() })),
        Some(End::Period(p)) => match add_duration_spec(start, p) {
            Some(t) => Ok((pos, t)),
            None => Err(sfailure(pos, ErrorKind::InvalidPeriod)),
        },
        Some(End::DateTime(t)) => Ok((pos, t)),
        None => Ok((pos, DateTime { date: date_at(start.date.day_number() + 1), time: midnight() })),
    }
}

/// `[R/]start[/end][/Fperiod]`; the recurrence is required after `R/`.
#[verifier::opaque]
pub open spec fn sp_interval(s: Seq<char>, i: int) -> SRes<Interval> {
    match sp_interval_parts(s, i) {
        Err(e) => Err(e),
        Ok((j, (start, end, rec))) => match resolve_end(start, end, j) {
            Err(e) => Err(e),
            Ok((_, e)) => Ok((j, Interval { start, end: e, interval: rec })),
        },
    }
}


// ----- writing a period and reading it back -----

/// The parts of a period in order, each written with its letter.
pub open spec fn seg_text(vs: Seq<(u16, char)>) -> Seq<char>
    decreases vs.len(),
{
    if vs.len() == 0 {
        seq![]
    } else {
        unit_text(vs[0].0, vs[0].1) + seg_text(vs.drop_first())
    }
}

/// The letters are not digits and differ from each other.
pub open spec fn letters_ok(vs: Seq<(u16, char)>) -> bool {
    &&& forall|i: int| 0 <= i < vs.len() ==> !is_digit(#[trigger] vs[i].1)
    &&& forall|i: int, j: int| 0 <= i < j < vs.len() ==> #[trigger] vs[i].1 != #[trigger] vs[j].1
}

/// Index of the first non-zero part, or the number of parts.
pub open spec fn first_nonzero(vs: Seq<(u16, char)>) -> int
    decreases vs.len(),
{
    if vs.len() == 0 {
        0
    } else if vs[0].0 > 0 {
        0
    } else {
        1 + first_nonzero(vs.drop_first())
    }
}

proof fn lemma_first_nonzero(vs: Seq<(u16, char)>)
    ensures
        0 <= first_nonzero(vs) <= vs.len(),
        first_nonzero(vs) == vs.len() ==> seg_text(vs) =~= seq![],
        first_nonzero(vs) < vs.len() ==> vs[first_nonzero(vs)].0 > 0
            && seg_text(vs) =~= unit_text(vs[first_nonzero(vs)].0, vs[first_nonzero(vs)].1)
                + seg_text(vs.skip(first_nonzero(vs) + 1)),
    decreases vs.len(),
{
    if vs.len() > 0 {
        if vs[0].0 > 0 {
            assert(vs.skip(1) =~= vs.drop_first());
        } else {
            lemma_first_nonzero(vs.drop_first());
            let j = first_nonzero(vs.drop_first());
            assert(unit_text(vs[0].0, vs[0].1) =~= seq![]);
            if j < vs.len() - 1 {
                assert(vs.drop_first().skip(j + 1) =~= vs.skip(j + 2));
                assert(vs.drop_first()[j] == vs[j + 1]);
            }
        }
    }
}

/// A number written in decimal and followed by a letter reads back as itself.
proof fn lemma_read_number(s: Seq<char>, p: int, v: u16, u: char)
    requires
        0 <= p,
        v > 0,
        !is_digit(u),
        p + unit_text(v, u).len() <= s.len(),
        s.subrange(p, p + unit_text(v, u).len()) == unit_text(v, u),
    ensures
        sp_u16(s, p) == Ok::<(int, u16), SFail>((p + decimal(v as nat).len(), v)),
        s[p + decimal(v as nat).len()] == u,
{
    let dv = decimal(v as nat);
    let l = dv.len() as int;
    lemma_decimal(v as nat);
    assert forall|m: int| p <= m < p + l implies in_class(CharClass::Digit, #[trigger] s[m]) by {
        assert(s[m] == s.subrange(p, p + l + 1)[m - p]);
        assert(unit_text(v, u)[m - p] == dv[m - p]);
    }
    assert(s[p + l] == s.subrange(p, p + l + 1)[l]);
    lemma_run_end_char(s, p, p + l, CharClass::Digit);
    assert(s.subrange(p, p + l) =~= dv);
}

proof fn lemma_unit_at(s: Seq<char>, p: int, vs: Seq<(u16, char)>, after: Seq<char>)
    requires
        0 <= p <= s.len(),
        s.skip(p) == seg_text(vs) + after,
        vs.len() > 0,
        letters_ok(vs),
        after.len() == 0 || !is_digit(after[0]),
    ensures
        sp_unit(s, p, vs[0].1) == (p + unit_text(vs[0].0, vs[0].1).len(),
            if vs[0].0 > 0 { Some(vs[0].0) } else { None::<u16> }),
        s.skip(p + unit_text(vs[0].0, vs[0].1).len()) == seg_text(vs.drop_first()) + after,
        p + unit_text(vs[0].0, vs[0].1).len() <= s.len(),
{
    reveal(sp_unit);
    let (v, u) = vs[0];
    let t = unit_text(v, u);
    let rest = vs.drop_first();
    assert(s.skip(p) =~= t + (seg_text(rest) + after));
    assert(s.skip(p + t.len()) =~= seg_text(rest) + after) by {
        assert(s.skip(p + t.len()) =~= s.skip(p).skip(t.len() as int));
    }
    if v > 0 {
        assert(s.subrange(p, p + t.len()) =~= s.skip(p).subrange(0, t.len() as int));
        assert((t + (seg_text(rest) + after)).subrange(0, t.len() as int) =~= t);
        lemma_read_number(s, p, v, u);
    } else {
        assert(t =~= seq![]);
        lemma_first_nonzero(rest);
        let j = first_nonzero(rest);
        if j < rest.len() {
            let (w, u2) = rest[j];
            let t2 = unit_text(w, u2);
            assert(vs[j + 1] == rest[j]);
            assert(u2 != u);
            assert(s.skip(p) =~= t2 + (seg_text(rest.skip(j + 1)) + after));
            assert(s.subrange(p, p + t2.len()) =~= s.skip(p).subrange(0, t2.len() as int));
            assert((t2 + (seg_text(rest.skip(j + 1)) + after)).subrange(0, t2.len() as int) =~= t2);
            lemma_read_number(s, p, w, u2);
        } else {
            if p < s.len() {
                assert(s[p] == s.skip(p)[0]);
                assert(s.skip(p) =~= after);
            }
            lemma_run_end(s, p, CharClass::Digit);
        }
    }
}

/// The parts of a period's date: years, months, weeks and days.
pub open spec fn date_parts(d: TimeDuration) -> Seq<(u16, char)> {
    seq![(d.years, 'Y'), (d.months, 'M'), (d.weeks, 'W'), (d.days, 'D')]
}

/// The parts of a period's time: hours, minutes and seconds.
pub open spec fn time_parts(d: TimeDuration) -> Seq<(u16, char)> {
    seq![(d.hours, 'H'), (d.minutes, 'M'), (d.seconds, 'S')]
}

proof fn lemma_zero_period_roundtrip()
    ensures
        sp_period(seq!['T', '0', 'S'], 0) == Ok::<(int, TimeDuration), SFail>((3, zero_duration())),
{
    reveal(sp_unit);
    let s = seq!['T', '0', 'S'];
    lemma_run_end(s, 0, CharClass::Digit);
    lemma_decimal(0);
    assert(decimal(0) =~= seq!['0']);
    assert(s.subrange(1, 2) =~= decimal(0));
    lemma_run_end_char(s, 1, 2, CharClass::Digit);
    assert(digits_value(s.subrange(1, 2)) == 0);
    lemma_run_end(s, 3, CharClass::Digit);
}

pub open spec fn opt_part(v: u16) -> Option<u16> {
    if v > 0 { Some(v) } else { None }
}

/// Reading three parts in a row.
proof fn lemma_units3(s: Seq<char>, p: int, vs: Seq<(u16, char)>, after: Seq<char>)
    requires
        0 <= p <= s.len(),
        s.skip(p) == seg_text(vs) + after,
        vs.len() == 3,
        letters_ok(vs),
        after.len() == 0 || !is_digit(after[0]),
    ensures
        ({
            let q1 = p + unit_text(vs[0].0, vs[0].1).len();
            let q2 = q1 + unit_text(vs[1].0, vs[1].1).len();
            let q3 = q2 + unit_text(vs[2].0, vs[2].1).len();
            &&& sp_unit(s, p, vs[0].1) == (q1, opt_part(vs[0].0))
            &&& sp_unit(s, q1, vs[1].1) == (q2, opt_part(vs[1].0))
            &&& sp_unit(s, q2, vs[2].1) == (q3, opt_part(vs[2].0))
            &&& s.skip(q3) == after
            &&& q3 <= s.len()
        }),
{
    lemma_unit_at(s, p, vs, after);
    let q1 = p + unit_text(vs[0].0, vs[0].1).len();
    let v1 = vs.drop_first();
    assert(v1[0] == vs[1] && v1[1] == vs[2]);
    lemma_unit_at(s, q1, v1, after);
    let q2 = q1 + unit_text(vs[1].0, vs[1].1).len();
    let v2 = v1.drop_first();
    assert(v2[0] == vs[2]);
    lemma_unit_at(s, q2, v2, after);
    assert(v2.drop_first() =~= Seq::<(u16, char)>::empty());
    let q3 = q2 + unit_text(vs[2].0, vs[2].1).len();
    assert(s.skip(q3) =~= after);
}

/// Reading four parts in a row.
proof fn lemma_units4(s: Seq<char>, vs: Seq<(u16, char)>, after: Seq<char>)
    requires
        s == seg_text(vs) + after,
        vs.len() == 4,
        letters_ok(vs),
        after.len() == 0 || !is_digit(after[0]),
    ensures
        ({
            let q1 = unit_text(vs[0].0, vs[0].1).len() as int;
            let q2 = q1 + unit_text(vs[1].0, vs[1].1).len();
            let q3 = q2 + unit_text(vs[2].0, vs[2].1).len();
            let q4 = q3 + unit_text(vs[3].0, vs[3].1).len();
            &&& sp_unit(s, 0, vs[0].1) == (q1, opt_part(vs[0].0))
            &&& sp_unit(s, q1, vs[1].1) == (q2, opt_part(vs[1].0))
            &&& sp_unit(s, q2, vs[2].1) == (q3, opt_part(vs[2].0))
            &&& sp_unit(s, q3, vs[3].1) == (q4, opt_part(vs[3].0))
            &&& s.skip(q4) == after
            &&& q4 <= s.len()
        }),
{
    assert(s.skip(0) =~= s);
    lemma_unit_at(s, 0, vs, after);
    let q1 = unit_text(vs[0].0, vs[0].1).len() as int;
    let v1 = vs.drop_first();
    assert(v1[0] == vs[1] && v1[1] == vs[2] && v1[2] == vs[3]);
    lemma_units3(s, q1, v1, after);
}

/// The text of a non-zero period: its date parts, then its time part.
proof fn lemma_duration_text_parts(d: TimeDuration)
    requires
        d != zero_duration(),
    ensures
        duration_text(d) == seg_text(date_parts(d)) + time_part_text(d),
        time_part_text(d).len() > 0 ==> time_part_text(d) == seq!['T'] + seg_text(time_parts(d)),
        time_part_text(d).len() == 0 || !is_digit(time_part_text(d)[0]),
        letters_ok(date_parts(d)),
        letters_ok(time_parts(d)),
{
    reveal_with_fuel(seg_text, 5);
    assert(seg_text(date_parts(d)) =~= unit_text(d.years, 'Y') + unit_text(d.months, 'M') + unit_text(d.weeks, 'W')
        + unit_text(d.days, 'D'));
    assert(seg_text(time_parts(d)) =~= unit_text(d.hours, 'H') + unit_text(d.minutes, 'M')
        + unit_text(d.seconds, 'S'));
    assert(duration_text(d) =~= seg_text(date_parts(d)) + time_part_text(d));
    if time_part_text(d).len() > 0 {
        assert(time_part_text(d) =~= seq!['T'] + seg_text(time_parts(d)));
    }
}

/// A period written as text reads back as the same period, consuming all
/// of the text.
pub proof fn lemma_period_text_roundtrip(d: TimeDuration)
    ensures
        sp_period(duration_text(d), 0) == Ok::<(int, TimeDuration), SFail>((duration_text(d).len() as int, d)),
{
    let s = duration_text(d);
    if d == zero_duration() {
        lemma_zero_period_roundtrip();
    } else {
        lemma_duration_text_parts(d);
        let e = time_part_text(d);
        let dp = date_parts(d);
        lemma_units4(s, dp, e);
        let i4 = (s.len() - e.len()) as int;
        let (i1, y) = sp_unit(s, 0, 'Y');
        let (i2, mo) = sp_unit(s, i1, 'M');
        let (i3, w) = sp_unit(s, i2, 'W');
        let (j4, dd) = sp_unit(s, i3, 'D');
        assert(j4 == i4);
        if e.len() > 0 {
            assert(s[i4] == s.skip(i4)[0]);
            assert(s.skip(i4 + 1) =~= seg_text(time_parts(d)) + seq![]) by {
                assert(s.skip(i4 + 1) =~= s.skip(i4).skip(1));
            }
            lemma_units3(s, i4 + 1, time_parts(d), seq![]);
            assert(s.len() >= 3) by {
                if d.hours > 0 { lemma_decimal(d.hours as nat); }
                if d.minutes > 0 { lemma_decimal(d.minutes as nat); }
                if d.seconds > 0 { lemma_decimal(d.seconds as nat); }
            }
        } else {
            assert(i4 == s.len());
            assert(s.len() >= 2) by {
                if d.years > 0 { lemma_decimal(d.years as nat); }
                if d.months > 0 { lemma_decimal(d.months as nat); }
                if d.weeks > 0 { lemma_decimal(d.weeks as nat); }
                if d.days > 0 { lemma_decimal(d.days as nat); }
            }
        }
    }
}

/// A start that parses begins with a digit.
proof fn lemma_start_digit(s: Seq<char>, i: int)
    requires
        0 <= i <= s.len(),
        sp_start(s, i) is Ok,
    ensures
        i < s.len() && is_digit(s[i]),
{
    lemma_run_end(s, i, CharClass::Digit);
    if run_end(s, i, CharClass::Digit) == i {
        assert(sp_u16(s, i) is Err);
        assert(sp_date(s, i) is Err);
        assert(sp_timestamp(s, i) is Err);
    }
}

/// The end of a recurring interval `R/start/end/Fperiod` does not depend on
/// the recurrence: the same text without `R/` in front reads as the interval
/// from the same start to the same end, without a recurrence. In particular a
/// period end is the start plus that period in both forms.
pub proof fn lemma_recurring_end(s: Seq<char>, i: int)
    requires
        0 <= i <= s.len(),
        sp_interval_parts(s, i) matches Ok((_, (_, end, rec))) && end is Some && rec is Some,
    ensures
        sp_interval(s, i) is Ok <==> sp_interval(s, i + 2) is Ok,
        sp_interval(s, i) matches Ok((_, iv)) ==> sp_interval(s, i + 2) matches Ok((_, iv2))
            && iv2.start == iv.start && iv2.end == iv.end && iv.interval is Some && iv2.interval is None,
        sp_interval_parts(s, i) matches Ok((_, (start, Some(End::Period(p)), _))) ==> (
            sp_interval(s, i) matches Ok((_, iv)) ==> Some(iv.end) == add_duration_spec(start, p)),
{
    reveal(sp_interval);
    assert(sp_recurring(s, i) is Ok);
    let i1 = i + 2;
    assert(sp_tag2(s, i, 'R', '/') == Ok::<(int, ()), SFail>((i1, ())));
    let (i2, start) = sp_start(s, i1)->Ok_0;
    lemma_start_digit(s, i1);
    assert(sp_tag2(s, i1, 'R', '/') is Err);
    assert(sp_char(s, i2, '/') is Ok);
    assert(sp_end(s, i2 + 1) is Ok);
    assert(sp_slash_end(s, i2, true) == sp_slash_end(s, i2, false));
}

} // verus!
