//! Calendar dates and times of the proleptic Gregorian calendar, as the
//! task and tracker logic reads them.
//!
//! The types hold plain integers; the arithmetic that `chrono` does for us
//! (adding days or seconds, reading the clock) goes through small wrappers
//! whose contracts are stated over `day_number`.
use vstd::prelude::*;
use chrono::Datelike;
use chrono::Timelike;
use crate::text::{push_char, push_padded, push_decimal, decimal, zero_pad};

verus! {

/// Smallest year that `chrono` can represent.
pub const MIN_YEAR: i32 = -262143;

/// Largest year that `chrono` can represent.
pub const MAX_YEAR: i32 = 262142;

/// Nanoseconds in a day.
pub const NANOS_PER_DAY: u64 = 86_400_000_000_000;

pub open spec fn is_leap_year(y: int) -> bool {
    (y % 4 == 0 && y % 100 != 0) || y % 400 == 0
}

pub open spec fn days_in_month(y: int, m: int) -> int {
    if m == 2 {
        if is_leap_year(y) {
            29
        } else {
            28
        }
    } else if m == 4 || m == 6 || m == 9 || m == 11 {
        30
    } else {
        31
    }
}

/// Days of year `y` that come before the first day of month `m`.
pub open spec fn days_before_month(y: int, m: int) -> int {
    let base: int = if m <= 1 {
        0
    } else if m == 2 {
        31
    } else if m == 3 {
        59
    } else if m == 4 {
        90
    } else if m == 5 {
        120
    } else if m == 6 {
        151
    } else if m == 7 {
        181
    } else if m == 8 {
        212
    } else if m == 9 {
        243
    } else if m == 10 {
        273
    } else if m == 11 {
        304
    } else {
        334
    };
    if m > 2 && is_leap_year(y) {
        base + 1
    } else {
        base
    }
}

/// Days before January 1st of year `y`, counted from January 1st of year 1.
pub open spec fn days_before_year(y: int) -> int {
    365 * (y - 1) + (y - 1) / 4 - (y - 1) / 100 + (y - 1) / 400
}

/// Number of the day `y-m-d`, where 0001-01-01 (a Monday) is day 1.
pub open spec fn day_number(y: int, m: int, d: int) -> int {
    days_before_year(y) + days_before_month(y, m) + d
}

/// Day number of the first day `chrono` can represent.
pub open spec fn min_day_number() -> int {
    day_number(MIN_YEAR as int, 1, 1)
}

/// Day number of the last day `chrono` can represent.
pub open spec fn max_day_number() -> int {
    day_number(MAX_YEAR as int, 12, 31)
}

/// A date without time zone.
#[derive(Clone, Copy, Debug, PartialEq, Eq, Hash, Structural)]
pub struct NaiveDate {
    pub year: i32,
    pub month: u32,
    pub day: u32,
}

/// A time of day without time zone, to the nanosecond.
#[derive(Clone, Copy, Debug, PartialEq, Eq, Hash, Structural)]
pub struct NaiveTime {
    pub hour: u32,
    pub minute: u32,
    pub second: u32,
    pub nano: u32,
}

/// A date and a time of day.
#[derive(Clone, Copy, Debug, PartialEq, Eq, Hash, Structural)]
pub struct NaiveDateTime {
    pub date: NaiveDate,
    pub time: NaiveTime,
}

/// A due date: a whole day, or a day and a time.
#[derive(Clone, Copy, Debug, PartialEq, Eq, Hash, Structural)]
pub enum Date {
    Day(NaiveDate),
    DayTime(NaiveDateTime),
}

/// The name the task code gives to a due date.
pub type DueDate = Date;

impl NaiveDate {
    /// The date exists in the calendar and in `chrono`'s range.
    pub open spec fn valid(self) -> bool {
        &&& MIN_YEAR <= self.year <= MAX_YEAR
        &&& 1 <= self.month <= 12
        &&& 1 <= self.day <= days_in_month(self.year as int, self.month as int)
    }

    pub open spec fn days(self) -> int {
        day_number(self.year as int, self.month as int, self.day as int)
    }

    /// Lexicographic order on (year, month, day).
    pub open spec fn lex_lt(self, other: NaiveDate) -> bool {
        ||| self.year < other.year
        ||| (self.year == other.year && self.month < other.month)
        ||| (self.year == other.year && self.month == other.month && self.day < other.day)
    }

    /// Makes a date from a year, a month and a day, if that date exists.
    pub fn from_ymd_opt(year: i32, month: u32, day: u32) -> (r: Option<NaiveDate>)
        ensures
            r is Some <==> (NaiveDate { year, month, day }).valid(),
            r matches Some(d) ==> d == (NaiveDate { year, month, day }),
    {
        if MIN_YEAR <= year && year <= MAX_YEAR && 1 <= month && month <= 12 && 1 <= day && day
            <= days_in_month_exec(year, month) {
            Some(NaiveDate { year, month, day })
        } else {
            None
        }
    }

    /// This date at the given time.
    pub fn and_time(self, time: NaiveTime) -> (r: NaiveDateTime)
        ensures
            r == (NaiveDateTime { date: self, time }),
    {
        NaiveDateTime { date: self, time }
    }

    /// This date at `hour:minute:second`, if that time exists.
    pub fn and_hms_opt(self, hour: u32, minute: u32, second: u32) -> (r: Option<NaiveDateTime>)
        ensures
            r is Some <==> hour < 24 && minute < 60 && second < 60,
            r matches Some(dt) ==> dt == (NaiveDateTime {
                date: self,
                time: NaiveTime { hour, minute, second, nano: 0 },
            }),
    {
        match NaiveTime::from_hms_opt(hour, minute, second) {
            Some(t) => Some(NaiveDateTime { date: self, time: t }),
            None => None,
        }
    }
}

impl NaiveTime {
    pub open spec fn valid(self) -> bool {
        &&& self.hour < 24
        &&& self.minute < 60
        &&& self.second < 60
        &&& self.nano < 1_000_000_000
    }

    /// Nanoseconds since midnight.
    pub open spec fn nanos(self) -> int {
        ((self.hour * 60 + self.minute) * 60 + self.second) * 1_000_000_000 + self.nano
    }

    /// Makes a time from an hour, a minute and a second, if that time exists.
    pub fn from_hms_opt(hour: u32, minute: u32, second: u32) -> (r: Option<NaiveTime>)
        ensures
            r is Some <==> hour < 24 && minute < 60 && second < 60,
            r matches Some(t) ==> t == (NaiveTime { hour, minute, second, nano: 0 }),
    {
        if hour < 24 && minute < 60 && second < 60 {
            Some(NaiveTime { hour, minute, second, nano: 0 })
        } else {
            None
        }
    }

    /// Midnight.
    pub fn midnight() -> (r: NaiveTime)
        ensures
            r == (NaiveTime { hour: 0, minute: 0, second: 0, nano: 0 }),
    {
        NaiveTime { hour: 0, minute: 0, second: 0, nano: 0 }
    }
}

impl NaiveDateTime {
    pub open spec fn valid(self) -> bool {
        self.date.valid() && self.time.valid()
    }

    /// Nanoseconds since the start of day 0.
    pub open spec fn instant(self) -> int {
        self.date.days() * NANOS_PER_DAY + self.time.nanos()
    }

    pub fn new(date: NaiveDate, time: NaiveTime) -> (r: NaiveDateTime)
        ensures
            r == (NaiveDateTime { date, time }),
    {
        NaiveDateTime { date, time }
    }
}

impl Date {
    pub open spec fn valid(self) -> bool {
        match self {
            Date::Day(d) => d.valid(),
            Date::DayTime(dt) => dt.valid(),
        }
    }

    /// The calendar day of the date.
    pub open spec fn day_of(self) -> NaiveDate {
        match self {
            Date::Day(d) => d,
            Date::DayTime(dt) => dt.date,
        }
    }

    /// Nanoseconds since the start of day 0; a whole day counts from its midnight.
    pub open spec fn instant(self) -> int {
        match self {
            Date::Day(d) => d.days() * NANOS_PER_DAY,
            Date::DayTime(dt) => dt.instant(),
        }
    }
}

pub fn is_leap_year_exec(y: i32) -> (r: bool)
    ensures
        r == is_leap_year(y as int),
{
    let z: u64 = (y as i64 + 2147484000) as u64;
    assert(z % 4 == (y as int) % 4) by (nonlinear_arith)
        requires
            z == y + 2147484000,
    ;
    assert(z % 100 == (y as int) % 100) by (nonlinear_arith)
        requires
            z == y + 2147484000,
    ;
    assert(z % 400 == (y as int) % 400) by (nonlinear_arith)
        requires
            z == y + 2147484000,
    ;
    (z % 4 == 0 && z % 100 != 0) || z % 400 == 0
}

pub fn days_in_month_exec(y: i32, m: u32) -> (r: u32)
    ensures
        r == days_in_month(y as int, m as int),
{
    if m == 2 {
        if is_leap_year_exec(y) {
            29
        } else {
            28
        }
    } else if m == 4 || m == 6 || m == 9 || m == 11 {
        30
    } else {
        31
    }
}


pub proof fn lemma_days_before_year_step(y: int)
    ensures
        days_before_year(y + 1) == days_before_year(y) + 365 + (if is_leap_year(y) {
            1int
        } else {
            0int
        }),
{
}

pub proof fn lemma_days_before_year_mono(y1: int, y2: int)
    requires
        y1 <= y2,
    ensures
        days_before_year(y2) - days_before_year(y1) >= 365 * (y2 - y1),
    decreases y2 - y1,
{
    if y1 < y2 {
        lemma_days_before_year_mono(y1, y2 - 1);
        lemma_days_before_year_step(y2 - 1);
    }
}

/// A valid date lies within its year.
pub proof fn lemma_day_in_year(d: NaiveDate)
    requires
        d.valid(),
    ensures
        days_before_year(d.year as int) + 1 <= d.days() <= days_before_year(d.year as int + 1),
{
    lemma_days_before_year_step(d.year as int);
}

/// Within a year, a later month starts after every day of an earlier one.
pub proof fn lemma_month_order(y: int, m1: int, m2: int)
    requires
        1 <= m1 < m2 <= 12,
    ensures
        days_before_month(y, m1) + days_in_month(y, m1) <= days_before_month(y, m2),
{
}

/// The lexicographic order of valid dates is the order of their day numbers.
pub proof fn lemma_lex_days(a: NaiveDate, b: NaiveDate)
    requires
        a.valid(),
        b.valid(),
        a.lex_lt(b),
    ensures
        a.days() < b.days(),
{
    lemma_day_in_year(a);
    lemma_day_in_year(b);
    if a.year < b.year {
        lemma_days_before_year_mono(a.year as int + 1, b.year as int);
    } else if a.month < b.month {
        lemma_month_order(a.year as int, a.month as int, b.month as int);
    }
}

/// Two valid dates with the same day number are the same date.
pub proof fn lemma_days_injective(a: NaiveDate, b: NaiveDate)
    requires
        a.valid(),
        b.valid(),
        a.days() == b.days(),
    ensures
        a == b,
{
    if a.lex_lt(b) {
        lemma_lex_days(a, b);
    } else if b.lex_lt(a) {
        lemma_lex_days(b, a);
    }
}

pub proof fn lemma_time_nanos(t: NaiveTime)
    requires
        t.valid(),
    ensures
        0 <= t.nanos() < NANOS_PER_DAY,
{
}

impl NaiveDate {
    /// Whether `self` comes before `other` in the calendar.
    pub fn is_before(&self, other: &NaiveDate) -> (r: bool)
        requires
            self.valid(),
            other.valid(),
        ensures
            r == (self.days() < other.days()),
    {
        proof {
            if self.lex_lt(*other) {
                lemma_lex_days(*self, *other);
            } else if other.lex_lt(*self) {
                lemma_lex_days(*other, *self);
            }
        }
        self.year < other.year || (self.year == other.year && self.month < other.month) || (
        self.year == other.year && self.month == other.month && self.day < other.day)
    }
}

impl NaiveTime {
    /// Whether `self` comes before `other` in the day.
    pub fn is_before(&self, other: &NaiveTime) -> (r: bool)
        requires
            self.valid(),
            other.valid(),
        ensures
            r == (self.nanos() < other.nanos()),
    {
        self.hour < other.hour || (self.hour == other.hour && self.minute < other.minute) || (
        self.hour == other.hour && self.minute == other.minute && self.second < other.second) || (
        self.hour == other.hour && self.minute == other.minute && self.second == other.second
            && self.nano < other.nano)
    }
}

impl Date {
    /// The calendar day of the date.
    pub fn day(&self) -> (r: NaiveDate)
        ensures
            r == self.day_of(),
    {
        match self {
            Date::Day(d) => *d,
            Date::DayTime(dt) => dt.date,
        }
    }

    /// The time of the date; midnight for a whole day.
    pub open spec fn time_of(self) -> NaiveTime {
        match self {
            Date::Day(_) => NaiveTime { hour: 0, minute: 0, second: 0, nano: 0 },
            Date::DayTime(dt) => dt.time,
        }
    }

    /// Whether `self` comes strictly before `other`; a whole day counts from its midnight.
    pub fn is_before(&self, other: &Date) -> (r: bool)
        requires
            self.valid(),
            other.valid(),
        ensures
            r == (self.instant() < other.instant()),
    {
        let d1 = self.day();
        let d2 = other.day();
        let t1 = match self {
            Date::Day(_) => NaiveTime::midnight(),
            Date::DayTime(dt) => dt.time,
        };
        let t2 = match other {
            Date::Day(_) => NaiveTime::midnight(),
            Date::DayTime(dt) => dt.time,
        };
        proof {
            lemma_time_nanos(t1);
            lemma_time_nanos(t2);
            assert(self.instant() == d1.days() * NANOS_PER_DAY + t1.nanos());
            assert(other.instant() == d2.days() * NANOS_PER_DAY + t2.nanos());
        }
        if d1.is_before(&d2) {
            true
        } else if d2.is_before(&d1) {
            false
        } else {
            proof {
                lemma_days_injective(d1, d2);
            }
            t1.is_before(&t2)
        }
    }
}

/// `NaiveDate + TimeDelta::days(n)` of `chrono`: the date `n` days later.
#[verifier::external_body]
pub fn add_days(d: NaiveDate, n: i64) -> (r: NaiveDate)
    requires
        d.valid(),
        min_day_number() <= d.days() + n <= max_day_number(),
    ensures
        r.valid(),
        r.days() == d.days() + n,
{
    let c = chrono::NaiveDate::from_ymd_opt(d.year, d.month, d.day).unwrap()
        + chrono::TimeDelta::days(n);
    NaiveDate { year: c.year(), month: c.month(), day: c.day() }
}

/// `NaiveDateTime + TimeDelta::seconds(n)` of `chrono`: the moment `n` seconds later.
#[verifier::external_body]
pub fn add_seconds(dt: NaiveDateTime, n: i64) -> (r: NaiveDateTime)
    requires
        dt.valid(),
        min_day_number() * NANOS_PER_DAY <= dt.instant() + n * 1_000_000_000 < (
        max_day_number() + 1) * NANOS_PER_DAY,
    ensures
        r.valid(),
        r.instant() == dt.instant() + n * 1_000_000_000,
{
    let t = &dt.time;
    let c = chrono::NaiveDate::from_ymd_opt(dt.date.year, dt.date.month, dt.date.day).unwrap()
        .and_hms_nano_opt(t.hour, t.minute, t.second, t.nano).unwrap() + chrono::TimeDelta::seconds(
        n,
    );
    let date = NaiveDate { year: c.year(), month: c.month(), day: c.day() };
    let time = NaiveTime { hour: c.hour(), minute: c.minute(), second: c.second(), nano: c.nanosecond() };
    NaiveDateTime { date, time }
}

/// `signed_duration_since` of `chrono` on two dates, in whole days.
#[verifier::external_body]
pub fn days_since(a: NaiveDate, b: NaiveDate) -> (r: i64)
    requires
        a.valid(),
        b.valid(),
    ensures
        r == a.days() - b.days(),
{
    let ca = chrono::NaiveDate::from_ymd_opt(a.year, a.month, a.day).unwrap();
    let cb = chrono::NaiveDate::from_ymd_opt(b.year, b.month, b.day).unwrap();
    ca.signed_duration_since(cb).num_days()
}

/// `weekday().number_from_monday()` of `chrono`: 1 for Monday up to 7 for Sunday.
/// Day 1 of the count, 0001-01-01, is a Monday.
#[verifier::external_body]
pub fn number_from_monday(d: NaiveDate) -> (r: u32)
    requires
        d.valid(),
    ensures
        r == (d.days() - 1) % 7 + 1,
{
    chrono::NaiveDate::from_ymd_opt(d.year, d.month, d.day).unwrap().weekday().number_from_monday()
}

/// `chrono::Local::now().naive_local()`: the local date and time of the system clock.
/// Nothing is stated of the value but that it is a valid date and time (`chrono`
/// builds it from a count of seconds and of nanoseconds below one second).
#[verifier::external_body]
pub fn now() -> (r: NaiveDateTime)
    ensures
        r.valid(),
{
    let c = chrono::Local::now().naive_local();
    let date = NaiveDate { year: c.year(), month: c.month(), day: c.day() };
    let time = NaiveTime { hour: c.hour(), minute: c.minute(), second: c.second(), nano: c.nanosecond() };
    NaiveDateTime { date, time }
}

/// `chrono::Utc::now().naive_utc()`: the UTC date and time of the system clock. Nothing
/// is stated of the value but that it is a valid date and time.
#[verifier::external_body]
pub fn utc_now() -> (r: NaiveDateTime)
    ensures
        r.valid(),
{
    let c = chrono::Utc::now().naive_utc();
    let date = NaiveDate { year: c.year(), month: c.month(), day: c.day() };
    let time = NaiveTime { hour: c.hour(), minute: c.minute(), second: c.second(), nano: c.nanosecond() };
    NaiveDateTime { date, time }
}

/// `%Y` of `chrono`: four digits at least, and a sign outside 0..=9999.
pub open spec fn fmt_year(y: int) -> Seq<char> {
    if 0 <= y <= 9999 {
        zero_pad(decimal(y as nat), 4)
    } else if y < 0 {
        seq!['-'] + zero_pad(decimal((-y) as nat), 4)
    } else {
        seq!['+'] + zero_pad(decimal(y as nat), 4)
    }
}

/// Two digits at least.
pub open spec fn fmt2(n: int) -> Seq<char> {
    zero_pad(decimal(n as nat), 2)
}

/// `%d/%m/%Y` (day first) or `%Y/%m/%d`.
pub open spec fn fmt_date(d: NaiveDate, day_first: bool) -> Seq<char> {
    if day_first {
        fmt2(d.day as int) + seq!['/'] + fmt2(d.month as int) + seq!['/'] + fmt_year(d.year as int)
    } else {
        fmt_year(d.year as int) + seq!['/'] + fmt2(d.month as int) + seq!['/'] + fmt2(d.day as int)
    }
}

/// `%T`, that is `%H:%M:%S`.
pub open spec fn fmt_time(t: NaiveTime) -> Seq<char> {
    fmt2(t.hour as int) + seq![':'] + fmt2(t.minute as int) + seq![':'] + fmt2(t.second as int)
}

fn push_year(s: &mut String, y: i32)
    ensures
        final(s)@ == old(s)@ + fmt_year(y as int),
{
    let ghost start = s@;
    if 0 <= y && y <= 9999 {
        push_padded(s, y as u64, 4);
    } else if y < 0 {
        push_char(s, '-');
        let a: u64 = (0 - (y as i64)) as u64;
        push_padded(s, a, 4);
    } else {
        push_char(s, '+');
        push_padded(s, y as u64, 4);
    }
    assert(s@ =~= start + fmt_year(y as int));
}

fn push_date(s: &mut String, d: NaiveDate, day_first: bool)
    ensures
        final(s)@ == old(s)@ + fmt_date(d, day_first),
{
    let ghost start = s@;
    if day_first {
        push_padded(s, d.day as u64, 2);
        push_char(s, '/');
        push_padded(s, d.month as u64, 2);
        push_char(s, '/');
        push_year(s, d.year);
    } else {
        push_year(s, d.year);
        push_char(s, '/');
        push_padded(s, d.month as u64, 2);
        push_char(s, '/');
        push_padded(s, d.day as u64, 2);
    }
    assert(s@ =~= start + fmt_date(d, day_first));
}

fn push_time(s: &mut String, t: NaiveTime)
    ensures
        final(s)@ == old(s)@ + fmt_time(t),
{
    let ghost start = s@;
    push_padded(s, t.hour as u64, 2);
    push_char(s, ':');
    push_padded(s, t.minute as u64, 2);
    push_char(s, ':');
    push_padded(s, t.second as u64, 2);
    assert(s@ =~= start + fmt_time(t));
}

impl Date {
    /// The date as written in a task line: day first unless `not_american_format`
    /// is false, and the time after a space when there is one.
    pub open spec fn string_format(self, not_american_format: bool) -> Seq<char> {
        match self {
            Date::Day(d) => fmt_date(d, not_american_format),
            Date::DayTime(dt) => fmt_date(dt.date, not_american_format) + seq![' '] + fmt_time(
                dt.time,
            ),
        }
    }

    /// Formats the date as `%d/%m/%Y` (or `%Y/%m/%d` in american format), followed by
    /// ` %H:%M:%S` when the date has a time.
    pub fn to_string_format(&self, not_american_format: bool) -> (r: String)
        ensures
            r@ == self.string_format(not_american_format),
    {
        let mut s = String::new();
        match self {
            Date::Day(d) => {
                push_date(&mut s, *d, not_american_format);
            },
            Date::DayTime(dt) => {
                push_date(&mut s, dt.date, not_american_format);
                push_char(&mut s, ' ');
                push_time(&mut s, dt.time);
            },
        }
        assert(s@ =~= self.string_format(not_american_format));
        s
    }

    /// The due date symbol, a space and the formatted date.
    pub fn to_display_format(&self, due_date_symbol: &str, not_american_format: bool) -> (r:
        String)
        ensures
            r@ == due_date_symbol@ + seq![' '] + self.string_format(not_american_format),
    {
        let mut s = String::new();
        crate::text::push_str(&mut s, due_date_symbol);
        push_char(&mut s, ' ');
        let f = self.to_string_format(not_american_format);
        crate::text::push_str(&mut s, f.as_str());
        assert(s@ =~= due_date_symbol@ + seq![' '] + self.string_format(not_american_format));
        s
    }
}


/// `%Y-%m-%d`, as chrono displays a date.
pub open spec fn iso_date(d: NaiveDate) -> Seq<char> {
    fmt_year(d.year as int) + seq!['-'] + fmt2(d.month as int) + seq!['-'] + fmt2(d.day as int)
}

/// The fraction of a second as chrono displays it: nothing for none, else three, six
/// or nine digits, the fewest that are exact.
pub open spec fn fraction(nano: nat) -> Seq<char> {
    if nano == 0 {
        seq![]
    } else if nano % 1_000_000 == 0 {
        seq!['.'] + zero_pad(decimal(nano / 1_000_000), 3)
    } else if nano % 1_000 == 0 {
        seq!['.'] + zero_pad(decimal(nano / 1_000), 6)
    } else {
        seq!['.'] + zero_pad(decimal(nano), 9)
    }
}

/// `%H:%M:%S` and the fraction of a second, as chrono displays a time; a nanosecond
/// count of a second or more is a leap second.
pub open spec fn iso_time(t: NaiveTime) -> Seq<char> {
    let (sec, nano) = if t.nano >= 1_000_000_000 {
        (t.second + 1, t.nano - 1_000_000_000)
    } else {
        (t.second as int, t.nano as int)
    };
    fmt2(t.hour as int) + seq![':'] + fmt2(t.minute as int) + seq![':'] + fmt2(sec) + fraction(
        nano as nat,
    )
}

impl Date {
    /// The date as chrono displays it: `%Y-%m-%d`, then a space and the time when
    /// there is one.
    pub open spec fn display_text(self) -> Seq<char> {
        match self {
            Date::Day(d) => iso_date(d),
            Date::DayTime(dt) => iso_date(dt.date) + seq![' '] + iso_time(dt.time),
        }
    }

    /// The date as chrono displays it; see `display_text`.
    pub fn to_display_string(&self) -> (r: String)
        ensures
            r@ == self.display_text(),
    {
        let mut s = String::new();
        let d = self.day();
        push_year(&mut s, d.year);
        push_char(&mut s, '-');
        push_padded(&mut s, d.month as u64, 2);
        push_char(&mut s, '-');
        push_padded(&mut s, d.day as u64, 2);
        match self {
            Date::Day(_) => {},
            Date::DayTime(dt) => {
                push_char(&mut s, ' ');
                push_iso_time(&mut s, dt.time);
            },
        }
        assert(s@ =~= self.display_text());
        s
    }
}

fn push_fraction(s: &mut String, nano: u64)
    ensures
        final(s)@ == old(s)@ + fraction(nano as nat),
{
    let ghost start = s@;
    if nano == 0 {
    } else if nano % 1_000_000 == 0 {
        push_char(s, '.');
        push_padded(s, nano / 1_000_000, 3);
    } else if nano % 1_000 == 0 {
        push_char(s, '.');
        push_padded(s, nano / 1_000, 6);
    } else {
        push_char(s, '.');
        push_padded(s, nano, 9);
    }
    assert(s@ =~= start + fraction(nano as nat));
}

fn push_iso_time(s: &mut String, t: NaiveTime)
    ensures
        final(s)@ == old(s)@ + iso_time(t),
{
    let ghost start = s@;
    let (sec, nano): (u64, u64) = if t.nano >= 1_000_000_000 {
        (t.second as u64 + 1, (t.nano - 1_000_000_000) as u64)
    } else {
        (t.second as u64, t.nano as u64)
    };
    push_padded(s, t.hour as u64, 2);
    push_char(s, ':');
    push_padded(s, t.minute as u64, 2);
    push_char(s, ':');
    push_padded(s, sec, 2);
    push_fraction(s, nano);
    assert(s@ =~= start + iso_time(t));
}

/// Seconds since midnight, the seconds cut off.
pub open spec fn minute_seconds(t: NaiveTime) -> int {
    t.hour * 3600 + t.minute * 60
}

/// Seconds from `self` to `now`, as the relative description counts them: whole days
/// for a day, and for a day with a time, minutes with the seconds cut off on both sides.
pub open spec fn seconds_until_now(d: Date, now: NaiveDateTime) -> int {
    match d {
        Date::Day(day) => (now.date.days() - day.days()) * 86400,
        Date::DayTime(dt) => (now.date.days() - dt.date.days()) * 86400 + minute_seconds(now.time)
            - minute_seconds(dt.time),
    }
}

pub open spec fn abs_int(x: int) -> int {
    if x < 0 {
        -x
    } else {
        x
    }
}

/// The amount of a nonzero distance of `a` seconds, in its largest fitting unit.
pub open spec fn relative_amount(a: int) -> Seq<char> {
    let weeks = a / 604800;
    let days = a / 86400;
    let hours = a / 3600;
    if 48 < weeks {
        decimal((weeks / 48) as nat) + " years"@
    } else if 5 <= weeks {
        decimal((weeks / 4) as nat) + " months"@
    } else if 2 <= weeks {
        decimal(weeks as nat) + " weeks"@
    } else if 2 <= days {
        decimal(days as nat) + " days"@
    } else if 2 <= hours {
        decimal(hours as nat) + " hours"@
    } else {
        decimal((a / 60) as nat) + " minutes"@
    }
}

/// How a distance of `delta` seconds into the past (negative: into the future) reads.
pub open spec fn relative_text(delta: int) -> Seq<char> {
    let a = abs_int(delta);
    if a == 0 {
        "today"@
    } else if delta < 0 && a / 3600 == 24 {
        "tomorrow"@
    } else if delta > 0 && a / 3600 == 24 {
        "yesterday"@
    } else if delta < 0 {
        "in "@ + relative_amount(a)
    } else {
        relative_amount(a) + " ago"@
    }
}

fn push_relative_amount(s: &mut String, a: u64)
    requires
        a > 0,
    ensures
        final(s)@ == old(s)@ + relative_amount(a as int),
{
    let ghost start = s@;
    let weeks = a / 604800;
    let days = a / 86400;
    let hours = a / 3600;
    if 48 < weeks {
        push_decimal(s, weeks / 48);
        crate::text::push_str(s, " years");
    } else if 5 <= weeks {
        push_decimal(s, weeks / 4);
        crate::text::push_str(s, " months");
    } else if 2 <= weeks {
        push_decimal(s, weeks);
        crate::text::push_str(s, " weeks");
    } else if 2 <= days {
        push_decimal(s, days);
        crate::text::push_str(s, " days");
    } else if 2 <= hours {
        push_decimal(s, hours);
        crate::text::push_str(s, " hours");
    } else {
        push_decimal(s, a / 60);
        crate::text::push_str(s, " minutes");
    }
    assert(s@ =~= start + relative_amount(a as int));
}

impl Date {
    /// Describes the date relative to `now`: "today", "tomorrow", "yesterday",
    /// "in 3 days", "2 weeks ago" and so on.
    pub fn get_relative_str_at(&self, now: NaiveDateTime) -> (r: Option<String>)
        requires
            self.valid(),
            now.valid(),
        ensures
            r matches Some(s) && s@ == relative_text(seconds_until_now(*self, now)),
    {
        let days = days_since(now.date, self.day());
        let nt = now.time;
        let now_secs: i64 = (nt.hour as i64) * 3600 + (nt.minute as i64) * 60;
        let delta: i64 = match self {
            Date::Day(_) => days * 86400,
            Date::DayTime(dt) => days * 86400 + now_secs - ((dt.time.hour as i64) * 3600 + (
            dt.time.minute as i64) * 60),
        };
        let a: u64 = if delta < 0 {
            (0 - delta) as u64
        } else {
            delta as u64
        };
        let mut s = String::new();
        if a == 0 {
            crate::text::push_str(&mut s, "today");
        } else if delta < 0 && a / 3600 == 24 {
            crate::text::push_str(&mut s, "tomorrow");
        } else if delta > 0 && a / 3600 == 24 {
            crate::text::push_str(&mut s, "yesterday");
        } else if delta < 0 {
            crate::text::push_str(&mut s, "in ");
            push_relative_amount(&mut s, a);
        } else {
            push_relative_amount(&mut s, a);
            crate::text::push_str(&mut s, " ago");
        }
        proof {
            assert(s@ =~= relative_text(seconds_until_now(*self, now)));
        }
        Some(s)
    }

    /// Describes the date relative to the current local time; see `get_relative_str_at`.
    pub fn get_relative_str(&self) -> (r: Option<String>)
        requires
            self.valid(),
        ensures
            r matches Some(s) && exists|n: NaiveDateTime|
                n.valid() && s@ == relative_text(seconds_until_now(*self, n)),
    {
        self.get_relative_str_at(now())
    }
}


/// The valid date with day number `n`.
pub open spec fn date_of_days(n: int) -> NaiveDate {
    choose|d: NaiveDate| d.valid() && d.days() == n
}

/// The valid date and time at instant `i`.
pub open spec fn datetime_of_instant(i: int) -> NaiveDateTime {
    choose|dt: NaiveDateTime| dt.valid() && dt.instant() == i
}

pub proof fn lemma_date_of_days(d: NaiveDate)
    requires
        d.valid(),
    ensures
        date_of_days(d.days()) == d,
{
    let e = date_of_days(d.days());
    assert(e.valid() && e.days() == d.days());
    lemma_days_injective(d, e);
}

/// Two valid moments at the same instant are equal.
pub proof fn lemma_instant_injective(a: NaiveDateTime, b: NaiveDateTime)
    requires
        a.valid(),
        b.valid(),
        a.instant() == b.instant(),
    ensures
        a == b,
{
    lemma_time_nanos(a.time);
    lemma_time_nanos(b.time);
    assert(a.date.days() == b.date.days());
    lemma_days_injective(a.date, b.date);
    assert(a.time.nanos() == b.time.nanos());
    assert(a.time == b.time);
}

pub proof fn lemma_datetime_of_instant(dt: NaiveDateTime)
    requires
        dt.valid(),
    ensures
        datetime_of_instant(dt.instant()) == dt,
{
    let e = datetime_of_instant(dt.instant());
    assert(e.valid() && e.instant() == dt.instant());
    lemma_instant_injective(dt, e);
}

/// The last day that `chrono` represents.
pub fn max_date() -> (r: NaiveDate)
    ensures
        r.valid(),
        r.days() == max_day_number(),
{
    NaiveDate { year: MAX_YEAR, month: 12, day: 31 }
}

/// Every valid date lies between the first and the last day that `chrono` represents.
pub proof fn lemma_valid_days_range(d: NaiveDate)
    requires
        d.valid(),
    ensures
        min_day_number() <= d.days() <= max_day_number(),
{
    let first = NaiveDate { year: MIN_YEAR, month: 1, day: 1 };
    let last = NaiveDate { year: MAX_YEAR, month: 12, day: 31 };
    if first.lex_lt(d) {
        lemma_lex_days(first, d);
    }
    if d.lex_lt(last) {
        lemma_lex_days(d, last);
    }
}

} // verus!
