//! How often a tracker expects an entry, and the date of the next entry.
use vstd::prelude::*;
use crate::date::{add_days, add_seconds, date_of_days, datetime_of_instant, days_in_month, days_in_month_exec, days_since, lemma_date_of_days, lemma_datetime_of_instant, lemma_lex_days, lemma_time_nanos, lemma_valid_days_range, max_date, max_day_number, now, Date, NaiveDate, NaiveDateTime, NaiveTime, MAX_YEAR, NANOS_PER_DAY};
use crate::text::{decimal, push_decimal, push_str};

verus! {

/// The period between two entries of a tracker.
#[derive(Clone, Copy, Debug, PartialEq, Eq, Structural)]
pub enum Frequency {
    EveryXMinutes(u64),
    EveryXHours(u64),
    EveryXDays(u64),
    EveryXWeeks(u64),
    EveryXMonths(u64),
    EveryXYears(u64),
}

impl Frequency {
    /// How many units the period counts.
    pub open spec fn count(self) -> nat {
        match self {
            Frequency::EveryXMinutes(n) => n as nat,
            Frequency::EveryXHours(n) => n as nat,
            Frequency::EveryXDays(n) => n as nat,
            Frequency::EveryXWeeks(n) => n as nat,
            Frequency::EveryXMonths(n) => n as nat,
            Frequency::EveryXYears(n) => n as nat,
        }
    }

    /// The unit of the period.
    pub open spec fn word(self) -> Seq<char> {
        match self {
            Frequency::EveryXMinutes(_) => "minute"@,
            Frequency::EveryXHours(_) => "hour"@,
            Frequency::EveryXDays(_) => "day"@,
            Frequency::EveryXWeeks(_) => "week"@,
            Frequency::EveryXMonths(_) => "month"@,
            Frequency::EveryXYears(_) => "year"@,
        }
    }

    /// "Every day", "Every 3 weeks", ...
    pub open spec fn text(self) -> Seq<char> {
        if self.count() == 1 {
            "Every "@ + self.word()
        } else {
            "Every "@ + decimal(self.count()) + seq![' '] + self.word() + seq!['s']
        }
    }

    /// Whether the period counts in minutes or hours.
    pub open spec fn is_timed(self) -> bool {
        self is EveryXMinutes || self is EveryXHours
    }

    /// "Every day", "Every 3 weeks", ...
    pub fn to_string(&self) -> (r: String)
        ensures
            r@ == self.text(),
    {
        let (n, word) = match self {
            Frequency::EveryXMinutes(n) => (*n, "minute"),
            Frequency::EveryXHours(n) => (*n, "hour"),
            Frequency::EveryXDays(n) => (*n, "day"),
            Frequency::EveryXWeeks(n) => (*n, "week"),
            Frequency::EveryXMonths(n) => (*n, "month"),
            Frequency::EveryXYears(n) => (*n, "year"),
        };
        let mut s = String::new();
        push_str(&mut s, "Every ");
        if n == 1 {
            push_str(&mut s, word);
        } else {
            push_decimal(&mut s, n);
            crate::text::push_char(&mut s, ' ');
            push_str(&mut s, word);
            crate::text::push_char(&mut s, 's');
        }
        assert(s@ =~= self.text());
        s
    }

    /// The date as the period reads it: a whole day gets the time `now_time` for
    /// periods in minutes or hours, and a day with a time loses its time for the others.
    pub open spec fn fix_date(self, d: Date, now_time: NaiveTime) -> Date {
        match d {
            Date::Day(day) => if self.is_timed() {
                Date::DayTime(NaiveDateTime { date: day, time: now_time })
            } else {
                d
            },
            Date::DayTime(dt) => if self.is_timed() {
                d
            } else {
                Date::Day(dt.date)
            },
        }
    }

    /// The day `n` months after `day`, on the last day of the month when the month is
    /// shorter.
    pub open spec fn months_later(day: NaiveDate, n: int) -> NaiveDate {
        let total = day.month - 1 + n;
        let y = day.year + total / 12;
        let m = total % 12 + 1;
        let dim = days_in_month(y, m);
        NaiveDate {
            year: y as i32,
            month: m as u32,
            day: if day.day <= dim {
                day.day
            } else {
                dim as u32
            },
        }
    }

    /// The day `n` years after `day`; February 29 becomes February 28 outside leap years.
    pub open spec fn years_later(day: NaiveDate, n: int) -> NaiveDate {
        let y = day.year + n;
        NaiveDate {
            year: y as i32,
            month: day.month,
            day: if day.day <= days_in_month(y, day.month as int) {
                day.day
            } else {
                28
            },
        }
    }

    /// The date of the entry that follows the one of `d`.
    #[verifier::opaque]
    pub open spec fn next_spec(self, d: Date, now_time: NaiveTime) -> Date {
        let f = self.fix_date(d, now_time);
        match f {
            Date::Day(day) => match self {
                Frequency::EveryXDays(n) => Date::Day(date_of_days(day.days() + n)),
                Frequency::EveryXWeeks(n) => Date::Day(date_of_days(day.days() + 7 * n)),
                Frequency::EveryXMonths(n) => Date::Day(Self::months_later(day, n as int)),
                Frequency::EveryXYears(n) => Date::Day(Self::years_later(day, n as int)),
                _ => f,
            },
            Date::DayTime(dt) => match self {
                Frequency::EveryXMinutes(n) => Date::DayTime(
                    datetime_of_instant(dt.instant() + n * 60_000_000_000),
                ),
                Frequency::EveryXHours(n) => Date::DayTime(
                    datetime_of_instant(dt.instant() + n * 3_600_000_000_000),
                ),
                _ => f,
            },
        }
    }

    /// The next date stays within the range of dates that `chrono` represents.
    #[verifier::opaque]
    pub open spec fn next_ok(self, d: Date, now_time: NaiveTime) -> bool {
        let f = self.fix_date(d, now_time);
        match f {
            Date::Day(day) => match self {
                Frequency::EveryXDays(n) => day.days() + n <= max_day_number(),
                Frequency::EveryXWeeks(n) => day.days() + 7 * n <= max_day_number(),
                Frequency::EveryXMonths(n) => day.year + (day.month - 1 + n) / 12 <= MAX_YEAR,
                Frequency::EveryXYears(n) => day.year + n <= MAX_YEAR,
                _ => true,
            },
            Date::DayTime(dt) => match self {
                Frequency::EveryXMinutes(n) => dt.instant() + n * 60_000_000_000 < (
                max_day_number() + 1) * NANOS_PER_DAY,
                Frequency::EveryXHours(n) => dt.instant() + n * 3_600_000_000_000 < (
                max_day_number() + 1) * NANOS_PER_DAY,
                _ => true,
            },
        }
    }

    /// The date of the entry after the one of `date`, where a whole day gets the time
    /// `now_time` when the period counts in minutes or hours.
    pub fn next_date_at(&self, date: &Date, now_time: NaiveTime) -> (r: Date)
        requires
            date.valid(),
            now_time.valid(),
            self.next_ok(*date, now_time),
        ensures
            r == self.next_spec(*date, now_time),
            r.valid(),
            self.count() > 0 ==> date.instant() < r.instant(),
    {
        let fixed = match date {
            Date::Day(day) => match self {
                Frequency::EveryXHours(_) | Frequency::EveryXMinutes(_) => Date::DayTime(
                    NaiveDateTime { date: *day, time: now_time },
                ),
                _ => *date,
            },
            Date::DayTime(dt) => match self {
                Frequency::EveryXMonths(_) | Frequency::EveryXYears(_) | Frequency::EveryXWeeks(
                    _,
                ) | Frequency::EveryXDays(_) => Date::Day(dt.date),
                _ => *date,
            },
        };
        assert(fixed == self.fix_date(*date, now_time));
        proof {
            reveal(Frequency::next_spec);
            reveal(Frequency::next_ok);
            lemma_valid_days_range(fixed.day_of());
            lemma_time_nanos(date.time_of());
            lemma_time_nanos(now_time);
        }
        match fixed {
            Date::Day(day) => match *self {
                Frequency::EveryXDays(n) => {
                    let r = add_days(day, n as i64);
                    proof {
                        lemma_date_of_days(r);
                    }
                    Date::Day(r)
                },
                Frequency::EveryXWeeks(n) => {
                    let r = add_days(day, (n * 7) as i64);
                    proof {
                        lemma_date_of_days(r);
                    }
                    Date::Day(r)
                },
                Frequency::EveryXMonths(n) => {
                    let total: i64 = day.month as i64 - 1 + n as i64;
                    let y: i64 = day.year as i64 + total / 12;
                    let m: i64 = total % 12 + 1;
                    let dim = days_in_month_exec(y as i32, m as u32);
                    let d = if day.day <= dim {
                        day.day
                    } else {
                        dim
                    };
                    let r = NaiveDate { year: y as i32, month: m as u32, day: d };
                    proof {
                        if n > 0 {
                            assert(day.lex_lt(r));
                            lemma_lex_days(day, r);
                        }
                    }
                    Date::Day(r)
                },
                Frequency::EveryXYears(n) => {
                    let y: i32 = day.year + n as i32;
                    let dim = days_in_month_exec(y, day.month);
                    let d = if day.day <= dim {
                        day.day
                    } else {
                        28
                    };
                    let r = NaiveDate { year: y, month: day.month, day: d };
                    proof {
                        if n > 0 {
                            assert(day.lex_lt(r));
                            lemma_lex_days(day, r);
                        }
                    }
                    Date::Day(r)
                },
                _ => fixed,
            },
            Date::DayTime(dt) => match *self {
                Frequency::EveryXMinutes(n) => {
                    let r = add_seconds(dt, (n * 60) as i64);
                    proof {
                        lemma_datetime_of_instant(r);
                    }
                    Date::DayTime(r)
                },
                Frequency::EveryXHours(n) => {
                    let r = add_seconds(dt, (n * 3600) as i64);
                    proof {
                        lemma_datetime_of_instant(r);
                    }
                    Date::DayTime(r)
                },
                _ => fixed,
            },
        }
    }

    /// The date of the entry after the one of `date`; a whole day gets the current
    /// local time when the period counts in minutes or hours.
    pub fn next_date(&self, date: &Date) -> (r: Option<Date>)
        requires
            date.valid(),
        ensures
            r matches Some(d) ==> d.valid() && exists|t: NaiveTime|
                t.valid() && self.next_ok(*date, t) && d == self.next_spec(*date, t),
            r is None ==> exists|t: NaiveTime| t.valid() && !self.next_ok(*date, t),
    {
        let now_time = now().time;
        if self.next_ok_exec(date, now_time) {
            Some(self.next_date_at(date, now_time))
        } else {
            None
        }
    }

    /// Whether the next date stays within the range of dates that `chrono` represents.
    pub fn next_ok_exec(&self, date: &Date, now_time: NaiveTime) -> (r: bool)
        requires
            date.valid(),
            now_time.valid(),
        ensures
            r == self.next_ok(*date, now_time),
    {
        proof {
            reveal(Frequency::next_ok);
            lemma_valid_days_range(date.day_of());
            lemma_time_nanos(date.time_of());
            lemma_time_nanos(now_time);
        }
        let day = date.day();
        let left_days: i128 = days_since(max_date(), day) as i128;
        match self {
            Frequency::EveryXDays(n) => (*n as i128) <= left_days,
            Frequency::EveryXWeeks(n) => 7 * (*n as i128) <= left_days,
            Frequency::EveryXMonths(n) => (day.year as i128) + (day.month as i128 - 1 + *n as i128)
                / 12 <= MAX_YEAR as i128,
            Frequency::EveryXYears(n) => (day.year as i128) + (*n as i128) <= MAX_YEAR as i128,
            Frequency::EveryXMinutes(n) | Frequency::EveryXHours(n) => {
                let unit: i128 = match self {
                    Frequency::EveryXMinutes(_) => 60_000_000_000,
                    _ => 3_600_000_000_000,
                };
                let t = match date {
                    Date::Day(_) => now_time,
                    Date::DayTime(dt) => dt.time,
                };
                let nanos: i128 = (((t.hour as i128) * 60 + t.minute as i128) * 60
                    + t.second as i128) * 1_000_000_000 + t.nano as i128;
                (*n as i128) * unit < (left_days + 1) * (NANOS_PER_DAY as i128) - nanos
            },
        }
    }
}

/// With a period of no unit, the date after a date is that date as the period reads
/// it.
pub proof fn lemma_zero_period(f: Frequency, d: Date, now_time: NaiveTime)
    requires
        f.count() == 0,
        d.valid(),
        now_time.valid(),
    ensures
        f.next_spec(d, now_time) == f.fix_date(d, now_time),
        f.fix_date(d, now_time).valid(),
        f.fix_date(f.fix_date(d, now_time), now_time) == f.fix_date(d, now_time),
{
    reveal(Frequency::next_spec);
    let x = f.fix_date(d, now_time);
    match x {
        Date::Day(day) => {
            lemma_date_of_days(day);
            assert(Frequency::months_later(day, 0) == day);
            assert(Frequency::years_later(day, 0) == day);
        },
        Date::DayTime(dt) => {
            lemma_datetime_of_instant(dt);
        },
    }
}

} // verus!
