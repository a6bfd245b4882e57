//! Spans of time, the countdown and stopwatch of the time management tab, and how
//! the timer writes a span.
use vstd::prelude::*;
use crate::date::NaiveTime;
use crate::text::{decimal, push_char, push_decimal, push_padded, zero_pad};
use vstd::arithmetic::div_mod::{lemma_div_denominator, lemma_fundamental_div_mod, lemma_fundamental_div_mod_converse_div, lemma_fundamental_div_mod_converse_mod, lemma_mod_bound};

verus! {

/// A span of time: whole seconds, and the nanoseconds beyond them.
#[derive(Debug, Clone, Copy, PartialEq, Eq, Hash, Structural)]
pub struct TimeSpan {
    pub secs: u64,
    pub nanos: u32,
}

impl TimeSpan {
    /// The nanoseconds make less than a second.
    pub open spec fn valid(self) -> bool {
        self.nanos < 1_000_000_000
    }
}

/// Whether `TimeDelta::from_std` of `chrono` takes `d` in: its spans reach up to
/// `i64::MAX` milliseconds.
pub open spec fn fits_delta(d: TimeSpan) -> bool {
    &&& d.nanos < 1_000_000_000
    &&& d.secs < 9_223_372_036_854_775 || (d.secs == 9_223_372_036_854_775 && d.nanos
        <= 807_000_000)
}

/// The whole seconds of `d` once `TimeDelta::from_std` of `chrono` has taken it in; a
/// span it refuses gives the default span, zero.
pub open spec fn delta_seconds(d: TimeSpan) -> int {
    if fits_delta(d) {
        d.secs as int
    } else {
        0
    }
}

/// The nanoseconds of `d` once `TimeDelta::from_std` of `chrono` has taken it in; a span
/// it refuses gives zero.
pub open spec fn delta_nanos(d: TimeSpan) -> int {
    if fits_delta(d) {
        d.secs * 1_000_000_000 + d.nanos
    } else {
        0
    }
}

impl TimeSpan {
    /// Whether `TimeDelta::from_std` of `chrono` takes `self` in; see `fits_delta`.
    pub fn fits_delta(&self) -> (r: bool)
        ensures
            r == fits_delta(*self),
    {
        self.nanos < 1_000_000_000 && (self.secs < 9_223_372_036_854_775 || (self.secs
            == 9_223_372_036_854_775 && self.nanos <= 807_000_000))
    }

    /// The whole seconds of `self` as a time delta; see `delta_seconds`.
    pub fn delta_secs(&self) -> (r: i64)
        ensures
            r == delta_seconds(*self),
    {
        if self.fits_delta() {
            self.secs as i64
        } else {
            0
        }
    }

    /// The nanoseconds of `self` as a time delta; see `delta_nanos`.
    pub fn delta_nanos(&self) -> (r: i128)
        ensures
            r == delta_nanos(*self),
    {
        if self.fits_delta() {
            self.secs as i128 * 1_000_000_000 + self.nanos as i128
        } else {
            0
        }
    }
}

/// Quotient of `a` by `b > 0`, rounded toward zero as integer division of Rust does.
pub open spec fn trunc_div(a: int, b: int) -> int {
    if a >= 0 {
        a / b
    } else {
        -((-a) / b)
    }
}

/// Remainder of `a` by `b > 0`, with the sign of `a`, as `%` of Rust gives it.
pub open spec fn trunc_rem(a: int, b: int) -> int {
    a - b * trunc_div(a, b)
}

/// `v` as `{:02}` of std writes it: at least two digits, the sign counting as one.
pub open spec fn two_digits(v: int) -> Seq<char> {
    if v < 0 {
        seq!['-'] + decimal((-v) as nat)
    } else {
        zero_pad(decimal(v as nat), 2)
    }
}

/// How the timer writes a span of `s` whole seconds: minutes and seconds as `MM:SS`,
/// with the hours written right before them when there is at least one.
pub open spec fn time_delta_text(s: int) -> Seq<char> {
    let minutes = trunc_div(s, 60);
    (if trunc_div(s, 3600) > 0 {
        two_digits(trunc_div(minutes, 60))
    } else {
        seq![]
    }) + two_digits(trunc_rem(minutes, 60)) + seq![':'] + two_digits(trunc_rem(s, 60))
}

/// The timer of the time management tab.
pub struct TimerWidget;

/// Appends `v` as `{:02}` writes it, for `v` zero or negative, given as `-a`.
fn push_negated(s: &mut String, a: u64)
    ensures
        final(s)@ == old(s)@ + two_digits(-(a as int)),
{
    if a == 0 {
        push_padded(s, 0, 2);
    } else {
        push_char(s, '-');
        push_decimal(s, a);
        assert(final(s)@ =~= old(s)@ + (seq!['-'] + decimal(a as nat)));
    }
}

impl TimerWidget {
    /// Writes a span of `seconds` whole seconds, negative for time already past; see
    /// `time_delta_text`.
    pub fn format_time_delta(seconds: i64) -> (r: String)
        ensures
            r@ == time_delta_text(seconds as int),
    {
        let mut res = String::new();
        if seconds >= 0 {
            let a = seconds as u64;
            let minutes = a / 60;
            if a / 3600 > 0 {
                push_padded(&mut res, minutes / 60, 2);
            }
            let ghost head = res@;
            push_padded(&mut res, minutes % 60, 2);
            push_char(&mut res, ':');
            push_padded(&mut res, a % 60, 2);
            proof {
                assert(trunc_div(seconds as int, 60) == minutes);
                assert(trunc_div(minutes as int, 60) == minutes / 60);
                assert(trunc_rem(minutes as int, 60) == minutes % 60);
                assert(trunc_rem(seconds as int, 60) == a % 60);
                assert(trunc_div(seconds as int, 3600) == a / 3600);
                assert(res@ =~= time_delta_text(seconds as int));
            }
        } else {
            let a: u64 = ((-(seconds + 1)) as u64) + 1;
            let minutes = a / 60;
            push_negated(&mut res, minutes % 60);
            push_char(&mut res, ':');
            push_negated(&mut res, a % 60);
            proof {
                assert(a == -(seconds as int));
                assert(trunc_div(seconds as int, 60) == -(minutes as int));
                assert(trunc_div(seconds as int, 3600) <= 0);
                if minutes == 0 {
                    assert(trunc_rem(-(minutes as int), 60) == 0);
                } else {
                    assert(trunc_div(-(minutes as int), 60) == -((minutes / 60) as int));
                    assert(trunc_rem(-(minutes as int), 60) == -((minutes % 60) as int));
                }
                assert(trunc_rem(seconds as int, 60) == -((a % 60) as int));
                assert(res@ =~= time_delta_text(seconds as int));
            }
        }
        res
    }
}


/// Nanoseconds in a day.
pub open spec fn day_nanos() -> int {
    86_400_000_000_000
}

/// The time of day `n` nanoseconds after a midnight, counted around the clock.
pub open spec fn time_of_nanos(n: int) -> NaiveTime {
    let m = n % day_nanos();
    NaiveTime {
        hour: (m / 3_600_000_000_000) as u32,
        minute: ((m / 60_000_000_000) % 60) as u32,
        second: ((m / 1_000_000_000) % 60) as u32,
        nano: (m % 1_000_000_000) as u32,
    }
}

proof fn lemma_time_of_nanos(n: int)
    ensures
        time_of_nanos(n).valid(),
        time_of_nanos(n).nanos() == n % day_nanos(),
{
    let m = n % day_nanos();
    lemma_mod_bound(n, day_nanos());
    let s = m / 1_000_000_000;
    let f = m % 1_000_000_000;
    lemma_fundamental_div_mod(m, 1_000_000_000);
    lemma_mod_bound(m, 1_000_000_000);
    lemma_div_denominator(m, 1_000_000_000, 60);
    lemma_div_denominator(m, 1_000_000_000, 3600);
    lemma_div_denominator(s, 60, 60);
    lemma_fundamental_div_mod(s, 60);
    lemma_mod_bound(s, 60);
    let q = s / 60;
    lemma_fundamental_div_mod(q, 60);
    lemma_mod_bound(q, 60);
    assert(0 <= s < 86400);
    assert(0 <= q < 1440);
    assert(q / 60 < 24);
    let t = time_of_nanos(n);
    assert(t.hour == q / 60);
    assert(t.minute == q % 60);
    assert(t.second == s % 60);
    assert(t.nano == f);
    assert(t.hour * 60 + t.minute == q);
    assert((t.hour * 60 + t.minute) * 60 + t.second == s);
}

/// Nanoseconds from midnight to the valid time `t`.
pub(crate) fn nanos_of(t: NaiveTime) -> (r: i128)
    requires
        t.valid(),
    ensures
        r == t.nanos(),
        0 <= r < day_nanos(),
{
    ((t.hour as i128 * 60 + t.minute as i128) * 60 + t.second as i128) * 1_000_000_000
        + t.nano as i128
}

/// The time of day `n` nanoseconds after a midnight; see `time_of_nanos`.
fn time_from_nanos(n: i128) -> (r: NaiveTime)
    requires
        n > -day_nanos(),
    ensures
        r == time_of_nanos(n as int),
        r.valid(),
{
    proof {
        lemma_time_of_nanos(n as int);
    }
    let m: u64 = if n < 0 {
        proof {
            lemma_fundamental_div_mod_converse_mod(n as int, day_nanos(), -1, n + day_nanos());
        }
        (n + 86_400_000_000_000) as u64
    } else {
        ((n as u128) % 86_400_000_000_000) as u64
    };
    NaiveTime {
        hour: (m / 3_600_000_000_000) as u32,
        minute: ((m / 60_000_000_000) % 60) as u32,
        second: ((m / 1_000_000_000) % 60) as u32,
        nano: (m % 1_000_000_000) as u32,
    }
}

/// The time of day `d` nanoseconds after `t`, or before it for `d < 0`, as
/// `NaiveTime + TimeDelta` of `chrono` gives it: around the clock.
pub open spec fn shifted(t: NaiveTime, d: int) -> NaiveTime {
    time_of_nanos(t.nanos() + d)
}

/// The time of day `d` nanoseconds after `t`; see `shifted`.
fn shift(t: NaiveTime, d: i128) -> (r: NaiveTime)
    requires
        t.valid(),
        -day_nanos() < d < 100_000_000_000_000_000_000_000_000,
    ensures
        r == shifted(t, d as int),
        r.valid(),
{
    time_from_nanos(nanos_of(t) + d)
}

/// The countdown or the stopwatch of the time management tab: when it started, when a
/// countdown stops, and when it was paused if it is.
#[derive(Debug, Clone, Copy, PartialEq, Eq, Hash, Structural)]
pub enum TimerState {
    ClockDown { started_at: NaiveTime, stop_at: NaiveTime, paused_at: Option<NaiveTime> },
    ClockUp { started_at: NaiveTime, paused_at: Option<NaiveTime> },
    NotInitialized,
}

impl Default for TimerState {
    fn default() -> (r: TimerState)
        ensures
            r == TimerState::NotInitialized,
    {
        TimerState::NotInitialized
    }
}

/// A time that is either absent or valid.
pub open spec fn valid_opt(t: Option<NaiveTime>) -> bool {
    t matches Some(x) ==> x.valid()
}

impl TimerState {
    /// Every time held is a valid time of day.
    pub open spec fn valid(self) -> bool {
        match self {
            TimerState::ClockDown { started_at, stop_at, paused_at } => started_at.valid()
                && stop_at.valid() && valid_opt(paused_at),
            TimerState::ClockUp { started_at, paused_at } => started_at.valid() && valid_opt(
                paused_at,
            ),
            TimerState::NotInitialized => true,
        }
    }
}

/// The timer that starts at `now`: a countdown of `d` (as `TimeDelta::from_std` of
/// `chrono` takes it in, zero where it does not), or a stopwatch without `d`.
pub open spec fn started_timer(d: Option<TimeSpan>, now: NaiveTime) -> TimerState {
    match d {
        Some(d) => TimerState::ClockDown {
            started_at: now,
            stop_at: shifted(now, delta_nanos(d)),
            paused_at: None,
        },
        None => TimerState::ClockUp { started_at: now, paused_at: None },
    }
}

/// The timer `s` once pause is pressed at `now`: a running timer is paused at `now`; a
/// paused one runs again, its times moved on by the pause.
pub open spec fn toggled_timer(s: TimerState, now: NaiveTime) -> TimerState {
    match s {
        TimerState::ClockDown { started_at, stop_at, paused_at } => match paused_at {
            Some(p) => {
                let delta = now.nanos() - p.nanos();
                TimerState::ClockDown {
                    started_at: shifted(started_at, delta),
                    stop_at: shifted(stop_at, delta),
                    paused_at: None,
                }
            },
            None => TimerState::ClockDown { started_at, stop_at, paused_at: Some(now) },
        },
        TimerState::ClockUp { started_at, paused_at } => match paused_at {
            Some(p) => TimerState::ClockUp {
                started_at: shifted(started_at, now.nanos() - p.nanos()),
                paused_at: None,
            },
            None => TimerState::ClockUp { started_at, paused_at: Some(now) },
        },
        TimerState::NotInitialized => TimerState::NotInitialized,
    }
}

/// A time delta below zero, which a span of time cannot hold (`OutOfRangeError` of
/// `chrono`).
#[derive(Debug, Clone, Copy, PartialEq, Eq, Hash, Structural)]
pub struct OutOfRangeError;

/// The span `n >= 0` nanoseconds long.
pub open spec fn span_of_nanos(n: int) -> TimeSpan {
    TimeSpan { secs: (n / 1_000_000_000) as u64, nanos: (n % 1_000_000_000) as u32 }
}

/// The time spent on the timer `s` at `now`: from its start to `now`, an error where
/// `now` comes before the start in the day, and zero for a timer not started.
pub open spec fn time_spent(s: TimerState, now: NaiveTime) -> Result<TimeSpan, OutOfRangeError> {
    match s {
        TimerState::ClockDown { started_at, .. } | TimerState::ClockUp { started_at, .. } => {
            let diff = now.nanos() - started_at.nanos();
            if diff < 0 {
                Err(OutOfRangeError)
            } else {
                Ok(span_of_nanos(diff))
            }
        },
        TimerState::NotInitialized => Ok(TimeSpan { secs: 0, nanos: 0 }),
    }
}

/// Whether the timer `s` has finished at `now`: a running countdown whose stop time
/// `now` is past.
pub open spec fn finished(s: TimerState, now: NaiveTime) -> bool {
    match s {
        TimerState::ClockDown { stop_at, paused_at, .. } => now.nanos() > stop_at.nanos()
            && paused_at is None,
        _ => false,
    }
}

impl TimerState {
    /// The timer that starts at `now`; see `started_timer`.
    pub fn new_at(new_duration: Option<TimeSpan>, now: NaiveTime) -> (r: TimerState)
        requires
            now.valid(),
        ensures
            r == started_timer(new_duration, now),
            r.valid(),
    {
        match new_duration {
            Some(d) => TimerState::ClockDown {
                started_at: now,
                stop_at: shift(now, d.delta_nanos()),
                paused_at: None,
            },
            None => TimerState::ClockUp { started_at: now, paused_at: None },
        }
    }

    /// The timer that starts now, by the local clock; see `started_timer`.
    pub fn new(new_duration: Option<TimeSpan>) -> (r: TimerState)
        ensures
            exists|now: NaiveTime| now.valid() && r == started_timer(new_duration, now),
            r.valid(),
    {
        let now = crate::date::now().time;
        TimerState::new_at(new_duration, now)
    }

    /// The timer once pause is pressed at `now`; see `toggled_timer`.
    pub fn pause_at(self, now: NaiveTime) -> (r: TimerState)
        requires
            self.valid(),
            now.valid(),
        ensures
            r == toggled_timer(self, now),
            r.valid(),
    {
        match self {
            TimerState::ClockDown { started_at, stop_at, paused_at } => match paused_at {
                Some(p) => {
                    let delta = nanos_of(now) - nanos_of(p);
                    TimerState::ClockDown {
                        started_at: shift(started_at, delta),
                        stop_at: shift(stop_at, delta),
                        paused_at: None,
                    }
                },
                None => TimerState::ClockDown { started_at, stop_at, paused_at: Some(now) },
            },
            TimerState::ClockUp { started_at, paused_at } => match paused_at {
                Some(p) => {
                    let delta = nanos_of(now) - nanos_of(p);
                    TimerState::ClockUp { started_at: shift(started_at, delta), paused_at: None }
                },
                None => TimerState::ClockUp { started_at, paused_at: Some(now) },
            },
            TimerState::NotInitialized => TimerState::NotInitialized,
        }
    }

    /// The timer once pause is pressed now, by the local clock; see `toggled_timer`.
    pub fn pause(self) -> (r: TimerState)
        requires
            self.valid(),
        ensures
            exists|now: NaiveTime| now.valid() && r == toggled_timer(self, now),
            r.valid(),
    {
        let now = crate::date::now().time;
        self.pause_at(now)
    }

    /// The time spent on the timer at `now`; see `time_spent`.
    pub fn time_spent_at(&self, now: NaiveTime) -> (r: Result<TimeSpan, OutOfRangeError>)
        requires
            self.valid(),
            now.valid(),
        ensures
            r == time_spent(*self, now),
    {
        match self {
            TimerState::ClockDown { started_at, .. } | TimerState::ClockUp { started_at, .. } => {
                let diff = nanos_of(now) - nanos_of(*started_at);
                if diff < 0 {
                    Err(OutOfRangeError)
                } else {
                    let d = diff as u64;
                    Ok(TimeSpan { secs: d / 1_000_000_000, nanos: (d % 1_000_000_000) as u32 })
                }
            },
            TimerState::NotInitialized => Ok(TimeSpan { secs: 0, nanos: 0 }),
        }
    }

    /// The time spent on the timer now, by the local clock; see `time_spent`.
    pub fn get_time_spent(&self) -> (r: Result<TimeSpan, OutOfRangeError>)
        requires
            self.valid(),
        ensures
            exists|now: NaiveTime| now.valid() && r == time_spent(*self, now),
    {
        let now = crate::date::now().time;
        self.time_spent_at(now)
    }

    /// Whether the timer has finished at `now`; see `finished`.
    pub fn tick_at(&self, now: NaiveTime) -> (r: bool)
        requires
            self.valid(),
            now.valid(),
        ensures
            r == finished(*self, now),
    {
        match self {
            TimerState::ClockDown { stop_at, paused_at, .. } => nanos_of(now) > nanos_of(*stop_at)
                && paused_at.is_none(),
            _ => false,
        }
    }

    /// Whether the timer has finished now, by the local clock; see `finished`.
    pub fn tick(&self) -> (r: bool)
        requires
            self.valid(),
        ensures
            exists|now: NaiveTime| now.valid() && r == finished(*self, now),
    {
        let now = crate::date::now().time;
        self.tick_at(now)
    }
}

/// What the timer shows at `now`: the time spent on a stopwatch, the time left on a
/// countdown (in whole seconds, rounded toward zero, written by `time_delta_text`), or
/// that it is paused or not started.
pub open spec fn timer_text(s: TimerState, now: NaiveTime) -> Seq<char> {
    match s {
        TimerState::NotInitialized => "Not initialized"@,
        TimerState::ClockUp { started_at, paused_at } => if paused_at is Some {
            "Paused"@
        } else {
            time_delta_text(trunc_div(now.nanos() - started_at.nanos(), 1_000_000_000))
        },
        TimerState::ClockDown { stop_at, paused_at, .. } => if paused_at is Some {
            "Paused"@
        } else {
            time_delta_text(trunc_div(stop_at.nanos() - now.nanos(), 1_000_000_000))
        },
    }
}

/// Whole seconds in `d` nanoseconds, rounded toward zero.
fn whole_seconds(d: i128) -> (r: i64)
    requires
        -day_nanos() < d < day_nanos(),
    ensures
        r == trunc_div(d as int, 1_000_000_000),
{
    if d >= 0 {
        (d / 1_000_000_000) as i64
    } else {
        let a = (-d) / 1_000_000_000;
        -(a as i64)
    }
}

impl TimerWidget {
    /// What the timer shows at `now`; see `timer_text`.
    pub fn text_at(state: &TimerState, now: NaiveTime) -> (r: String)
        requires
            state.valid(),
            now.valid(),
        ensures
            r@ == timer_text(*state, now),
    {
        match state {
            TimerState::NotInitialized => String::from_str("Not initialized"),
            TimerState::ClockUp { started_at, paused_at } => if paused_at.is_some() {
                String::from_str("Paused")
            } else {
                TimerWidget::format_time_delta(whole_seconds(nanos_of(now) - nanos_of(*started_at)))
            },
            TimerState::ClockDown { stop_at, paused_at, .. } => if paused_at.is_some() {
                String::from_str("Paused")
            } else {
                TimerWidget::format_time_delta(whole_seconds(nanos_of(*stop_at) - nanos_of(now)))
            },
        }
    }
}

/// Two valid times of day with the same count of nanoseconds since midnight are the
/// same time.
proof fn lemma_nanos_injective(a: NaiveTime, b: NaiveTime)
    requires
        a.valid(),
        b.valid(),
        a.nanos() == b.nanos(),
    ensures
        a == b,
{
    let sa = (a.hour * 60 + a.minute) * 60 + a.second;
    let sb = (b.hour * 60 + b.minute) * 60 + b.second;
    lemma_fundamental_div_mod_converse_div(a.nanos(), 1_000_000_000, sa, a.nano as int);
    lemma_fundamental_div_mod_converse_mod(a.nanos(), 1_000_000_000, sa, a.nano as int);
    lemma_fundamental_div_mod_converse_div(b.nanos(), 1_000_000_000, sb, b.nano as int);
    lemma_fundamental_div_mod_converse_mod(b.nanos(), 1_000_000_000, sb, b.nano as int);
    let ma = a.hour * 60 + a.minute;
    let mb = b.hour * 60 + b.minute;
    lemma_fundamental_div_mod_converse_div(sa, 60, ma, a.second as int);
    lemma_fundamental_div_mod_converse_mod(sa, 60, ma, a.second as int);
    lemma_fundamental_div_mod_converse_div(sb, 60, mb, b.second as int);
    lemma_fundamental_div_mod_converse_mod(sb, 60, mb, b.second as int);
    lemma_fundamental_div_mod_converse_div(ma, 60, a.hour as int, a.minute as int);
    lemma_fundamental_div_mod_converse_mod(ma, 60, a.hour as int, a.minute as int);
    lemma_fundamental_div_mod_converse_div(mb, 60, b.hour as int, b.minute as int);
    lemma_fundamental_div_mod_converse_mod(mb, 60, b.hour as int, b.minute as int);
}

/// Moving a valid time by a count of nanoseconds that keeps it within the day gives
/// the time that many nanoseconds after midnight.
proof fn lemma_shifted_within_day(t: NaiveTime, d: int)
    requires
        t.valid(),
        0 <= t.nanos() + d < day_nanos(),
    ensures
        shifted(t, d).valid(),
        shifted(t, d).nanos() == t.nanos() + d,
{
    lemma_time_of_nanos(t.nanos() + d);
    lemma_fundamental_div_mod_converse_mod(t.nanos() + d, day_nanos(), 0, t.nanos() + d);
}

/// Pressing pause twice at the same instant leaves a running timer as it was.
pub proof fn lemma_pause_twice_same_instant(s: TimerState, now: NaiveTime)
    requires
        s.valid(),
        now.valid(),
        match s {
            TimerState::ClockDown { paused_at, .. } => paused_at is None,
            TimerState::ClockUp { paused_at, .. } => paused_at is None,
            TimerState::NotInitialized => true,
        },
    ensures
        toggled_timer(toggled_timer(s, now), now) == s,
{
    match s {
        TimerState::ClockDown { started_at, stop_at, .. } => {
            lemma_shifted_within_day(started_at, 0);
            lemma_nanos_injective(shifted(started_at, 0), started_at);
            lemma_shifted_within_day(stop_at, 0);
            lemma_nanos_injective(shifted(stop_at, 0), stop_at);
        },
        TimerState::ClockUp { started_at, .. } => {
            lemma_shifted_within_day(started_at, 0);
            lemma_nanos_injective(shifted(started_at, 0), started_at);
        },
        TimerState::NotInitialized => {},
    }
}

/// The time during which a stopwatch stood paused does not count as time spent on it:
/// started at `start`, paused at `p`, run again at `q` and read at `now`, in this order
/// within one day, it has counted `now - start - (q - p)`.
pub proof fn lemma_pause_not_spent(start: NaiveTime, p: NaiveTime, q: NaiveTime, now: NaiveTime)
    requires
        start.valid(),
        p.valid(),
        q.valid(),
        now.valid(),
        start.nanos() <= p.nanos() <= q.nanos() <= now.nanos(),
    ensures
        time_spent(
            toggled_timer(
                toggled_timer(TimerState::ClockUp { started_at: start, paused_at: None }, p),
                q,
            ),
            now,
        ) == Ok::<TimeSpan, OutOfRangeError>(
            span_of_nanos(now.nanos() - start.nanos() - (q.nanos() - p.nanos())),
        ),
{
    lemma_shifted_within_day(start, q.nanos() - p.nanos());
}

/// A pause moves the stop time of a countdown on by its length: started at `start` to
/// stop at `stop`, paused at `p` and run again at `q`, in this order within one day and
/// with `stop + (q - p)` still within it, the countdown finishes once `now` is past
/// `stop + (q - p)`.
pub proof fn lemma_pause_delays_stop(
    start: NaiveTime,
    stop: NaiveTime,
    p: NaiveTime,
    q: NaiveTime,
    now: NaiveTime,
)
    requires
        start.valid(),
        stop.valid(),
        p.valid(),
        q.valid(),
        now.valid(),
        p.nanos() <= q.nanos(),
        stop.nanos() + (q.nanos() - p.nanos()) < day_nanos(),
    ensures
        finished(
            toggled_timer(
                toggled_timer(
                    TimerState::ClockDown { started_at: start, stop_at: stop, paused_at: None },
                    p,
                ),
                q,
            ),
            now,
        ) == (now.nanos() > stop.nanos() + (q.nanos() - p.nanos())),
{
    lemma_shifted_within_day(stop, q.nanos() - p.nanos());
}

} // verus!
