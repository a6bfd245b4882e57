//! The settings of the time management methods, as the settings table shows and
//! edits them.
use vstd::prelude::*;
use chrono::Timelike;
use crate::date::NaiveTime;
use crate::filter::{lowercase, to_lowercase};
use crate::text::{chars_of, decimal, parse_unsigned, push_decimal, push_str, str_eq, unsigned_spec};
use crate::engine::EditOutcome;
use crate::timer::{delta_seconds, time_delta_text, TimeSpan, TimerWidget};

verus! {

/// The time management methods.
#[derive(Debug, Clone, Copy, PartialEq, Eq, Hash, Structural)]
pub enum MethodsAvailable {
    Pomodoro,
    FlowTime,
}

impl Default for MethodsAvailable {
    fn default() -> (r: MethodsAvailable)
        ensures
            r == MethodsAvailable::Pomodoro,
    {
        MethodsAvailable::Pomodoro
    }
}

/// The name a method is shown under.
pub open spec fn method_name(m: MethodsAvailable) -> Seq<char> {
    match m {
        MethodsAvailable::Pomodoro => "Pomodoro"@,
        MethodsAvailable::FlowTime => "Flowtime"@,
    }
}

impl MethodsAvailable {
    /// The name the method is shown under.
    pub fn to_string(&self) -> (r: String)
        ensures
            r@ == method_name(*self),
    {
        match self {
            MethodsAvailable::Pomodoro => String::from_str("Pomodoro"),
            MethodsAvailable::FlowTime => String::from_str("Flowtime"),
        }
    }

    /// The method at position `n` of the list of methods.
    pub fn from_repr(n: usize) -> (r: Option<MethodsAvailable>)
        ensures
            r == (if n == 0 {
                Some(MethodsAvailable::Pomodoro)
            } else if n == 1 {
                Some(MethodsAvailable::FlowTime)
            } else {
                None::<MethodsAvailable>
            }),
    {
        if n == 0 {
            Some(MethodsAvailable::Pomodoro)
        } else if n == 1 {
            Some(MethodsAvailable::FlowTime)
        } else {
            None
        }
    }

    /// Every method, in the order of the list.
    pub fn all() -> (r: Vec<MethodsAvailable>)
        ensures
            r@ == seq![MethodsAvailable::Pomodoro, MethodsAvailable::FlowTime],
    {
        let mut v = Vec::new();
        v.push(MethodsAvailable::Pomodoro);
        v.push(MethodsAvailable::FlowTime);
        v
    }
}

/// The value of a setting of a method.
#[derive(Debug, Clone, Copy, PartialEq, Eq, Hash, Structural)]
pub enum MethodSettingsValue {
    Bool(bool),
    Duration(TimeSpan),
    Int(u32),
}

/// How the settings table writes a value.
pub open spec fn value_text(v: MethodSettingsValue) -> Seq<char> {
    match v {
        MethodSettingsValue::Duration(d) => time_delta_text(delta_seconds(d)),
        MethodSettingsValue::Int(n) => decimal(n as nat),
        MethodSettingsValue::Bool(b) => if b {
            "true"@
        } else {
            "false"@
        },
    }
}

impl MethodSettingsValue {
    /// The value as the settings table writes it; see `value_text`.
    pub fn to_string(&self) -> (r: String)
        ensures
            r@ == value_text(*self),
    {
        match self {
            MethodSettingsValue::Duration(d) => TimerWidget::format_time_delta(d.delta_secs()),
            MethodSettingsValue::Int(n) => {
                let mut s = String::new();
                push_decimal(&mut s, *n as u64);
                s
            },
            MethodSettingsValue::Bool(b) => if *b {
                String::from_str("true")
            } else {
                String::from_str("false")
            },
        }
    }
}

/// An entry of the settings table of a method.
#[derive(Debug, Clone, PartialEq, Eq)]
pub struct MethodSettingsEntry {
    /// Name of the setting.
    pub name: String,
    /// Value of the setting.
    pub value: MethodSettingsValue,
    /// A hint on the setting.
    pub hint: String,
}

/// Why a new value of a setting was refused.
#[derive(Debug, Clone, Copy, PartialEq, Eq, Hash, Structural)]
pub enum SettingError {
    /// A span of time that reads neither as `H:M:S` nor as `M:S`.
    InvalidTime,
    /// A number that does not read as a `u32`.
    InvalidNumber,
}

/// What `NaiveTime::parse_from_str(input, "%H:%M:%S")` of `chrono` gives for `input`:
/// the time of day read, by hour, minute, second and nanosecond (a leap second reads
/// as second 59 with a billion nanoseconds or more).
pub uninterp spec fn parsed_clock_time(input: Seq<char>) -> Option<NaiveTime>;

/// `NaiveTime::parse_from_str(input, "%H:%M:%S")` of `chrono`, the time read back by
/// its hour, minute, second and nanosecond; `None` where `chrono` refuses the input.
/// What the format accepts is left to the name `parsed_clock_time`.
#[verifier::external_body]
fn parse_clock_time(input: &str) -> (r: Option<NaiveTime>)
    ensures
        r == parsed_clock_time(input@),
{
    match chrono::NaiveTime::parse_from_str(input, "%H:%M:%S") {
        Ok(t) => Some(NaiveTime { hour: t.hour(), minute: t.minute(), second: t.second(), nano: t.nanosecond() }),
        Err(_) => None,
    }
}

/// The span from midnight to `t`, as `signed_duration_since` of `chrono` gives it from
/// the midnight of `NaiveTime::default()` and `to_std` turns it into a span: a billion
/// nanoseconds and more (a leap second) count as one more second.
pub open spec fn since_midnight(t: NaiveTime) -> TimeSpan {
    TimeSpan {
        secs: ((t.hour * 60 + t.minute) * 60 + t.second + t.nano / 1_000_000_000) as u64,
        nanos: (t.nano % 1_000_000_000) as u32,
    }
}

/// The span from midnight to `t`; see `since_midnight`.
pub fn since_midnight_of(t: NaiveTime) -> (r: TimeSpan)
    ensures
        r == since_midnight(t),
        r.valid(),
{
    let secs = (t.hour as u64 * 60 + t.minute as u64) * 60 + t.second as u64 + (t.nano
        / 1_000_000_000) as u64;
    TimeSpan { secs, nanos: t.nano % 1_000_000_000 }
}

/// The span that `input` writes: as `H:M:S`, else as `M:S` (read as `0:M:S`).
pub open spec fn duration_input(input: Seq<char>) -> Option<TimeSpan> {
    match parsed_clock_time(input) {
        Some(t) => Some(since_midnight(t)),
        None => match parsed_clock_time("0:"@ + input) {
            Some(t) => Some(since_midnight(t)),
            None => None,
        },
    }
}

/// The new value that `input` gives a setting whose value is `v`: of the same kind as
/// `v`, a span of time, a `u32`, or `true` in any case for a flag that is set.
pub open spec fn updated_value(v: MethodSettingsValue, input: Seq<char>) -> Result<
    MethodSettingsValue,
    SettingError,
> {
    match v {
        MethodSettingsValue::Duration(_) => match duration_input(input) {
            Some(d) => Ok(MethodSettingsValue::Duration(d)),
            None => Err(SettingError::InvalidTime),
        },
        MethodSettingsValue::Int(_) => match unsigned_spec(input, 4294967295) {
            Some(n) => Ok(MethodSettingsValue::Int(n as u32)),
            None => Err(SettingError::InvalidNumber),
        },
        MethodSettingsValue::Bool(_) => Ok(MethodSettingsValue::Bool(lowercase(input) == "true"@)),
    }
}

impl MethodSettingsEntry {
    /// The entry with the value that `input` writes; see `updated_value`. The name and
    /// the hint stay.
    pub fn update(&self, input: &str) -> (r: Result<MethodSettingsEntry, SettingError>)
        ensures
            match updated_value(self.value, input@) {
                Ok(v) => r matches Ok(e) && e.name@ == self.name@ && e.hint@ == self.hint@
                    && e.value == v,
                Err(err) => r == Err::<MethodSettingsEntry, SettingError>(err),
            },
    {
        let value = match self.value {
            MethodSettingsValue::Duration(_) => {
                let parsed = match parse_clock_time(input) {
                    Some(t) => Some(t),
                    None => {
                        let mut with_hours = String::from_str("0:");
                        push_str(&mut with_hours, input);
                        parse_clock_time(with_hours.as_str())
                    },
                };
                match parsed {
                    Some(t) => MethodSettingsValue::Duration(since_midnight_of(t)),
                    None => {
                        return Err(SettingError::InvalidTime);
                    },
                }
            },
            MethodSettingsValue::Int(_) => {
                let cs = chars_of(input);
                match parse_unsigned(&cs, 4294967295) {
                    Some(n) => {
                        proof {
                            crate::text::lemma_digits_value_nonneg(
                                crate::text::unsigned_digits(input@),
                            );
                        }
                        MethodSettingsValue::Int(n as u32)
                    },
                    None => {
                        return Err(SettingError::InvalidNumber);
                    },
                }
            },
            MethodSettingsValue::Bool(_) => {
                let lowered = to_lowercase(input);
                MethodSettingsValue::Bool(str_eq(lowered.as_str(), "true"))
            },
        };
        Ok(MethodSettingsEntry { name: self.name.clone(), value, hint: self.hint.clone() })
    }
}

/// The position of the first setting of `settings` named `key`, from `i` on.
pub open spec fn setting_index_from(settings: Seq<MethodSettingsEntry>, key: Seq<char>, i: int) -> Option<int>
    decreases settings.len() - i,
{
    if i < 0 || i >= settings.len() {
        None
    } else if settings[i].name@ == key {
        Some(i)
    } else {
        setting_index_from(settings, key, i + 1)
    }
}

/// The position of the first setting of `settings` named `key`.
pub open spec fn setting_index(settings: Seq<MethodSettingsEntry>, key: Seq<char>) -> Option<int> {
    setting_index_from(settings, key, 0)
}

proof fn lemma_setting_index_from(settings: Seq<MethodSettingsEntry>, key: Seq<char>, i: int)
    requires
        0 <= i,
    ensures
        setting_index_from(settings, key, i) matches Some(k) ==> i <= k < settings.len()
            && settings[k].name@ == key,
    decreases settings.len() - i,
{
    if i < settings.len() && settings[i].name@ != key {
        lemma_setting_index_from(settings, key, i + 1);
    }
}

/// The value of the first setting named `key`.
pub fn find_settings_value(settings: &Vec<MethodSettingsEntry>, key: &str) -> (r: MethodSettingsValue)
    requires
        setting_index(settings@, key@) is Some,
    ensures
        r == settings@[setting_index(settings@, key@).unwrap()].value,
{
    let mut i: usize = 0;
    while i < settings.len()
        invariant
            i <= settings@.len(),
            setting_index(settings@, key@) == setting_index_from(settings@, key@, i as int),
            setting_index(settings@, key@) is Some,
        decreases settings@.len() - i,
    {
        if str_eq(settings[i].name.as_str(), key) {
            return settings[i].value;
        }
        i = i + 1;
    }
    proof {
        lemma_setting_index_from(settings@, key@, i as int);
    }
    settings[0].value
}

/// The number that the first setting named `key` holds, or 0 where it holds another
/// kind of value.
pub fn find_settings_int(settings: &Vec<MethodSettingsEntry>, key: &str) -> (r: u32)
    requires
        setting_index(settings@, key@) is Some,
    ensures
        match settings@[setting_index(settings@, key@).unwrap()].value {
            MethodSettingsValue::Int(n) => r == n,
            _ => r == 0,
        },
{
    match find_settings_value(settings, key) {
        MethodSettingsValue::Int(n) => n,
        _ => 0,
    }
}

/// The span of time that the first setting named `key` holds, or zero where it holds
/// another kind of value.
pub fn find_settings_duration(settings: &Vec<MethodSettingsEntry>, key: &str) -> (r: TimeSpan)
    requires
        setting_index(settings@, key@) is Some,
    ensures
        match settings@[setting_index(settings@, key@).unwrap()].value {
            MethodSettingsValue::Duration(d) => r == d,
            _ => r == (TimeSpan { secs: 0, nanos: 0 }),
        },
{
    match find_settings_value(settings, key) {
        MethodSettingsValue::Duration(d) => d,
        _ => TimeSpan { secs: 0, nanos: 0 },
    }
}

/// Submits `input` as the new value of the setting at `index` of `settings`: `Missing`
/// where there is no such setting, `Refused` where the setting does not take the input
/// (see `updated_value`), and `Accepted` where it does, the setting then holding the new
/// value; every other setting stays as it was.
pub fn apply_edit(settings: &mut Vec<MethodSettingsEntry>, index: usize, input: &str) -> (r: EditOutcome)
    ensures
        index >= old(settings)@.len() ==> r == EditOutcome::Missing && final(settings)@ == old(settings)@,
        index < old(settings)@.len() ==> match updated_value(old(settings)@[index as int].value, input@) {
            Ok(v) => r == EditOutcome::Accepted && final(settings)@.len() == old(settings)@.len()
                && final(settings)@[index as int].name@ == old(settings)@[index as int].name@
                && final(settings)@[index as int].hint@ == old(settings)@[index as int].hint@
                && final(settings)@[index as int].value == v
                && forall|j: int| 0 <= j < old(settings)@.len() && j != index ==> #[trigger] final(settings)@[j] == old(settings)@[j],
            Err(_) => r == EditOutcome::Refused && final(settings)@ == old(settings)@,
        },
{
    if index >= settings.len() {
        return EditOutcome::Missing;
    }
    match settings[index].update(input) {
        Ok(e) => {
            settings.set(index, e);
            EditOutcome::Accepted
        },
        Err(_) => EditOutcome::Refused,
    }
}

} // verus!
