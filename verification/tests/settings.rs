use vault_tasks::settings::{
    apply_edit, find_settings_duration, find_settings_int, find_settings_value, MethodSettingsEntry, MethodSettingsValue,
    MethodsAvailable, SettingError,
};
use vault_tasks::timer::{TimeSpan, TimerWidget};

fn span(secs: u64) -> TimeSpan {
    TimeSpan { secs, nanos: 0 }
}

fn entry(value: MethodSettingsValue) -> MethodSettingsEntry {
    MethodSettingsEntry { name: "Focus Time".to_string(), value, hint: "How long to focus".to_string() }
}

#[test]
fn methods_names_and_positions() {
    assert_eq!(MethodsAvailable::default(), MethodsAvailable::Pomodoro);
    assert_eq!(MethodsAvailable::Pomodoro.to_string(), "Pomodoro");
    assert_eq!(MethodsAvailable::FlowTime.to_string(), "Flowtime");
    assert_eq!(MethodsAvailable::from_repr(0), Some(MethodsAvailable::Pomodoro));
    assert_eq!(MethodsAvailable::from_repr(1), Some(MethodsAvailable::FlowTime));
    assert_eq!(MethodsAvailable::from_repr(2), None);
    assert_eq!(MethodsAvailable::all(), vec![MethodsAvailable::Pomodoro, MethodsAvailable::FlowTime]);
}

#[test]
fn time_delta_minutes_and_seconds() {
    assert_eq!(TimerWidget::format_time_delta(0), "00:00");
    assert_eq!(TimerWidget::format_time_delta(59), "00:59");
    assert_eq!(TimerWidget::format_time_delta(61), "01:01");
    assert_eq!(TimerWidget::format_time_delta(1500), "25:00");
    assert_eq!(TimerWidget::format_time_delta(3599), "59:59");
}

#[test]
fn time_delta_hours_stand_before_minutes() {
    assert_eq!(TimerWidget::format_time_delta(3600), "0100:00");
    assert_eq!(TimerWidget::format_time_delta(5100), "0125:00");
    assert_eq!(TimerWidget::format_time_delta(100 * 3600 + 61), "10001:01");
}

#[test]
fn time_delta_past_time() {
    assert_eq!(TimerWidget::format_time_delta(-5), "00:-5");
    assert_eq!(TimerWidget::format_time_delta(-65), "-1:-5");
    assert_eq!(TimerWidget::format_time_delta(-3600), "00:00");
    assert_eq!(TimerWidget::format_time_delta(-3661), "-1:-1");
    assert_eq!(TimerWidget::format_time_delta(i64::MIN), format!("{:02}:{:02}", (i64::MIN / 60) % 60, i64::MIN % 60));
}

#[test]
fn setting_values_as_text() {
    assert_eq!(MethodSettingsValue::Duration(span(1500)).to_string(), "25:00");
    assert_eq!(MethodSettingsValue::Duration(TimeSpan { secs: 300, nanos: 999 }).to_string(), "05:00");
    assert_eq!(MethodSettingsValue::Duration(span(u64::MAX)).to_string(), "00:00");
    assert_eq!(MethodSettingsValue::Int(4).to_string(), "4");
    assert_eq!(MethodSettingsValue::Bool(true).to_string(), "true");
    assert_eq!(MethodSettingsValue::Bool(false).to_string(), "false");
}

#[test]
fn update_duration_settings() {
    let e = entry(MethodSettingsValue::Duration(span(60)));
    let up = e.update("25:00").unwrap();
    assert_eq!(up.value, MethodSettingsValue::Duration(span(1500)));
    assert_eq!(up.name, e.name);
    assert_eq!(up.hint, e.hint);
    assert_eq!(e.update("1:30:00").unwrap().value, MethodSettingsValue::Duration(span(5400)));
    assert_eq!(e.update("5:00").unwrap().value, MethodSettingsValue::Duration(span(300)));
    assert_eq!(e.update("23:59:60").unwrap().value, MethodSettingsValue::Duration(span(86400)));
    assert_eq!(e.update("bad"), Err(SettingError::InvalidTime));
    assert_eq!(e.update("24:00:00"), Err(SettingError::InvalidTime));
}

#[test]
fn update_number_settings() {
    let e = entry(MethodSettingsValue::Int(3));
    assert_eq!(e.update("12").unwrap().value, MethodSettingsValue::Int(12));
    assert_eq!(e.update("+7").unwrap().value, MethodSettingsValue::Int(7));
    assert_eq!(e.update("4294967295").unwrap().value, MethodSettingsValue::Int(u32::MAX));
    assert_eq!(e.update("4294967296"), Err(SettingError::InvalidNumber));
    assert_eq!(e.update("-1"), Err(SettingError::InvalidNumber));
    assert_eq!(e.update(" 1"), Err(SettingError::InvalidNumber));
    assert_eq!(e.update(""), Err(SettingError::InvalidNumber));
}

#[test]
fn update_flag_settings() {
    let e = entry(MethodSettingsValue::Bool(false));
    assert_eq!(e.update("TRUE").unwrap().value, MethodSettingsValue::Bool(true));
    assert_eq!(e.update("true").unwrap().value, MethodSettingsValue::Bool(true));
    assert_eq!(e.update("yes").unwrap().value, MethodSettingsValue::Bool(false));
}

fn named(name: &str, value: MethodSettingsValue) -> MethodSettingsEntry {
    MethodSettingsEntry { name: name.to_string(), value, hint: String::new() }
}

#[test]
fn find_settings_by_name() {
    let settings = vec![
        named("Focus Time", MethodSettingsValue::Duration(span(1500))),
        named("Long Break Interval", MethodSettingsValue::Int(3)),
        named("Focus Time", MethodSettingsValue::Duration(span(60))),
        named("Auto Skip", MethodSettingsValue::Bool(true)),
    ];
    assert_eq!(find_settings_value(&settings, "Auto Skip"), MethodSettingsValue::Bool(true));
    assert_eq!(find_settings_duration(&settings, "Focus Time"), span(1500));
    assert_eq!(find_settings_int(&settings, "Long Break Interval"), 3);
    assert_eq!(find_settings_int(&settings, "Focus Time"), 0);
    assert_eq!(find_settings_duration(&settings, "Long Break Interval"), span(0));
}

#[test]
fn apply_edit_replaces_one_setting() {
    let mut settings = vec![
        named("Focus Time", MethodSettingsValue::Duration(span(1500))),
        named("Long Break Interval", MethodSettingsValue::Int(3)),
    ];
    assert_eq!(apply_edit(&mut settings, 1, "5"), vault_tasks::engine::EditOutcome::Accepted);
    assert_eq!(settings[1].value, MethodSettingsValue::Int(5));
    assert_eq!(settings[1].name, "Long Break Interval");
    assert_eq!(settings[0].value, MethodSettingsValue::Duration(span(1500)));
    assert_eq!(apply_edit(&mut settings, 0, "soon"), vault_tasks::engine::EditOutcome::Refused);
    assert_eq!(settings[0].value, MethodSettingsValue::Duration(span(1500)));
    assert_eq!(apply_edit(&mut settings, 2, "1"), vault_tasks::engine::EditOutcome::Missing);
}
