use chrono::{Datelike, Timelike};
use vault_tasks::config::TasksConfig;
use vault_tasks::date::{Date, NaiveDate, NaiveDateTime, NaiveTime};
use vault_tasks::task::{State, Task};

fn day_of(d: chrono::NaiveDate) -> NaiveDate {
    NaiveDate::from_ymd_opt(d.year(), d.month(), d.day()).unwrap()
}

fn datetime_of(dt: chrono::NaiveDateTime) -> NaiveDateTime {
    let time = NaiveTime {
        hour: dt.hour(),
        minute: dt.minute(),
        second: dt.second(),
        nano: dt.nanosecond() % 1_000_000_000,
    };
    NaiveDateTime::new(day_of(dt.date()), time)
}

#[test]
fn task_test_fix_attributes() {
    let config = TasksConfig { use_american_format: true, ..Default::default() };
    let task = Task {
        due_date: Some(Date::Day(NaiveDate::from_ymd_opt(2021, 12, 3).unwrap())),
        name: String::from("Test Task"),
        priority: 1,
        state: State::ToDo,
        tags: Some(vec![String::from("tag1"), String::from("tag2")]),
        description: Some(String::from("This is a test task.")),
        line_number: Some(2),
        ..Default::default()
    };
    let res = task.get_fixed_attributes(&config, 0);
    assert_eq!(res, "- [ ] Test Task 2021/12/03 p1 #tag1 #tag2");
}

#[test]
fn task_test_fix_attributes_with_no_date() {
    let config = TasksConfig { ..Default::default() };
    let task = Task {
        due_date: None,
        name: String::from("Test Task with No Date"),
        priority: 2,
        state: State::Done,
        tags: Some(vec![String::from("tag3")]),
        description: None,
        line_number: Some(3),
        ..Default::default()
    };
    let res = task.get_fixed_attributes(&config, 0);
    assert_eq!(res, "- [x] Test Task with No Date p2 #tag3");
}

#[test]
fn task_test_fix_attributes_with_today_tag() {
    let config = TasksConfig { ..Default::default() };
    let task = Task {
        due_date: None,
        name: String::from("Test Task with Today tag"),
        priority: 2,
        state: State::Done,
        tags: Some(vec![String::from("tag3")]),
        description: None,
        line_number: Some(3),
        is_today: true,
        ..Default::default()
    };
    let res = task.get_fixed_attributes(&config, 0);
    assert_eq!(res, "- [x] Test Task with Today tag p2 #tag3 @today");
}

#[test]
fn fix_attributes_with_time_completion_and_indent() {
    let config = TasksConfig::default();
    let task = Task {
        due_date: Some(Date::DayTime(NaiveDateTime::new(
            NaiveDate::from_ymd_opt(2024, 2, 29).unwrap(),
            NaiveTime::from_hms_opt(8, 5, 0).unwrap(),
        ))),
        name: String::from("sub"),
        completion: Some(50),
        state: State::Canceled,
        ..Default::default()
    };
    let res = task.get_fixed_attributes(&config, 4);
    assert_eq!(res, "    - [-] sub 29/02/2024 08:05:00 c50");
}

#[test]
fn fix_attributes_of_an_empty_task() {
    let config = TasksConfig::default();
    let task = Task::default();
    assert_eq!(task.get_fixed_attributes(&config, 0), "- [ ]");
}

#[test]
fn fixed_line_reads_back_as_the_task() {
    let config = TasksConfig::default();
    let today = NaiveDate::from_ymd_opt(2024, 6, 12).unwrap();
    let task = Task {
        due_date: Some(Date::DayTime(NaiveDateTime::new(
            NaiveDate::from_ymd_opt(2025, 1, 9).unwrap(),
            NaiveTime::from_hms_opt(23, 59, 58).unwrap(),
        ))),
        name: String::from("water the plants"),
        priority: 4,
        completion: Some(10),
        state: State::Incomplete,
        tags: Some(vec![String::from("home"), String::from("green_2")]),
        is_today: true,
        filename: String::from("home.md"),
        ..Default::default()
    };
    let line = task.get_fixed_attributes(&config, 0);
    let back = vault_tasks::task_parser::parse_task_at(&line, task.filename.clone(), &config, today)
        .unwrap();
    assert_eq!(back, task);
}

#[test]
fn test_day_today() {
    let date = chrono::Local::now().naive_local().date();
    let due = Date::Day(day_of(date));
    assert_eq!(due.get_relative_str(), Some("today".to_string()));
}

#[test]
fn test_day_tomorrow() {
    let date = chrono::Local::now().naive_local().date() + chrono::Duration::days(1);
    let due = Date::Day(day_of(date));
    assert_eq!(due.get_relative_str(), Some("tomorrow".to_string()));
}

#[test]
fn test_day_yesterday() {
    let date = chrono::Local::now().naive_local().date() - chrono::Duration::days(1);
    let due = Date::Day(day_of(date));
    assert_eq!(due.get_relative_str(), Some("yesterday".to_string()));
}

#[test]
fn test_day_in_three_days() {
    let date = chrono::Local::now().naive_local().date() + chrono::Duration::days(3);
    let due = Date::Day(day_of(date));
    assert_eq!(due.get_relative_str(), Some("in 3 days".to_string()));
}

#[test]
fn test_day_two_weeks_ago() {
    let date = chrono::Local::now().naive_local().date() - chrono::Duration::weeks(2);
    let due = Date::Day(day_of(date));
    assert_eq!(due.get_relative_str(), Some("2 weeks ago".to_string()));
}

#[test]
fn test_day_in_two_months() {
    let date = chrono::Local::now().naive_local().date() + chrono::Duration::weeks(9);
    let due = Date::Day(day_of(date));
    assert_eq!(due.get_relative_str(), Some("in 2 months".to_string()));
}

#[test]
fn test_day_three_years_ago() {
    let date = chrono::Local::now().naive_local().date() - chrono::Duration::weeks(4 * 12 * 3);
    let due = Date::Day(day_of(date));
    assert_eq!(due.get_relative_str(), Some("3 years ago".to_string()));
}

#[test]
fn test_daytime_now() {
    let dt = chrono::Local::now().naive_local();
    let due = Date::DayTime(datetime_of(dt));
    assert_eq!(due.get_relative_str(), Some("today".to_string()));
}

#[test]
fn test_daytime_in_30_minutes() {
    let dt = chrono::Local::now().naive_local() + chrono::Duration::minutes(30);
    let due = Date::DayTime(datetime_of(dt));
    assert_eq!(due.get_relative_str(), Some("in 30 minutes".to_string()));
}

#[test]
fn test_daytime_three_hours_ago() {
    let dt = chrono::Local::now().naive_local() - chrono::Duration::hours(3);
    let due = Date::DayTime(datetime_of(dt));
    assert_eq!(due.get_relative_str(), Some("3 hours ago".to_string()));
}

#[test]
fn test_daytime_tomorrow_same_time() {
    let dt = chrono::Local::now().naive_local() + chrono::Duration::hours(24);
    let due = Date::DayTime(datetime_of(dt));
    assert_eq!(due.get_relative_str(), Some("tomorrow".to_string()));
}

#[test]
fn test_daytime_tomorrow_hours() {
    let dt = chrono::Local::now().naive_local() + chrono::Duration::hours(25);
    let due = Date::DayTime(datetime_of(dt));
    assert_eq!(due.get_relative_str(), Some("in 25 hours".to_string()));
}

#[test]
fn test_daytime_yesterday_same_time() {
    let dt = chrono::Local::now().naive_local() - chrono::Duration::hours(24);
    let due = Date::DayTime(datetime_of(dt));
    assert_eq!(due.get_relative_str(), Some("yesterday".to_string()));
}

#[test]
fn test_daytime_in_1_minute() {
    let dt = chrono::Local::now().naive_local() + chrono::Duration::minutes(1);
    let due = Date::DayTime(datetime_of(dt));
    assert_eq!(due.get_relative_str(), Some("in 1 minutes".to_string()));
}

#[test]
fn test_daytime_45_minutes_ago() {
    let dt = chrono::Local::now().naive_local() - chrono::Duration::minutes(45);
    let due = Date::DayTime(datetime_of(dt));
    assert_eq!(due.get_relative_str(), Some("45 minutes ago".to_string()));
}

#[test]
fn test_daytime_in_3_hours() {
    let dt = chrono::Local::now().naive_local() + chrono::Duration::hours(3);
    let due = Date::DayTime(datetime_of(dt));
    assert_eq!(due.get_relative_str(), Some("in 3 hours".to_string()));
}

#[test]
fn test_daytime_12_hours_ago() {
    let dt = chrono::Local::now().naive_local() - chrono::Duration::hours(12);
    let due = Date::DayTime(datetime_of(dt));
    assert_eq!(due.get_relative_str(), Some("12 hours ago".to_string()));
}

#[test]
fn test_daytime_in_1_day_exact() {
    let dt = chrono::Local::now().naive_local() + chrono::Duration::days(1);
    let due = Date::DayTime(datetime_of(dt));
    assert_eq!(due.get_relative_str(), Some("tomorrow".to_string()));
}

#[test]
fn test_daytime_exactly_yesterday() {
    let dt = chrono::Local::now().naive_local() - chrono::Duration::days(1);
    let due = Date::DayTime(datetime_of(dt));
    assert_eq!(due.get_relative_str(), Some("yesterday".to_string()));
}

#[test]
fn test_daytime_in_2_days() {
    let dt = chrono::Local::now().naive_local() + chrono::Duration::days(2);
    let due = Date::DayTime(datetime_of(dt));
    assert_eq!(due.get_relative_str(), Some("in 2 days".to_string()));
}

#[test]
fn test_daytime_10_days_ago() {
    let dt = chrono::Local::now().naive_local() - chrono::Duration::days(10);
    let due = Date::DayTime(datetime_of(dt));
    assert_eq!(due.get_relative_str(), Some("10 days ago".to_string()));
}

#[test]
fn test_daytime_in_3_weeks() {
    let dt = chrono::Local::now().naive_local() + chrono::Duration::weeks(3);
    let due = Date::DayTime(datetime_of(dt));
    assert_eq!(due.get_relative_str(), Some("in 3 weeks".to_string()));
}

#[test]
fn test_daytime_2_months_ago() {
    let dt = chrono::Local::now().naive_local() - chrono::Duration::weeks(9);
    let due = Date::DayTime(datetime_of(dt));
    assert_eq!(due.get_relative_str(), Some("2 months ago".to_string()));
}

#[test]
fn relative_str_at_a_fixed_moment() {
    let now = NaiveDateTime::new(
        NaiveDate::from_ymd_opt(2024, 3, 1).unwrap(),
        NaiveTime::from_hms_opt(12, 0, 0).unwrap(),
    );
    let due = Date::Day(NaiveDate::from_ymd_opt(2024, 2, 28).unwrap());
    assert_eq!(due.get_relative_str_at(now), Some("2 days ago".to_string()));
    let due = Date::Day(NaiveDate::from_ymd_opt(2024, 3, 1).unwrap());
    assert_eq!(due.get_relative_str_at(now), Some("today".to_string()));
    let due = Date::DayTime(NaiveDateTime::new(
        NaiveDate::from_ymd_opt(2024, 3, 1).unwrap(),
        NaiveTime::from_hms_opt(13, 30, 59).unwrap(),
    ));
    assert_eq!(due.get_relative_str_at(now), Some("in 90 minutes".to_string()));
}
