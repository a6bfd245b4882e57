use chrono::Datelike;
use vault_tasks::config::TasksConfig;
use vault_tasks::date::{Date, NaiveDate, NaiveDateTime, NaiveTime};
use vault_tasks::task::State;
use vault_tasks::task_parser::{parse_task, parse_task_at};

fn local_today() -> NaiveDate {
    let d = chrono::Local::now().date_naive();
    NaiveDate::from_ymd_opt(d.year(), d.month(), d.day()).unwrap()
}

fn american() -> TasksConfig {
    TasksConfig { use_american_format: true, ..Default::default() }
}

#[test]
fn test_parse_task_no_description() {
    let input = "- [x] 10/15 task_name #done";
    let config = american();
    let res = parse_task(input, String::new(), &config);
    assert!(res.is_ok());
    let res = res.unwrap();
    let year = chrono::Local::now().year();
    assert_eq!(res.name, "task_name");
    assert_eq!(res.description, None);
    assert_eq!(res.tags, Some(vec!["done".to_string()]));
    assert_eq!(res.due_date, Some(Date::Day(NaiveDate::from_ymd_opt(year, 10, 15).unwrap())));
    assert_eq!(res.priority, 0);
    assert_eq!(res.state, State::Done);
}

#[test]
fn test_parse_task_with_due_date_words() {
    let input = "- [ ] today 15:30 task_name";
    let config = american();
    let res = parse_task(input, String::new(), &config);
    assert!(res.is_ok());
    let res = res.unwrap();
    let expected_date = local_today();
    let expected_time = NaiveTime::from_hms_opt(15, 30, 0).unwrap();
    let expected_due_date = Date::DayTime(NaiveDateTime::new(expected_date, expected_time));
    assert_eq!(res.due_date, Some(expected_due_date));
}

#[test]
fn test_parse_task_with_weekday() {
    let input = "- [ ] monday 15:30 task_name";
    let config = american();
    let res = parse_task(input, String::new(), &config);
    assert!(res.is_ok());
    let res = res.unwrap();
    let now = chrono::Local::now().date_naive();
    let d = now
        .checked_add_days(chrono::Days::new(8 - now.weekday().number_from_monday() as u64))
        .unwrap();
    let expected_date = NaiveDate::from_ymd_opt(d.year(), d.month(), d.day()).unwrap();
    let expected_time = NaiveTime::from_hms_opt(15, 30, 0).unwrap();
    let expected_due_date = Date::DayTime(NaiveDateTime::new(expected_date, expected_time));
    assert_eq!(res.due_date, Some(expected_due_date));
}

#[test]
fn test_parse_task_with_invalid_state() {
    let input = "- [invalid] task_name";
    let config = american();
    let res = parse_task(input, String::new(), &config);
    assert!(res.is_err());
}

#[test]
fn test_parse_task_without_state() {
    let input = "task_name";
    let config = american();
    let res = parse_task(input, String::new(), &config);
    assert!(res.is_err());
}

#[test]
fn test_parse_task_with_invalid_priority() {
    let input = "- [ ] task_name p-9";
    let config = american();
    let res = parse_task(input, String::new(), &config);
    assert!(res.is_ok());
    let res = res.unwrap();
    assert_eq!(res.priority, 0);
}

#[test]
fn parse_task_reads_every_kind_of_word() {
    let today = NaiveDate::from_ymd_opt(2024, 6, 12).unwrap();
    let config = TasksConfig::default();
    let t = parse_task_at(
        "- [/] write report 03/07/2024 p3 c40 #work #q3 @today 9:05",
        "notes.md".to_string(),
        &config,
        today,
    )
    .unwrap();
    assert_eq!(t.name, "write report");
    assert_eq!(t.state, State::Incomplete);
    assert_eq!(t.priority, 3);
    assert_eq!(t.completion, Some(40));
    assert_eq!(t.tags, Some(vec!["work".to_string(), "q3".to_string()]));
    assert!(t.is_today);
    assert_eq!(t.filename, "notes.md");
    assert_eq!(t.line_number, Some(1));
    assert_eq!(
        t.due_date,
        Some(Date::DayTime(NaiveDateTime::new(
            NaiveDate::from_ymd_opt(2024, 7, 3).unwrap(),
            NaiveTime::from_hms_opt(9, 5, 0).unwrap()
        )))
    );
}

#[test]
fn parse_task_time_alone_is_today() {
    let today = NaiveDate::from_ymd_opt(2024, 6, 12).unwrap();
    let config = TasksConfig::default();
    let t = parse_task_at("- [ ] call 18:00", String::new(), &config, today).unwrap();
    assert_eq!(
        t.due_date,
        Some(Date::DayTime(NaiveDateTime::new(today, NaiveTime::from_hms_opt(18, 0, 0).unwrap())))
    );
    assert_eq!(t.name, "call");
}

#[test]
fn parse_task_relative_dates() {
    // 2024-06-12 is a Wednesday.
    let today = NaiveDate::from_ymd_opt(2024, 6, 12).unwrap();
    let config = TasksConfig::default();
    let t = parse_task_at("- [ ] a tomorrow", String::new(), &config, today).unwrap();
    assert_eq!(t.due_date, Some(Date::Day(NaiveDate::from_ymd_opt(2024, 6, 13).unwrap())));
    let t = parse_task_at("- [ ] a wednesday", String::new(), &config, today).unwrap();
    assert_eq!(t.due_date, Some(Date::Day(NaiveDate::from_ymd_opt(2024, 6, 19).unwrap())));
    let t = parse_task_at("- [ ] a friday", String::new(), &config, today).unwrap();
    assert_eq!(t.due_date, Some(Date::Day(NaiveDate::from_ymd_opt(2024, 6, 14).unwrap())));
    let t = parse_task_at("- [ ] a 31/12", String::new(), &config, today).unwrap();
    assert_eq!(t.due_date, Some(Date::Day(NaiveDate::from_ymd_opt(2024, 12, 31).unwrap())));
}

#[test]
fn parse_task_without_words() {
    let today = NaiveDate::from_ymd_opt(2024, 6, 12).unwrap();
    let config = TasksConfig::default();
    let t = parse_task_at("- [x]", String::new(), &config, today).unwrap();
    assert_eq!(t.name, "");
    assert_eq!(t.state, State::Done);
    assert_eq!(t.due_date, None);
    assert_eq!(t.tags, None);
}

#[test]
fn parse_task_invalid_date_is_a_name_word() {
    let today = NaiveDate::from_ymd_opt(2024, 6, 12).unwrap();
    let config = TasksConfig::default();
    let t = parse_task_at("- [ ] pay 10/15", String::new(), &config, today).unwrap();
    assert_eq!(t.due_date, None);
    assert_eq!(t.name, "pay 10/15");
}
