use chrono::Timelike;
use vault_tasks::date::NaiveTime;
use vault_tasks::task::State;
use vault_tasks::task_parser::parse_task_state;
use vault_tasks::token::{
    parse_completion, parse_naive_time, parse_priority, parse_tag, parse_today, Token,
};

#[test]
fn test_parse_today_tag() {
    let mut with_today = "@t";
    assert_eq!(parse_today(&mut with_today), Ok(Token::TodayFlag));
    let mut with_today = "@today";
    assert_eq!(parse_today(&mut with_today), Ok(Token::TodayFlag));
    let mut with_today = "@tdy";
    assert_eq!(parse_today(&mut with_today), Ok(Token::TodayFlag));
}

#[test]
fn test_parse_today_tag_fail() {
    let mut should_fail = "today";
    assert!(parse_today(&mut should_fail).is_err());
}

#[test]
fn test_parse_priority_sucess() {
    let mut with_tag = "p5";
    assert_eq!(parse_priority(&mut with_tag), Ok(Token::Priority(5)));
}

#[test]
fn test_parse_priority_fail() {
    let mut without_tag = "test";
    assert!(parse_priority(&mut without_tag).is_err());
}

#[test]
fn test_parse_completion_success() {
    let mut with_tag = "c99";
    assert_eq!(parse_completion(&mut with_tag), Ok(Token::CompletionPercentage(99)));
}

#[test]
fn test_parse_completion_fail() {
    let mut without_tag = "test";
    assert!(parse_completion(&mut without_tag).is_err());
}

#[test]
fn parser_tags_test_parse_tag_sucess() {
    let mut with_tag = "#test";
    assert_eq!(parse_tag(&mut with_tag), Ok(Token::Tag("test".to_string())));
}

#[test]
fn test_parse_tag_symbols() {
    let mut with_tag = "#test_underscore123";
    assert_eq!(parse_tag(&mut with_tag), Ok(Token::Tag("test_underscore123".to_string())));
}

#[test]
fn parser_tags_test_parse_tag_fail() {
    let mut without_tag = "test";
    assert!(parse_tag(&mut without_tag).is_err());
}

#[test]
fn test_parse_wrong_naive_time() {
    let input = "24:50".to_string();
    assert!(parse_naive_time(&mut input.as_str()).is_err());
    let input = "22:90".to_string();
    assert!(parse_naive_time(&mut input.as_str()).is_err());
    let input = "23:50:61".to_string();
    assert!(parse_naive_time(&mut input.as_str()).is_err());
}

#[test]
fn parser_time_test_parse_naive_time() {
    let now = chrono::Local::now().time();
    let (h, m, s) = (now.hour(), now.minute(), now.second());

    let input = format!("{h}:{m}:{s}");
    let expected = NaiveTime::from_hms_opt(h, m, s).unwrap();
    assert_eq!(parse_naive_time(&mut input.as_str()), Ok(Token::DueTime(expected)));

    let input = format!("{h}:{m}");
    let expected = NaiveTime::from_hms_opt(h, m, 0).unwrap();
    assert_eq!(parse_naive_time(&mut input.as_str()), Ok(Token::DueTime(expected)));
}

#[test]
fn test_parse_task_state_todo() {
    let mut input = "- [ ]";
    let expected = Ok(Token::State(State::ToDo));
    assert_eq!(parse_task_state(&mut input), expected);
}

#[test]
fn test_parse_task_state_done() {
    let mut input = "- [X]";
    let expected = Ok(Token::State(State::Done));
    assert_eq!(parse_task_state(&mut input), expected);
}

#[test]
fn test_parse_task_state_done_alt() {
    let mut input = "- [o]";
    let expected = Ok(Token::State(State::Done));
    assert_eq!(parse_task_state(&mut input), expected);
}

#[test]
fn test_parse_task_state_fail() {
    let mut input = "- o]";
    assert!(parse_task_state(&mut input).is_err());
}

#[test]
fn parsers_leave_the_rest_of_the_input() {
    let mut input = "#tag rest";
    assert_eq!(parse_tag(&mut input), Ok(Token::Tag("tag".to_string())));
    assert_eq!(input, " rest");
    let mut input = "p12x";
    assert_eq!(parse_priority(&mut input), Ok(Token::Priority(12)));
    assert_eq!(input, "x");
    let mut input = "nope";
    assert!(parse_priority(&mut input).is_err());
    assert_eq!(input, "nope");
    let mut input = "- [/] after";
    assert_eq!(parse_task_state(&mut input), Ok(Token::State(State::Incomplete)));
    assert_eq!(input, " after");
    let mut input = "- [-]";
    assert_eq!(parse_task_state(&mut input), Ok(Token::State(State::Canceled)));
}

#[test]
fn time_with_seconds_and_leading_zeros() {
    let mut input = "07:05:09";
    let expected = NaiveTime::from_hms_opt(7, 5, 9).unwrap();
    assert_eq!(parse_naive_time(&mut input), Ok(Token::DueTime(expected)));
    assert_eq!(input, "");
}
