use vault_tasks::frequency::Frequency;
use vault_tasks::parse_frequency::{parse_frequency, string_to_frequency};
use vault_tasks::token::ParseError;

fn parse_freq(input: &str) -> Result<Frequency, ParseError> {
    let mut input_str = input;
    parse_frequency(&mut input_str)
}

#[test]
fn test_every_with_numbers() {
    assert_eq!(parse_freq("every 5minutes").unwrap(), Frequency::EveryXMinutes(5));
    assert_eq!(parse_freq("Every 2hours").unwrap(), Frequency::EveryXHours(2));
    assert_eq!(parse_freq("every 3days").unwrap(), Frequency::EveryXDays(3));
    assert_eq!(parse_freq("every 4weeks").unwrap(), Frequency::EveryXWeeks(4));
    assert_eq!(parse_freq("every 6months").unwrap(), Frequency::EveryXMonths(6));
    assert_eq!(parse_freq("every 2years").unwrap(), Frequency::EveryXYears(2));
}

#[test]
fn test_every_without_numbers() {
    assert_eq!(parse_freq("every minute").unwrap(), Frequency::EveryXMinutes(1));
    assert_eq!(parse_freq("Every hour").unwrap(), Frequency::EveryXHours(1));
    assert_eq!(parse_freq("every day").unwrap(), Frequency::EveryXDays(1));
    assert_eq!(parse_freq("every week").unwrap(), Frequency::EveryXWeeks(1));
    assert_eq!(parse_freq("every month").unwrap(), Frequency::EveryXMonths(1));
    assert_eq!(parse_freq("every year").unwrap(), Frequency::EveryXYears(1));
}

#[test]
fn test_short_forms() {
    assert_eq!(parse_freq("every 24h").unwrap(), Frequency::EveryXHours(24));
    assert_eq!(parse_freq("every 7d").unwrap(), Frequency::EveryXDays(7));
    assert_eq!(parse_freq("every 2w").unwrap(), Frequency::EveryXWeeks(2));
    assert_eq!(parse_freq("every 12m").unwrap(), Frequency::EveryXMonths(12));
    assert_eq!(parse_freq("every 1y").unwrap(), Frequency::EveryXYears(1));
}

#[test]
fn test_singular_and_plural() {
    assert_eq!(parse_freq("every 1minute").unwrap(), Frequency::EveryXMinutes(1));
    assert_eq!(parse_freq("every 5minutes").unwrap(), Frequency::EveryXMinutes(5));
    assert_eq!(parse_freq("every 1hour").unwrap(), Frequency::EveryXHours(1));
    assert_eq!(parse_freq("every 3hours").unwrap(), Frequency::EveryXHours(3));
}

#[test]
fn test_case_sensitivity() {
    assert_eq!(parse_freq("Every 5minutes").unwrap(), Frequency::EveryXMinutes(5));
    assert_eq!(parse_freq("every 2hours").unwrap(), Frequency::EveryXHours(2));
}

#[test]
fn test_large_numbers() {
    assert_eq!(parse_freq("every 999minutes").unwrap(), Frequency::EveryXMinutes(999));
    assert_eq!(parse_freq("every 365days").unwrap(), Frequency::EveryXDays(365));
}

#[test]
fn test_invalid_inputs() {
    assert!(parse_freq("5minutes").is_err());
    assert!(parse_freq("minutes").is_err());
    assert!(parse_freq("every 5").is_err());
    assert!(parse_freq("Every").is_err());
    assert!(parse_freq("").is_err());
}

#[test]
fn test_string_to_frequency_helper() {
    assert_eq!(string_to_frequency(5, "minutes"), Frequency::EveryXMinutes(5));
    assert_eq!(string_to_frequency(1, "hour"), Frequency::EveryXHours(1));
    assert_eq!(string_to_frequency(3, "d"), Frequency::EveryXDays(3));
    assert_eq!(string_to_frequency(2, "w"), Frequency::EveryXWeeks(2));
    assert_eq!(string_to_frequency(6, "m"), Frequency::EveryXMonths(6));
    assert_eq!(string_to_frequency(1, "y"), Frequency::EveryXYears(1));
    assert_eq!(string_to_frequency(10, "unknown"), Frequency::EveryXYears(10));
}

#[test]
fn parse_frequency_leaves_the_rest() {
    let mut input = "every 2 days and more";
    assert_eq!(parse_frequency(&mut input), Ok(Frequency::EveryXDays(2)));
    assert_eq!(input, " and more");
    let mut bad = "each day";
    assert!(parse_frequency(&mut bad).is_err());
    assert_eq!(bad, "each day");
}

#[test]
fn parse_frequency_overflowing_count_is_refused() {
    assert!(parse_freq("every 99999999999999999999999 days").is_err());
    assert_eq!(parse_freq("every\tm").unwrap(), Frequency::EveryXMonths(1));
}
