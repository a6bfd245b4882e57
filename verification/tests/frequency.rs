use vault_tasks::date::{Date, NaiveDate, NaiveDateTime};
use vault_tasks::frequency::Frequency;

fn datetime(year: i32, month: u32, day: u32, hour: u32, min: u32, sec: u32) -> NaiveDateTime {
    NaiveDate::from_ymd_opt(year, month, day).unwrap().and_hms_opt(hour, min, sec).unwrap()
}

fn date(year: i32, month: u32, day: u32) -> NaiveDate {
    NaiveDate::from_ymd_opt(year, month, day).unwrap()
}

#[test]
fn test_every_x_minutes() {
    let start_datetime = datetime(2024, 6, 15, 10, 30, 0);
    let start_date = Date::DayTime(start_datetime);

    // Test 1 minute
    let freq = Frequency::EveryXMinutes(1);
    let next = freq.next_date(&start_date).unwrap();
    assert_eq!(next, Date::DayTime(datetime(2024, 6, 15, 10, 31, 0)));

    // Test 15 minutes
    let freq = Frequency::EveryXMinutes(15);
    let next = freq.next_date(&start_date).unwrap();
    assert_eq!(next, Date::DayTime(datetime(2024, 6, 15, 10, 45, 0)));

    // Test 60 minutes (1 hour)
    let freq = Frequency::EveryXMinutes(60);
    let next = freq.next_date(&start_date).unwrap();
    assert_eq!(next, Date::DayTime(datetime(2024, 6, 15, 11, 30, 0)));

    // Test crossing day boundary
    let late_start = Date::DayTime(datetime(2024, 6, 15, 23, 45, 0));
    let freq = Frequency::EveryXMinutes(30);
    let next = freq.next_date(&late_start).unwrap();
    assert_eq!(next, Date::DayTime(datetime(2024, 6, 16, 0, 15, 0)));
}

#[test]
fn test_every_x_hours() {
    let start_datetime = datetime(2024, 6, 15, 10, 30, 0);
    let start_date = Date::DayTime(start_datetime);

    // Test 1 hour
    let freq = Frequency::EveryXHours(1);
    let next = freq.next_date(&start_date).unwrap();
    assert_eq!(next, Date::DayTime(datetime(2024, 6, 15, 11, 30, 0)));

    // Test 12 hours
    let freq = Frequency::EveryXHours(12);
    let next = freq.next_date(&start_date).unwrap();
    assert_eq!(next, Date::DayTime(datetime(2024, 6, 15, 22, 30, 0)));

    // Test 24 hours (1 day)
    let freq = Frequency::EveryXHours(24);
    let next = freq.next_date(&start_date).unwrap();
    assert_eq!(next, Date::DayTime(datetime(2024, 6, 16, 10, 30, 0)));

    // Test crossing day boundary
    let late_start = Date::DayTime(datetime(2024, 6, 15, 20, 0, 0));
    let freq = Frequency::EveryXHours(6);
    let next = freq.next_date(&late_start).unwrap();
    assert_eq!(next, Date::DayTime(datetime(2024, 6, 16, 2, 0, 0)));
}

#[test]
fn test_every_x_days() {
    let start_date = Date::Day(date(2024, 6, 15));

    // Test 1 day
    let freq = Frequency::EveryXDays(1);
    let next = freq.next_date(&start_date).unwrap();
    assert_eq!(next, Date::Day(date(2024, 6, 16)));

    // Test 7 days
    let freq = Frequency::EveryXDays(7);
    let next = freq.next_date(&start_date).unwrap();
    assert_eq!(next, Date::Day(date(2024, 6, 22)));

    // Test 30 days
    let freq = Frequency::EveryXDays(30);
    let next = freq.next_date(&start_date).unwrap();
    assert_eq!(next, Date::Day(date(2024, 7, 15)));

    // Test crossing year boundary
    let year_end = Date::Day(date(2024, 12, 25));
    let freq = Frequency::EveryXDays(10);
    let next = freq.next_date(&year_end).unwrap();
    assert_eq!(next, Date::Day(date(2025, 1, 4)));
}

#[test]
fn test_every_x_days_with_datetime() {
    // When given a DayTime with day frequency, it should convert to Day
    let start_datetime = Date::DayTime(datetime(2024, 6, 15, 14, 30, 0));
    let freq = Frequency::EveryXDays(3);
    let next = freq.next_date(&start_datetime).unwrap();
    assert_eq!(next, Date::Day(date(2024, 6, 18)));
}

#[test]
fn test_every_x_weeks() {
    let start_date = Date::Day(date(2024, 6, 15)); // Saturday

    // Test 1 week
    let freq = Frequency::EveryXWeeks(1);
    let next = freq.next_date(&start_date).unwrap();
    assert_eq!(next, Date::Day(date(2024, 6, 22)));

    // Test 2 weeks
    let freq = Frequency::EveryXWeeks(2);
    let next = freq.next_date(&start_date).unwrap();
    assert_eq!(next, Date::Day(date(2024, 6, 29)));

    // Test 4 weeks (about 1 month)
    let freq = Frequency::EveryXWeeks(4);
    let next = freq.next_date(&start_date).unwrap();
    assert_eq!(next, Date::Day(date(2024, 7, 13)));

    // Test crossing year boundary
    let year_end = Date::Day(date(2024, 12, 25));
    let freq = Frequency::EveryXWeeks(2);
    let next = freq.next_date(&year_end).unwrap();
    assert_eq!(next, Date::Day(date(2025, 1, 8)));
}

#[test]
fn test_every_x_months() {
    let start_date = Date::Day(date(2024, 6, 15));

    // Test 1 month
    let freq = Frequency::EveryXMonths(1);
    let next = freq.next_date(&start_date).unwrap();
    assert_eq!(next, Date::Day(date(2024, 7, 15)));

    // Test 3 months
    let freq = Frequency::EveryXMonths(3);
    let next = freq.next_date(&start_date).unwrap();
    assert_eq!(next, Date::Day(date(2024, 9, 15)));

    // Test 6 months
    let freq = Frequency::EveryXMonths(6);
    let next = freq.next_date(&start_date).unwrap();
    assert_eq!(next, Date::Day(date(2024, 12, 15)));

    // Test crossing year boundary
    let freq = Frequency::EveryXMonths(12);
    let next = freq.next_date(&start_date).unwrap();
    assert_eq!(next, Date::Day(date(2025, 6, 15)));

    // Test multiple year crossing
    let freq = Frequency::EveryXMonths(18);
    let next = freq.next_date(&start_date).unwrap();
    assert_eq!(next, Date::Day(date(2025, 12, 15)));
}

#[test]
fn test_every_x_months_day_overflow() {
    // Test day overflow for shorter months

    // January 31st + 1 month = February 28th (or 29th in leap year)
    let jan_31 = Date::Day(date(2024, 1, 31));
    let freq = Frequency::EveryXMonths(1);
    let next = freq.next_date(&jan_31).unwrap();
    assert_eq!(next, Date::Day(date(2024, 2, 29))); // 2024 is a leap year

    // January 31st, 2023 + 1 month = February 28th (non-leap year)
    let jan_31_2023 = Date::Day(date(2023, 1, 31));
    let next = freq.next_date(&jan_31_2023).unwrap();
    assert_eq!(next, Date::Day(date(2023, 2, 28))); // 2023 is not a leap year

    // March 31st + 1 month = April 30th
    let mar_31 = Date::Day(date(2024, 3, 31));
    let next = freq.next_date(&mar_31).unwrap();
    assert_eq!(next, Date::Day(date(2024, 4, 30)));

    // May 31st + 1 month = June 30th
    let may_31 = Date::Day(date(2024, 5, 31));
    let next = freq.next_date(&may_31).unwrap();
    assert_eq!(next, Date::Day(date(2024, 6, 30)));

    // Test with multiple months
    let jan_31 = Date::Day(date(2024, 1, 31));
    let freq = Frequency::EveryXMonths(2);
    let next = freq.next_date(&jan_31).unwrap();
    assert_eq!(next, Date::Day(date(2024, 3, 31))); // Jan + 2 months = March
}

#[test]
fn test_every_x_years() {
    let start_date = Date::Day(date(2024, 6, 15));

    // Test 1 year
    let freq = Frequency::EveryXYears(1);
    let next = freq.next_date(&start_date).unwrap();
    assert_eq!(next, Date::Day(date(2025, 6, 15)));

    // Test 5 years
    let freq = Frequency::EveryXYears(5);
    let next = freq.next_date(&start_date).unwrap();
    assert_eq!(next, Date::Day(date(2029, 6, 15)));

    // Test 10 years
    let freq = Frequency::EveryXYears(10);
    let next = freq.next_date(&start_date).unwrap();
    assert_eq!(next, Date::Day(date(2034, 6, 15)));
}

#[test]
fn test_every_x_years_leap_year_edge_case() {
    // Test leap year edge case: Feb 29 -> Feb 28 in non-leap year
    let leap_day = Date::Day(date(2024, 2, 29)); // 2024 is a leap year
    let freq = Frequency::EveryXYears(1);
    let next = freq.next_date(&leap_day).unwrap();
    assert_eq!(next, Date::Day(date(2025, 2, 28))); // 2025 is not a leap year

    // Test leap year to leap year
    let freq = Frequency::EveryXYears(4);
    let next = freq.next_date(&leap_day).unwrap();
    assert_eq!(next, Date::Day(date(2028, 2, 29))); // 2028 is a leap year

    // Test non-leap to leap year (should keep Feb 28)
    let feb_28 = Date::Day(date(2023, 2, 28));
    let freq = Frequency::EveryXYears(1);
    let next = freq.next_date(&feb_28).unwrap();
    assert_eq!(next, Date::Day(date(2024, 2, 28))); // Keeps Feb 28, doesn't become Feb 29
}

#[test]
fn test_frequency_display() {
    // Test Display implementation
    assert_eq!(Frequency::EveryXMinutes(1).to_string(), "Every minute");
    assert_eq!(
        Frequency::EveryXMinutes(5).to_string(),
        "Every 5 minutes"
    );

    assert_eq!(Frequency::EveryXHours(1).to_string(), "Every hour");
    assert_eq!(Frequency::EveryXHours(3).to_string(), "Every 3 hours");

    assert_eq!(Frequency::EveryXDays(1).to_string(), "Every day");
    assert_eq!(Frequency::EveryXDays(7).to_string(), "Every 7 days");

    assert_eq!(Frequency::EveryXWeeks(1).to_string(), "Every week");
    assert_eq!(Frequency::EveryXWeeks(2).to_string(), "Every 2 weeks");

    assert_eq!(Frequency::EveryXMonths(1).to_string(), "Every month");
    assert_eq!(Frequency::EveryXMonths(6).to_string(), "Every 6 months");

    assert_eq!(Frequency::EveryXYears(1).to_string(), "Every year");
    assert_eq!(Frequency::EveryXYears(5).to_string(), "Every 5 years");
}

#[test]
fn test_edge_cases_month_boundaries() {
    // Test various month boundary conditions

    // December + 1 month = January next year
    let dec_15 = Date::Day(date(2024, 12, 15));
    let freq = Frequency::EveryXMonths(1);
    let next = freq.next_date(&dec_15).unwrap();
    assert_eq!(next, Date::Day(date(2025, 1, 15)));

    // December + 2 months = February next year
    let freq = Frequency::EveryXMonths(2);
    let next = freq.next_date(&dec_15).unwrap();
    assert_eq!(next, Date::Day(date(2025, 2, 15)));

    // Test month overflow with multiple years
    let freq = Frequency::EveryXMonths(25); // 2 years + 1 month
    let next = freq.next_date(&dec_15).unwrap();
    assert_eq!(next, Date::Day(date(2027, 1, 15)));
}

#[test]
fn test_type_conversion_consistency() {
    // Test that type conversion works consistently

    // DayTime with day-based frequency should convert to Day
    let datetime_input = Date::DayTime(datetime(2024, 6, 15, 14, 30, 45));

    let day_freq = Frequency::EveryXDays(1);
    let next = day_freq.next_date(&datetime_input).unwrap();
    assert_eq!(next, Date::Day(date(2024, 6, 16)));

    let week_freq = Frequency::EveryXWeeks(1);
    let next = week_freq.next_date(&datetime_input).unwrap();
    assert_eq!(next, Date::Day(date(2024, 6, 22)));

    let month_freq = Frequency::EveryXMonths(1);
    let next = month_freq.next_date(&datetime_input).unwrap();
    assert_eq!(next, Date::Day(date(2024, 7, 15)));

    let year_freq = Frequency::EveryXYears(1);
    let next = year_freq.next_date(&datetime_input).unwrap();
    assert_eq!(next, Date::Day(date(2025, 6, 15)));
}

#[test]
fn test_large_values() {
    // Test with larger frequency values
    let start_date = Date::Day(date(2024, 6, 15));

    // 100 days
    let freq = Frequency::EveryXDays(100);
    let next = freq.next_date(&start_date).unwrap();
    assert_eq!(next, Date::Day(date(2024, 9, 23)));

    // 50 weeks (almost a year)
    let freq = Frequency::EveryXWeeks(50);
    let next = freq.next_date(&start_date).unwrap();
    assert_eq!(next, Date::Day(date(2025, 5, 31)));

    // 24 months (2 years)
    let freq = Frequency::EveryXMonths(24);
    let next = freq.next_date(&start_date).unwrap();
    assert_eq!(next, Date::Day(date(2026, 6, 15)));
}

#[test]
fn test_minimum_values() {
    // Test with minimum non-zero values
    let start_date = Date::Day(date(2024, 6, 15));
    let start_datetime = Date::DayTime(datetime(2024, 6, 15, 12, 0, 0));

    // 1 of each unit
    let freq = Frequency::EveryXDays(1);
    let next = freq.next_date(&start_date).unwrap();
    assert_eq!(next, Date::Day(date(2024, 6, 16)));

    let freq = Frequency::EveryXMinutes(1);
    let next = freq.next_date(&start_datetime).unwrap();
    assert_eq!(next, Date::DayTime(datetime(2024, 6, 15, 12, 1, 0)));

    let freq = Frequency::EveryXHours(1);
    let next = freq.next_date(&start_datetime).unwrap();
    assert_eq!(next, Date::DayTime(datetime(2024, 6, 15, 13, 0, 0)));
}
