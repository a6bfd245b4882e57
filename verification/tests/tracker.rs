use vault_tasks::date::{Date, NaiveDate, NaiveTime};
use vault_tasks::frequency::Frequency;
use vault_tasks::tracker::{NoteEntry, ScoreEntry, Tracker, TrackerCategory, TrackerEntry};

fn day(y: i32, m: u32, d: u32) -> Date {
    Date::Day(NaiveDate::from_ymd_opt(y, m, d).unwrap())
}

fn note(s: &str) -> TrackerEntry {
    TrackerEntry::Note(NoteEntry { value: s.to_string() })
}

fn create_test_tracker() -> Tracker {
    Tracker {
        name: "Test Tracker".to_string(),
        filename: "test.md".to_string(),
        line_number: 1,
        start_date: day(2024, 1, 1),
        length: 0,
        frequency: Frequency::EveryXDays(1),
        categories: vec![
            TrackerCategory { name: "Category 1".to_string(), entries: vec![] },
            TrackerCategory { name: "Category 2".to_string(), entries: vec![] },
        ],
    }
}

#[test]
fn test_add_event_no_skipped_dates() {
    let mut tracker = create_test_tracker();
    let date = day(2024, 1, 1);
    let entries = vec![note("First entry"), note("Second entry")];

    tracker.add_event(&date, &entries);

    assert_eq!(tracker.length, 1);
    assert_eq!(tracker.categories[0].entries.len(), 1);
    assert_eq!(tracker.categories[1].entries.len(), 1);
    match &tracker.categories[0].entries[0] {
        TrackerEntry::Note(n) => assert_eq!(n.value, "First entry"),
        _ => panic!("Expected Note entry"),
    }
    match &tracker.categories[1].entries[0] {
        TrackerEntry::Note(n) => assert_eq!(n.value, "Second entry"),
        _ => panic!("Expected Note entry"),
    }
}

#[test]
fn test_add_event_skip_one_date_daily() {
    let mut tracker = create_test_tracker();
    tracker.add_event(&day(2024, 1, 1), &[note("Day 1"), note("Day 1 Cat 2")]);
    tracker.add_event(&day(2024, 1, 3), &[note("Day 3"), note("Day 3 Cat 2")]);

    assert_eq!(tracker.length, 3);
    assert_eq!(tracker.categories[0].entries.len(), 3);
    assert_eq!(tracker.categories[1].entries.len(), 3);
    match &tracker.categories[0].entries[0] {
        TrackerEntry::Note(n) => assert_eq!(n.value, "Day 1"),
        _ => panic!("Expected Note entry for Day 1"),
    }
    assert_eq!(tracker.categories[0].entries[1], TrackerEntry::Blank);
    assert_eq!(tracker.categories[1].entries[1], TrackerEntry::Blank);
    match &tracker.categories[0].entries[2] {
        TrackerEntry::Note(n) => assert_eq!(n.value, "Day 3"),
        _ => panic!("Expected Note entry for Day 3"),
    }
}

#[test]
fn test_add_event_skip_multiple_dates() {
    let mut tracker = create_test_tracker();
    tracker.add_event(&day(2024, 1, 1), &[note("Day 1"), note("Day 1 Cat 2")]);
    tracker.add_event(&day(2024, 1, 5), &[note("Day 5"), note("Day 5 Cat 2")]);

    assert_eq!(tracker.length, 5);
    assert_eq!(tracker.categories[0].entries.len(), 5);
    assert_eq!(tracker.categories[1].entries.len(), 5);
    match &tracker.categories[0].entries[0] {
        TrackerEntry::Note(n) => assert_eq!(n.value, "Day 1"),
        _ => panic!("Expected Note entry for Day 1"),
    }
    for i in 1..4 {
        assert_eq!(tracker.categories[0].entries[i], TrackerEntry::Blank);
        assert_eq!(tracker.categories[1].entries[i], TrackerEntry::Blank);
    }
    match &tracker.categories[0].entries[4] {
        TrackerEntry::Note(n) => assert_eq!(n.value, "Day 5"),
        _ => panic!("Expected Note entry for Day 5"),
    }
}

#[test]
fn test_add_event_weekly_frequency_skip_dates() {
    let mut tracker = Tracker {
        name: "Weekly Tracker".to_string(),
        filename: "test.md".to_string(),
        line_number: 1,
        start_date: day(2024, 1, 1),
        length: 0,
        frequency: Frequency::EveryXDays(7),
        categories: vec![TrackerCategory { name: "Weekly Cat".to_string(), entries: vec![] }],
    };
    tracker.add_event(&day(2024, 1, 1), &[note("Week 1")]);
    tracker.add_event(&day(2024, 1, 15), &[note("Week 3")]);

    assert_eq!(tracker.length, 3);
    assert_eq!(tracker.categories[0].entries.len(), 3);
    match &tracker.categories[0].entries[0] {
        TrackerEntry::Note(n) => assert_eq!(n.value, "Week 1"),
        _ => panic!("Expected Note entry for Week 1"),
    }
    assert_eq!(tracker.categories[0].entries[1], TrackerEntry::Blank);
    match &tracker.categories[0].entries[2] {
        TrackerEntry::Note(n) => assert_eq!(n.value, "Week 3"),
        _ => panic!("Expected Note entry for Week 3"),
    }
}

#[test]
fn test_add_event_skip_dates_with_multiple_categories() {
    let mut tracker = Tracker {
        name: "Multi Category Tracker".to_string(),
        filename: "test.md".to_string(),
        line_number: 1,
        start_date: day(2024, 1, 1),
        length: 0,
        frequency: Frequency::EveryXDays(1),
        categories: vec![
            TrackerCategory { name: "Cat A".to_string(), entries: vec![] },
            TrackerCategory { name: "Cat B".to_string(), entries: vec![] },
            TrackerCategory { name: "Cat C".to_string(), entries: vec![] },
        ],
    };
    tracker.add_event(&day(2024, 1, 1), &[note("A1"), note("B1"), note("C1")]);
    tracker.add_event(&day(2024, 1, 3), &[note("A3"), note("B3"), note("C3")]);

    for category in &tracker.categories {
        assert_eq!(category.entries.len(), 3);
        assert_eq!(category.entries[1], TrackerEntry::Blank);
    }
    match &tracker.categories[0].entries[0] {
        TrackerEntry::Note(n) => assert_eq!(n.value, "A1"),
        _ => panic!("Expected Note entry"),
    }
    match &tracker.categories[2].entries[2] {
        TrackerEntry::Note(n) => assert_eq!(n.value, "C3"),
        _ => panic!("Expected Note entry"),
    }
}

#[test]
fn test_add_event_sequential_no_skips() {
    let mut tracker = create_test_tracker();
    for d in 1..=5 {
        let date = day(2024, 1, d);
        let entries = vec![note(&format!("Day {d} Cat 1")), note(&format!("Day {d} Cat 2"))];
        tracker.add_event(&date, &entries);
    }
    assert_eq!(tracker.length, 5);
    assert_eq!(tracker.categories[0].entries.len(), 5);
    assert_eq!(tracker.categories[1].entries.len(), 5);
    for category in &tracker.categories {
        for entry in &category.entries {
            assert_ne!(*entry, TrackerEntry::Blank);
        }
    }
}

#[test]
fn test_add_event_skip_with_existing_entries() {
    let mut tracker = create_test_tracker();
    for d in 1..=3 {
        let date = day(2024, 1, d);
        let entries = vec![note(&format!("Day {d}")), note(&format!("Cat2 Day {d}"))];
        tracker.add_event(&date, &entries);
    }
    tracker.add_event(&day(2024, 1, 7), &[note("Day 7"), note("Cat2 Day 7")]);

    assert_eq!(tracker.length, 7);
    assert_eq!(tracker.categories[0].entries.len(), 7);
    for i in 0..3 {
        match &tracker.categories[0].entries[i] {
            TrackerEntry::Note(n) => assert_eq!(n.value, format!("Day {}", i + 1)),
            _ => panic!("Expected Note entry for day {}", i + 1),
        }
    }
    for i in 3..6 {
        assert_eq!(tracker.categories[0].entries[i], TrackerEntry::Blank);
        assert_eq!(tracker.categories[1].entries[i], TrackerEntry::Blank);
    }
    match &tracker.categories[0].entries[6] {
        TrackerEntry::Note(n) => assert_eq!(n.value, "Day 7"),
        _ => panic!("Expected Note entry for day 7"),
    }
}

#[test]
fn add_event_at_with_hours_uses_the_time_given() {
    let mut tracker = Tracker {
        name: "Hourly".to_string(),
        filename: "t.md".to_string(),
        line_number: 3,
        start_date: day(2024, 5, 1),
        length: 0,
        frequency: Frequency::EveryXHours(6),
        categories: vec![TrackerCategory { name: "Score".to_string(), entries: vec![] }],
    };
    let at = NaiveTime::from_hms_opt(0, 0, 0).unwrap();
    assert!(tracker.add_event_ok(&day(2024, 5, 1), at));
    tracker.add_event_at(&day(2024, 5, 1), &[TrackerEntry::Score(ScoreEntry { score: 3 })], at);
    assert_eq!(tracker.length, 1);
    assert_eq!(tracker.categories[0].entries, vec![TrackerEntry::Score(ScoreEntry { score: 3 })]);
}

#[test]
fn entries_display() {
    assert_eq!(TrackerEntry::Score(ScoreEntry { score: -4 }).to_string(), "-4");
    assert_eq!(note("hello").to_string(), "hello");
    assert_eq!(TrackerEntry::Blank.to_string(), "");
}

fn one_category(start: Date, entries: Vec<TrackerEntry>) -> Tracker {
    Tracker {
        name: "Blanks".to_string(),
        filename: "b.md".to_string(),
        line_number: 0,
        start_date: start,
        length: entries.len(),
        frequency: Frequency::EveryXDays(1),
        categories: vec![TrackerCategory { name: "c".to_string(), entries }],
    }
}

fn noon_of(y: i32, m: u32, d: u32, h: u32) -> vault_tasks::date::NaiveDateTime {
    NaiveDate::from_ymd_opt(y, m, d).unwrap().and_hms_opt(h, 0, 0).unwrap()
}

#[test]
fn add_blanks_up_to_now() {
    let t = one_category(day(2024, 1, 1), vec![]);
    let res = t.add_blanks_at(0, noon_of(2024, 1, 3, 12)).unwrap();
    assert_eq!(res.length, 3);
    assert_eq!(res.categories[0].entries, vec![TrackerEntry::Blank, TrackerEntry::Blank, TrackerEntry::Blank]);
}

#[test]
fn add_blanks_with_extra_rows_already_blank() {
    let t = one_category(day(2024, 1, 1), vec![]);
    let res = t.add_blanks_at(2, noon_of(2024, 1, 3, 12)).unwrap();
    assert_eq!(res.length, 5);
    assert_eq!(res.categories[0].entries.len(), 5);
}

#[test]
fn add_blanks_after_existing_entries() {
    let t = one_category(day(2024, 1, 1), vec![TrackerEntry::Score(ScoreEntry { score: 3 })]);
    let res = t.add_blanks_at(1, noon_of(2024, 1, 1, 8)).unwrap();
    assert_eq!(res.length, 2);
    assert_eq!(
        res.categories[0].entries,
        vec![TrackerEntry::Score(ScoreEntry { score: 3 }), TrackerEntry::Blank]
    );
}

#[test]
fn add_blanks_keeps_extra_rows_when_the_end_is_not_blank() {
    let t = one_category(day(2024, 1, 1), vec![note("a"), note("b")]);
    // No row is due before the target, and the last row is not blank: one blank row is
    // added so that one row at the end is blank.
    let res = t.add_blanks_at(1, noon_of(2024, 1, 1, 8)).unwrap();
    assert_eq!(res.length, 3);
    assert_eq!(res.categories[0].entries[2], TrackerEntry::Blank);
}

#[test]
fn add_blanks_with_a_zero_period_is_refused() {
    let mut t = one_category(day(2024, 1, 1), vec![]);
    t.frequency = Frequency::EveryXDays(0);
    assert_eq!(t.add_blanks_at(0, noon_of(2024, 1, 3, 12)), None);
}

#[test]
fn add_blanks_for_a_future_tracker() {
    let t = one_category(day(2999, 1, 1), vec![]);
    let config = vault_tasks::config::TasksConfig::default();
    let res = t.add_blanks(&config).unwrap();
    assert_eq!(res.length, 0);
}
