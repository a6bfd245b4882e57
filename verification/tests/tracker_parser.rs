use chrono::Datelike;
use vault_tasks::config::TasksConfig;
use vault_tasks::date::{Date, NaiveDate, NaiveDateTime, NaiveTime};
use vault_tasks::frequency::Frequency;
use vault_tasks::scan::{scan_entry, ScanEntry};
use vault_tasks::tracker::{NewTracker, NoteEntry, ScoreEntry, Tracker, TrackerCategory, TrackerEntry};
use vault_tasks::tracker_display::fix_tracker_content;
use vault_tasks::tracker_parser::{
    parse_header, parse_tracker_definition, parse_tracker_definition_at, trim_string,
};

#[test]
fn test_parse_tracker_with_date() {
    let mut input = "Tracker: my tracker name (today 15:30)";
    let config = TasksConfig::default();
    let result = parse_tracker_definition(&mut input, &config);
    assert!(result.is_ok());
    let tracker = result.unwrap();
    assert_eq!(tracker.name, "my tracker name");
    let now = chrono::Local::now().naive_local().date();
    let expected_date = Date::DayTime(NaiveDateTime::new(
        NaiveDate::from_ymd_opt(now.year(), now.month(), now.day()).unwrap(),
        NaiveTime::from_hms_opt(15, 30, 0).unwrap(),
    ));
    assert_eq!(tracker.start_date, expected_date);
}

#[test]
fn test_parse_tracker_with_date_only() {
    let mut input = "Tracker: date tracker (2024/12/25)";
    let config = TasksConfig { use_american_format: true, ..Default::default() };
    let result = parse_tracker_definition(&mut input, &config);
    assert!(result.is_ok());
    let tracker = result.unwrap();
    assert_eq!(tracker.name, "date tracker");
    let date = NaiveDate::from_ymd_opt(2024, 12, 25).unwrap();
    assert_eq!(tracker.start_date, Date::Day(date));
}

#[test]
fn tracker_definition_errors_leave_the_input() {
    let today = NaiveDate::from_ymd_opt(2024, 6, 12).unwrap();
    let config = TasksConfig::default();
    let mut input = "Tracker: no date here";
    assert!(parse_tracker_definition_at(&mut input, &config, today).is_err());
    assert_eq!(input, "Tracker: no date here");
    let mut input = "Tracker: unclosed (12/06";
    assert!(parse_tracker_definition_at(&mut input, &config, today).is_err());
    let mut input = "tracker: x (12/06)";
    assert!(parse_tracker_definition_at(&mut input, &config, today).is_err());
}

#[test]
fn tracker_definition_keeps_what_follows() {
    let today = NaiveDate::from_ymd_opt(2024, 6, 12).unwrap();
    let config = TasksConfig::default();
    let mut input = "Tracker:\tSleep   (tomorrow) rest";
    let t = parse_tracker_definition_at(&mut input, &config, today).unwrap();
    assert_eq!(t.name, "Sleep");
    assert_eq!(t.start_date, Date::Day(NaiveDate::from_ymd_opt(2024, 6, 13).unwrap()));
    assert_eq!(input, " rest");
}

#[test]
fn tracker_header_reads_frequency_and_categories() {
    let new = NewTracker::new(
        "Mood".to_string(),
        Date::Day(NaiveDate::from_ymd_opt(2024, 1, 1).unwrap()),
    );
    let mut input = "| Every 2 days | Mood | Sleep | Notes |";
    let t = parse_header(new, "t.md".to_string(), 4, &mut input).unwrap();
    assert_eq!(t.frequency, Frequency::EveryXDays(2));
    assert_eq!(t.name, "Mood");
    assert_eq!(t.filename, "t.md");
    assert_eq!(t.line_number, 4);
    assert_eq!(t.length, 0);
    // The spaces inside a category are left out, and the last category read is dropped.
    let names: Vec<&str> = t.categories.iter().map(|c| c.name.as_str()).collect();
    assert_eq!(names, vec!["Mood", "Sleep"]);
    assert_eq!(input, "|");
    assert_eq!(t.start_date, Date::Day(NaiveDate::from_ymd_opt(2024, 1, 1).unwrap()));
}

#[test]
fn tracker_header_inner_spaces() {
    let new = NewTracker::new("x".to_string(), Date::Day(NaiveDate::from_ymd_opt(2024, 1, 1).unwrap()));
    let mut input = "| every week | Cat A | Cat B | end";
    let t = parse_header(new, String::new(), 0, &mut input).unwrap();
    assert_eq!(t.frequency, Frequency::EveryXWeeks(1));
    let names: Vec<&str> = t.categories.iter().map(|c| c.name.as_str()).collect();
    assert_eq!(names, vec!["CatA", "CatB"]);
    assert_eq!(input, "");
}

#[test]
fn tracker_header_errors() {
    let new = NewTracker::new("x".to_string(), Date::Day(NaiveDate::from_ymd_opt(2024, 1, 1).unwrap()));
    let mut input = "Every day | a |";
    assert!(parse_header(new, String::new(), 0, &mut input).is_err());
    assert_eq!(input, "Every day | a |");
}

#[test]
fn trims_both_ends() {
    assert_eq!(trim_string(&"  a b \t".to_string()), "a b");
    assert_eq!(trim_string(&"   ".to_string()), "");
}

#[test]
fn scan_decisions() {
    assert_eq!(scan_entry(".hidden.md", false, false, false), ScanEntry::Skip);
    assert_eq!(scan_entry(".hidden.md", false, false, true), ScanEntry::MarkdownFile);
    assert_eq!(scan_entry("notes.MD", false, false, false), ScanEntry::MarkdownFile);
    assert_eq!(scan_entry("notes.txt", false, false, false), ScanEntry::Skip);
    assert_eq!(scan_entry("dir", true, false, false), ScanEntry::Folder);
    assert_eq!(scan_entry("dir", true, true, false), ScanEntry::Skip);
}

fn small_tracker() -> Tracker {
    Tracker {
        name: "Mood".to_string(),
        filename: "t.md".to_string(),
        line_number: 1,
        start_date: Date::Day(NaiveDate::from_ymd_opt(2024, 1, 1).unwrap()),
        length: 2,
        frequency: Frequency::EveryXDays(1),
        categories: vec![TrackerCategory {
            name: "Mood".to_string(),
            entries: vec![
                TrackerEntry::Score(ScoreEntry { score: 3 }),
                TrackerEntry::Note(NoteEntry { value: String::new() }),
            ],
        }],
    }
}

#[test]
fn tracker_written_as_a_markdown_table() {
    let t = small_tracker();
    let midnight = NaiveTime::from_hms_opt(0, 0, 0).unwrap();
    assert!(t.table_writable_exec(midnight));
    let text = t.fmt_at(false, midnight);
    assert_eq!(
        text,
        "Tracker: Mood (01/01/2024)\n\n| Every day  | Mood |\n|------------|------|\n| 01/01/2024 | 3    |\n| 02/01/2024 |      |"
    );
    let shown = t.to_string_at(midnight);
    assert!(shown.starts_with("Tracker: Mood (2024-01-01)\n\n"));
    assert!(shown.contains("| 2024-01-02 |"));
}

#[test]
fn tracker_table_needs_a_cell_per_row() {
    let mut t = small_tracker();
    t.length = 3;
    let midnight = NaiveTime::from_hms_opt(0, 0, 0).unwrap();
    assert!(!t.table_writable_exec(midnight));
    assert_eq!(t.fmt(false), None);
}

#[test]
fn tracker_text_over_the_file() {
    let content = "# Title\nTracker: old (01/01/2024)\n\n| a |\nafter";
    let res = fix_tracker_content(content, "Tracker: new (02/01/2024)\n\n| b |\n| c |\n| d |", 1);
    assert_eq!(res, "# Title\nTracker: new (02/01/2024)\n\n| b |\n| c |\n| d |");
    let res = fix_tracker_content("x", "a\nb", 0);
    assert_eq!(res, "a\nb");
}
