use vault_tasks::config::{get_config_dir, get_data_dir, PrettySymbolsConfig, TasksConfig};
use vault_tasks::date::{Date, NaiveDate, NaiveTime};
use vault_tasks::manager::TaskManager;
use vault_tasks::task::{State, Task};
use vault_tasks::tracker::{BoolEntry, ScoreEntry, TrackerEntry};
use vault_tasks::vault::VaultData;

#[test]
fn state_symbols() {
    let symbols = PrettySymbolsConfig::default();
    assert_eq!(State::Done.display(PrettySymbolsConfig::default()), symbols.task_done);
    assert_eq!(State::Canceled.display(PrettySymbolsConfig::default()), "🚫");
    assert_eq!(State::Incomplete.to_string(), "⏳");
}

#[test]
fn entries_pretty() {
    let symbols = PrettySymbolsConfig::default();
    assert_eq!(TrackerEntry::Bool(BoolEntry { value: true }).pretty_fmt(&symbols), "✅");
    assert_eq!(TrackerEntry::Bool(BoolEntry { value: false }).pretty_fmt(&symbols), "❌");
    assert_eq!(TrackerEntry::Score(ScoreEntry { score: 12 }).pretty_fmt(&symbols), "12");
    assert_eq!(TrackerEntry::Blank.pretty_fmt(&symbols), "");
}

#[test]
fn date_display_formats() {
    let d = NaiveDate::from_ymd_opt(2024, 3, 9).unwrap();
    let dt = d.and_time(NaiveTime::from_hms_opt(7, 8, 9).unwrap());
    assert_eq!(Date::Day(d).to_display_format("📅", true), "📅 09/03/2024");
    assert_eq!(Date::DayTime(dt).to_display_format("📅", false), "📅 2024/03/09 07:08:09");
    assert_eq!(Date::DayTime(dt).to_display_string(), "2024-03-09 07:08:09");
}

#[test]
fn completion_bar() {
    let task = Task { completion: Some(50), ..Default::default() };
    let bar = task.get_completion_bar(4, &(".".to_string(), "#".to_string()));
    assert_eq!(bar, Some("[##.. 50%] ".to_string()));
    assert_eq!(Task::default().get_completion_bar(4, &("#".to_string(), ".".to_string())), None);
}

#[test]
fn entries_without_children() {
    let mut task_mgr = TaskManager::default();
    task_mgr.tasks = VaultData::Directory(
        "v".to_string(),
        vec![VaultData::Header(
            0,
            "f.md".to_string(),
            vec![VaultData::Task(Task { name: "t".to_string(), ..Default::default() })],
        )],
    );
    let res = task_mgr.get_explorer_entries_without_children(&[]).unwrap();
    assert_eq!(res, vec![VaultData::Header(0, "f.md".to_string(), vec![])]);
}

#[test]
fn folders() {
    assert_eq!(get_data_dir(Some("/d".to_string()), Some("/p".to_string())), "/d");
    assert_eq!(get_data_dir(None, Some("/p".to_string())), "/p");
    assert_eq!(get_data_dir(None, None), "./.data");
    assert_eq!(get_config_dir(None, None), "./.config");
    let _ = TasksConfig::default();
}
