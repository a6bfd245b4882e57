use vault_tasks::calendar::{calendar_step, closest_task_index, CalendarAction, CalendarCommand, CalendarTabState};
use vault_tasks::date::{Date, NaiveDate, NaiveDateTime, NaiveTime};
use vault_tasks::task::Task;

fn day(year: i32, month: u32, day: u32) -> NaiveDate {
    NaiveDate { year, month, day }
}

fn task_due(due: Option<Date>) -> Task {
    Task { due_date: due, ..Default::default() }
}

#[test]
fn closest_task_by_day() {
    let tasks = vec![
        task_due(Some(Date::Day(day(2024, 1, 1)))),
        task_due(Some(Date::Day(day(2024, 1, 9)))),
        task_due(Some(Date::Day(day(2024, 1, 12)))),
    ];
    assert_eq!(closest_task_index(&tasks, day(2024, 1, 10)), 1);
    assert_eq!(closest_task_index(&tasks, day(2024, 1, 11)), 2);
    assert_eq!(closest_task_index(&tasks, day(2023, 6, 1)), 0);
}

#[test]
fn closest_task_first_of_equals() {
    let tasks = vec![
        task_due(None),
        task_due(Some(Date::Day(day(2024, 3, 4)))),
        task_due(Some(Date::Day(day(2024, 3, 6)))),
    ];
    assert_eq!(closest_task_index(&tasks, day(2024, 3, 5)), 1);
}

#[test]
fn closest_task_counts_time_of_day() {
    let noon = NaiveTime { hour: 12, minute: 0, second: 0, nano: 0 };
    let tasks = vec![
        task_due(Some(Date::Day(day(2024, 3, 4)))),
        task_due(Some(Date::DayTime(NaiveDateTime { date: day(2024, 3, 5), time: noon }))),
    ];
    assert_eq!(closest_task_index(&tasks, day(2024, 3, 5)), 1);
    assert_eq!(closest_task_index(&tasks, day(2024, 3, 4)), 0);
}

#[test]
fn closest_task_without_due_dates() {
    assert_eq!(closest_task_index(&vec![], day(2024, 3, 5)), 0);
    assert_eq!(closest_task_index(&vec![task_due(None), task_due(None)], day(2024, 3, 5)), 0);
}

fn focused(d: NaiveDate) -> CalendarTabState {
    CalendarTabState { is_focused: true, show_help: false, selected_date: d }
}

#[test]
fn calendar_moves_the_selected_day() {
    let s = focused(day(2024, 2, 28));
    assert_eq!(calendar_step(s, CalendarAction::Right), (focused(day(2024, 2, 29)), CalendarCommand::DateChanged));
    assert_eq!(calendar_step(s, CalendarAction::Left).0.selected_date, day(2024, 2, 27));
    assert_eq!(calendar_step(s, CalendarAction::Down).0.selected_date, day(2024, 3, 6));
    assert_eq!(calendar_step(s, CalendarAction::Up).0.selected_date, day(2024, 2, 21));
    // A month is the length of the month of the selected day: February 2024 has 29 days.
    assert_eq!(calendar_step(s, CalendarAction::NextMonth).0.selected_date, day(2024, 3, 28));
    assert_eq!(calendar_step(s, CalendarAction::PreviousMonth).0.selected_date, day(2024, 1, 30));
    // A year, forward or back, is the length of the year after the selected one.
    assert_eq!(calendar_step(focused(day(2023, 3, 1)), CalendarAction::NextYear).0.selected_date, day(2024, 3, 1));
    assert_eq!(calendar_step(focused(day(2023, 3, 1)), CalendarAction::PreviousYear).0.selected_date, day(2022, 2, 28));
}

#[test]
fn calendar_focus_help_and_other_actions() {
    let d = day(2024, 5, 1);
    let away = CalendarTabState { is_focused: false, show_help: false, selected_date: d };
    assert_eq!(calendar_step(away, CalendarAction::Right), (away, CalendarCommand::Nothing));
    assert_eq!(calendar_step(away, CalendarAction::ReloadVault), (away, CalendarCommand::Reload));
    assert_eq!(calendar_step(away, CalendarAction::Focus(true)).0, focused(d));
    let help = CalendarTabState { is_focused: true, show_help: true, selected_date: d };
    assert_eq!(calendar_step(help, CalendarAction::Up), (help, CalendarCommand::HelpUp));
    assert_eq!(calendar_step(help, CalendarAction::Escape), (focused(d), CalendarCommand::Nothing));
    assert_eq!(calendar_step(focused(d), CalendarAction::Help).0, help);
    assert_eq!(calendar_step(focused(d), CalendarAction::ViewDown), (focused(d), CalendarCommand::ScrollDown));
    assert_eq!(
        calendar_step(focused(d), CalendarAction::GotoToday(day(2025, 1, 2))),
        (focused(day(2025, 1, 2)), CalendarCommand::DateChanged)
    );
    assert_eq!(calendar_step(focused(d), CalendarAction::Focus(false)).0.is_focused, false);
}
