//! The task that the calendar and the timeline preview for a selected day: the one
//! whose due date lies closest to it.
use vstd::prelude::*;
use crate::date::{add_days, day_number, days_in_month, days_in_month_exec, days_since, is_leap_year, is_leap_year_exec, max_day_number, min_day_number, Date, NaiveDate, NANOS_PER_DAY};
use crate::task::Task;
use crate::timer::nanos_of;

verus! {

/// The absolute value of `x`.
pub open spec fn abs(x: int) -> int {
    if x < 0 {
        -x
    } else {
        x
    }
}

/// How far the due date `due` lies from the start of the day `selected`, in
/// nanoseconds, as `signed_duration_since(..).abs()` of `chrono` measures it (a whole
/// day from its midnight); `None` for no due date.
pub open spec fn due_distance(due: Option<Date>, selected: NaiveDate) -> Option<int> {
    match due {
        Some(d) => Some(abs(selected.days() * NANOS_PER_DAY - d.instant())),
        None => None,
    }
}

/// Whether a distance `a` is at most the distance `b`, no due date counting as
/// farther than any due date.
pub open spec fn no_farther(a: Option<int>, b: Option<int>) -> bool {
    match (a, b) {
        (Some(x), Some(y)) => x <= y,
        (Some(_), None) => true,
        (None, None) => true,
        (None, Some(_)) => false,
    }
}

/// Whether `i` is the first position of `tasks` whose due date lies closest to
/// `selected`: it has a due date, every task before it lies strictly farther, and no
/// task after it lies closer.
pub open spec fn is_closest(tasks: Seq<Task>, selected: NaiveDate, i: int) -> bool {
    &&& 0 <= i < tasks.len()
    &&& due_distance(tasks[i].due_date, selected) is Some
    &&& forall|j: int|
        0 <= j < i ==> !no_farther(
            #[trigger] due_distance(tasks[j].due_date, selected),
            due_distance(tasks[i].due_date, selected),
        )
    &&& forall|j: int|
        i < j < tasks.len() ==> no_farther(
            due_distance(tasks[i].due_date, selected),
            #[trigger] due_distance(tasks[j].due_date, selected),
        )
}

/// Whether the due date, if any, is a valid date.
pub open spec fn valid_due(due: Option<Date>) -> bool {
    due matches Some(d) ==> d.valid()
}

/// How far `due` lies from the start of `selected`; see `due_distance`.
fn due_distance_of(due: &Option<Date>, selected: NaiveDate) -> (r: Option<i128>)
    requires
        selected.valid(),
        valid_due(*due),
    ensures
        match due_distance(*due, selected) {
            Some(x) => r == Some(x as i128),
            None => r is None,
        },
{
    match due {
        Some(Date::Day(d)) => {
            let k = days_since(selected, *d) as i128;
            let x = k * 86_400_000_000_000;
            Some(if x < 0 { -x } else { x })
        },
        Some(Date::DayTime(dt)) => {
            let k = days_since(selected, dt.date) as i128;
            let x = k * 86_400_000_000_000 - nanos_of(dt.time);
            Some(if x < 0 { -x } else { x })
        },
        None => None,
    }
}

/// The position of the first task whose due date lies closest to the day `selected`
/// (see `is_closest`), or 0 when no task has a due date.
pub fn closest_task_index(tasks: &Vec<Task>, selected: NaiveDate) -> (r: usize)
    requires
        selected.valid(),
        forall|i: int| 0 <= i < tasks@.len() ==> valid_due(#[trigger] tasks@[i].due_date),
    ensures
        (exists|i: int| 0 <= i < tasks@.len() && due_distance(tasks@[i].due_date, selected) is Some)
            ==> is_closest(tasks@, selected, r as int),
        (forall|i: int| 0 <= i < tasks@.len() ==> due_distance(tasks@[i].due_date, selected) is None)
            ==> r == 0,
{
    let mut best: Option<i128> = None;
    let mut index: usize = 0;
    let mut i: usize = 0;
    while i < tasks.len()
        invariant
            i <= tasks@.len(),
            selected.valid(),
            forall|k: int| 0 <= k < tasks@.len() ==> valid_due(#[trigger] tasks@[k].due_date),
            best is None ==> index == 0 && forall|j: int| 0 <= j < i ==> due_distance(
                #[trigger] tasks@[j].due_date,
                selected,
            ) is None,
            best matches Some(b) ==> index < i && due_distance(tasks@[index as int].due_date, selected)
                == Some(b as int) && (forall|j: int|
                0 <= j < index ==> !no_farther(
                    #[trigger] due_distance(tasks@[j].due_date, selected),
                    Some(b as int),
                )) && (forall|j: int|
                index < j < i ==> no_farther(
                    Some(b as int),
                    #[trigger] due_distance(tasks@[j].due_date, selected),
                )),
        decreases tasks@.len() - i,
    {
        let d = due_distance_of(&tasks[i].due_date, selected);
        match d {
            Some(x) => {
                let better = match best {
                    Some(b) => x < b,
                    None => true,
                };
                if better {
                    best = Some(x);
                    index = i;
                }
            },
            None => {},
        }
        i = i + 1;
    }
    index
}

/// Whether the day numbered `n` lies in the range of the calendar widget's dates,
/// years -9999 to 9999.
pub open spec fn in_calendar_range(n: int) -> bool {
    day_number(-9999, 1, 1) <= n <= day_number(9999, 12, 31)
}

/// Days in the year `y`.
pub open spec fn days_in_year(y: int) -> int {
    if is_leap_year(y) {
        366
    } else {
        365
    }
}

/// What the calendar tab is given to do.
#[derive(Debug, Clone, Copy, PartialEq, Eq, Hash, Structural)]
pub enum CalendarAction {
    /// Focus moves to a tab: the calendar, or another one.
    Focus(bool),
    Help,
    Escape,
    Enter,
    Up,
    Down,
    Left,
    Right,
    ViewUp,
    ViewDown,
    ViewPageUp,
    ViewPageDown,
    ViewRight,
    ViewLeft,
    /// Go to today, the given day.
    GotoToday(NaiveDate),
    ReloadVault,
    NextMonth,
    PreviousMonth,
    NextYear,
    PreviousYear,
    /// Any other action, which the tab ignores.
    Other,
}

/// What the calendar tab asks its surroundings to do after an action.
#[derive(Debug, Clone, Copy, PartialEq, Eq, Hash, Structural)]
pub enum CalendarCommand {
    Nothing,
    /// Reload the vault, then redo the task list and the preview of the day.
    Reload,
    /// Redo the preview of the newly selected day.
    DateChanged,
    HelpUp,
    HelpDown,
    ScrollUp,
    ScrollDown,
    ScrollPageUp,
    ScrollPageDown,
    ScrollRight,
    ScrollLeft,
}

/// The state of the calendar tab that its actions change.
#[derive(Debug, Clone, Copy, PartialEq, Eq, Hash, Structural)]
pub struct CalendarTabState {
    pub is_focused: bool,
    pub show_help: bool,
    pub selected_date: NaiveDate,
}

/// How many days an action moves the selected day `d`: a day, a week, the length of
/// the month of `d`, or the length of the year after that of `d` (for the next year
/// and for the previous year alike).
pub open spec fn move_days(d: NaiveDate, a: CalendarAction) -> int {
    match a {
        CalendarAction::Left => -1,
        CalendarAction::Right => 1,
        CalendarAction::Up => -7,
        CalendarAction::Down => 7,
        CalendarAction::NextMonth => days_in_month(d.year as int, d.month as int),
        CalendarAction::PreviousMonth => -days_in_month(d.year as int, d.month as int),
        CalendarAction::NextYear => days_in_year(d.year + 1),
        CalendarAction::PreviousYear => -days_in_year(d.year + 1),
        _ => 0,
    }
}

/// Whether the action moves the selected day.
pub open spec fn moves_date(a: CalendarAction) -> bool {
    match a {
        CalendarAction::Left | CalendarAction::Right | CalendarAction::Up | CalendarAction::Down
        | CalendarAction::NextMonth | CalendarAction::PreviousMonth | CalendarAction::NextYear
        | CalendarAction::PreviousYear => true,
        _ => false,
    }
}

/// The state after the action `a`, and what is left to do: out of focus, only focus
/// and reloads count; with the help shown, the moves scroll it and `Help`, `Escape`
/// and `Enter` hide it; else the moves change the selected day.
pub open spec fn calendar_spec(s: CalendarTabState, a: CalendarAction) -> (CalendarTabState, CalendarCommand) {
    if !s.is_focused {
        match a {
            CalendarAction::ReloadVault => (s, CalendarCommand::Reload),
            CalendarAction::Focus(mine) => (CalendarTabState { is_focused: mine, ..s }, CalendarCommand::Nothing),
            _ => (s, CalendarCommand::Nothing),
        }
    } else if s.show_help {
        match a {
            CalendarAction::ViewUp | CalendarAction::Up => (s, CalendarCommand::HelpUp),
            CalendarAction::ViewDown | CalendarAction::Down => (s, CalendarCommand::HelpDown),
            CalendarAction::Help | CalendarAction::Escape | CalendarAction::Enter => (
                CalendarTabState { show_help: false, ..s },
                CalendarCommand::Nothing,
            ),
            _ => (s, CalendarCommand::Nothing),
        }
    } else {
        match a {
            CalendarAction::Focus(mine) => (CalendarTabState { is_focused: mine, ..s }, CalendarCommand::Nothing),
            CalendarAction::Help => (CalendarTabState { show_help: true, ..s }, CalendarCommand::Nothing),
            CalendarAction::GotoToday(today) => (
                CalendarTabState { selected_date: today, ..s },
                CalendarCommand::DateChanged,
            ),
            CalendarAction::ReloadVault => (s, CalendarCommand::Reload),
            CalendarAction::ViewUp => (s, CalendarCommand::ScrollUp),
            CalendarAction::ViewDown => (s, CalendarCommand::ScrollDown),
            CalendarAction::ViewPageUp => (s, CalendarCommand::ScrollPageUp),
            CalendarAction::ViewPageDown => (s, CalendarCommand::ScrollPageDown),
            CalendarAction::ViewRight => (s, CalendarCommand::ScrollRight),
            CalendarAction::ViewLeft => (s, CalendarCommand::ScrollLeft),
            _ => if moves_date(a) {
                (
                    CalendarTabState {
                        selected_date: day_of_number(s.selected_date.days() + move_days(s.selected_date, a)),
                        ..s
                    },
                    CalendarCommand::DateChanged,
                )
            } else {
                (s, CalendarCommand::Nothing)
            },
        }
    }
}

/// The valid date numbered `n`.
pub open spec fn day_of_number(n: int) -> NaiveDate {
    choose|d: NaiveDate| d.valid() && d.days() == n
}

/// Whether the action can be taken: a move of the selected day must stay in the
/// calendar's range (the widget's date arithmetic panics beyond it).
pub open spec fn calendar_step_ok(s: CalendarTabState, a: CalendarAction) -> bool {
    (s.is_focused && !s.show_help && moves_date(a)) ==> in_calendar_range(
        s.selected_date.days() + move_days(s.selected_date, a),
    )
}

/// How many days `a` moves the valid day `d`; see `move_days`.
fn move_days_of(d: NaiveDate, a: CalendarAction) -> (r: i64)
    requires
        d.valid(),
    ensures
        r == move_days(d, a),
{
    match a {
        CalendarAction::Left => -1,
        CalendarAction::Right => 1,
        CalendarAction::Up => -7,
        CalendarAction::Down => 7,
        CalendarAction::NextMonth => days_in_month_exec(d.year, d.month) as i64,
        CalendarAction::PreviousMonth => -(days_in_month_exec(d.year, d.month) as i64),
        CalendarAction::NextYear => if is_leap_year_exec(d.year + 1) {
            366
        } else {
            365
        },
        CalendarAction::PreviousYear => if is_leap_year_exec(d.year + 1) {
            -366
        } else {
            -365
        },
        _ => 0,
    }
}

/// The calendar tab's answer to the action `a`; see `calendar_spec`.
pub fn calendar_step(s: CalendarTabState, a: CalendarAction) -> (r: (CalendarTabState, CalendarCommand))
    requires
        s.selected_date.valid(),
        a matches CalendarAction::GotoToday(t) ==> t.valid(),
        calendar_step_ok(s, a),
    ensures
        r == calendar_spec(s, a),
        r.0.selected_date.valid(),
{
    if !s.is_focused {
        match a {
            CalendarAction::ReloadVault => (s, CalendarCommand::Reload),
            CalendarAction::Focus(mine) => (CalendarTabState { is_focused: mine, ..s }, CalendarCommand::Nothing),
            _ => (s, CalendarCommand::Nothing),
        }
    } else if s.show_help {
        match a {
            CalendarAction::ViewUp | CalendarAction::Up => (s, CalendarCommand::HelpUp),
            CalendarAction::ViewDown | CalendarAction::Down => (s, CalendarCommand::HelpDown),
            CalendarAction::Help | CalendarAction::Escape | CalendarAction::Enter => (
                CalendarTabState { show_help: false, ..s },
                CalendarCommand::Nothing,
            ),
            _ => (s, CalendarCommand::Nothing),
        }
    } else {
        match a {
            CalendarAction::Focus(mine) => (CalendarTabState { is_focused: mine, ..s }, CalendarCommand::Nothing),
            CalendarAction::Help => (CalendarTabState { show_help: true, ..s }, CalendarCommand::Nothing),
            CalendarAction::GotoToday(today) => (
                CalendarTabState { selected_date: today, ..s },
                CalendarCommand::DateChanged,
            ),
            CalendarAction::ReloadVault => (s, CalendarCommand::Reload),
            CalendarAction::ViewUp => (s, CalendarCommand::ScrollUp),
            CalendarAction::ViewDown => (s, CalendarCommand::ScrollDown),
            CalendarAction::ViewPageUp => (s, CalendarCommand::ScrollPageUp),
            CalendarAction::ViewPageDown => (s, CalendarCommand::ScrollPageDown),
            CalendarAction::ViewRight => (s, CalendarCommand::ScrollRight),
            CalendarAction::ViewLeft => (s, CalendarCommand::ScrollLeft),
            CalendarAction::Escape | CalendarAction::Enter | CalendarAction::Other => (
                s,
                CalendarCommand::Nothing,
            ),
            _ => {
                let n = move_days_of(s.selected_date, a);
                proof {
                    crate::date::lemma_valid_days_range(s.selected_date);
                    assert(min_day_number() <= day_number(-9999, 1, 1));
                    assert(day_number(9999, 12, 31) <= max_day_number());
                }
                let d = add_days(s.selected_date, n);
                proof {
                    assert(d.valid() && d.days() == d.days());
                    let e = day_of_number(d.days());
                    assert(e.valid() && e.days() == d.days());
                    crate::date::lemma_days_injective(d, e);
                }
                (CalendarTabState { selected_date: d, ..s }, CalendarCommand::DateChanged)
            },
        }
    }
}

} // verus!
