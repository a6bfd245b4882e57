use vault_tasks::engine::{
    tm_tab_step, EditOutcome, State, TimeManagementEngine, TimeManagementTechnique, TmAction, TmCommand, TmTabState,
};
use vault_tasks::timer::TimeSpan;

/// Focus for the time of the last break times two, then rest for a fixed time; the
/// clock ending a segment freezes the next one.
struct Alternate {
    rest: TimeSpan,
}

impl TimeManagementTechnique for Alternate {
    fn next_state(&self, state: Option<State>, from_clock: bool, time_spent: TimeSpan) -> State {
        let next = match state {
            Some(State::Frozen(next)) => return *next,
            Some(State::Focus(_)) => State::Break(Some(self.rest)),
            Some(State::Break(_)) | None => {
                State::Focus(Some(TimeSpan { secs: time_spent.secs * 2, nanos: 0 }))
            }
        };
        if from_clock {
            State::Frozen(Box::new(next))
        } else {
            next
        }
    }

    fn switch(&mut self, state: &Option<State>, from_clock: bool, time_spent: TimeSpan) -> State {
        self.next_state(state.clone(), from_clock, time_spent)
    }
}

#[test]
fn engine_starts_without_segment() {
    let engine = TimeManagementEngine::new(Box::new(Alternate { rest: TimeSpan { secs: 5, nanos: 0 } }));
    assert!(engine.state.is_none());
}

#[test]
fn engine_keeps_the_segment_it_returns() {
    let mut engine =
        TimeManagementEngine::new(Box::new(Alternate { rest: TimeSpan { secs: 300, nanos: 0 } }));
    let first = engine.switch(false, TimeSpan { secs: 60, nanos: 0 });
    assert_eq!(first, State::Focus(Some(TimeSpan { secs: 120, nanos: 0 })));
    assert_eq!(engine.state, Some(first));
    let frozen = engine.switch(true, TimeSpan { secs: 120, nanos: 0 });
    assert_eq!(frozen, State::Frozen(Box::new(State::Break(Some(TimeSpan { secs: 300, nanos: 0 })))));
    assert_eq!(engine.state.clone().unwrap(), frozen);
    let thawed = engine.switch(false, TimeSpan { secs: 0, nanos: 0 });
    assert_eq!(thawed, State::Break(Some(TimeSpan { secs: 300, nanos: 0 })));
    assert_eq!(engine.state, Some(thawed));
}

fn tab(is_focused: bool, editing: bool, show_help: bool) -> TmTabState {
    TmTabState { is_focused, editing, show_help }
}

#[test]
fn tab_tick_switches_whatever_the_state() {
    for s in [tab(false, false, false), tab(true, true, false), tab(true, false, true)] {
        assert_eq!(tm_tab_step(s, TmAction::Tick(true)), (s, TmCommand::Switch(true)));
        assert_eq!(tm_tab_step(s, TmAction::Tick(false)), (s, TmCommand::Nothing));
    }
}

#[test]
fn tab_edit_bar() {
    let normal = tab(true, false, false);
    let editing = tab(true, true, false);
    assert_eq!(tm_tab_step(normal, TmAction::Edit(true)), (editing, TmCommand::OpenEdit));
    assert_eq!(tm_tab_step(normal, TmAction::Edit(false)), (normal, TmCommand::Fail));
    assert_eq!(tm_tab_step(editing, TmAction::Key), (editing, TmCommand::InputKey));
    assert_eq!(tm_tab_step(editing, TmAction::Enter(EditOutcome::Refused)), (editing, TmCommand::Nothing));
    assert_eq!(tm_tab_step(editing, TmAction::Enter(EditOutcome::Missing)), (editing, TmCommand::Fail));
    assert_eq!(tm_tab_step(editing, TmAction::Enter(EditOutcome::Accepted)), (normal, TmCommand::UpdateEngine));
    assert_eq!(tm_tab_step(editing, TmAction::Escape), (normal, TmCommand::ResetInput));
    assert_eq!(tm_tab_step(editing, TmAction::Up), (editing, TmCommand::Nothing));
}

#[test]
fn tab_help_focus_and_moves() {
    let normal = tab(true, false, false);
    let help = tab(true, false, true);
    let away = tab(false, false, false);
    assert_eq!(tm_tab_step(normal, TmAction::Help), (help, TmCommand::Nothing));
    assert_eq!(tm_tab_step(help, TmAction::Down), (help, TmCommand::HelpDown));
    assert_eq!(tm_tab_step(help, TmAction::Enter(EditOutcome::Accepted)), (normal, TmCommand::Nothing));
    assert_eq!(tm_tab_step(normal, TmAction::Down), (normal, TmCommand::SettingDown));
    assert_eq!(tm_tab_step(normal, TmAction::NextMethod), (normal, TmCommand::NextMethod));
    assert_eq!(tm_tab_step(normal, TmAction::NextSegment), (normal, TmCommand::Switch(false)));
    assert_eq!(tm_tab_step(normal, TmAction::Pause), (normal, TmCommand::Pause));
    assert_eq!(tm_tab_step(normal, TmAction::Focus(false)), (away, TmCommand::Nothing));
    assert_eq!(tm_tab_step(away, TmAction::Pause), (away, TmCommand::Nothing));
    assert_eq!(tm_tab_step(away, TmAction::Focus(true)), (normal, TmCommand::Nothing));
}
