//! The engine of the time management tab: it asks a time management technique for
//! the next segment of work or rest, and keeps the segment it gave.
use vstd::prelude::*;
use crate::timer::TimeSpan;

verus! {

/// A segment of the time management cycle: focus or a break, with the time it should
/// last when the technique sets one, or a segment frozen until the user moves on.
#[derive(Debug, PartialEq, Eq)]
pub enum State {
    Frozen(Box<State>),
    Focus(Option<TimeSpan>),
    Break(Option<TimeSpan>),
}

impl Clone for State {
    fn clone(&self) -> (r: State)
        ensures
            r == *self,
        decreases self,
    {
        match self {
            State::Frozen(next) => State::Frozen(Box::new((**next).clone())),
            State::Focus(d) => State::Focus(*d),
            State::Break(d) => State::Break(*d),
        }
    }
}

/// A time management technique: it decides the next segment from the current one,
/// whether the clock ended it, and the time spent in it.
pub trait TimeManagementTechnique {
    /// The segment that the technique, as it stands, gives after `state`.
    spec fn next_state(&self, state: Option<State>, from_clock: bool, time_spent: TimeSpan) -> State;

    /// Moves the technique on and gives the next segment; see `next_state`.
    fn switch(&mut self, state: &Option<State>, from_clock: bool, time_spent: TimeSpan) -> (r: State)
        ensures
            r == old(self).next_state(*state, from_clock, time_spent),
    ;
}

/// Runs a time management technique and keeps the segment it gave last.
pub struct TimeManagementEngine {
    pub mode: Box<dyn TimeManagementTechnique>,
    pub state: Option<State>,
}

impl TimeManagementEngine {
    /// An engine that runs `technique`, before any segment.
    pub fn new(technique: Box<dyn TimeManagementTechnique>) -> (r: Self)
        ensures
            r == (TimeManagementEngine { mode: technique, state: None }),
            r.state is None,
    {
        TimeManagementEngine { mode: technique, state: None }
    }

    /// Moves to the next segment, which the technique decides: `from_clock` tells
    /// whether the clock ended the segment, `time_spent` how long it lasted. The engine
    /// keeps the new segment and returns it.
    pub fn switch(&mut self, from_clock: bool, time_spent: TimeSpan) -> (r: State)
        ensures
            r == old(self).mode.next_state(old(self).state, from_clock, time_spent),
            final(self).state == Some(r),
    {
        let new_state = self.mode.switch(&self.state, from_clock, time_spent);
        self.state = Some(new_state.clone());
        new_state
    }
}

/// What came of submitting the edit bar: the selected method or setting is missing, the
/// setting refused the input, or it took the new value.
#[derive(Debug, Clone, Copy, PartialEq, Eq, Hash, Structural)]
pub enum EditOutcome {
    Missing,
    Refused,
    Accepted,
}

/// What the time management tab is given to do, with what the surroundings found out
/// for it: whether the timer has run out on a tick, whether the selected setting exists
/// for an edit, and what came of a submitted edit.
#[derive(Debug, Clone, Copy, PartialEq, Eq, Hash, Structural)]
pub enum TmAction {
    Tick(bool),
    /// Focus moves to a tab: this one, or another one.
    Focus(bool),
    Enter(EditOutcome),
    Escape,
    Key,
    Up,
    Down,
    ViewUp,
    ViewDown,
    Help,
    Edit(bool),
    PreviousMethod,
    NextMethod,
    NextSegment,
    Pause,
    Other,
}

/// What the time management tab asks its surroundings to do after an action.
#[derive(Debug, Clone, Copy, PartialEq, Eq, Hash, Structural)]
pub enum TmCommand {
    Nothing,
    /// Report that the selected method or setting does not exist.
    Fail,
    /// Move to the next segment, with a desktop notification or not.
    Switch(bool),
    /// Empty the edit bar.
    ResetInput,
    /// Hand the key to the edit bar.
    InputKey,
    /// Put the text of the selected value in the edit bar.
    OpenEdit,
    /// Remake the engine from the settings.
    UpdateEngine,
    HelpUp,
    HelpDown,
    /// Select the previous method and remake the engine.
    PreviousMethod,
    /// Select the next method and remake the engine.
    NextMethod,
    SettingUp,
    SettingDown,
    /// Pause the timer, or run it again.
    Pause,
}

/// The state of the time management tab that its actions change.
#[derive(Debug, Clone, Copy, PartialEq, Eq, Hash, Structural)]
pub struct TmTabState {
    pub is_focused: bool,
    /// Whether the edit bar has the keys.
    pub editing: bool,
    pub show_help: bool,
}

/// The state after the action `a`, and what is left to do: a tick on which the timer
/// ran out moves to the next segment with a notification whatever the state; out of
/// focus only focus counts; in the edit bar, the input is submitted, dropped or typed;
/// with the help shown, the moves scroll it and `Help`, `Escape` and `Enter` hide it.
pub open spec fn tm_tab_spec(s: TmTabState, a: TmAction) -> (TmTabState, TmCommand) {
    match a {
        TmAction::Tick(finished) => (s, if finished { TmCommand::Switch(true) } else { TmCommand::Nothing }),
        _ => if !s.is_focused {
            match a {
                TmAction::Focus(mine) => (TmTabState { is_focused: mine, ..s }, TmCommand::Nothing),
                _ => (s, TmCommand::Nothing),
            }
        } else if s.editing {
            match a {
                TmAction::Enter(EditOutcome::Missing) => (s, TmCommand::Fail),
                TmAction::Enter(EditOutcome::Refused) => (s, TmCommand::Nothing),
                TmAction::Enter(EditOutcome::Accepted) => (
                    TmTabState { editing: false, ..s },
                    TmCommand::UpdateEngine,
                ),
                TmAction::Escape => (TmTabState { editing: false, ..s }, TmCommand::ResetInput),
                TmAction::Key => (s, TmCommand::InputKey),
                _ => (s, TmCommand::Nothing),
            }
        } else if s.show_help {
            match a {
                TmAction::ViewUp | TmAction::Up => (s, TmCommand::HelpUp),
                TmAction::ViewDown | TmAction::Down => (s, TmCommand::HelpDown),
                TmAction::Help | TmAction::Escape | TmAction::Enter(_) => (
                    TmTabState { show_help: false, ..s },
                    TmCommand::Nothing,
                ),
                _ => (s, TmCommand::Nothing),
            }
        } else {
            match a {
                TmAction::Edit(found) => if found {
                    (TmTabState { editing: true, ..s }, TmCommand::OpenEdit)
                } else {
                    (s, TmCommand::Fail)
                },
                TmAction::PreviousMethod => (s, TmCommand::PreviousMethod),
                TmAction::NextMethod => (s, TmCommand::NextMethod),
                TmAction::Up => (s, TmCommand::SettingUp),
                TmAction::Down => (s, TmCommand::SettingDown),
                TmAction::NextSegment => (s, TmCommand::Switch(false)),
                TmAction::Pause => (s, TmCommand::Pause),
                TmAction::Focus(mine) => (TmTabState { is_focused: mine, ..s }, TmCommand::Nothing),
                TmAction::Help => (TmTabState { show_help: true, ..s }, TmCommand::Nothing),
                _ => (s, TmCommand::Nothing),
            }
        }
    }
}

/// The time management tab's answer to the action `a`; see `tm_tab_spec`.
pub fn tm_tab_step(s: TmTabState, a: TmAction) -> (r: (TmTabState, TmCommand))
    ensures
        r == tm_tab_spec(s, a),
{
    match a {
        TmAction::Tick(finished) => (s, if finished { TmCommand::Switch(true) } else { TmCommand::Nothing }),
        _ => if !s.is_focused {
            match a {
                TmAction::Focus(mine) => (TmTabState { is_focused: mine, ..s }, TmCommand::Nothing),
                _ => (s, TmCommand::Nothing),
            }
        } else if s.editing {
            match a {
                TmAction::Enter(EditOutcome::Missing) => (s, TmCommand::Fail),
                TmAction::Enter(EditOutcome::Refused) => (s, TmCommand::Nothing),
                TmAction::Enter(EditOutcome::Accepted) => (
                    TmTabState { editing: false, ..s },
                    TmCommand::UpdateEngine,
                ),
                TmAction::Escape => (TmTabState { editing: false, ..s }, TmCommand::ResetInput),
                TmAction::Key => (s, TmCommand::InputKey),
                _ => (s, TmCommand::Nothing),
            }
        } else if s.show_help {
            match a {
                TmAction::ViewUp | TmAction::Up => (s, TmCommand::HelpUp),
                TmAction::ViewDown | TmAction::Down => (s, TmCommand::HelpDown),
                TmAction::Help | TmAction::Escape | TmAction::Enter(_) => (
                    TmTabState { show_help: false, ..s },
                    TmCommand::Nothing,
                ),
                _ => (s, TmCommand::Nothing),
            }
        } else {
            match a {
                TmAction::Edit(found) => if found {
                    (TmTabState { editing: true, ..s }, TmCommand::OpenEdit)
                } else {
                    (s, TmCommand::Fail)
                },
                TmAction::PreviousMethod => (s, TmCommand::PreviousMethod),
                TmAction::NextMethod => (s, TmCommand::NextMethod),
                TmAction::Up => (s, TmCommand::SettingUp),
                TmAction::Down => (s, TmCommand::SettingDown),
                TmAction::NextSegment => (s, TmCommand::Switch(false)),
                TmAction::Pause => (s, TmCommand::Pause),
                TmAction::Focus(mine) => (TmTabState { is_focused: mine, ..s }, TmCommand::Nothing),
                TmAction::Help => (TmTabState { show_help: true, ..s }, TmCommand::Nothing),
                _ => (s, TmCommand::Nothing),
            }
        }
    }
}

} // verus!
