use vault_tasks::date::NaiveTime;
use vault_tasks::timer::{OutOfRangeError, TimeSpan, TimerState, TimerWidget};

fn at(hour: u32, minute: u32, second: u32) -> NaiveTime {
    NaiveTime { hour, minute, second, nano: 0 }
}

fn span(secs: u64) -> TimeSpan {
    TimeSpan { secs, nanos: 0 }
}

#[test]
fn timer_starts_as_countdown_or_stopwatch() {
    let down = TimerState::new_at(Some(span(25 * 60)), at(10, 0, 0));
    assert_eq!(
        down,
        TimerState::ClockDown { started_at: at(10, 0, 0), stop_at: at(10, 25, 0), paused_at: None }
    );
    let up = TimerState::new_at(None, at(10, 0, 0));
    assert_eq!(up, TimerState::ClockUp { started_at: at(10, 0, 0), paused_at: None });
    assert_eq!(TimerState::default(), TimerState::NotInitialized);
}

#[test]
fn timer_countdown_wraps_around_midnight() {
    let down = TimerState::new_at(Some(span(3600)), at(23, 30, 0));
    assert_eq!(
        down,
        TimerState::ClockDown { started_at: at(23, 30, 0), stop_at: at(0, 30, 0), paused_at: None }
    );
    let huge = TimerState::new_at(Some(span(u64::MAX)), at(8, 0, 0));
    assert_eq!(
        huge,
        TimerState::ClockDown { started_at: at(8, 0, 0), stop_at: at(8, 0, 0), paused_at: None }
    );
}

#[test]
fn timer_pause_and_resume_moves_times() {
    let down = TimerState::new_at(Some(span(600)), at(10, 0, 0));
    let paused = down.pause_at(at(10, 2, 0));
    assert_eq!(
        paused,
        TimerState::ClockDown {
            started_at: at(10, 0, 0),
            stop_at: at(10, 10, 0),
            paused_at: Some(at(10, 2, 0))
        }
    );
    let resumed = paused.pause_at(at(10, 7, 0));
    assert_eq!(
        resumed,
        TimerState::ClockDown { started_at: at(10, 5, 0), stop_at: at(10, 15, 0), paused_at: None }
    );
    assert!(!resumed.tick_at(at(10, 15, 0)));
    assert!(resumed.tick_at(at(10, 15, 1)));
    assert!(!paused.tick_at(at(11, 0, 0)));
    assert_eq!(TimerState::NotInitialized.pause_at(at(1, 0, 0)), TimerState::NotInitialized);
}

#[test]
fn timer_pause_twice_same_instant_changes_nothing() {
    let up = TimerState::new_at(None, at(9, 0, 0));
    let t = at(9, 30, 15);
    assert_eq!(up.pause_at(t).pause_at(t), up);
}

#[test]
fn timer_paused_time_is_not_spent() {
    let up = TimerState::new_at(None, at(9, 0, 0));
    let resumed = up.pause_at(at(9, 10, 0)).pause_at(at(9, 40, 0));
    assert_eq!(resumed.time_spent_at(at(10, 0, 0)), Ok(span(30 * 60)));
}

#[test]
fn timer_time_spent() {
    let up = TimerState::new_at(None, at(9, 0, 0));
    assert_eq!(up.time_spent_at(at(9, 0, 1)), Ok(span(1)));
    assert_eq!(
        up.time_spent_at(NaiveTime { hour: 9, minute: 0, second: 1, nano: 5 }),
        Ok(TimeSpan { secs: 1, nanos: 5 })
    );
    assert_eq!(up.time_spent_at(at(8, 59, 59)), Err(OutOfRangeError));
    assert_eq!(TimerState::NotInitialized.time_spent_at(at(8, 0, 0)), Ok(span(0)));
}

#[test]
fn timer_text() {
    let down = TimerState::new_at(Some(span(25 * 60)), at(10, 0, 0));
    assert_eq!(TimerWidget::text_at(&down, at(10, 0, 0)), "25:00");
    assert_eq!(TimerWidget::text_at(&down, NaiveTime { hour: 10, minute: 0, second: 0, nano: 1 }), "24:59");
    assert_eq!(TimerWidget::text_at(&down, at(10, 30, 5)), "-5:-5");
    let up = TimerState::new_at(None, at(10, 0, 0));
    assert_eq!(TimerWidget::text_at(&up, at(11, 1, 1)), "0101:01");
    assert_eq!(TimerWidget::text_at(&up.pause_at(at(10, 1, 0)), at(10, 5, 0)), "Paused");
    assert_eq!(TimerWidget::text_at(&TimerState::NotInitialized, at(10, 0, 0)), "Not initialized");
}
