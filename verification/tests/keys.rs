use vault_tasks::keys::{
    key_event_to_string, parse_key_event, parse_key_sequence, KeyCode, KeyEvent, KeyModifiers,
};

#[test]
fn test_simple_keys() {
    assert_eq!(parse_key_event("a").unwrap(), KeyEvent::new(KeyCode::Char('a'), KeyModifiers::empty()));
    assert_eq!(parse_key_event("enter").unwrap(), KeyEvent::new(KeyCode::Enter, KeyModifiers::empty()));
    assert_eq!(parse_key_event("esc").unwrap(), KeyEvent::new(KeyCode::Esc, KeyModifiers::empty()));
}

#[test]
fn test_with_modifiers() {
    assert_eq!(parse_key_event("ctrl-a").unwrap(), KeyEvent::new(KeyCode::Char('a'), KeyModifiers::control()));
    assert_eq!(parse_key_event("alt-enter").unwrap(), KeyEvent::new(KeyCode::Enter, KeyModifiers::alt()));
    assert_eq!(parse_key_event("shift-esc").unwrap(), KeyEvent::new(KeyCode::Esc, KeyModifiers::shift()));
}

#[test]
fn test_multiple_modifiers() {
    assert_eq!(
        parse_key_event("ctrl-alt-a").unwrap(),
        KeyEvent::new(KeyCode::Char('a'), KeyModifiers::control().union(KeyModifiers::alt()))
    );
    assert_eq!(
        parse_key_event("ctrl-shift-enter").unwrap(),
        KeyEvent::new(KeyCode::Enter, KeyModifiers::control().union(KeyModifiers::shift()))
    );
}

#[test]
fn test_reverse_multiple_modifiers() {
    assert_eq!(
        key_event_to_string(&KeyEvent::new(
            KeyCode::Char('a'),
            KeyModifiers::control().union(KeyModifiers::alt())
        )),
        "ctrl-alt-a".to_string()
    );
}

#[test]
fn test_invalid_keys() {
    assert!(parse_key_event("invalid-key").is_err());
    assert!(parse_key_event("ctrl-invalid-key").is_err());
}

#[test]
fn test_case_insensitivity() {
    assert_eq!(parse_key_event("CTRL-a").unwrap(), KeyEvent::new(KeyCode::Char('a'), KeyModifiers::control()));
    assert_eq!(parse_key_event("AlT-eNtEr").unwrap(), KeyEvent::new(KeyCode::Enter, KeyModifiers::alt()));
}

#[test]
fn key_errors_name_what_follows_the_modifiers() {
    assert_eq!(parse_key_event("ctrl-nope"), Err("Unable to parse nope".to_string()));
    assert_eq!(parse_key_event("é"), Err("Unable to parse é".to_string()));
}

#[test]
fn shift_and_backtab() {
    assert_eq!(parse_key_event("shift-a").unwrap(), KeyEvent::new(KeyCode::Char('A'), KeyModifiers::shift()));
    assert_eq!(parse_key_event("backtab").unwrap(), KeyEvent::new(KeyCode::BackTab, KeyModifiers::shift()));
    assert_eq!(parse_key_event("f12").unwrap(), KeyEvent::new(KeyCode::F(12), KeyModifiers::empty()));
    assert_eq!(parse_key_event("minus").unwrap(), KeyEvent::new(KeyCode::Char('-'), KeyModifiers::empty()));
}

#[test]
fn key_text_reads_back() {
    let events = [
        KeyEvent::new(KeyCode::Char('q'), KeyModifiers::empty()),
        KeyEvent::new(KeyCode::Char('Q'), KeyModifiers::shift()),
        KeyEvent::new(KeyCode::PageDown, KeyModifiers::control().union(KeyModifiers::alt())),
        KeyEvent::new(KeyCode::Char(' '), KeyModifiers::empty()),
        KeyEvent::new(KeyCode::BackTab, KeyModifiers::shift()),
    ];
    for e in events {
        assert_eq!(parse_key_event(&key_event_to_string(&e)), Ok(e));
    }
    assert_eq!(key_event_to_string(&KeyEvent::new(KeyCode::F(3), KeyModifiers::empty())), "f(3)");
    assert_eq!(key_event_to_string(&KeyEvent::new(KeyCode::Null, KeyModifiers::shift())), "shift-");
}

#[test]
fn key_sequences() {
    assert_eq!(
        parse_key_sequence("<ctrl-a>"),
        Ok(vec![KeyEvent::new(KeyCode::Char('a'), KeyModifiers::control())])
    );
    assert_eq!(
        parse_key_sequence("<g><g>"),
        Ok(vec![
            KeyEvent::new(KeyCode::Char('g'), KeyModifiers::empty()),
            KeyEvent::new(KeyCode::Char('g'), KeyModifiers::empty())
        ])
    );
    assert_eq!(parse_key_sequence("q"), Ok(vec![KeyEvent::new(KeyCode::Char('q'), KeyModifiers::empty())]));
    assert_eq!(parse_key_sequence("<a"), Err("Unable to parse `<a`".to_string()));
    assert_eq!(parse_key_sequence("<a><bad>"), Err("Unable to parse bad".to_string()));
}
