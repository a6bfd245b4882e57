use vault_tasks::config::{AppConfig, Mode, TasksConfig};
use vault_tasks::keys::{KeyCode, KeyEvent, KeyModifiers};
use vault_tasks::merge::{fill_settings, merge_bindings, merge_config, merge_styles, Config, ConfigError};
use vault_tasks::settings::{MethodSettingsEntry, MethodSettingsValue, MethodsAvailable};
use vault_tasks::style::{Color, Modifier, Style};

fn style(c: u8) -> Style {
    Style { fg: Some(Color::Indexed(c)), bg: None, add_modifier: Modifier::empty(), sub_modifier: Modifier::empty() }
}

fn key(c: char) -> Vec<KeyEvent> {
    vec![KeyEvent::new(KeyCode::Char(c), KeyModifiers::empty())]
}

fn entry(name: &str, n: u32) -> MethodSettingsEntry {
    MethodSettingsEntry { name: name.to_string(), value: MethodSettingsValue::Int(n), hint: String::new() }
}

#[test]
fn styles_keep_the_users_and_take_missing_defaults() {
    let user = vec![(Mode::Home, vec![("title".to_string(), style(1))])];
    let defaults = vec![
        (Mode::Home, vec![("title".to_string(), style(2)), ("footer".to_string(), style(3))]),
        (Mode::Filter, vec![("title".to_string(), style(4))]),
    ];
    let merged = merge_styles(user, defaults);
    assert_eq!(
        merged,
        vec![
            (Mode::Home, vec![("title".to_string(), style(1)), ("footer".to_string(), style(3))]),
            (Mode::Filter, vec![("title".to_string(), style(4))]),
        ]
    );
}

#[test]
fn bindings_keep_the_users_and_take_missing_defaults() {
    let user = vec![(Mode::Explorer, vec![(key('q'), "stay")])];
    let defaults = vec![(Mode::Explorer, vec![(key('q'), "quit"), (key('j'), "down")])];
    assert_eq!(
        merge_bindings(user, defaults),
        vec![(Mode::Explorer, vec![(key('q'), "stay"), (key('j'), "down")])]
    );
}

#[test]
fn settings_of_missing_methods_come_from_the_defaults() {
    let user = vec![(MethodsAvailable::FlowTime, vec![entry("Break Factor", 3)])];
    let defaults = vec![
        (MethodsAvailable::FlowTime, vec![entry("Break Factor", 5)]),
        (MethodsAvailable::Pomodoro, vec![entry("Long Break Interval", 4)]),
    ];
    assert_eq!(
        fill_settings(user, defaults),
        vec![
            (MethodsAvailable::FlowTime, vec![entry("Break Factor", 3)]),
            (MethodsAvailable::Pomodoro, vec![entry("Long Break Interval", 4)]),
        ]
    );
}

fn config(vault_path: &str, indent_length: usize) -> Config<&'static str> {
    Config {
        config: AppConfig::default(),
        keybindings: vec![],
        styles: vec![],
        tasks_config: TasksConfig { vault_path: vault_path.to_string(), indent_length, ..TasksConfig::default() },
        time_management_methods_settings: vec![
            (MethodsAvailable::Pomodoro, vec![]),
            (MethodsAvailable::FlowTime, vec![]),
        ],
    }
}

#[test]
fn config_vault_path_and_indent() {
    let c = merge_config(config("", 4), config("./vault", 0), None, true).unwrap();
    assert_eq!(c.tasks_config.vault_path, "./vault");
    assert_eq!(c.tasks_config.indent_length, 4);
    assert!(c.config.show_fps);
    let c = merge_config(config("", 4), config("./vault", 2), Some("/other".to_string()), false).unwrap();
    assert_eq!(c.tasks_config.vault_path, "/other");
    assert_eq!(c.tasks_config.indent_length, 2);
    assert!(merge_config(config("", 4), config("", 2), None, false).err() == Some(ConfigError::NoVaultPath));
}
