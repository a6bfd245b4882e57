use vault_tasks::config::TasksConfig;
use vault_tasks::date::{NaiveDate, NaiveDateTime, NaiveTime};
use vault_tasks::manager::TaskManager;
use vault_tasks::rewrite::{fix_task_content, FixError};
use vault_tasks::task::{State, Task};
use vault_tasks::vault::VaultData;

#[test]
fn fix_keeps_the_indentation_of_the_line() {
    let task = Task {
        name: "new".to_string(),
        priority: 2,
        line_number: Some(2),
        ..Default::default()
    };
    let res = fix_task_content("a\n  - [ ] old p1\nb", &task, &TasksConfig::default());
    assert_eq!(res, Ok("a\n  - [ ] new p2\nb".to_string()));
}

#[test]
fn fix_appends_a_task_without_line() {
    let task = Task { name: "new".to_string(), line_number: None, ..Default::default() };
    let res = fix_task_content("a\nb", &task, &TasksConfig::default());
    assert_eq!(res, Ok("a\nb\n- [ ] new\n".to_string()));
}

#[test]
fn fix_beyond_the_end_of_the_file() {
    let task = Task { name: "new".to_string(), line_number: Some(5), ..Default::default() };
    let res = fix_task_content("a", &task, &TasksConfig::default());
    assert_eq!(res, Err(FixError::LineBeyondEnd));
}

#[test]
fn rewrite_list_paths() {
    let sub = Task { name: "sub".to_string(), ..Default::default() };
    let t = Task {
        name: "t".to_string(),
        state: State::Done,
        subtasks: vec![sub],
        ..Default::default()
    };
    let vault = VaultData::Directory(
        "vault".to_string(),
        vec![VaultData::Directory(
            "dir".to_string(),
            vec![VaultData::Header(
                0,
                "f.md".to_string(),
                vec![VaultData::Header(1, "h".to_string(), vec![VaultData::Task(t)])],
            )],
        )],
    );
    let res = TaskManager::tasks_to_rewrite(&vault);
    let path = vec!["vault".to_string(), "dir".to_string(), "f.md".to_string()];
    assert_eq!(res.len(), 2);
    assert_eq!(res[0].0, path);
    assert_eq!(res[0].1.name, "t");
    assert_eq!(res[1].0, path);
    assert_eq!(res[1].1.name, "sub");
}

#[test]
fn display_of_a_task_tree() {
    let now = NaiveDateTime::new(
        NaiveDate::from_ymd_opt(2024, 1, 1).unwrap(),
        NaiveTime::from_hms_opt(9, 0, 0).unwrap(),
    );
    let vault = VaultData::Header(
        0,
        "f.md".to_string(),
        vec![VaultData::Task(Task { name: "t".to_string(), ..Default::default() })],
    );
    let text = vault.to_string_at(now);
    assert!(text.contains("f.md"));
    assert!(text.contains("t"));
}
