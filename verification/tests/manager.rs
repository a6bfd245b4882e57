use vault_tasks::config::TasksConfig;
use vault_tasks::date::NaiveDate;
use vault_tasks::filter::Filter;
use vault_tasks::manager::{AddTaskError, TaskManager, VaultError};
use vault_tasks::task::Task;
use vault_tasks::vault::VaultData;

fn described(name: &str) -> Task {
    Task {
        name: name.to_string(),
        line_number: Some(8),
        description: Some("test\ndesc".to_string()),
        ..Default::default()
    }
}

fn manager_of(tasks: VaultData) -> TaskManager {
    let mut task_mgr = TaskManager::default();
    task_mgr.tasks = tasks;
    task_mgr
}

fn entries_vault() -> VaultData {
    VaultData::Directory(
        "test".to_owned(),
        vec![VaultData::Header(
            0,
            "Test".to_string(),
            vec![
                VaultData::Header(
                    1,
                    "1".to_string(),
                    vec![VaultData::Header(
                        2,
                        "2".to_string(),
                        vec![VaultData::Header(
                            3,
                            "3".to_string(),
                            vec![VaultData::Task(described("test"))],
                        )],
                    )],
                ),
                VaultData::Header(
                    1,
                    "1.2".to_string(),
                    vec![
                        VaultData::Header(3, "3".to_string(), vec![]),
                        VaultData::Header(2, "4".to_string(), vec![VaultData::Task(described("test"))]),
                    ],
                ),
            ],
        )],
    )
}

#[test]
fn core_test_get_vault_data() {
    let expected_tasks = vec![
        VaultData::Task(described("test")),
        VaultData::Task(described("test")),
        VaultData::Task(described("test")),
    ];
    let expected_header = VaultData::Header(2, "2".to_string(), vec![]);
    let input = VaultData::Directory(
        "test".to_owned(),
        vec![VaultData::Header(
            0,
            "Test".to_string(),
            vec![
                VaultData::Header(1, "1".to_string(), vec![VaultData::Header(2, "2".to_string(), vec![])]),
                VaultData::Header(
                    1,
                    "1.2".to_string(),
                    vec![
                        VaultData::Header(3, "3".to_string(), vec![]),
                        VaultData::Header(
                            2,
                            "4".to_string(),
                            vec![
                                VaultData::Task(described("test")),
                                VaultData::Task(described("test")),
                                VaultData::Task(described("test")),
                            ],
                        ),
                    ],
                ),
            ],
        )],
    );
    let task_mgr = manager_of(input);

    let path = vec![String::from("Test"), String::from("1"), String::from("2")];
    let res = task_mgr.get_vault_data_from_path(&path).unwrap();
    assert_eq!(expected_header, res);

    let path = vec![String::from("Test"), String::from("1.2"), String::from("4")];
    let res = task_mgr.get_vault_data_from_path(&path).unwrap();
    let expected_header = VaultData::Header(2, "4".to_string(), expected_tasks);
    assert_eq!(expected_header, res);
}

#[test]
fn test_get_entries() {
    let task_mgr = manager_of(entries_vault());

    let path = vec![String::from("Test"), String::from("1"), String::from("2")];
    let res = task_mgr.get_explorer_entries(&path).unwrap();
    assert_eq!(res.len(), 1);
    match &res[0] {
        VaultData::Header(level, name, _) => {
            assert_eq!("#".repeat(*level), "###");
            assert_eq!(name, "3");
        },
        other => panic!("expected a header, got {other:?}"),
    }

    let path = vec![String::from("Test"), String::from("1")];
    let res = task_mgr.get_explorer_entries(&path).unwrap();
    assert_eq!(res.len(), 1);
    match &res[0] {
        VaultData::Header(level, name, _) => {
            assert_eq!("#".repeat(*level), "##");
            assert_eq!(name, "2");
        },
        other => panic!("expected a header, got {other:?}"),
    }
}

#[test]
fn test_get_entries_err() {
    let task_mgr = manager_of(entries_vault());

    let path = vec![String::from("Testaaa"), String::from("1"), String::from("2")];
    let res = task_mgr.get_explorer_entries(&path);
    assert!(res.is_err());

    let path = vec![String::from("Test"), String::from("1"), String::from("2"), String::from("3")];
    let res = task_mgr.get_explorer_entries(&path).unwrap();
    assert_eq!(res, vec![VaultData::Task(described("test"))]);
    match &res[0] {
        VaultData::Task(t) => {
            assert_eq!(t.state.to_string(), "❌");
            assert_eq!(t.name, "test");
        },
        other => panic!("expected a task, got {other:?}"),
    }
}

#[test]
fn explorer_errors() {
    let task_mgr = manager_of(entries_vault());
    let path = vec![String::from("Nope")];
    assert_eq!(task_mgr.get_explorer_entries(&path), Err(VaultError::EntryNotFound));
    let task_mgr = manager_of(VaultData::Header(0, "f".to_string(), vec![]));
    assert_eq!(task_mgr.get_explorer_entries(&[]), Err(VaultError::NotADirectory));
    let mut task_mgr = manager_of(entries_vault());
    task_mgr.current_filter = Some(Filter {
        task: Task { name: "nothing matches this".to_string(), ..Default::default() },
        state: None,
    });
    assert_eq!(task_mgr.get_explorer_entries(&[]), Err(VaultError::EmptyVault));
}

#[test]
fn can_enter_headers_but_not_tasks_without_subtasks() {
    let mut task_mgr = manager_of(entries_vault());
    assert!(task_mgr.can_enter(&[String::from("Test"), String::from("1")]));
    assert!(!task_mgr.can_enter(&[String::from("Nothing")]));
    task_mgr.current_filter = Some(Filter::default());
    assert!(task_mgr.can_enter(&[String::from("Test"), String::from("1")]));
    assert!(!task_mgr.can_enter(&[
        String::from("Test"),
        String::from("1"),
        String::from("2"),
        String::from("3"),
        String::from("test"),
    ]));
}

#[test]
fn load_collects_each_tag_once() {
    let vault = VaultData::Directory(
        "v".to_owned(),
        vec![VaultData::Header(
            0,
            "a.md".to_string(),
            vec![
                VaultData::Task(Task {
                    name: "x".to_string(),
                    tags: Some(vec!["home".to_string(), "work".to_string()]),
                    subtasks: vec![Task {
                        name: "y".to_string(),
                        tags: Some(vec!["home".to_string(), "deep".to_string()]),
                        ..Default::default()
                    }],
                    ..Default::default()
                }),
            ],
        )],
    );
    let mut task_mgr = TaskManager::default();
    task_mgr.load(TasksConfig::default(), vault);
    let mut tags = task_mgr.tags.clone();
    tags.sort();
    assert_eq!(tags, vec!["deep".to_string(), "home".to_string(), "work".to_string()]);
}

#[test]
fn drop_file_errors() {
    let mut task_mgr = TaskManager::default();
    assert_eq!(task_mgr.drop_file(None), Err(AddTaskError::NoDropFile));
    assert_eq!(task_mgr.drop_file(Some("notes.txt".to_string())), Err(AddTaskError::NotMarkdown));
    assert_eq!(task_mgr.drop_file(Some("notes.md".to_string())), Ok("notes.md".to_string()));
    task_mgr.config.tasks_drop_file = "inbox.md".to_string();
    assert_eq!(task_mgr.drop_file(None), Ok("inbox.md".to_string()));
}

#[test]
fn add_task_to_a_file_of_the_vault() {
    let today = NaiveDate::from_ymd_opt(2024, 6, 12).unwrap();
    let mut config = TasksConfig::default();
    config.indent_length = 2;
    let mut task_mgr = manager_of(VaultData::Directory(
        "v".to_owned(),
        vec![VaultData::Header(0, "inbox.md".to_string(), vec![])],
    ));
    task_mgr.config = config;
    assert_eq!(
        task_mgr.add_task_at("- [ ] new thing p1", "other.md", today),
        Err(AddTaskError::FileNotFound)
    );
    assert_eq!(task_mgr.add_task_at("no task here", "inbox.md", today), Err(AddTaskError::Malformed));
    assert_eq!(task_mgr.add_task_at("- [ ] new thing p1", "inbox.md", today), Ok(()));
    let expected = VaultData::Directory(
        "v".to_owned(),
        vec![VaultData::Header(
            0,
            "inbox.md".to_string(),
            vec![VaultData::Task(Task {
                name: "new thing".to_string(),
                priority: 1,
                line_number: None,
                filename: "inbox.md".to_string(),
                ..Default::default()
            })],
        )],
    );
    assert_eq!(task_mgr.tasks, expected);
}

#[test]
fn add_task_with_the_system_date() {
    let mut config = TasksConfig::default();
    config.indent_length = 2;
    config.tasks_drop_file = "inbox.md".to_string();
    let mut task_mgr = manager_of(VaultData::Directory(
        "v".to_owned(),
        vec![VaultData::Header(0, "inbox.md".to_string(), vec![])],
    ));
    task_mgr.config = config;
    assert_eq!(task_mgr.add_task("- [ ] call bob #phone", None), Ok(()));
    assert_eq!(task_mgr.add_task("- [ ] x", Some("a.txt".to_string())), Err(AddTaskError::NotMarkdown));
    match &task_mgr.tasks {
        VaultData::Directory(_, children) => match &children[0] {
            VaultData::Header(_, _, tasks) => {
                assert_eq!(tasks.len(), 1);
                match &tasks[0] {
                    VaultData::Task(t) => {
                        assert_eq!(t.name, "call bob");
                        assert_eq!(t.tags, Some(vec!["phone".to_string()]));
                        assert_eq!(t.line_number, None);
                    },
                    other => panic!("expected a task, got {other:?}"),
                }
            },
            other => panic!("expected a header, got {other:?}"),
        },
        other => panic!("expected a directory, got {other:?}"),
    }
}

#[test]
fn parse_single_task_has_no_line() {
    let mut config = TasksConfig::default();
    config.indent_length = 2;
    let t = vault_tasks::file_parser::parse_single_task("- [x] done thing", "f.md", &config).unwrap();
    assert_eq!(t.name, "done thing");
    assert_eq!(t.line_number, None);
    assert_eq!(t.filename, "f.md");
    assert!(vault_tasks::file_parser::parse_single_task("not a task", "f.md", &config).is_err());
}

#[test]
fn add_task_errors_with_the_system_date() {
    let mut task_mgr = manager_of(VaultData::Directory(
        "v".to_owned(),
        vec![VaultData::Header(0, "inbox.md".to_string(), vec![])],
    ));
    task_mgr.config.indent_length = 2;
    task_mgr.config.tasks_drop_file = String::new();
    assert_eq!(task_mgr.add_task("- [ ] x", None), Err(AddTaskError::NoDropFile));
    assert_eq!(task_mgr.add_task("no task here", Some("inbox.md".to_string())), Err(AddTaskError::Malformed));
    assert_eq!(task_mgr.add_task("- [ ] x", Some("other.md".to_string())), Err(AddTaskError::FileNotFound));
}
