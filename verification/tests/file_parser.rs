use vault_tasks::config::TasksConfig;
use vault_tasks::date::NaiveDate;
use vault_tasks::file_parser::{append_description, clean_file_entry, parse_file_at, ParserFileEntry};
use vault_tasks::task::Task;
use vault_tasks::vault::VaultData;

fn config_with_indent() -> TasksConfig {
    let mut config = TasksConfig::default();
    config.indent_length = 2;
    config
}

#[test]
fn test_with_useless_headers() {
    let input = r"# 1 useless
## 2 useless
### 3 useless

# 2 useful
### 3 useless
## 4 useful
- [ ] test
  test
  desc
";
    let config = config_with_indent();
    let mut res = VaultData::Header(0, "Test".to_string(), vec![]);
    let parser = ParserFileEntry { config: &config, filename: String::new() };
    let expected = VaultData::Header(
        0,
        "Test".to_string(),
        vec![
            VaultData::Header(
                1,
                "1 useless".to_string(),
                vec![VaultData::Header(
                    2,
                    "2 useless".to_string(),
                    vec![VaultData::Header(3, "3 useless".to_string(), vec![])],
                )],
            ),
            VaultData::Header(
                1,
                "2 useful".to_string(),
                vec![
                    VaultData::Header(3, "3 useless".to_string(), vec![]),
                    VaultData::Header(
                        2,
                        "4 useful".to_string(),
                        vec![VaultData::Task(Task {
                            name: "test".to_string(),
                            line_number: Some(8),
                            description: Some("test\ndesc".to_string()),
                            ..Default::default()
                        })],
                    ),
                ],
            ),
        ],
    );
    parser.parse_file_aux(input, &mut res, 0);
    assert_eq!(res, expected);

    let expected_after_cleaning = VaultData::Header(
        0,
        "Test".to_string(),
        vec![VaultData::Header(
            1,
            "2 useful".to_string(),
            vec![VaultData::Header(
                2,
                "4 useful".to_string(),
                vec![VaultData::Task(Task {
                    name: "test".to_string(),
                    line_number: Some(8),
                    description: Some("test\ndesc".to_string()),
                    ..Default::default()
                })],
            )],
        )],
    );
    clean_file_entry(&mut res);
    assert_eq!(res, expected_after_cleaning);
}

#[test]
fn test_simple_input() {
    let input = r"# 1 Header
- [ ] Task

## 2 Header
### 3 Header
- [ ] Task
- [ ] Task 2
## 2 Header 2
- [ ] Task
  Description

";
    let config = config_with_indent();
    let mut res = VaultData::Header(0, "Test".to_string(), vec![]);
    let parser = ParserFileEntry { config: &config, filename: String::new() };
    let expected = VaultData::Header(
        0,
        "Test".to_string(),
        vec![VaultData::Header(
            1,
            "1 Header".to_string(),
            vec![
                VaultData::Task(Task {
                    name: "Task".to_string(),
                    line_number: Some(2),
                    ..Default::default()
                }),
                VaultData::Header(
                    2,
                    "2 Header".to_string(),
                    vec![VaultData::Header(
                        3,
                        "3 Header".to_string(),
                        vec![
                            VaultData::Task(Task {
                                name: "Task".to_string(),
                                line_number: Some(6),
                                ..Default::default()
                            }),
                            VaultData::Task(Task {
                                name: "Task 2".to_string(),
                                line_number: Some(7),
                                ..Default::default()
                            }),
                        ],
                    )],
                ),
                VaultData::Header(
                    2,
                    "2 Header 2".to_string(),
                    vec![VaultData::Task(Task {
                        name: "Task".to_string(),
                        line_number: Some(9),
                        description: Some("Description".to_string()),
                        ..Default::default()
                    })],
                ),
            ],
        )],
    );
    parser.parse_file_aux(input, &mut res, 0);
    assert_eq!(res, expected);
}

#[test]
fn test_fake_description() {
    let input = r"# 1 Header
  test
- [ ] Task

## 2 Header
  test
";
    let config = config_with_indent();
    let mut res = VaultData::Header(0, "Test".to_string(), vec![]);
    let parser = ParserFileEntry { config: &config, filename: String::new() };
    let expected = VaultData::Header(
        0,
        "Test".to_string(),
        vec![VaultData::Header(
            1,
            "1 Header".to_string(),
            vec![
                VaultData::Task(Task {
                    name: "Task".to_string(),
                    line_number: Some(3),
                    ..Default::default()
                }),
                VaultData::Header(2, "2 Header".to_string(), vec![]),
            ],
        )],
    );
    parser.parse_file_aux(input, &mut res, 0);
    assert_eq!(res, expected);
}

#[test]
fn subtasks_and_file_name() {
    let input = "- [ ] parent\n  - [x] child p2\n    - [ ] grandchild\n- [ ] sibling\n";
    let config = config_with_indent();
    let today = NaiveDate::from_ymd_opt(2024, 6, 12).unwrap();
    let res = parse_file_at("todo.md", &"todo.md".to_string(), input, &config, today).unwrap();
    let grandchild = Task {
        name: "grandchild".to_string(),
        line_number: Some(3),
        filename: "todo.md".to_string(),
        ..Default::default()
    };
    let child = Task {
        name: "child".to_string(),
        line_number: Some(2),
        priority: 2,
        state: vault_tasks::task::State::Done,
        filename: "todo.md".to_string(),
        ..Default::default()
    };
    // Outside any header, a deeper task goes under the last task of the file.
    let parent = Task {
        name: "parent".to_string(),
        line_number: Some(1),
        filename: "todo.md".to_string(),
        subtasks: vec![child, grandchild],
        ..Default::default()
    };
    let sibling = Task {
        name: "sibling".to_string(),
        line_number: Some(4),
        filename: "todo.md".to_string(),
        ..Default::default()
    };
    let expected = VaultData::Header(
        0,
        "todo.md".to_string(),
        vec![VaultData::Task(parent), VaultData::Task(sibling)],
    );
    assert_eq!(res, expected);
}

#[test]
fn a_file_without_tasks_reads_as_nothing() {
    let config = config_with_indent();
    let today = NaiveDate::from_ymd_opt(2024, 6, 12).unwrap();
    let res = parse_file_at("empty.md", &String::new(), "# Title\nsome text\n", &config, today);
    assert_eq!(res, None);
}

#[test]
fn description_goes_to_the_last_task_of_the_header() {
    let task = |name: &str, description: Option<&str>| Task {
        name: name.to_string(),
        description: description.map(|d| d.to_string()),
        ..Default::default()
    };
    let mut tree = VaultData::Header(
        0,
        "f.md".to_string(),
        vec![VaultData::Task(task("a", None)), VaultData::Task(task("b", Some("x")))],
    );
    assert!(append_description(&mut tree, "y".to_string(), 0, 0).is_ok());
    let expected = VaultData::Header(
        0,
        "f.md".to_string(),
        vec![VaultData::Task(task("a", None)), VaultData::Task(task("b", Some("x\ny")))],
    );
    assert_eq!(tree, expected);
    let mut no_task = VaultData::Header(0, "f.md".to_string(), vec![]);
    assert!(append_description(&mut no_task, "y".to_string(), 0, 0).is_ok());
    assert_eq!(no_task, VaultData::Header(0, "f.md".to_string(), vec![]));
    let mut missing_header = VaultData::Header(0, "f.md".to_string(), vec![VaultData::Task(task("a", None))]);
    assert!(append_description(&mut missing_header, "y".to_string(), 1, 0).is_err());
}
