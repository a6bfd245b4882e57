use chrono::Datelike;
use vault_tasks::config::TasksConfig;
use vault_tasks::date::{Date, NaiveDate};
use vault_tasks::filter::{filter, filter_to_vec, parse_search_input, parse_search_input_at, Filter};
use vault_tasks::task::{State, Task};
use vault_tasks::vault::VaultData;

fn local_today() -> NaiveDate {
    let d = chrono::Local::now().date_naive();
    NaiveDate::from_ymd_opt(d.year(), d.month(), d.day()).unwrap()
}

#[test]
fn filter_parse_search_input_test() {
    let input = "- [ ] #tag today name p5";
    let config = TasksConfig::default();
    let res = parse_search_input(input, &config);
    let expected = Filter {
        task: Task {
            due_date: Some(Date::Day(local_today())),
            name: String::from("name"),
            priority: 5,
            state: State::ToDo,
            tags: Some(vec![String::from("tag")]),
            ..Default::default()
        },
        state: Some(State::ToDo),
    };
    assert_eq!(expected, res);
}

#[test]
fn filter_parse_search_input_no_state_test() {
    let input = "#tag today name p5";
    let config = TasksConfig::default();
    let res = parse_search_input(input, &config);
    let expected = Filter {
        task: Task {
            due_date: Some(Date::Day(local_today())),
            name: String::from("name"),
            priority: 5,
            state: State::ToDo,
            tags: Some(vec![String::from("tag")]),
            ..Default::default()
        },
        state: None,
    };
    assert_eq!(expected, res);
}

#[test]
fn filter_filter_tags_test() {
    let input = VaultData::Directory(
        "test".to_owned(),
        vec![
            VaultData::Header(
                0,
                "Test".to_string(),
                vec![
                    VaultData::Header(
                        1,
                        "1".to_string(),
                        vec![VaultData::Header(
                            2,
                            "2".to_string(),
                            vec![VaultData::Task(Task {
                                name: "test 1".to_string(),
                                line_number: Some(8),
                                description: Some("test\ndesc".to_string()),
                                ..Default::default()
                            })],
                        )],
                    ),
                    VaultData::Header(
                        1,
                        "1.2".to_string(),
                        vec![
                            VaultData::Header(3, "3".to_string(), vec![]),
                            VaultData::Header(
                                2,
                                "4".to_string(),
                                vec![VaultData::Task(Task {
                                    name: "test 2".to_string(),
                                    line_number: Some(8),
                                    tags: Some(vec!["test".to_string()]),
                                    description: Some("test\ndesc".to_string()),
                                    ..Default::default()
                                })],
                            ),
                        ],
                    ),
                ],
            ),
            VaultData::Task(Task {
                name: "test 3".to_string(),
                line_number: Some(8),
                tags: Some(vec!["test".to_string()]),
                description: Some("test\ndesc".to_string()),
                ..Default::default()
            }),
        ],
    );
    let expected = vec![
        Task {
            name: "test 2".to_string(),
            line_number: Some(8),
            tags: Some(vec!["test".to_string()]),
            description: Some("test\ndesc".to_string()),
            ..Default::default()
        },
        Task {
            name: "test 3".to_string(),
            line_number: Some(8),
            tags: Some(vec!["test".to_string()]),
            description: Some("test\ndesc".to_string()),
            ..Default::default()
        },
    ];
    let res = filter_to_vec(
        &input,
        &Filter {
            task: Task {
                name: String::new(),
                tags: Some(vec!["test".to_string()]),
                ..Default::default()
            },
            state: None,
        },
    );
    assert_eq!(res, expected);
}
#[test]
fn filter_filter_names_test() {
    let input = VaultData::Directory(
        "test".to_owned(),
        vec![
            VaultData::Header(
                0,
                "Test".to_string(),
                vec![
                    VaultData::Header(
                        1,
                        "1".to_string(),
                        vec![VaultData::Header(
                            2,
                            "2".to_string(),
                            vec![VaultData::Task(Task {
                                name: "hfdgqskhjfg1".to_string(),
                                line_number: Some(8),
                                description: Some("test\ndesc".to_string()),
                                ..Default::default()
                            })],
                        )],
                    ),
                    VaultData::Header(
                        1,
                        "1.2".to_string(),
                        vec![
                            VaultData::Header(3, "3".to_string(), vec![]),
                            VaultData::Header(
                                2,
                                "4".to_string(),
                                vec![VaultData::Task(Task {
                                    name: "test 2".to_string(),
                                    line_number: Some(8),
                                    tags: Some(vec!["test".to_string()]),
                                    description: Some("test\ndesc".to_string()),
                                    ..Default::default()
                                })],
                            ),
                        ],
                    ),
                ],
            ),
            VaultData::Task(Task {
                name: "test 3".to_string(),
                line_number: Some(8),
                tags: Some(vec!["test".to_string()]),
                description: Some("test\ndesc".to_string()),
                ..Default::default()
            }),
        ],
    );
    let expected = vec![
        Task {
            name: "test 2".to_string(),
            line_number: Some(8),
            tags: Some(vec!["test".to_string()]),
            description: Some("test\ndesc".to_string()),
            ..Default::default()
        },
        Task {
            name: "test 3".to_string(),
            line_number: Some(8),
            tags: Some(vec!["test".to_string()]),
            description: Some("test\ndesc".to_string()),
            ..Default::default()
        },
    ];
    let res = filter_to_vec(
        &input,
        &Filter {
            task: Task {
                name: String::from("test"),
                ..Default::default()
            },
            state: None,
        },
    );
    assert_eq!(res, expected);
}
#[test]
fn filter_filter_due_date_test() {
    let input = VaultData::Directory(
        "test".to_owned(),
        vec![
            VaultData::Header(
                0,
                "Test".to_string(),
                vec![
                    VaultData::Header(
                        1,
                        "1".to_string(),
                        vec![VaultData::Header(
                            2,
                            "2".to_string(),
                            vec![VaultData::Task(Task {
                                name: "hfdgqskhjfg1".to_string(),
                                line_number: Some(8),
                                due_date: Some(Date::Day(
                                    NaiveDate::from_ymd_opt(2020, 2, 2).unwrap(),
                                )),
                                description: Some("test\ndesc".to_string()),
                                ..Default::default()
                            })],
                        )],
                    ),
                    VaultData::Header(
                        1,
                        "1.2".to_string(),
                        vec![
                            VaultData::Header(3, "3".to_string(), vec![]),
                            VaultData::Header(
                                2,
                                "4".to_string(),
                                vec![VaultData::Task(Task {
                                    name: "test 2".to_string(),
                                    line_number: Some(8),
                                    tags: Some(vec!["test".to_string()]),
                                    description: Some("test\ndesc".to_string()),
                                    ..Default::default()
                                })],
                            ),
                        ],
                    ),
                ],
            ),
            VaultData::Task(Task {
                name: "test 3".to_string(),
                line_number: Some(8),
                tags: Some(vec!["test".to_string()]),
                description: Some("test\ndesc".to_string()),
                ..Default::default()
            }),
        ],
    );
    let expected = vec![Task {
        name: "hfdgqskhjfg1".to_string(),
        line_number: Some(8),
        due_date: Some(Date::Day(NaiveDate::from_ymd_opt(2020, 2, 2).unwrap())),
        description: Some("test\ndesc".to_string()),
        ..Default::default()
    }];
    let res = filter_to_vec(
        &input,
        &Filter {
            task: Task {
                due_date: Some(Date::Day(NaiveDate::from_ymd_opt(2020, 2, 2).unwrap())),
                ..Default::default()
            },
            state: None,
        },
    );
    assert_eq!(res, expected);
}
#[test]
fn filter_filter_full_test() {
    let input = VaultData::Directory(
        "test".to_owned(),
        vec![
            VaultData::Header(
                0,
                "Test".to_string(),
                vec![
                    VaultData::Header(
                        1,
                        "1".to_string(),
                        vec![VaultData::Header(
                            2,
                            "2".to_string(),
                            vec![VaultData::Task(Task {
                                name: "real target".to_string(),
                                line_number: Some(8),
                                tags: Some(vec!["test".to_string()]),
                                due_date: Some(Date::Day(
                                    NaiveDate::from_ymd_opt(2020, 2, 2).unwrap(),
                                )),
                                description: Some("test\ndesc".to_string()),
                                ..Default::default()
                            })],
                        )],
                    ),
                    VaultData::Header(
                        1,
                        "1.2".to_string(),
                        vec![
                            VaultData::Header(3, "3".to_string(), vec![]),
                            VaultData::Header(
                                2,
                                "4".to_string(),
                                vec![VaultData::Task(Task {
                                    name: "false target 2".to_string(),
                                    line_number: Some(8),
                                    tags: Some(vec!["test".to_string()]),
                                    description: Some("test\ndesc".to_string()),
                                    ..Default::default()
                                })],
                            ),
                        ],
                    ),
                ],
            ),
            VaultData::Task(Task {
                name: "test 3".to_string(),
                line_number: Some(8),
                tags: Some(vec!["test".to_string()]),
                description: Some("test\ndesc".to_string()),
                ..Default::default()
            }),
        ],
    );
    let expected = vec![Task {
        name: "real target".to_string(),
        line_number: Some(8),
        due_date: Some(Date::Day(NaiveDate::from_ymd_opt(2020, 2, 2).unwrap())),
        tags: Some(vec!["test".to_string()]),
        description: Some("test\ndesc".to_string()),
        ..Default::default()
    }];
    let res = filter_to_vec(
        &input,
        &Filter {
            task: Task {
                name: String::from("target"),
                tags: Some(vec!["test".to_string()]),
                due_date: Some(Date::Day(NaiveDate::from_ymd_opt(2020, 2, 2).unwrap())),
                ..Default::default()
            },
            state: None,
        },
    );
    assert_eq!(res, expected);
}
#[test]
fn filter_filter_subtasks_test() {
    let input = VaultData::Directory(
        "test".to_owned(),
        vec![
            VaultData::Header(
                0,
                "Test".to_string(),
                vec![
                    VaultData::Header(
                        1,
                        "1".to_string(),
                        vec![VaultData::Header(
                            2,
                            "2".to_string(),
                            vec![VaultData::Task(Task {
                                name: "task".to_string(),
                                line_number: Some(8),
                                tags: Some(vec!["test".to_string()]),
                                description: Some("test\ndesc".to_string()),
                                subtasks: vec![Task {
                                    name: "subtask".to_string(),
                                    ..Default::default()
                                }],
                                ..Default::default()
                            })],
                        )],
                    ),
                    VaultData::Header(
                        1,
                        "1.2".to_string(),
                        vec![
                            VaultData::Header(3, "3".to_string(), vec![]),
                            VaultData::Header(
                                2,
                                "4".to_string(),
                                vec![VaultData::Task(Task {
                                    name: "false target 2".to_string(),
                                    line_number: Some(8),
                                    tags: Some(vec!["test".to_string()]),
                                    description: Some("test\ndesc".to_string()),
                                    ..Default::default()
                                })],
                            ),
                        ],
                    ),
                ],
            ),
            VaultData::Task(Task {
                name: "test 3".to_string(),
                line_number: Some(8),
                tags: Some(vec!["test".to_string()]),
                description: Some("test\ndesc".to_string()),
                ..Default::default()
            }),
        ],
    );
    let expected = Some(VaultData::Directory(
        "test".to_owned(),
        vec![VaultData::Header(
            0,
            "Test".to_string(),
            vec![VaultData::Header(
                1,
                "1".to_string(),
                vec![VaultData::Header(
                    2,
                    "2".to_string(),
                    vec![VaultData::Task(Task {
                        name: "task".to_string(),
                        line_number: Some(8),
                        tags: Some(vec!["test".to_string()]),
                        description: Some("test\ndesc".to_string()),
                        subtasks: vec![Task {
                            name: "subtask".to_string(),
                            ..Default::default()
                        }],
                        ..Default::default()
                    })],
                )],
            )],
        )],
    ));
    let res = filter(
        &input,
        &Filter {
            task: Task {
                name: String::from("subtask"),
                ..Default::default()
            },
            state: None,
        },
    );
    assert_eq!(res, expected);
}

#[test]
fn names_match_ignores_case() {
    let input = VaultData::Directory(
        "v".to_owned(),
        vec![
            VaultData::Task(Task { name: "Buy MILK".to_string(), ..Default::default() }),
            VaultData::Task(Task { name: "walk".to_string(), ..Default::default() }),
        ],
    );
    let f = Filter { task: Task { name: "milk".to_string(), ..Default::default() }, state: None };
    let res = filter_to_vec(&input, &f);
    assert_eq!(res, vec![Task { name: "Buy MILK".to_string(), ..Default::default() }]);
}

#[test]
fn state_filter_groups_done_with_canceled() {
    let input = VaultData::Directory(
        "v".to_owned(),
        vec![
            VaultData::Task(Task { name: "a".to_string(), state: State::Canceled, ..Default::default() }),
            VaultData::Task(Task { name: "b".to_string(), state: State::ToDo, ..Default::default() }),
            VaultData::Task(Task { name: "c".to_string(), state: State::Incomplete, ..Default::default() }),
        ],
    );
    let done = Filter { task: Task::default(), state: Some(State::Done) };
    let res = filter_to_vec(&input, &done);
    assert_eq!(res.len(), 1);
    assert_eq!(res[0].name, "a");
    let todo = Filter { task: Task::default(), state: Some(State::ToDo) };
    let res = filter_to_vec(&input, &todo);
    assert_eq!(res.len(), 2);
}

#[test]
fn empty_search_keeps_everything() {
    let today = NaiveDate::from_ymd_opt(2024, 6, 12).unwrap();
    let f = parse_search_input_at("", &TasksConfig::default(), today);
    assert_eq!(f.state, None);
    let input = VaultData::Directory(
        "v".to_owned(),
        vec![VaultData::Header(
            0,
            "f.md".to_string(),
            vec![
                VaultData::Task(Task { name: "x".to_string(), priority: 3, ..Default::default() }),
                VaultData::Task(Task { name: "y".to_string(), is_today: true, ..Default::default() }),
            ],
        )],
    );
    assert_eq!(filter_to_vec(&input, &f).len(), 2);
}

#[test]
fn search_prompt_that_is_no_task() {
    let today = NaiveDate::from_ymd_opt(2024, 6, 12).unwrap();
    let f = parse_search_input_at("- [", &TasksConfig::default(), today);
    assert_eq!(f.task.name, "Incomplete search prompt");
    assert_eq!(f.state, Some(State::ToDo));
}

#[test]
fn filter_keeping_nothing() {
    let input = VaultData::Directory(
        "v".to_owned(),
        vec![VaultData::Task(Task { name: "x".to_string(), ..Default::default() })],
    );
    let f = Filter { task: Task { name: "zzz".to_string(), ..Default::default() }, state: None };
    assert_eq!(filter(&input, &f), None);
}

#[test]
fn filter_keeps_a_tree_with_a_deep_match() {
    let deep = Task { name: "needle".to_string(), ..Default::default() };
    let middle = Task { name: "x".to_string(), subtasks: vec![deep], ..Default::default() };
    let input = VaultData::Directory(
        "v".to_owned(),
        vec![VaultData::Header(0, "f.md".to_string(), vec![VaultData::Task(middle)])],
    );
    let hit = Filter { task: Task { name: "needle".to_string(), ..Default::default() }, state: None };
    assert!(filter(&input, &hit).is_some());
    let miss = Filter { task: Task { name: "hay".to_string(), ..Default::default() }, state: None };
    assert_eq!(filter(&input, &miss), None);
}
