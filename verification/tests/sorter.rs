use vault_tasks::config::TasksConfig;
use vault_tasks::date::NaiveDate;
use vault_tasks::sorter::SortingMode;
use vault_tasks::task::Task;
use vault_tasks::task_parser::parse_task_at;

const SOURCE: [&str; 12] = [
    "- [ ] test 10/11",
    "- [ ] test 10/9",
    "- [ ] test 10/10 p5",
    "- [ ] test 10/10 10:00",
    "- [x] zèbre",
    "- [x] zzz",
    "- [ ] zzz",
    "- [ ] test 10/10 p2",
    "- [x] test",
    "- [ ] test2",
    "- [ ] test 10/10 5:00",
    "- [ ] abc",
];

fn parsed() -> Vec<Task> {
    let today = NaiveDate::from_ymd_opt(2024, 6, 12).unwrap();
    SOURCE
        .iter()
        .map(|input| parse_task_at(input, String::new(), &TasksConfig::default(), today).unwrap())
        .collect()
}

fn lines(tasks: &[Task]) -> Vec<String> {
    tasks.iter().map(|task| task.get_fixed_attributes(&TasksConfig::default(), 2)).collect()
}

#[test]
fn task_sort_by_name() {
    let mut tasks = parsed();
    SortingMode::sort(&mut tasks, SortingMode::ByName);
    assert_eq!(
        lines(&tasks),
        vec![
            "  - [ ] abc",
            "  - [ ] test 10/09/2024",
            "  - [ ] test 10/10/2024 p2",
            "  - [ ] test 10/10/2024 p5",
            "  - [ ] test 10/10/2024 05:00:00",
            "  - [ ] test 10/10/2024 10:00:00",
            "  - [ ] test 10/11/2024",
            "  - [x] test",
            "  - [ ] test2",
            "  - [x] zèbre",
            "  - [ ] zzz",
            "  - [x] zzz",
        ]
    );
}

#[test]
fn task_sort_by_due_date() {
    let mut tasks = parsed();
    SortingMode::sort(&mut tasks, SortingMode::ByDueDate);
    assert_eq!(
        lines(&tasks),
        vec![
            "  - [ ] test 10/09/2024",
            "  - [ ] test 10/10/2024 p2",
            "  - [ ] test 10/10/2024 p5",
            "  - [ ] test 10/10/2024 05:00:00",
            "  - [ ] test 10/10/2024 10:00:00",
            "  - [ ] test 10/11/2024",
            "  - [ ] abc",
            "  - [ ] test2",
            "  - [ ] zzz",
            "  - [x] test",
            "  - [x] zèbre",
            "  - [x] zzz",
        ]
    );
}

#[test]
fn sorting_modes() {
    assert_eq!(SortingMode::ByName.next(), SortingMode::ByDueDate);
    assert_eq!(SortingMode::ByDueDate.next().next(), SortingMode::ByDueDate);
    assert_eq!(SortingMode::ByDueDate.to_string(), "Due Date");
    assert_eq!(SortingMode::ByName.to_string(), "Title");
    assert_eq!(SortingMode::default(), SortingMode::ByDueDate);
}

#[test]
fn compare_is_antisymmetric_on_names() {
    let a = Task { name: "Éclair".to_string(), ..Default::default() };
    let b = Task { name: "eclairs".to_string(), ..Default::default() };
    assert_eq!(SortingMode::cmp(&a, &b, SortingMode::ByName), std::cmp::Ordering::Less);
    assert_eq!(SortingMode::cmp(&b, &a, SortingMode::ByName), std::cmp::Ordering::Greater);
    assert_eq!(SortingMode::cmp(&a, &a, SortingMode::ByName), std::cmp::Ordering::Equal);
}

#[test]
fn sort_keeps_order_of_equal_tasks() {
    let make = |file: &str| Task { name: "same".to_string(), filename: file.to_string(), ..Default::default() };
    for mode in [SortingMode::ByDueDate, SortingMode::ByName] {
        let mut tasks = vec![make("b.md"), make("a.md"), make("c.md")];
        SortingMode::sort(&mut tasks, mode);
        let files: Vec<String> = tasks.iter().map(|t| t.filename.clone()).collect();
        assert_eq!(files, vec!["b.md", "a.md", "c.md"]);
    }
    let mut mixed = vec![
        Task { name: "b".to_string(), filename: "1".to_string(), ..Default::default() },
        Task { name: "a".to_string(), filename: "2".to_string(), ..Default::default() },
        Task { name: "b".to_string(), filename: "3".to_string(), ..Default::default() },
        Task { name: "a".to_string(), filename: "4".to_string(), ..Default::default() },
    ];
    SortingMode::sort(&mut mixed, SortingMode::ByName);
    let files: Vec<String> = mixed.iter().map(|t| t.filename.clone()).collect();
    assert_eq!(files, vec!["2", "4", "1", "3"]);
}

#[test]
fn sorted_tasks_are_in_order_pairwise() {
    for mode in [SortingMode::ByDueDate, SortingMode::ByName] {
        let mut tasks = parsed();
        SortingMode::sort(&mut tasks, mode);
        for i in 0..tasks.len() {
            for j in i + 1..tasks.len() {
                assert_ne!(SortingMode::cmp(&tasks[i], &tasks[j], mode), std::cmp::Ordering::Greater);
            }
        }
    }
}
