use vault_tasks::explorer::{apply_prefixes, vault_data_to_entry_list, vault_data_to_prefix_name};
use vault_tasks::manager::{TaskManager, VaultError};
use vault_tasks::task::{State, Task};
use vault_tasks::vault::VaultData;

fn pair(p: &str, n: &str) -> (String, String) {
    (p.to_string(), n.to_string())
}

#[test]
fn prefix_of_each_kind_of_entry() {
    assert_eq!(vault_data_to_prefix_name(&VaultData::Directory("notes".to_string(), vec![])), pair("📁", "notes"));
    assert_eq!(vault_data_to_prefix_name(&VaultData::Directory("a.md".to_string(), vec![])), pair("📄", "a.md"));
    assert_eq!(vault_data_to_prefix_name(&VaultData::Header(3, "Title".to_string(), vec![])), pair("###", "Title"));
    let done = Task { name: "x".to_string(), state: State::Done, ..Default::default() };
    assert_eq!(vault_data_to_prefix_name(&VaultData::Task(done)), pair("✅", "x"));
}

#[test]
fn directories_come_first_then_files_by_name() {
    let entries = vec![
        VaultData::Directory("b.md".to_string(), vec![]),
        VaultData::Directory("zdir".to_string(), vec![]),
        VaultData::Directory("a.md".to_string(), vec![]),
        VaultData::Directory("adir".to_string(), vec![]),
    ];
    assert_eq!(
        vault_data_to_entry_list(&entries),
        vec![pair("📁", "adir"), pair("📁", "zdir"), pair("📄", "a.md"), pair("📄", "b.md")]
    );
}

#[test]
fn headers_and_tasks_keep_their_order() {
    let entries = vec![
        VaultData::Header(2, "b".to_string(), vec![]),
        VaultData::Task(Task { name: "a".to_string(), ..Default::default() }),
    ];
    assert_eq!(vault_data_to_entry_list(&entries), vec![pair("##", "b"), pair("❌", "a")]);
}

#[test]
fn lines_join_prefix_and_name() {
    assert_eq!(apply_prefixes(&[pair("📁", "adir"), pair("##", "b")]), vec!["📁 adir", "## b"]);
}

#[test]
fn explorer_labels_of_the_root_and_a_missing_path() {
    let mut task_mgr = TaskManager::default();
    task_mgr.tasks = VaultData::Directory(
        "vault".to_string(),
        vec![
            VaultData::Directory("z.md".to_string(), vec![]),
            VaultData::Directory("dir".to_string(), vec![]),
        ],
    );
    assert_eq!(task_mgr.get_explorer_entry_labels(&[]), Ok(vec![pair("📁", "dir"), pair("📄", "z.md")]));
    assert_eq!(
        task_mgr.get_explorer_entry_labels(&["nowhere".to_string()]),
        Err(VaultError::EntryNotFound)
    );
}
