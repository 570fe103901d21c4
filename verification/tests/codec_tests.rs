use td::Date;
use td::Task;
use td::TaskStore;

fn day(s: &str) -> Date {
    Date::parse_date_str(s).unwrap()
}

#[test]
fn test_save_and_load_tasks() {
    let tasks = vec![
        Task {
            id: 1,
            task: "Test task".to_string(),
            date: day("2023-01-01"),
            done: false,
            reuse_by: None,
        },
        Task {
            id: 2,
            task: "Another test task".to_string(),
            date: day("2023-01-02"),
            done: true,
            reuse_by: Some(1),
        },
    ];

    let written = td::codec::encode_tasks(&tasks);

    let loaded_tasks = td::codec::parse_tasks(written.as_str()).unwrap();
    assert_eq!(loaded_tasks.len(), 2);
    assert_eq!(loaded_tasks[0].id, 1);
    assert_eq!(loaded_tasks[0].task, "Test task");
    assert_eq!(loaded_tasks[0].date, day("2023-01-01"));
    assert_eq!(loaded_tasks[0].done, false);
    assert_eq!(loaded_tasks[0].reuse_by, None);
    assert_eq!(loaded_tasks[1].id, 2);
    assert_eq!(loaded_tasks[1].task, "Another test task");
    assert_eq!(loaded_tasks[1].date, day("2023-01-02"));
    assert_eq!(loaded_tasks[1].done, true);
    assert_eq!(loaded_tasks[1].reuse_by, Some(1));
}

#[test]
fn test_round_trip_empty_collection() {
    let tasks: Vec<Task> = Vec::new();
    let written = td::codec::encode_tasks(&tasks);
    assert_eq!(written, "[]");
    let loaded = td::codec::parse_tasks(written.as_str()).unwrap();
    assert_eq!(loaded.len(), 0);
}

#[test]
fn test_round_trip_awkward_description() {
    let tasks = vec![Task {
        id: 7,
        task: "say \"hi\" to C:\\temp,\nthen stop\u{9}ok? émojis: 🟢".to_string(),
        date: day("2024-02-29"),
        done: false,
        reuse_by: None,
    }];
    let written = td::codec::encode_tasks(&tasks);
    let loaded = td::codec::parse_tasks(written.as_str()).unwrap();
    assert_eq!(loaded.len(), 1);
    assert_eq!(
        loaded[0].task,
        "say \"hi\" to C:\\temp,\nthen stop\u{9}ok? émojis: 🟢"
    );
    assert_eq!(loaded[0].date, day("2024-02-29"));
}

#[test]
fn test_written_form_is_exact() {
    let tasks = vec![Task {
        id: 3,
        task: "Water plants".to_string(),
        date: day("2023-05-04"),
        done: true,
        reuse_by: Some(1),
    }];
    let written = td::codec::encode_tasks(&tasks);
    assert_eq!(
        written,
        "[{\"id\":3,\"task\":\"Water plants\",\"date\":\"2023-05-04\",\"done\":true,\"reuse_by\":1}]"
    );
}

#[test]
fn test_missing_reuse_field_reads_as_absent() {
    let text = "[{\"id\":1,\"task\":\"old record\",\"date\":\"2022-03-04\",\"done\":false}]";
    let loaded = td::codec::parse_tasks(text).unwrap();
    assert_eq!(loaded.len(), 1);
    assert_eq!(loaded[0].reuse_by, None);
    assert_eq!(loaded[0].task, "old record");
}

#[test]
fn test_corrupt_store_reads_as_nothing() {
    assert!(td::codec::parse_tasks("").is_none());
    assert!(td::codec::parse_tasks("not json").is_none());
    assert!(td::codec::parse_tasks("[{\"id\":1}]").is_none());
    assert!(td::codec::parse_tasks("[{\"id\":1,\"task\":\"x\",\"date\":\"2022-13-04\",\"done\":false}]").is_none());
}

#[test]
fn test_store_save_round_trip() {
    let mut store = TaskStore::new();
    let today = day("2024-01-10");
    td::ops::add(&mut store, "alpha".to_string(), None, today).unwrap();
    td::ops::add(&mut store, "beta".to_string(), Some("2024-01-12".to_string()), today).unwrap();
    td::ops::reuse(&mut store, 1, Some("2024-01-13".to_string()), today).unwrap();

    let written = store.save_to_disk().unwrap();
    let loaded = td::codec::parse_tasks(written.as_str()).unwrap();
    let reloaded = TaskStore::init(loaded);
    let before = store.get_all_tasks().unwrap();
    let after = reloaded.get_all_tasks().unwrap();
    assert_eq!(before.len(), after.len());
    for k in 0..before.len() {
        assert_eq!(before[k].id, after[k].id);
        assert_eq!(before[k].task, after[k].task);
        assert_eq!(before[k].date, after[k].date);
        assert_eq!(before[k].done, after[k].done);
        assert_eq!(before[k].reuse_by, after[k].reuse_by);
    }
}
