use td::Date;
use td::Task;
use td::TaskStore;

fn day(s: &str) -> Date {
    Date::parse_date_str(s).unwrap()
}

#[test]
fn test_task_store_init() {
    let result = TaskStore::init(Vec::new());
    assert!(result.get_all_tasks().is_ok());
}

#[test]
fn test_task_store_operations() {
    let mut store = TaskStore::new();
    store.reset_store_for_testing();

    let task = Task {
        id: 1,
        task: "Test task".to_string(),
        date: day("2023-01-01"),
        done: false,
        reuse_by: None,
    };

    let result = store.add_task(task.clone());
    assert!(result.is_ok());

    let max_id = store.get_max_id().unwrap();
    assert_eq!(max_id, 1);

    let found_task = store.find_task_by_id(1).unwrap();
    assert!(found_task.is_some());
    assert_eq!(found_task.unwrap().task, "Test task");

    let updated_task = Task {
        id: 1,
        task: "Updated task".to_string(),
        date: day("2023-01-01"),
        done: true,
        reuse_by: None,
    };

    let update_result = store.update_task(1, updated_task);
    assert!(update_result.is_ok());
    assert_eq!(update_result.unwrap(), true);

    let updated_found_task = store.find_task_by_id(1).unwrap();
    assert!(updated_found_task.is_some());
    let task = updated_found_task.unwrap();
    assert_eq!(task.task, "Updated task");
    assert_eq!(task.done, true);

    let remove_result = store.remove_task(1);
    assert!(remove_result.is_ok());
    assert_eq!(remove_result.unwrap(), true);

    let removed_found_task = store.find_task_by_id(1).unwrap();
    assert!(removed_found_task.is_none());
}

#[test]
fn test_task_not_found() {
    let mut store = TaskStore::new();
    store.reset_store_for_testing();

    let found_task = store.find_task_by_id(999).unwrap();
    assert!(found_task.is_none());

    let updated_task = Task {
        id: 999,
        task: "Non-existent task".to_string(),
        date: day("2023-01-01"),
        done: false,
        reuse_by: None,
    };
    let update_result = store.update_task(999, updated_task);
    assert!(update_result.is_ok());
    assert_eq!(update_result.unwrap(), false);

    let remove_result = store.remove_task(999);
    assert!(remove_result.is_ok());
    assert_eq!(remove_result.unwrap(), false);
}

#[test]
fn test_add_task() {
    let mut store = TaskStore::new();
    store.reset_store_for_testing();

    let today = day("2023-06-15");
    let result = td::ops::add(
        &mut store,
        "Test task".to_string(),
        Some("2023-01-01".to_string()),
        today,
    );
    assert!(result.is_ok());

    let all_tasks = store.get_all_tasks().unwrap();
    assert_eq!(all_tasks.len(), 1);
    assert_eq!(all_tasks[0].task, "Test task");
    assert_eq!(all_tasks[0].date, day("2023-01-01"));
    assert_eq!(all_tasks[0].done, false);
}

#[test]
fn test_mark_done() {
    let mut store = TaskStore::new();
    store.reset_store_for_testing();

    let today = day("2023-06-15");
    let result = td::ops::add(
        &mut store,
        "Test task".to_string(),
        Some("2023-01-01".to_string()),
        today,
    );
    assert!(result.is_ok());

    let all_tasks = store.get_all_tasks().unwrap();
    assert_eq!(all_tasks.len(), 1);
    assert_eq!(all_tasks[0].done, false);

    let found = td::ops::mark_done(&mut store, 1);
    assert!(found);

    let all_tasks = store.get_all_tasks().unwrap();
    assert_eq!(all_tasks[0].done, true);
}

#[test]
fn test_remove_task() {
    let mut store = TaskStore::new();
    store.reset_store_for_testing();

    let today = day("2023-06-15");
    let result = td::ops::add(
        &mut store,
        "Test task".to_string(),
        Some("2023-01-01".to_string()),
        today,
    );
    assert!(result.is_ok());

    let all_tasks = store.get_all_tasks().unwrap();
    assert_eq!(all_tasks.len(), 1);

    let result = store.remove_task(1);
    assert!(result.is_ok());

    let all_tasks = store.get_all_tasks().unwrap();
    assert_eq!(all_tasks.len(), 0);
}

#[test]
fn cli_test_edit_task() {
    let mut store = TaskStore::new();
    store.reset_store_for_testing();

    let today = day("2023-06-15");
    let result = td::ops::add(
        &mut store,
        "Test task".to_string(),
        Some("2023-01-01".to_string()),
        today,
    );
    assert!(result.is_ok());

    let all_tasks = store.get_all_tasks().unwrap();
    assert_eq!(all_tasks.len(), 1);
    assert_eq!(all_tasks[0].task, "Test task");

    let result = td::ops::edit(&mut store, 1, Some("Updated task".to_string()), None);
    assert!(result.is_ok());

    let all_tasks = store.get_all_tasks().unwrap();
    assert_eq!(all_tasks[0].task, "Updated task");
}

#[test]
fn test_parse_date_str() {
    let result = Date::parse_date_str("2023-01-01");
    assert!(result.is_ok());

    let result = Date::parse_date_str("invalid-date");
    assert!(result.is_err());
}

#[test]
fn test_error_handling_non_existent_task() {
    let mut store = TaskStore::new();

    let found = td::ops::mark_done(&mut store, 999);
    assert!(!found);
    assert_eq!(
        td::render::not_found_message(999),
        "Task #999 not found."
    );

    let remove_result = store.remove_task(999);
    assert_eq!(remove_result.unwrap(), false);

    let edit_result = td::ops::edit(&mut store, 999, Some("Non existent".to_string()), None);
    assert_eq!(edit_result.unwrap(), td::ops::EditOutcome::NotFound);
}

#[test]
fn test_next_id_exceeds_every_id_by_one() {
    let mut store = TaskStore::new();
    let today = day("2024-01-03");
    let id1 = td::ops::add(&mut store, "first".to_string(), None, today).unwrap();
    let id2 = td::ops::add(&mut store, "second".to_string(), None, today).unwrap();
    assert_eq!(id1, 1);
    assert_eq!(id2, 2);
    assert_eq!(store.get_max_id().unwrap(), 2);

    // a deleted identifier is handed out again only when nothing larger remains
    assert_eq!(store.remove_task(2).unwrap(), true);
    assert_eq!(store.get_max_id().unwrap(), 1);
    let id3 = td::ops::add(&mut store, "third".to_string(), None, today).unwrap();
    assert_eq!(id3, 2);

    // the record added under the fresh identifier is found under it
    let found = store.find_task_by_id(id3).unwrap().unwrap();
    assert_eq!(found.task, "third");
    assert_eq!(found.id, id3);
}

#[test]
fn test_remove_then_find_reports_not_found() {
    let mut store = TaskStore::new();
    let today = day("2024-01-03");
    let id = td::ops::add(&mut store, "gone soon".to_string(), None, today).unwrap();
    assert_eq!(store.remove_task(id).unwrap(), true);
    assert!(store.find_task_by_id(id).unwrap().is_none());

    // removing an absent identifier leaves the collection unchanged
    let before = store.get_all_tasks().unwrap().len();
    assert_eq!(store.remove_task(424242).unwrap(), false);
    assert_eq!(store.get_all_tasks().unwrap().len(), before);
}

#[test]
fn test_add_invalid_date_rejected_before_mutation() {
    let mut store = TaskStore::new();
    let today = day("2024-01-03");
    let r = td::ops::add(
        &mut store,
        "bad date".to_string(),
        Some("2023-13-01".to_string()),
        today,
    );
    assert_eq!(r.unwrap_err(), td::TdError::InvalidDate);
    assert_eq!(store.get_all_tasks().unwrap().len(), 0);

    let r = td::ops::add(
        &mut store,
        "bad date".to_string(),
        Some("2023-02-29".to_string()),
        today,
    );
    assert_eq!(r.unwrap_err(), td::TdError::InvalidDate);
    assert_eq!(store.get_all_tasks().unwrap().len(), 0);
}

#[test]
fn test_reuse_missing_task_reports_not_found() {
    let mut store = TaskStore::new();
    let today = day("2024-01-03");
    let r = td::ops::reuse(&mut store, 999, None, today);
    assert_eq!(r.unwrap_err(), td::TdError::NotFound);
}
