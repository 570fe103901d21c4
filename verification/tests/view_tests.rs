use td::Date;
use td::Task;
use td::TaskStore;

fn day(s: &str) -> Date {
    Date::parse_date_str(s).unwrap()
}

fn list_default(store: &TaskStore, today: Date) -> String {
    td::render::list(store, today, None, false, false, false, false, None, None, None)
        .unwrap()
        .join("\n")
}

fn list_on(store: &TaskStore, today: Date, date: &str) -> String {
    td::render::list(
        store,
        today,
        Some(date.to_string()),
        false,
        false,
        false,
        false,
        None,
        None,
        None,
    )
    .unwrap()
    .join("\n")
}

#[test]
fn test_full_workflow() {
    let mut store = TaskStore::new();
    let today = day("2024-01-10");

    let id = td::ops::add(&mut store, "Test task 1".to_string(), None, today).unwrap();
    assert!(td::render::added_message(id).contains("Added task #"));

    assert!(list_default(&store, today).contains("Test task 1"));

    let found = td::ops::mark_done(&mut store, 1);
    assert!(found);
    assert!(td::render::marked_done_message(1).contains("marked done."));

    assert!(list_default(&store, today).contains("[✓] Test task 1"));

    assert_eq!(store.remove_task(1).unwrap(), true);
    assert!(td::render::removed_message(1).contains("removed."));

    assert!(list_default(&store, today).contains("No tasks for today or overdue this week."));
}

#[test]
fn test_add_with_date() {
    let mut store = TaskStore::new();
    let today = day("2024-01-10");

    let id = td::ops::add(
        &mut store,
        "Test task with specific date".to_string(),
        Some("2023-12-25".to_string()),
        today,
    )
    .unwrap();
    assert!(td::render::added_message(id).contains("Added task #"));

    assert!(list_on(&store, today, "2023-12-25").contains("Test task with specific date"));
}

#[test]
fn integration_test_test_edit_task() {
    let mut store = TaskStore::new();
    let today = day("2024-01-10");

    let id = td::ops::add(
        &mut store,
        "Original task description".to_string(),
        None,
        today,
    )
    .unwrap();
    assert!(td::render::added_message(id).contains("Added task #"));

    let r = td::ops::edit(
        &mut store,
        1,
        Some("Updated task description".to_string()),
        None,
    );
    assert_eq!(r.unwrap(), td::ops::EditOutcome::Updated);
    assert!(td::render::updated_message(1).contains("updated."));

    assert!(list_default(&store, today).contains("Updated task description"));

    let r = td::ops::edit(&mut store, 1, None, Some("2024-03-15".to_string()));
    assert_eq!(r.unwrap(), td::ops::EditOutcome::Updated);

    assert!(list_on(&store, today, "2024-03-15").contains("Updated task description"));
}

#[test]
fn test_review_command() {
    let mut store = TaskStore::new();
    // a Sunday, so that a task six days old still belongs to the current week
    let today = day("2024-01-14");
    let nine_days_ago = "2024-01-05";
    let six_days_ago = "2024-01-08";

    td::ops::add(
        &mut store,
        "Very overdue task".to_string(),
        Some(nine_days_ago.to_string()),
        today,
    )
    .unwrap();
    td::ops::add(
        &mut store,
        "Not overdue enough task".to_string(),
        Some(six_days_ago.to_string()),
        today,
    )
    .unwrap();
    td::ops::add(&mut store, "Current task".to_string(), None, today).unwrap();

    let digest = td::render::review(&store, today).join("\n");
    assert!(digest.contains("Very overdue task"));
    assert!(digest.contains("9"));
    assert!(digest.contains(nine_days_ago));
    assert!(!digest.contains("Not overdue enough task"));
    assert!(!digest.contains("Current task"));
}

#[test]
fn test_reuse_command() {
    let mut store = TaskStore::new();
    let today = day("2024-01-10");
    let tomorrow = "2024-01-11";

    let id = td::ops::add(
        &mut store,
        "Original task for reuse".to_string(),
        None,
        today,
    )
    .unwrap();
    assert!(td::render::added_message(id).contains("Added task #"));

    let new_id = td::ops::reuse(&mut store, 1, Some(tomorrow.to_string()), today).unwrap();
    let message = td::render::reused_message(1, new_id);
    assert!(message.contains("as new task #"));
    assert!(message.contains("Original task marked done."));

    assert!(list_default(&store, today).contains("[✓] Original task for reuse"));

    let tomorrow_listing = list_on(&store, today, tomorrow);
    assert!(tomorrow_listing.contains("Original task for reuse"));
    assert!(tomorrow_listing.contains("reused from #1"));

    let original = store.find_task_by_id(1).unwrap().unwrap();
    assert_eq!(original.done, true);
    let reused = store.find_task_by_id(new_id).unwrap().unwrap();
    assert_eq!(reused.done, false);
    assert_eq!(reused.reuse_by, Some(1));
    assert_eq!(reused.date, day(tomorrow));
}

#[test]
fn test_list_commands() {
    let mut store = TaskStore::new();
    let today = day("2024-01-10");

    td::ops::add(&mut store, "Task today".to_string(), None, today).unwrap();
    td::ops::add(
        &mut store,
        "Task tomorrow".to_string(),
        Some("2024-01-11".to_string()),
        today,
    )
    .unwrap();
    td::ops::add(
        &mut store,
        "Task yesterday".to_string(),
        Some("2024-01-09".to_string()),
        today,
    )
    .unwrap();
    td::ops::add(
        &mut store,
        "Task next week".to_string(),
        Some("2024-01-18".to_string()),
        today,
    )
    .unwrap();
    td::ops::add(
        &mut store,
        "Task last week".to_string(),
        Some("2024-01-02".to_string()),
        today,
    )
    .unwrap();

    let by_default = list_default(&store, today);
    assert!(by_default.contains("Task today"));
    assert!(by_default.contains("Task yesterday"));
    assert!(!by_default.contains("Task tomorrow"));
    assert!(!by_default.contains("Task next week"));
    assert!(!by_default.contains("Task last week"));

    let on_tomorrow = list_on(&store, today, "2024-01-11");
    assert!(on_tomorrow.contains("Task tomorrow"));
    assert!(!on_tomorrow.contains("Task today"));
    assert!(!on_tomorrow.contains("Task yesterday"));

    let by_week = td::render::list(
        &store, today, None, true, false, false, false, None, None, None,
    )
    .unwrap()
    .join("\n");
    assert!(by_week.contains("Task today"));
    assert!(by_week.contains("Task tomorrow"));
    assert!(by_week.contains("Task yesterday"));
    assert!(!by_week.contains("Task next week"));
    assert!(!by_week.contains("Task last week"));
    assert!(by_week.contains("--- For Current Week (2024-01-08 to 2024-01-14) ---"));

    let by_month = td::render::list(
        &store, today, None, false, true, false, false, None, None, None,
    )
    .unwrap()
    .join("\n");
    assert!(by_month.contains("Task today"));
    assert!(by_month.contains("Task tomorrow"));
    assert!(by_month.contains("Task yesterday"));
    assert!(by_month.contains("Task next week"));
    assert!(by_month.contains("Task last week"));
    assert!(by_month.contains("--- For Current Month (2024-01) ---"));
}

#[test]
fn test_prompt_today_command() {
    let mut store = TaskStore::new();
    let today = day("2024-01-10");
    let yesterday = "2024-01-09";
    let two_days_ago = "2024-01-08";

    td::ops::add(&mut store, "Task for today 1".to_string(), None, today).unwrap();
    td::ops::add(&mut store, "Task for today 2".to_string(), None, today).unwrap();
    td::ops::add(
        &mut store,
        "Task for yesterday".to_string(),
        Some(yesterday.to_string()),
        today,
    )
    .unwrap();
    td::ops::add(
        &mut store,
        "Done task yesterday".to_string(),
        Some(two_days_ago.to_string()),
        today,
    )
    .unwrap();
    assert!(td::ops::mark_done(&mut store, 4));

    let prompt = td::render::prompt_today(&store, today);
    assert!(prompt.contains("🔴#1"));
    assert!(prompt.contains("🔴#2"));
    assert!(prompt.contains("🔴#3"));
    assert_eq!(prompt, "🔴#3 🔴#1 🔴#2");
}

#[test]
fn test_prompt_empty_store_prints_nothing() {
    let store = TaskStore::new();
    let today = day("2024-01-10");
    assert_eq!(td::render::prompt_today(&store, today), "");
}

#[test]
fn test_reuse_chain_points_at_root() {
    let mut store = TaskStore::new();
    let today = day("2024-01-10");
    let a = td::ops::add(&mut store, "Root errand".to_string(), None, today).unwrap();
    let b = td::ops::reuse(&mut store, a, Some("2024-01-11".to_string()), today).unwrap();
    let c = td::ops::reuse(&mut store, b, Some("2024-01-12".to_string()), today).unwrap();

    let task_b = store.find_task_by_id(b).unwrap().unwrap();
    let task_c = store.find_task_by_id(c).unwrap().unwrap();
    assert_eq!(task_b.reuse_by, Some(a));
    assert_eq!(task_c.reuse_by, Some(a));
    assert!(task_c.reuse_by != Some(b));
}

#[test]
fn test_review_scenario_pay_rent() {
    let mut store = TaskStore::new();
    let today = day("2024-01-10");
    let nine_days_before = "2024-01-01";

    td::ops::add(
        &mut store,
        "Pay rent".to_string(),
        Some(nine_days_before.to_string()),
        today,
    )
    .unwrap();
    td::ops::add(&mut store, "Second task".to_string(), None, today).unwrap();

    let digest = td::render::review(&store, today).join("\n");
    assert!(digest.contains("Pay rent"));
    assert!(digest.contains("9"));
    assert!(!digest.contains("Second task"));
}

#[test]
fn test_week_and_month_windows() {
    // a Wednesday: the window runs from the Monday before to the Sunday after
    let today = day("2024-01-03");
    let (monday, sunday) = td::date::week_range(&today);
    assert_eq!(monday, day("2024-01-01"));
    assert_eq!(sunday, day("2024-01-07"));

    // the December window does not run over into January
    let mid_december = day("2023-12-15");
    let (first, last) = td::date::month_range(&mid_december);
    assert_eq!(first, day("2023-12-01"));
    assert_eq!(last, day("2023-12-31"));

    // a leap-year February ends on the 29th
    let leap = day("2024-02-10");
    let (first, last) = td::date::month_range(&leap);
    assert_eq!(first, day("2024-02-01"));
    assert_eq!(last, day("2024-02-29"));
}

#[test]
fn test_overdue_days_count() {
    let today = day("2024-01-10");
    let nine_days_before = day("2024-01-01");
    assert_eq!(td::date::days_between(&nine_days_before, &today), 9);
    assert_eq!(td::date::days_between(&today, &today), 0);
    // across a year boundary
    assert_eq!(td::date::days_between(&day("2023-12-31"), &day("2024-01-01")), 1);
}

#[test]
fn test_keyword_filter_is_case_insensitive() {
    let mut store = TaskStore::new();
    let today = day("2024-01-10");
    td::ops::add(&mut store, "Pay RENT now".to_string(), None, today).unwrap();
    td::ops::add(&mut store, "Walk the dog".to_string(), None, today).unwrap();

    let hits = td::render::list(
        &store,
        today,
        None,
        false,
        false,
        false,
        false,
        None,
        None,
        Some("rent".to_string()),
    )
    .unwrap()
    .join("\n");
    assert!(hits.contains("Pay RENT now"));
    assert!(!hits.contains("Walk the dog"));

    let hits = td::render::list(
        &store,
        today,
        None,
        false,
        false,
        false,
        false,
        None,
        None,
        Some("RENT".to_string()),
    )
    .unwrap()
    .join("\n");
    assert!(hits.contains("Pay RENT now"));
}

#[test]
fn test_status_and_id_range_filters() {
    let mut store = TaskStore::new();
    let today = day("2024-01-10");
    td::ops::add(&mut store, "first".to_string(), None, today).unwrap();
    td::ops::add(&mut store, "second".to_string(), None, today).unwrap();
    td::ops::add(&mut store, "third".to_string(), None, today).unwrap();
    td::ops::mark_done(&mut store, 2);

    let done_only = td::render::list(
        &store, today, None, false, false, true, false, None, None, None,
    )
    .unwrap()
    .join("\n");
    assert!(done_only.contains("second"));
    assert!(!done_only.contains("first"));
    assert!(!done_only.contains("third"));

    let pending_only = td::render::list(
        &store, today, None, false, false, false, true, None, None, None,
    )
    .unwrap()
    .join("\n");
    assert!(pending_only.contains("first"));
    assert!(!pending_only.contains("second"));
    assert!(pending_only.contains("third"));

    let mid_range = td::render::list(
        &store,
        today,
        None,
        false,
        false,
        false,
        false,
        Some(2),
        Some(2),
        None,
    )
    .unwrap()
    .join("\n");
    assert!(!mid_range.contains("first"));
    assert!(mid_range.contains("second"));
    assert!(!mid_range.contains("third"));
}

#[test]
fn test_truncate_string() {
    assert_eq!(td::text::truncate_string("abc", 5), "abc  ");
    assert_eq!(
        td::text::truncate_string("a very long description indeed", 22),
        "a very long descriptio..."
    );
    assert_eq!(td::text::truncate_string("exact", 5), "exact");
}

#[test]
fn test_invalid_date_in_list_rejected() {
    let store = TaskStore::new();
    let today = day("2024-01-10");
    let r = td::render::list(
        &store,
        today,
        Some("not-a-date".to_string()),
        false,
        false,
        false,
        false,
        None,
        None,
        None,
    );
    assert_eq!(r.unwrap_err(), td::TdError::InvalidDate);
}
