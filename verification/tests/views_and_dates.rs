use task_tracker::manager::TaskManager;
use task_tracker::task::{DueDate, Task};

#[test]
fn due_date_parse_accepts_rfc3339_and_resolves_to_utc() {
    let d = DueDate::parse("2025-01-01T00:00:00Z".to_string()).expect("valid date");
    assert_eq!(d.secs(), 1735689600);
    assert_eq!(d.nanos(), 0);
    assert_eq!(d.text(), "2025-01-01T00:00:00Z");

    // the same instant written with an offset resolves to the same seconds
    let offset = DueDate::parse("2025-01-01T02:00:00+02:00".to_string()).expect("valid date");
    assert_eq!(offset.secs(), 1735689600);

    let fractional = DueDate::parse("2025-01-01T00:00:00.250Z".to_string()).expect("valid date");
    assert_eq!(fractional.secs(), 1735689600);
    assert_eq!(fractional.nanos(), 250_000_000);
}

#[test]
fn due_date_parse_rejects_bad_text() {
    assert!(DueDate::parse("not-a-date".to_string()).is_none());
    assert!(DueDate::parse("".to_string()).is_none());
    assert!(DueDate::parse("2025-13-40T00:00:00Z".to_string()).is_none());
}

#[test]
fn new_task_starts_not_completed() {
    let t = Task::new("a".to_string(), Some("b".to_string()), None);
    assert!(!t.completed);
    assert_eq!(t.title, "a");
    assert_eq!(t.description, Some("b".to_string()));
}

#[test]
fn by_due_date_sorts_absent_first_then_ascending() {
    let mut manager = TaskManager::new();
    let march = DueDate::parse("2025-03-01T00:00:00Z".to_string()).expect("valid date");
    let january = DueDate::parse("2025-01-01T00:00:00Z".to_string()).expect("valid date");
    manager.add_task(Task::new("march".to_string(), None, Some(march)));
    manager.add_task(Task::new("no date".to_string(), None, None));
    manager.add_task(Task::new("january".to_string(), None, Some(january)));
    let sorted = manager.get_tasks_by_due_date();
    let titles: Vec<&str> = sorted.iter().map(|t| t.title.as_str()).collect();
    assert_eq!(titles, vec!["no date", "january", "march"]);
}

#[test]
fn by_due_date_is_a_permutation() {
    let mut manager = TaskManager::new();
    let one = DueDate::parse("2030-06-15T08:00:00Z".to_string()).expect("valid date");
    manager.add_task(Task::new("x".to_string(), None, Some(one)));
    manager.add_task(Task::new("y".to_string(), None, None));
    let sorted = manager.get_tasks_by_due_date();
    assert_eq!(sorted.len(), 2);
    let mut titles: Vec<&str> = sorted.iter().map(|t| t.title.as_str()).collect();
    titles.sort();
    assert_eq!(titles, vec!["x", "y"]);
}

#[test]
fn by_due_date_keeps_both_of_a_tie() {
    let mut manager = TaskManager::new();
    let same1 = DueDate::parse("2025-05-05T00:00:00Z".to_string()).expect("valid date");
    let same2 = DueDate::parse("2025-05-05T00:00:00Z".to_string()).expect("valid date");
    let later = DueDate::parse("2025-05-06T00:00:00Z".to_string()).expect("valid date");
    manager.add_task(Task::new("late".to_string(), None, Some(later)));
    manager.add_task(Task::new("tie-a".to_string(), None, Some(same1)));
    manager.add_task(Task::new("tie-b".to_string(), None, Some(same2)));
    let sorted = manager.get_tasks_by_due_date();
    assert_eq!(sorted.len(), 3);
    assert_eq!(sorted[2].title, "late");
    let mut ties: Vec<&str> = sorted[..2].iter().map(|t| t.title.as_str()).collect();
    ties.sort();
    assert_eq!(ties, vec!["tie-a", "tie-b"]);
}

#[test]
fn pending_and_completed_split_the_collection() {
    let mut manager = TaskManager::new();
    manager.add_task(Task::new("one".to_string(), None, None));
    manager.add_task(Task::new("two".to_string(), None, None));
    let pending = manager.get_pending_tasks();
    assert_eq!(pending.len(), 2);
    assert!(pending.iter().all(|t| !t.completed));
    assert!(manager.get_completed_tasks().is_empty());
    assert_eq!(manager.get_all_tasks().len(), 2);
}

#[test]
fn views_do_not_change_the_collection() {
    let mut manager = TaskManager::new();
    let due = DueDate::parse("2027-02-03T04:05:06Z".to_string()).expect("valid date");
    manager.add_task(Task::new("p".to_string(), None, Some(due)));
    manager.add_task(Task::new("q".to_string(), None, None));
    let snapshot = manager.to_json();

    let first: Vec<String> = manager
        .get_pending_tasks()
        .iter()
        .map(|t| t.title.clone())
        .collect();
    let second: Vec<String> = manager
        .get_pending_tasks()
        .iter()
        .map(|t| t.title.clone())
        .collect();
    assert_eq!(first, second);

    let sorted_once: Vec<String> = manager
        .get_tasks_by_due_date()
        .iter()
        .map(|t| t.title.clone())
        .collect();
    let sorted_again: Vec<String> = manager
        .get_tasks_by_due_date()
        .iter()
        .map(|t| t.title.clone())
        .collect();
    assert_eq!(sorted_once, sorted_again);

    let _ = manager.get_all_tasks();
    let _ = manager.get_completed_tasks();
    assert_eq!(manager.to_json(), snapshot);
}

#[test]
fn append_keeps_prior_tasks_and_order() {
    let mut manager = TaskManager::new();
    manager.add_task(Task::new("a".to_string(), None, None));
    let before: Vec<String> = manager
        .get_all_tasks()
        .iter()
        .map(|t| t.title.clone())
        .collect();
    manager.add_task(Task::new("b".to_string(), None, None));
    let after: Vec<String> = manager
        .get_all_tasks()
        .iter()
        .map(|t| t.title.clone())
        .collect();
    assert_eq!(after.len(), before.len() + 1);
    assert_eq!(&after[..before.len()], &before[..]);
    assert_eq!(after.last().map(String::as_str), Some("b"));
}

#[test]
fn display_block_spells_all_four_lines() {
    let due = DueDate::parse("2025-03-01T00:00:00Z".to_string()).expect("valid date");
    let t = Task::new(
        "Buy milk".to_string(),
        Some("two litres".to_string()),
        Some(due),
    );
    assert_eq!(
        t.display_block(),
        "Title: Buy milk\nDescription: two litres\nDue Date: 2025-03-01T00:00:00Z\nCompleted: false\n"
    );

    let bare = Task::new("x".to_string(), None, None);
    assert_eq!(
        bare.display_block(),
        "Title: x\nDescription: No description\nDue Date: No due date\nCompleted: false\n"
    );
}
