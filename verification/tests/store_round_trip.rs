use task_tracker::manager::TaskManager;
use task_tracker::task::{DueDate, Task};

fn assert_same_task(a: &Task, b: &Task) {
    assert_eq!(a.title, b.title);
    assert_eq!(a.description, b.description);
    assert_eq!(a.completed, b.completed);
    match (&a.due_date, &b.due_date) {
        (None, None) => {}
        (Some(x), Some(y)) => {
            assert_eq!(x.secs(), y.secs());
            assert_eq!(x.nanos(), y.nanos());
            assert_eq!(x.text(), y.text());
        }
        _ => panic!("one task has a due date, the other has not"),
    }
}

#[test]
fn empty_store_add_save_load() {
    let mut manager = TaskManager::new();
    manager.add_task(Task::new("Buy milk".to_string(), None, None));
    let saved = manager.to_json();
    let loaded = TaskManager::from_json(&saved).expect("saved text must load");
    let tasks = loaded.get_all_tasks();
    assert_eq!(tasks.len(), 1);
    assert_eq!(tasks[0].title, "Buy milk");
    assert_eq!(tasks[0].description, None);
    assert!(tasks[0].due_date.is_none());
    assert!(!tasks[0].completed);
}

#[test]
fn exact_store_text_for_one_plain_task() {
    let mut manager = TaskManager::new();
    manager.add_task(Task::new("Buy milk".to_string(), None, None));
    assert_eq!(
        manager.to_json(),
        "{\"tasks\":[{\"title\":\"Buy milk\",\"description\":null,\"due_date\":null,\"completed\":false}]}"
    );
}

#[test]
fn exact_store_text_with_escapes() {
    let mut manager = TaskManager::new();
    manager.add_task(Task::new("say \"hi\"\\now".to_string(), None, None));
    assert_eq!(
        manager.to_json(),
        "{\"tasks\":[{\"title\":\"say \\\"hi\\\"\\\\now\",\"description\":null,\"due_date\":null,\"completed\":false}]}"
    );
}

#[test]
fn round_trip_keeps_every_field() {
    let mut manager = TaskManager::new();
    let due = DueDate::parse("2025-03-01T12:30:45Z".to_string()).expect("valid date");
    manager.add_task(Task::new(
        "quoted \"title\" with \\ backslash".to_string(),
        Some("a long\ndescription".to_string()),
        Some(due),
    ));
    manager.add_task(Task::new("plain".to_string(), None, None));
    let saved = manager.to_json();
    let loaded = TaskManager::from_json(&saved).expect("saved text must load");
    let before = manager.get_all_tasks();
    let after = loaded.get_all_tasks();
    assert_eq!(before.len(), after.len());
    for (a, b) in before.iter().zip(after.iter()) {
        assert_same_task(a, b);
    }
}

#[test]
fn round_trip_after_append_keeps_order() {
    let saved_two = {
        let mut manager = TaskManager::new();
        manager.add_task(Task::new("first".to_string(), None, None));
        manager.add_task(Task::new("second".to_string(), Some("d".to_string()), None));
        manager.to_json()
    };
    let mut manager = TaskManager::from_json(&saved_two).expect("saved text must load");
    manager.add_task(Task::new("third".to_string(), None, None));
    let loaded = TaskManager::from_json(&manager.to_json()).expect("saved text must load");
    let titles: Vec<&str> = loaded
        .get_all_tasks()
        .iter()
        .map(|t| t.title.as_str())
        .collect();
    assert_eq!(titles, vec!["first", "second", "third"]);
}

#[test]
fn round_trip_tells_absent_from_empty() {
    let mut manager = TaskManager::new();
    manager.add_task(Task::new("".to_string(), Some("".to_string()), None));
    manager.add_task(Task::new("twin".to_string(), None, None));
    manager.add_task(Task::new("twin".to_string(), None, None));
    let loaded = TaskManager::from_json(&manager.to_json()).expect("saved text must load");
    let tasks = loaded.get_all_tasks();
    assert_eq!(tasks.len(), 3);
    assert_eq!(tasks[0].title, "");
    assert_eq!(tasks[0].description, Some("".to_string()));
    assert_eq!(tasks[1].description, None);
    assert_eq!(tasks[1].title, "twin");
    assert_eq!(tasks[2].title, "twin");
}

#[test]
fn malformed_store_is_rejected() {
    assert!(TaskManager::from_json("this is not the store format").is_none());
    assert!(TaskManager::from_json("").is_none());
    assert!(TaskManager::from_json("{\"tasks\":[").is_none());
    assert!(TaskManager::from_json("{\"tasks\":[]} trailing").is_none());
    assert!(TaskManager::from_json(
        "{\"tasks\":[{\"title\":\"x\",\"description\":null,\"due_date\":null,\"completed\":maybe}]}"
    )
    .is_none());
}

#[test]
fn store_with_invalid_due_date_is_rejected() {
    let text =
        "{\"tasks\":[{\"title\":\"x\",\"description\":null,\"due_date\":\"not-a-date\",\"completed\":false}]}";
    assert!(TaskManager::from_json(text).is_none());
}

#[test]
fn empty_collection_round_trips() {
    let manager = TaskManager::new();
    let saved = manager.to_json();
    assert_eq!(saved, "{\"tasks\":[]}");
    let loaded = TaskManager::from_json(&saved).expect("saved text must load");
    assert!(loaded.get_all_tasks().is_empty());
}

#[test]
fn loading_a_completed_task_keeps_the_flag() {
    let text =
        "{\"tasks\":[{\"title\":\"done\",\"description\":null,\"due_date\":null,\"completed\":true}]}";
    let loaded = TaskManager::from_json(text).expect("well formed text must load");
    assert!(loaded.get_all_tasks()[0].completed);
    assert_eq!(loaded.get_completed_tasks().len(), 1);
    assert_eq!(loaded.get_pending_tasks().len(), 0);
}
