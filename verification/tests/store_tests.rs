use task_cli::{Error, Status, Task, TaskList};

fn ids_are_one_to_len(store: &TaskList) -> bool {
    store.tasks.iter().enumerate().all(|(k, t)| t.id == k as u64 + 1)
}

#[test]
fn test_task_list_save() {
    let mut tasks = TaskList::load(None);
    tasks.add_task(Task::new("description".to_string()));
    let _ = tasks.save();
}

#[test]
fn test_task_list_get_task_by_id() {
    let mut tasks = TaskList::load(None);
    tasks.add_task(Task::new("description".to_string()));
    let task = tasks.get_task_by_id(1).unwrap();
    assert_eq!(task.id, 1);
}

#[test]
fn ids_stay_contiguous_after_every_add_and_remove() {
    let mut store = TaskList::load(None);
    for name in ["a", "b", "c", "d"] {
        store.add_task(Task::new(name.to_string()));
        assert!(ids_are_one_to_len(&store));
    }
    store.remove_task(2);
    assert!(ids_are_one_to_len(&store));
    assert_eq!(store.tasks.len(), 3);
    store.remove_task(1);
    assert!(ids_are_one_to_len(&store));
    store.remove_task(7);
    assert!(ids_are_one_to_len(&store));
    assert_eq!(store.tasks.len(), 2);
    store.add_task(Task::new("e".to_string()));
    assert!(ids_are_one_to_len(&store));
    assert_eq!(store.tasks.len(), 3);
}

#[test]
fn scenario_add_remove_mark_done() {
    let mut store = TaskList::load(None);
    store.add_task(Task::new("buy milk".to_string()));
    assert_eq!(store.tasks.len(), 1);
    assert_eq!(store.tasks[0].id, 1);
    assert_eq!(store.tasks[0].status, Status::Todo);
    store.add_task(Task::new("pay bills".to_string()));
    assert_eq!(store.tasks.len(), 2);
    assert_eq!(store.tasks[0].id, 1);
    assert_eq!(store.tasks[1].id, 2);
    store.remove_task(1);
    assert_eq!(store.tasks.len(), 1);
    assert_eq!(store.tasks[0].id, 1);
    assert_eq!(store.tasks[0].description, "pay bills");
    let before = store.tasks[0].updated_at;
    assert_eq!(store.mark_task(1, Status::Done), Ok(()));
    assert_eq!(store.tasks[0].status, Status::Done);
    assert!(store.tasks[0].updated_at >= before);
}

#[test]
fn update_missing_id_is_task_not_found() {
    let mut store = TaskList::load(None);
    assert_eq!(store.update_task(99, "x".to_string()), Err(Error::TaskNotFound));
    store.add_task(Task::new("only".to_string()));
    assert_eq!(store.update_task(99, "x".to_string()), Err(Error::TaskNotFound));
    assert_eq!(store.mark_task(0, Status::Done), Err(Error::TaskNotFound));
    assert_eq!(store.tasks[0].description, "only");
}

#[test]
fn update_existing_id_changes_only_the_description() {
    let mut store = TaskList::load(None);
    store.add_task(Task::new("old text".to_string()));
    store.add_task(Task::new("other".to_string()));
    assert_eq!(store.update_task(1, "new text".to_string()), Ok(()));
    assert_eq!(store.tasks[0].description, "new text");
    assert_eq!(store.tasks[0].status, Status::Todo);
    assert_eq!(store.tasks[1].description, "other");
}

#[test]
fn list_with_done_filter_shows_only_done_and_mutates_nothing() {
    let mut store = TaskList::load(None);
    store.add_task(Task::new("first-entry".to_string()));
    store.add_task(Task::new("second-entry".to_string()));
    assert_eq!(store.mark_task(2, Status::Done), Ok(()));
    let shown = store.list_tasks(Some(Status::Done));
    assert!(shown.contains("second-entry"));
    assert!(!shown.contains("first-entry"));
    assert_eq!(store.tasks.len(), 2);
    assert_eq!(store.tasks[0].description, "first-entry");
    assert_eq!(store.tasks[1].description, "second-entry");
    assert_eq!(store.tasks[0].status, Status::Todo);
}

#[test]
fn list_without_filter_shows_everything_under_the_header() {
    let mut store = TaskList::load(None);
    store.add_task(Task::new("alpha-entry".to_string()));
    store.add_task(Task::new("beta-entry".to_string()));
    let shown = store.list_tasks(None);
    assert!(shown.starts_with("ID | Description | Status | Created At | Updated At\n"));
    assert!(shown.contains("alpha-entry"));
    assert!(shown.contains("beta-entry"));
}
