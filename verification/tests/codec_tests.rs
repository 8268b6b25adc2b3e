use task_cli::num::u64_to_string;
use task_cli::{Status, Task, TaskList};

fn fixed_task(id: u64, description: &str, status: Status, created: i64, updated: i64) -> Task {
    Task {
        id,
        description: description.to_string(),
        status,
        created_at: created,
        updated_at: updated,
    }
}

#[test]
fn save_of_an_empty_store_is_a_bare_array() {
    let store = TaskList::load(None);
    assert_eq!(store.save(), "[]");
}

#[test]
fn save_writes_the_exact_canonical_text() {
    let store = TaskList { tasks: vec![fixed_task(1, "milk", Status::Todo, 5, 7)] };
    assert_eq!(
        store.save(),
        "[{\"id\":1,\"description\":\"milk\",\"status\":\"todo\",\"created_at\":5,\"updated_at\":7}]"
    );
}

#[test]
fn round_trip_preserves_every_field() {
    let store = TaskList {
        tasks: vec![
            fixed_task(1, "say \"hi\" and \\ there", Status::InProgress, 3, 9),
            fixed_task(2, "", Status::Done, 10, 10),
            fixed_task(3, "plain text", Status::Todo, 0, 253_402_300_799_999_999),
        ],
    };
    let text = store.save();
    let reloaded = TaskList::load(Some(&text));
    assert_eq!(reloaded.tasks.len(), store.tasks.len());
    for (a, b) in store.tasks.iter().zip(reloaded.tasks.iter()) {
        assert_eq!(a.id, b.id);
        assert_eq!(a.description, b.description);
        assert_eq!(a.status, b.status);
        assert_eq!(a.created_at, b.created_at);
        assert_eq!(a.updated_at, b.updated_at);
    }
    assert_eq!(reloaded.save(), text);
}

#[test]
fn load_of_a_missing_file_is_an_empty_store() {
    let store = TaskList::load(None);
    assert!(store.tasks.is_empty());
}

#[test]
fn load_of_unparseable_text_is_an_empty_store() {
    assert!(TaskList::load(Some("")).tasks.is_empty());
    assert!(TaskList::load(Some("this is not a task list")).tasks.is_empty());
    assert!(TaskList::load(Some("[{\"id\":1")).tasks.is_empty());
    assert!(TaskList::load(Some("[]trailing")).tasks.is_empty());
    assert!(TaskList::load(Some("{}")).tasks.is_empty());
}

#[test]
fn load_of_non_positional_ids_is_an_empty_store() {
    let text = "[{\"id\":5,\"description\":\"x\",\"status\":\"todo\",\"created_at\":1,\"updated_at\":2}]";
    assert!(TaskList::load(Some(text)).tasks.is_empty());
}

#[test]
fn load_of_a_bad_status_or_bad_order_is_an_empty_store() {
    let bad_status = "[{\"id\":1,\"description\":\"x\",\"status\":\"doing\",\"created_at\":1,\"updated_at\":2}]";
    assert!(TaskList::load(Some(bad_status)).tasks.is_empty());
    let bad_order = "[{\"id\":1,\"description\":\"x\",\"status\":\"todo\",\"created_at\":5,\"updated_at\":2}]";
    assert!(TaskList::load(Some(bad_order)).tasks.is_empty());
}

#[test]
fn decimal_text_matches_the_usual_notation() {
    assert_eq!(u64_to_string(0), "0");
    assert_eq!(u64_to_string(7), "7");
    assert_eq!(u64_to_string(12345), "12345");
    assert_eq!(u64_to_string(u64::MAX), "18446744073709551615");
}
