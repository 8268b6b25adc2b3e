use task_cli::{Error, Status, Task};

#[test]
fn test_task_new() {
    let task = Task::new("description".to_string());
    assert_eq!(task.description, "description");
    assert_eq!(task.status, Status::Todo);
}

#[test]
fn test_task_update_status() {
    let mut task = Task::new("description".to_string());
    task.update_status(Status::InProgress);
    assert_eq!(task.status, Status::InProgress);
}

#[test]
fn test_task_update_description() {
    let mut task = Task::new("description".to_string());
    task.update_description("new description".to_string());
    assert_eq!(task.description, "new description");
}

#[test]
fn task_new_sets_equal_timestamps_and_placeholder_id() {
    let task = Task::new("anything".to_string());
    assert_eq!(task.created_at, task.updated_at);
    assert_eq!(task.id, 0);
    assert_eq!(task.status, Status::Todo);
}

#[test]
fn updates_advance_updated_at_and_keep_created_at() {
    let mut task = Task::new("a".to_string());
    let created = task.created_at;
    let before = task.updated_at;
    task.update_status(Status::Done);
    assert!(task.updated_at >= before);
    assert_eq!(task.created_at, created);
    let mid = task.updated_at;
    task.update_description("b".to_string());
    assert!(task.updated_at >= mid);
    assert_eq!(task.created_at, created);
    assert!(task.updated_at >= task.created_at);
}

#[test]
fn status_text_and_parse_are_inverse() {
    assert_eq!(Status::Todo.as_text(), "todo");
    assert_eq!(Status::InProgress.as_text(), "in-progress");
    assert_eq!(Status::Done.as_text(), "done");
    assert_eq!(Status::from_str("todo"), Ok(Status::Todo));
    assert_eq!(Status::from_str("in-progress"), Ok(Status::InProgress));
    assert_eq!(Status::from_str("done"), Ok(Status::Done));
}

#[test]
fn status_parse_rejects_everything_else() {
    assert_eq!(Status::from_str("Todo"), Err(Error::InvalidStatus));
    assert_eq!(Status::from_str(""), Err(Error::InvalidStatus));
    assert_eq!(Status::from_str("doing"), Err(Error::InvalidStatus));
    assert_eq!(Status::from_str("done "), Err(Error::InvalidStatus));
}

#[test]
fn error_messages_name_each_failure() {
    assert_eq!(Error::InvalidStatus.message(), "invalid status");
    assert_eq!(Error::TaskNotFound.message(), "task not found");
    assert_eq!(Error::IoError.message(), "io error");
    assert_eq!(Error::MissingArgument.message(), "missing argument");
    assert_eq!(Error::ParseError.message(), "invalid id");
}

#[test]
fn render_line_shows_the_fields_in_order() {
    let task = Task {
        id: 1,
        description: "milk".to_string(),
        status: Status::Todo,
        created_at: 0,
        updated_at: 0,
    };
    let line = task.render_line();
    assert!(line.starts_with("1 | milk | todo | 1970-01-01"));
    let parts: Vec<&str> = line.split(" | ").collect();
    assert_eq!(parts.len(), 5);
    assert_eq!(parts[0], "1");
    assert_eq!(parts[1], "milk");
    assert_eq!(parts[2], "todo");
    assert_eq!(parts[3], parts[4]);
}
