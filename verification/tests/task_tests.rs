use handwriter_service::task::{same_text, SuccessResult, TaskCompleteTypes, TaskStatus, WorkerStatus, Task};

#[test]
fn status_predicates() {
    assert!(TaskStatus::Waiting(3).is_waiting());
    assert!(!TaskStatus::Waiting(3).is_working());
    assert!(TaskStatus::Working(1, 2).is_working());
    let done = TaskStatus::Completed(TaskCompleteTypes::Failed("no".to_string()));
    assert!(done.is_completed());
    assert!(!done.is_waiting());
}

#[test]
fn completed_and_success_views() {
    let ok = SuccessResult { url: "u".to_string(), svg: "<svg/>".to_string() };
    let st = TaskStatus::Completed(TaskCompleteTypes::Success(ok.clone()));
    assert_eq!(st.as_completed().and_then(|c| c.as_success()), Some(&ok));
    assert_eq!(TaskStatus::Waiting(1).as_completed(), None);
    assert_eq!(TaskCompleteTypes::Failed("x".to_string()).as_success(), None);
}

#[test]
fn worker_status_predicates() {
    assert!(WorkerStatus::Available.is_available());
    let t = Task {
        id: "i".to_string(),
        text: "t".to_string(),
        style: None,
        bias: None,
        color: None,
        width: None,
        status: TaskStatus::Working(0, 0),
    };
    let w = WorkerStatus::Working(t.clone());
    assert!(w.is_working());
    assert!(!w.is_available());
    assert_eq!(w.clone(), WorkerStatus::Working(t));
}

#[test]
fn texts_compare_by_content() {
    assert!(same_text("abc", "abc"));
    assert!(!same_text("abc", "abd"));
    assert!(!same_text("abc", "ab"));
    assert!(same_text("", ""));
}

use handwriter_service::task::tasks_equal;

#[test]
fn tasks_compare_field_by_field() {
    let t = Task {
        id: "i".to_string(),
        text: "t".to_string(),
        style: Some(1),
        bias: Some(3),
        color: Some("red".to_string()),
        width: None,
        status: TaskStatus::Completed(TaskCompleteTypes::Failed("e".to_string())),
    };
    assert!(tasks_equal(&t, &t.clone()));
    assert!(!tasks_equal(&t, &Task { color: None, ..t.clone() }));
    assert!(!tasks_equal(&t, &Task { bias: Some(4), ..t.clone() }));
    assert!(!tasks_equal(&t, &Task { status: TaskStatus::Waiting(1), ..t.clone() }));
    assert!(!tasks_equal(&t, &Task { text: "u".to_string(), ..t.clone() }));
}
