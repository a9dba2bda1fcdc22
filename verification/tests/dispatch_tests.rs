use handwriter_service::dispatch::{first_failed_line, line_params, line_task, LineStatus, Workers};
use handwriter_service::task::{SuccessResult, Task, TaskCompleteTypes, TaskStatus, WorkerStatus};

fn task(status: TaskStatus) -> Task {
    Task { id: "m".to_string(), text: "line".to_string(), style: Some(4), bias: Some(7), color: Some("green".to_string()), width: Some(2), status }
}

fn success() -> TaskStatus {
    TaskStatus::Completed(TaskCompleteTypes::Success(SuccessResult { url: "u".to_string(), svg: "s".to_string() }))
}

#[test]
fn no_machine_no_assignment() {
    let mut w = Workers::new();
    assert_eq!(w.assign(task(TaskStatus::Working(0, 0))), None);
}

#[test]
fn available_machine_is_assigned_once() {
    let mut w = Workers::new();
    w.record("m1".to_string(), WorkerStatus::Available);
    let first = w.assign(task(TaskStatus::Working(0, 0)));
    assert_eq!(first, Some("m1".to_string()));
    assert_eq!(w.assign(task(TaskStatus::Working(0, 0))), None);
}

#[test]
fn busy_machine_refreshed_becomes_available() {
    let mut w = Workers::new();
    w.record("m1".to_string(), WorkerStatus::Working(task(TaskStatus::Working(0, 0))));
    w.record("m2".to_string(), WorkerStatus::Working(task(TaskStatus::Working(0, 0))));
    assert_eq!(w.assign(task(TaskStatus::Working(0, 0))), None);
    w.record("m2".to_string(), WorkerStatus::Available);
    assert_eq!(w.assign(task(TaskStatus::Working(0, 0))), Some("m2".to_string()));
}

#[test]
fn line_request_carries_the_task_settings() {
    let t = task(TaskStatus::Working(0, 2));
    let p = line_params(&t, "piece".to_string());
    assert_eq!(p.text, "piece");
    assert_eq!(p.style, Some(4));
    assert_eq!(p.bias, Some(7));
    assert_eq!(p.color, Some("green".to_string()));
    assert_eq!(p.width, Some(2));
    let lt = line_task(&p);
    assert_eq!(lt.id, "");
    assert_eq!(lt.text, "piece");
    assert_eq!(lt.status, TaskStatus::Working(0, 0));
    assert_eq!(lt.color, Some("green".to_string()));
}

#[test]
fn first_failed_line_found() {
    let all = vec![task(success()), task(success())];
    assert_eq!(first_failed_line(&all), 2);
    let some = vec![task(success()), task(TaskStatus::Working(0, 0)), task(success())];
    assert_eq!(first_failed_line(&some), 1);
    let failed = vec![task(TaskStatus::Completed(TaskCompleteTypes::Failed("f".to_string())))];
    assert_eq!(first_failed_line(&failed), 0);
}

#[test]
fn line_status_predicates() {
    assert!(LineStatus::NotStarted.is_not_started());
    assert!(LineStatus::Assigned("m".to_string(), task(success())).is_assigned());
    assert!(LineStatus::Completed("m".to_string(), task(success())).is_completed());
    assert!(!LineStatus::NotStarted.is_completed());
}

use handwriter_service::dispatch::{generator_settings, joined_status, written_status};

#[test]
fn finished_statuses() {
    assert_eq!(
        joined_status("ab", Ok("<svg/>".to_string())),
        TaskStatus::Completed(TaskCompleteTypes::Success(SuccessResult {
            url: "https://handwrite.herokuapp.com/file/ab.svg".to_string(),
            svg: "<svg/>".to_string()
        }))
    );
    assert_eq!(
        written_status("ab", Ok("<svg/>".to_string())),
        TaskStatus::Completed(TaskCompleteTypes::Success(SuccessResult {
            url: "https://handwrite.herokuapp.com/image/ab.svg".to_string(),
            svg: "<svg/>".to_string()
        }))
    );
    assert_eq!(
        joined_status("ab", Err("bad".to_string())),
        TaskStatus::Completed(TaskCompleteTypes::Failed("bad".to_string()))
    );
}

#[test]
fn machine_settings_defaults() {
    let mut t = task(TaskStatus::Working(0, 0));
    assert_eq!(generator_settings(&t), (4, "green".to_string(), 2));
    t.style = None;
    t.color = None;
    t.width = None;
    assert_eq!(generator_settings(&t), (0, "blue".to_string(), 1));
}
