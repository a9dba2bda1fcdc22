use handwriter_service::queue::{
    claim_for_lines, claim_for_worker, complete_task, count_waiting, find_task, machine_status,
    mark_line_done, register_task,
};
use handwriter_service::task::{HandParameters, Task, TaskCompleteTypes, TaskStatus, WorkerStatus};

fn task(id: &str, status: TaskStatus) -> Task {
    Task {
        id: id.to_string(),
        text: format!("text of {}", id),
        style: Some(1),
        bias: None,
        color: None,
        width: None,
        status,
    }
}

fn params(text: &str) -> HandParameters {
    HandParameters { text: text.to_string(), style: Some(2), bias: Some(0.5f32.to_bits()), color: Some("red".to_string()), width: Some(3) }
}

fn failed() -> TaskStatus {
    TaskStatus::Completed(TaskCompleteTypes::Failed("boom".to_string()))
}

#[test]
fn completing_renumbers_the_waiting_tasks() {
    let mut ts = vec![
        task("a", TaskStatus::Working(0, 0)),
        task("b", TaskStatus::Waiting(2)),
        task("c", TaskStatus::Waiting(3)),
    ];
    let before = ts.clone();
    complete_task(&mut ts, "a", failed());
    assert_eq!(ts[0].status, failed());
    assert_eq!(ts[1].status, TaskStatus::Waiting(1));
    assert_eq!(ts[2].status, TaskStatus::Waiting(2));
    for (a, b) in before.iter().zip(ts.iter()) {
        assert_eq!((&a.id, &a.text), (&b.id, &b.text));
    }
}

#[test]
fn completing_an_unknown_id_changes_nothing() {
    let mut ts = vec![task("b", TaskStatus::Waiting(5))];
    let before = ts.clone();
    complete_task(&mut ts, "zz", failed());
    assert_eq!(ts, before);
}

#[test]
fn completing_only_the_first_task_with_the_id() {
    let mut ts = vec![task("a", TaskStatus::Waiting(1)), task("a", TaskStatus::Waiting(2))];
    complete_task(&mut ts, "a", failed());
    assert_eq!(ts[0].status, failed());
    assert_eq!(ts[1].status, TaskStatus::Waiting(1));
}

#[test]
fn new_task_waits_behind_the_waiting_ones() {
    let mut ts = vec![task("a", TaskStatus::Waiting(1)), task("b", TaskStatus::Working(0, 0))];
    let t = register_task(&mut ts, "n".to_string(), params("hi"));
    assert_eq!(t.status, TaskStatus::Waiting(2));
    assert_eq!(t.id, "n");
    assert_eq!(t.text, "hi");
    assert_eq!(t.color, Some("red".to_string()));
    assert_eq!(ts.len(), 3);
    assert_eq!(ts[2], t);
}

#[test]
fn known_task_is_answered_as_it_stands() {
    let mut ts = vec![task("a", TaskStatus::Working(1, 4))];
    let before = ts.clone();
    let t = register_task(&mut ts, "a".to_string(), params("other"));
    assert_eq!(t, before[0]);
    assert_eq!(ts, before);
}

#[test]
fn registering_twice_is_idempotent() {
    let mut ts = Vec::new();
    let first = register_task(&mut ts, "x".to_string(), params("one"));
    let snapshot = ts.clone();
    let again = register_task(&mut ts, "x".to_string(), params("two"));
    assert_eq!(first, again);
    assert_eq!(ts, snapshot);
}

#[test]
fn status_finds_what_create_answered() {
    let mut ts = vec![task("a", TaskStatus::Waiting(1))];
    let t = register_task(&mut ts, "q".to_string(), params("hello"));
    assert_eq!(find_task(&ts, "q"), Some(t));
    assert_eq!(find_task(&ts, "none"), None);
}

#[test]
fn worker_claims_first_waiting_task() {
    let mut ts = vec![
        task("a", failed()),
        task("b", TaskStatus::Waiting(1)),
        task("c", TaskStatus::Waiting(2)),
    ];
    let t = claim_for_worker(&mut ts).unwrap();
    assert_eq!(t.id, "b");
    assert_eq!(t.status, TaskStatus::Working(0, 0));
    assert_eq!(ts[1], t);
    assert_eq!(ts[2].status, TaskStatus::Waiting(2));
    assert_eq!(count_waiting(&ts), 1);
}

#[test]
fn nothing_to_claim() {
    let mut ts = vec![task("a", failed())];
    assert_eq!(claim_for_worker(&mut ts), None);
    let mut ts2 = vec![task("a", failed())];
    assert!(claim_for_lines(&mut ts2).is_none());
}

#[test]
fn server_claim_counts_lines() {
    let mut ts = vec![Task { text: format!("one\n{}", "w".repeat(75)), ..task("a", TaskStatus::Waiting(1)) }];
    let (t, lines) = claim_for_lines(&mut ts).unwrap();
    assert_eq!(lines, vec!["one".to_string(), "w".repeat(70), "w".repeat(5)]);
    assert_eq!(t.status, TaskStatus::Working(0, 3));
    assert_eq!(ts[0], t);
}

#[test]
fn machine_reports_first_task_in_progress() {
    let ts = vec![task("a", TaskStatus::Waiting(1)), task("b", TaskStatus::Working(0, 0))];
    assert_eq!(machine_status(&ts), WorkerStatus::Working(ts[1].clone()));
    let idle = vec![task("a", TaskStatus::Waiting(1))];
    assert_eq!(machine_status(&idle), WorkerStatus::Available);
}

#[test]
fn line_done_counts_up() {
    let mut ts = vec![task("a", TaskStatus::Working(1, 3)), task("b", TaskStatus::Waiting(1))];
    mark_line_done(&mut ts, "a");
    assert_eq!(ts[0].status, TaskStatus::Working(2, 3));
    mark_line_done(&mut ts, "b");
    assert_eq!(ts[1].status, TaskStatus::Waiting(1));
}

use handwriter_service::queue::line_reply;

#[test]
fn reply_counts_a_line_only_when_ended() {
    let mut ts = vec![task("main", TaskStatus::Working(0, 2))];
    let pending = task("", TaskStatus::Working(0, 0));
    assert!(!line_reply(&mut ts, "main", &pending));
    assert_eq!(ts[0].status, TaskStatus::Working(0, 2));
    let ended = task("", failed());
    assert!(line_reply(&mut ts, "main", &ended));
    assert_eq!(ts[0].status, TaskStatus::Working(1, 2));
}

#[test]
fn completing_twice_is_completing_once() {
    let start = vec![
        task("a", TaskStatus::Waiting(3)),
        task("b", TaskStatus::Working(0, 0)),
        task("c", TaskStatus::Waiting(7)),
    ];
    let mut once = start.clone();
    complete_task(&mut once, "a", TaskStatus::Waiting(9));
    let mut twice = once.clone();
    complete_task(&mut twice, "a", TaskStatus::Waiting(9));
    assert_eq!(once, twice);
    assert_eq!(once[0].status, TaskStatus::Waiting(1));
    assert_eq!(once[2].status, TaskStatus::Waiting(2));
}

#[test]
fn worker_lifecycle_one_task_at_a_time() {
    let mut ts = Vec::new();
    register_task(&mut ts, "a".to_string(), params("one"));
    register_task(&mut ts, "b".to_string(), params("two"));
    let first = claim_for_worker(&mut ts).unwrap();
    assert_eq!(first.id, "a");
    assert_eq!(ts.iter().filter(|t| t.status.is_working()).count(), 1);
    complete_task(&mut ts, &first.id, failed());
    assert_eq!(ts.iter().filter(|t| t.status.is_working()).count(), 0);
    assert_eq!(ts[1].status, TaskStatus::Waiting(1));
    let second = claim_for_worker(&mut ts).unwrap();
    assert_eq!(second.id, "b");
    assert_eq!(ts[0].status, failed());
}
