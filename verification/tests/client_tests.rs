use handwriter_service::home::{Home, HomeAction, Msg as HomeMsg};
use handwriter_service::task::{Task, TaskCompleteTypes, TaskStatus};
use handwriter_service::wrimage::{queue_message, status_url, Msg, Props, WrImage};

fn task(id: &str, status: TaskStatus) -> Task {
    Task { id: id.to_string(), text: "t".to_string(), style: None, bias: None, color: None, width: None, status }
}

#[test]
fn home_generate_then_answer() {
    let mut h = Home::create();
    assert_eq!(h.button_class(), "button is-info ");
    assert_eq!(h.update(HomeMsg::Generate), (true, HomeAction::RequestTask));
    assert!(h.is_loading);
    assert_eq!(h.button_class(), "button is-info is_loading");
    assert_eq!(h.update(HomeMsg::GeneratedTask(task("abc", TaskStatus::Waiting(1)))), (true, HomeAction::Nothing));
    assert_eq!(h.id, Some("abc".to_string()));
    assert!(!h.is_loading);
}

#[test]
fn home_failure_stops_loading() {
    let mut h = Home::create();
    h.update(HomeMsg::Generate);
    assert_eq!(h.update(HomeMsg::GenerateFail), (true, HomeAction::Nothing));
    assert!(!h.is_loading);
    assert_eq!(h.id, None);
}

#[test]
fn card_polls_until_completed() {
    let mut w = WrImage::create(Props { task: task("id1", TaskStatus::Waiting(2)) });
    assert_eq!(w.update(Msg::Tick), (false, Some("id1".to_string())));
    assert!(w.reqwest_waiting);
    let done = task("id1", TaskStatus::Completed(TaskCompleteTypes::Failed("x".to_string())));
    assert_eq!(w.update(Msg::Update(done.clone())), (true, None));
    assert!(!w.reqwest_waiting);
    assert_eq!(w.task, done);
    assert_eq!(w.update(Msg::Tick), (false, None));
    assert!(!w.reqwest_waiting);
}

#[test]
fn card_failed_poll() {
    let mut w = WrImage::create(Props { task: task("id1", TaskStatus::Working(0, 1)) });
    w.update(Msg::Tick);
    assert_eq!(w.update(Msg::UpdateFail), (false, None));
    assert!(!w.reqwest_waiting);
    assert_eq!(w.task.status, TaskStatus::Working(0, 1));
}

#[test]
fn card_texts() {
    assert_eq!(status_url("https://handwrite.herokuapp.com", "x"), "https://handwrite.herokuapp.com/status/x");
    assert_eq!(queue_message(3), "Image Loading. Queue Position : 3");
}

use handwriter_service::home::{form_request, parse_u32};
use handwriter_service::task::SuccessResult;
use handwriter_service::wrimage::{card, Card};

#[test]
fn style_is_read_as_rust_reads_a_u32() {
    assert_eq!(parse_u32("12"), Some(12));
    assert_eq!(parse_u32("+7"), Some(7));
    assert_eq!(parse_u32("007"), Some(7));
    assert_eq!(parse_u32("4294967295"), Some(u32::MAX));
    for bad in ["", "+", "-1", "4294967296", "12a", " 1", "é", "99999999999999999999"] {
        assert_eq!(parse_u32(bad), None, "{}", bad);
        assert_eq!(bad.parse::<u32>().ok(), None, "{}", bad);
    }
}

#[test]
fn page_request_from_form() {
    let p = form_request("hello".to_string(), "3", Some(0.5f32.to_bits()));
    assert_eq!(p.text, "hello");
    assert_eq!(p.style, Some(3));
    assert_eq!(p.bias, Some(0.5f32.to_bits()));
    assert_eq!(p.color, None);
    assert_eq!(p.width, None);
    assert_eq!(form_request("x".to_string(), "", None).style, None);
}

#[test]
fn card_for_each_state() {
    assert_eq!(card(&TaskStatus::Waiting(4)), Card::Loading("Image Loading. Queue Position : 4".to_string()));
    assert_eq!(card(&TaskStatus::Working(1, 5)), Card::Working(1, 5));
    let ok = SuccessResult { url: "u".to_string(), svg: "<svg/>".to_string() };
    assert_eq!(card(&TaskStatus::Completed(TaskCompleteTypes::Success(ok))), Card::Success("<svg/>".to_string()));
    assert_eq!(
        card(&TaskStatus::Completed(TaskCompleteTypes::Failed("why".to_string()))),
        Card::Failed("why".to_string())
    );
}

#[test]
fn card_change_rerenders_only_on_a_different_task() {
    let mut w = WrImage::create(Props { task: task("a", TaskStatus::Waiting(1)) });
    w.update(Msg::Tick);
    assert!(!w.change(Props { task: task("a", TaskStatus::Waiting(1)) }));
    assert!(w.reqwest_waiting);
    assert!(w.change(Props { task: task("a", TaskStatus::Working(0, 2)) }));
    assert_eq!(w.task.status, TaskStatus::Working(0, 2));
    assert!(w.change(Props { task: task("b", TaskStatus::Working(0, 2)) }));
    assert_eq!(w.task.id, "b");
}
