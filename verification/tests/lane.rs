use stock_mm::exchange::gate_trade::{parse_api_frame, PENDING_KEEP_MS};
use stock_mm::exchange::lane::{LaneAction, LaneEvent, LaneState, Phase, RpcState, RpcStep};
use stock_mm::exchange::session::{Backoff, LinkEvent, WireAction, WireEvent};
use stock_mm::json::Json;

fn accepted(id: &str) -> LaneEvent {
    LaneEvent::Frame(parse_api_frame(&format!(
        r#"{{"request_id":"{id}","ack":false,"header":{{"status":"200"}},"data":{{"result":{{"id":7}}}}}}"#
    )))
}

fn ready_lane() -> LaneState {
    let mut l = LaneState::new();
    let s = l.on_event(LaneEvent::Connected("login".to_string()), 0, 0);
    assert_eq!(s.action, LaneAction::SendLogin);
    let s = l.on_event(accepted("login"), 0, 0);
    assert_eq!(s.ready, Some(true));
    l
}

#[test]
fn a_lane_becomes_ready_by_its_login() {
    let mut l = LaneState::new();
    assert_eq!(l.phase, Phase::Down);
    l.on_event(LaneEvent::Connected("login".to_string()), 0, 0);
    let s = l.on_event(accepted("other"), 0, 0);
    assert_eq!((s.ready, s.action), (None, LaneAction::GoOn));
    assert_eq!(l.phase, Phase::LoggingIn);
    let s = l.on_event(accepted("login"), 0, 0);
    assert_eq!(s.ready, Some(true));
    assert_eq!(l.phase, Phase::Ready);
}

#[test]
fn a_refused_login_is_tried_again() {
    let mut l = LaneState::new();
    l.on_event(LaneEvent::Connected("login".to_string()), 0, 0);
    let refused = parse_api_frame(
        r#"{"request_id":"login","header":{"status":"401"},"data":{"errs":{"label":"BAD","message":"no"}}}"#,
    );
    let s = l.on_event(LaneEvent::Frame(refused), 0, 7);
    assert_eq!(s.action, LaneAction::Reconnect);
    assert_eq!(s.wait_ms, 507);
    assert_eq!(s.ready, Some(false));
    let s = l.on_event(LaneEvent::ConnectFailed, 0, 0);
    assert_eq!(s.wait_ms, 900);
    let s = l.on_event(LaneEvent::LoginTimedOut, 0, 0);
    assert_eq!(s.wait_ms, 1_700);
    let s = l.on_event(LaneEvent::LoginNotSent, 0, 0);
    assert_eq!(s.wait_ms, 3_300);
}

#[test]
fn answers_reach_the_requests_they_are_for() {
    let mut l = ready_lane();
    let s = l.on_event(LaneEvent::Command("a".to_string()), 10, 0);
    assert_eq!(s.action, LaneAction::SendRequest);
    assert!(s.overdue.is_empty());
    let s = l.on_event(accepted("unknown"), 11, 0);
    assert!(s.answer.is_none());
    let s = l.on_event(accepted("a"), 11, 0);
    let (id, result) = s.answer.unwrap();
    assert_eq!(id, "a");
    assert_eq!(result.unwrap().get_int("id"), Some(7));
    let s = l.on_event(accepted("a"), 12, 0);
    assert!(s.answer.is_none());
}

#[test]
fn overdue_requests_are_given_up_with_the_next_one() {
    let mut l = ready_lane();
    l.on_event(LaneEvent::Command("a".to_string()), 0, 0);
    l.on_event(LaneEvent::Command("b".to_string()), 1, 0);
    let s = l.on_event(LaneEvent::Command("c".to_string()), PENDING_KEEP_MS + 1, 0);
    assert_eq!(s.overdue, vec!["a".to_string()]);
}

#[test]
fn a_lost_lane_leaves_no_request_waiting() {
    let mut l = ready_lane();
    l.on_event(LaneEvent::Command("a".to_string()), 0, 0);
    l.on_event(LaneEvent::Command("b".to_string()), 0, 0);
    let s = l.on_event(LaneEvent::Wire(WireEvent::Closed), 1, 0);
    assert_eq!(s.action, LaneAction::Reconnect);
    assert_eq!(s.lost, vec!["a".to_string(), "b".to_string()]);
    assert_eq!(s.ready, Some(false));
    assert_eq!(l.phase, Phase::Down);
    assert!(l.on_event(accepted("a"), 2, 0).answer.is_none());
    let s = l.on_event(LaneEvent::Wire(WireEvent::Ping), 3, 0);
    assert_eq!(s.action, LaneAction::AnswerPing);
}

#[test]
fn a_request_goes_on_only_where_it_was_not_carried_out() {
    let ready = vec![true, false, true];
    let mut r = RpcState::new(1);
    assert!(matches!(r.next(&ready), RpcStep::Try(2)));
    assert!(r.on_result(Err("not_sent".to_string())).is_none());
    assert!(matches!(r.next(&ready), RpcStep::Try(0)));
    assert!(r.on_result(Err("311: rate".to_string())).is_none());
    let RpcStep::Fail(m) = r.next(&ready) else {
        panic!("no lane is left");
    };
    assert_eq!(m, "311: rate");
    assert_eq!(
        r.on_result(Err("timeout".to_string())).unwrap().unwrap_err(),
        "timeout"
    );
    assert!(r.on_result(Ok(Json::parse("1").unwrap())).unwrap().is_ok());
}

#[test]
fn a_request_without_a_lane_fails() {
    let RpcStep::Fail(m) = RpcState::new(0).next(&Vec::new()) else {
        panic!("there is no lane");
    };
    assert_eq!(m, "disconnect: no gate trade lane");
    let RpcStep::Fail(m) = RpcState::new(5).next(&vec![false, false]) else {
        panic!("no lane is ready");
    };
    assert_eq!(m, "disconnect: no ready gate trade ws");
}

#[test]
fn a_link_tells_when_it_is_up_or_down() {
    let mut b = Backoff::new();
    let s = b.on_link(LinkEvent::ConnectFailed, 3);
    assert_eq!((s.tell, s.action, s.wait_ms), (Some(false), WireAction::Reconnect, 503));
    let s = b.on_link(LinkEvent::Connected, 0);
    assert_eq!((s.tell, s.action), (Some(true), WireAction::GoOn));
    let s = b.on_link(LinkEvent::Wire(WireEvent::Text), 0);
    assert_eq!((s.tell, s.action), (None, WireAction::Deliver));
    let s = b.on_link(LinkEvent::Wire(WireEvent::Closed), 0);
    assert_eq!((s.tell, s.action, s.wait_ms), (Some(false), WireAction::Reconnect, 500));
}

#[test]
fn a_request_is_left_until_the_lane_is_ready() {
    let mut l = LaneState::new();
    let s = l.on_event(LaneEvent::Command("a".to_string()), 0, 0);
    assert_eq!(s.action, LaneAction::LeaveRequest);
    l.on_event(LaneEvent::Connected("login".to_string()), 0, 0);
    let s = l.on_event(LaneEvent::Command("a".to_string()), 0, 0);
    assert_eq!(s.action, LaneAction::LeaveRequest);
    assert!(l.pending.waiting.is_empty());
}

#[test]
fn a_request_of_the_same_id_takes_the_place_of_the_first() {
    let mut l = ready_lane();
    l.on_event(LaneEvent::Command("a".to_string()), 0, 0);
    l.on_event(LaneEvent::Command("b".to_string()), 1, 0);
    l.on_event(LaneEvent::Command("a".to_string()), 2, 0);
    let ids: Vec<(&str, u64)> = l
        .pending
        .waiting
        .iter()
        .map(|p| (p.id.as_str(), p.since_ms))
        .collect();
    assert_eq!(ids, vec![("b", 1), ("a", 2)]);
    assert!(l.on_event(accepted("a"), 3, 0).answer.is_some());
    assert!(l.on_event(accepted("a"), 3, 0).answer.is_none());
}
