use stock_mm::exchange::account::{oneway_answer, oneway_first, OnewayPhase, OnewayStep};
use stock_mm::exchange::binance::Method;
use stock_mm::exchange::calls::RestCall;
use stock_mm::json::Json;

fn call(step: OnewayStep) -> (OnewayPhase, RestCall) {
    match step {
        OnewayStep::Call(p, c) => (p, c),
        other => panic!("no request: {other:?}"),
    }
}

fn done(step: OnewayStep) -> Result<(), String> {
    match step {
        OnewayStep::Done(r) => r,
        other => panic!("not done: {other:?}"),
    }
}

#[test]
fn perpetuals_are_switched_on_where_they_are_off() {
    let (p, c) = call(oneway_first());
    assert_eq!((c.method, c.path.as_str()), (Method::Get, "/api/v4/unified/unified_mode"));
    let off = r#"{"mode":"multi_currency","settings":{"usdt_futures":false}}"#;
    let (p, c) = call(oneway_answer(p, Some(off)));
    assert_eq!(p, OnewayPhase::EnableFutures);
    assert_eq!(c.method, Method::Put);
    let body = Json::parse(&c.body.unwrap()).unwrap();
    assert_eq!(body.get_text("mode").unwrap(), "multi_currency");
    let (p, c) = call(oneway_answer(p, None));
    assert_eq!(p, OnewayPhase::AskAccount);
    assert_eq!(c.path, "/api/v4/futures/usdt/accounts");
}

#[test]
fn the_position_mode_is_looked_at_whatever_the_account_is() {
    for answer in [None, Some("no json"), Some(r#"{"mode":"classic"}"#), Some(r#"{"mode":"portfolio"}"#)] {
        let (p, _) = call(oneway_answer(OnewayPhase::AskUnified, answer));
        assert_eq!(p, OnewayPhase::AskAccount);
    }
}

#[test]
fn a_single_account_is_left_alone() {
    let r = oneway_answer(OnewayPhase::AskAccount, Some(r#"{"position_mode":"single"}"#));
    assert_eq!(done(r), Ok(()));
}

#[test]
fn a_dual_account_is_switched() {
    let (p, c) = call(oneway_answer(
        OnewayPhase::AskAccount,
        Some(r#"{"in_dual_mode":true}"#),
    ));
    assert_eq!(p, OnewayPhase::Switch);
    assert_eq!(c.query, "position_mode=single");
    assert_eq!(done(oneway_answer(p, Some("anything"))), Ok(()));
    let (p, c) = call(oneway_answer(p, None));
    assert_eq!(p, OnewayPhase::FallBack);
    assert_eq!((c.path.as_str(), c.query.as_str()), ("/api/v4/futures/usdt/dual_mode", "dual_mode=false"));
    assert_eq!(done(oneway_answer(p, Some(""))), Ok(()));
    assert_eq!(done(oneway_answer(p, None)).unwrap_err(), "gate set one-way position mode");
}

#[test]
fn an_account_that_cannot_be_read() {
    assert_eq!(
        done(oneway_answer(OnewayPhase::AskAccount, None)).unwrap_err(),
        "gate GET /futures/usdt/accounts"
    );
    assert_eq!(
        done(oneway_answer(OnewayPhase::AskAccount, Some("{"))).unwrap_err(),
        "gate futures account json"
    );
}
