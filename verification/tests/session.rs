use stock_mm::exchange::session::{
    host_port, now_millis, now_secs, react, unique_addrs, ws_host_port, Backoff, HostAddr, UrlFault, UrlParts, WireAction,
    WireEvent,
};

fn addr(ip: &str, port: u16) -> HostAddr {
    HostAddr {
        ip: ip.to_string(),
        port,
    }
}

#[test]
fn unique_addrs_caps_and_dedups() {
    let a = addr("1.1.1.1", 443);
    let b = addr("1.1.1.2", 443);
    let a2 = addr("1.1.1.1", 8443);
    let got = unique_addrs(&vec![a.clone(), a2, b.clone()], 6);
    assert_eq!(got.len(), 2);
    assert_eq!((got[0].ip.as_str(), got[0].port), ("1.1.1.1", 443));
    assert_eq!((got[1].ip.as_str(), got[1].port), ("1.1.1.2", 443));
}

#[test]
fn unique_addrs_takes_first_n() {
    let addrs: Vec<HostAddr> = (1..=8).map(|i| addr(&format!("1.1.1.{i}"), 443)).collect();
    let got = unique_addrs(&addrs, 6);
    assert_eq!(got.len(), 6);
    assert_eq!(got[5].ip, "1.1.1.6");
}

#[test]
fn parses_wss_host_port() {
    let (host, port) = ws_host_port("wss://fx-ws.gateio.ws/v4/ws/usdt").unwrap();
    assert_eq!(host, "fx-ws.gateio.ws");
    assert_eq!(port, 443);
}

#[test]
fn addresses_that_cannot_be_used() {
    assert_eq!(ws_host_port("not an address").unwrap_err(), UrlFault::Unreadable);
    assert_eq!(ws_host_port("mailto:x@y").unwrap_err(), UrlFault::NoHost);
    assert_eq!(ws_host_port("ws://h:81/x").unwrap(), ("h".to_string(), 81));
    let none = UrlParts {
        host: Some("h".to_string()),
        port: None,
    };
    assert_eq!(host_port(Some(none)).unwrap(), ("h".to_string(), 443));
}

#[test]
fn waits_grow_and_start_over() {
    let mut b = Backoff::new();
    assert_eq!(b.wait_ms(0), 500);
    assert_eq!(b.wait_ms(399), 1_299);
    for _ in 0..10 {
        assert!(b.wait_ms(u64::MAX) < 13_300);
    }
    b.reset();
    assert_eq!(b.wait_ms(0), 500);
}

#[test]
fn reactions_on_the_wire() {
    assert_eq!(react(WireEvent::Text), WireAction::Deliver);
    assert_eq!(react(WireEvent::Ping), WireAction::AnswerPing);
    assert_eq!(react(WireEvent::Outgoing), WireAction::Send);
    assert_eq!(react(WireEvent::Closed), WireAction::Reconnect);
}

#[test]
fn unique_addrs_takes_none_at_limit_zero() {
    let addrs = vec![addr("1.1.1.1", 443), addr("1.1.1.1", 80), addr("1.1.1.2", 443)];
    assert!(unique_addrs(&addrs, 0).is_empty());
    let one = unique_addrs(&addrs, 1);
    assert_eq!(one.len(), 1);
    assert_eq!((one[0].ip.as_str(), one[0].port), ("1.1.1.1", 443));
    assert_eq!(unique_addrs(&addrs, 9).len(), 2);
}

#[test]
fn seconds_and_milliseconds_are_of_one_clock() {
    let before = now_secs();
    let ms = now_millis();
    assert!(before <= ms / 1000 && ms / 1000 <= now_secs());
}
