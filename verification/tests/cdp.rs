use haul::browser::cdp::{call_error, Cdp, Delivery};

#[test]
fn call_resolves_the_matching_id_only() {
    let mut c = Cdp::new();
    assert_eq!(c.call(), 1);
    assert_eq!(c.call(), 2);
    match c.receive(r#"{"id":2,"result":{"product":"Chrome/1"}}"#) {
        Delivery::Reply(2, Ok(j)) => assert_eq!(j.text_at("product"), Some("Chrome/1")),
        _ => panic!("no reply"),
    }
    assert!(matches!(c.receive(r#"{"id":2,"result":{}}"#), Delivery::Ignored));
    assert!(matches!(c.receive(r#"{"id":7,"result":{}}"#), Delivery::Ignored));
    assert!(matches!(c.receive("{ broken"), Delivery::Ignored));
    assert!(matches!(c.receive(r#"{"other":1}"#), Delivery::Ignored));
    assert_eq!(c.close(), [1]);
    assert!(c.close().is_empty());
}

#[test]
fn protocol_error_becomes_err_with_method_name() {
    let mut c = Cdp::new();
    let a = c.call();
    let b = c.call();
    match c.receive(&format!("{{\"id\":{a},\"error\":{{\"message\":\"no such method\"}}}}")) {
        Delivery::Reply(_, Err(e)) => {
            assert_eq!(e, "no such method");
            assert_eq!(call_error("Nope.nope", &e), "Nope.nope：no such method");
        }
        _ => panic!("no error"),
    }
    match c.receive(&format!("{{\"id\":{b},\"error\":{{}}}}")) {
        Delivery::Reply(_, Err(e)) => assert_eq!(e, "未知錯誤"),
        _ => panic!("no error"),
    }
}

#[test]
fn events_are_broadcast_with_session() {
    let mut c = Cdp::new();
    match c.receive(r#"{"method":"Network.x","params":{"k":"v"},"sessionId":"S1"}"#) {
        Delivery::Event(e) => {
            assert_eq!(e.method, "Network.x");
            assert_eq!(e.params.text_at("k"), Some("v"));
            assert_eq!(e.session_id.as_deref(), Some("S1"));
        }
        _ => panic!("no event"),
    }
    match c.receive(r#"{"method":"A.b"}"#) {
        Delivery::Event(e) => assert!(e.session_id.is_none()),
        _ => panic!("no event"),
    }
}

#[test]
fn closing_the_transport_fails_pending_calls() {
    let mut c = Cdp::new();
    let (a, b) = (c.call(), c.call());
    let mut gone = c.close();
    gone.sort();
    assert_eq!(gone, [a, b]);
    assert!(matches!(c.receive(&format!("{{\"id\":{a},\"result\":{{}}}}")), Delivery::Ignored));
    assert!(c.room() > 0);
}

#[test]
fn a_call_that_could_not_be_sent_waits_no_more() {
    let mut c = Cdp::new();
    let a = c.call();
    assert!(c.cancel(a));
    assert!(!c.cancel(a));
    assert!(c.close().is_empty());
}
