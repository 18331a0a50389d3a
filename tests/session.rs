use rust_analyzer_mcp::session::{Admission, Phase, Routing, Session};

fn ready_session() -> Session {
    let mut s = Session::new();
    let h = s.begin("initialize".to_string());
    assert_eq!(s.reply(h as i64, true), Routing::HandshakeDone);
    assert!(s.acknowledge());
    s
}

fn sent(a: Admission) -> u64 {
    match a {
        Admission::Sent(id) => id,
        other => panic!("not sent: {:?}", other),
    }
}

#[test]
fn handshake_takes_first_id() {
    let mut s = Session::new();
    assert_eq!(s.phase(), Phase::NotStarted);
    assert_eq!(s.begin("initialize".to_string()), 1);
    assert_eq!(s.phase(), Phase::Initializing);
    assert!(s.is_pending(1));
}

#[test]
fn ids_strictly_increase() {
    let mut s = ready_session();
    let mut last = 1;
    for _ in 0..50 {
        let id = sent(s.call("textDocument/hover".to_string()));
        assert!(id > last);
        last = id;
    }
    assert_eq!(last, 51);
}

#[test]
fn ids_are_not_reused_after_responses() {
    let mut s = ready_session();
    let a = sent(s.call("a".to_string()));
    s.reply(a as i64, true);
    let b = sent(s.call("b".to_string()));
    assert!(b > a);
}

#[test]
fn out_of_order_responses_reach_their_callers() {
    let mut s = ready_session();
    let one = sent(s.call("textDocument/hover".to_string()));
    let two = sent(s.call("textDocument/definition".to_string()));
    let three = sent(s.call("textDocument/references".to_string()));
    assert_eq!((one, two, three), (2, 3, 4));
    assert_eq!(
        s.reply(three as i64, true),
        Routing::Deliver { id: three, method: "textDocument/references".to_string() }
    );
    assert_eq!(
        s.reply(one as i64, true),
        Routing::Deliver { id: one, method: "textDocument/hover".to_string() }
    );
    assert_eq!(
        s.reply(two as i64, false),
        Routing::Deliver { id: two, method: "textDocument/definition".to_string() }
    );
    assert!(!s.is_pending(one) && !s.is_pending(two) && !s.is_pending(three));
}

#[test]
fn duplicate_or_unknown_response_is_unmatched() {
    let mut s = ready_session();
    let a = sent(s.call("x".to_string()));
    assert!(matches!(s.reply(a as i64, true), Routing::Deliver { .. }));
    assert_eq!(s.reply(a as i64, true), Routing::Unmatched);
    assert_eq!(s.reply(999, true), Routing::Unmatched);
    assert_eq!(s.reply(-1, true), Routing::Unmatched);
}

#[test]
fn calls_before_handshake_wait() {
    let mut s = Session::new();
    assert_eq!(s.call("textDocument/hover".to_string()), Admission::Wait);
    let h = s.begin("initialize".to_string());
    assert_eq!(s.call("textDocument/hover".to_string()), Admission::Wait);
    assert!(!s.is_ready());
    assert_eq!(s.reply(h as i64, true), Routing::HandshakeDone);
    assert_eq!(s.phase(), Phase::Answered);
    assert!(!s.is_ready());
    assert_eq!(s.call("textDocument/hover".to_string()), Admission::Wait);
    assert!(s.acknowledge());
    assert!(s.is_ready());
    assert!(!s.acknowledge());
    assert_eq!(s.call("textDocument/hover".to_string()), Admission::Sent(2));
}

#[test]
fn failed_handshake_closes() {
    let mut s = Session::new();
    let h = s.begin("initialize".to_string());
    assert_eq!(s.reply(h as i64, false), Routing::HandshakeFailed);
    assert_eq!(s.phase(), Phase::Closed);
    assert!(!s.is_ready());
    assert!(!s.acknowledge());
    assert_eq!(s.call("textDocument/hover".to_string()), Admission::Closed);
}

#[test]
fn timeout_removes_only_its_request() {
    let mut s = ready_session();
    let slow = sent(s.call("textDocument/hover".to_string()));
    let fast = sent(s.call("textDocument/completion".to_string()));
    assert_eq!(s.timeout(slow), Some("textDocument/hover".to_string()));
    assert_eq!(
        s.reply(fast as i64, true),
        Routing::Deliver { id: fast, method: "textDocument/completion".to_string() }
    );
    assert_eq!(s.reply(slow as i64, true), Routing::Unmatched);
    assert_eq!(s.timeout(slow), None);
}

#[test]
fn opening_twice_is_harmless() {
    let mut s = ready_session();
    let path = "/w/src/lib.rs".to_string();
    s.open(&path);
    s.open(&path);
    let id = sent(s.call("textDocument/hover".to_string()));
    assert_eq!(
        s.reply(id as i64, true),
        Routing::Deliver { id, method: "textDocument/hover".to_string() }
    );
}

#[test]
fn close_hands_back_waiting_requests() {
    let mut s = ready_session();
    let a = sent(s.call("a".to_string()));
    let b = sent(s.call("b".to_string()));
    let failed = s.close();
    assert_eq!(failed.len(), 2);
    assert_eq!(failed.get(&a), Some(&"a".to_string()));
    assert_eq!(failed.get(&b), Some(&"b".to_string()));
    assert_eq!(s.phase(), Phase::Closed);
    assert!(s.is_ready());
    assert!(!s.is_pending(a));
    assert_eq!(s.call("c".to_string()), Admission::Closed);
}
