use cpum_core::engine::{ApplyReport, ProcessApplyInfo};
use cpum_core::ipc::{
    affinity_response, applied_process_from, apply_rules_response, authorized, bridge_response, dispatch_action,
    priority_response, request_token, token_from_file, BridgeAction, Request, Response,
};
use cpum_core::procwin::{PriorityKind, ProcessPriorities};
use cpum_core::rule::RuleMode;

fn token() -> Option<String> {
    Some("secret".to_string())
}

#[test]
fn wrong_or_missing_token_is_refused() {
    for expected in [None, Some("other".to_string())] {
        match dispatch_action(Request::Ping { token: "secret".into() }, expected) {
            BridgeAction::Reply(r) => {
                assert!(!r.ok);
                assert_eq!(r.error.as_deref(), Some("unauthorized: bridge token mismatch"));
                assert!(r.applied.is_none() && r.changed.is_none() && r.priorities.is_none());
            }
            other => panic!("unexpected {:?}", other),
        }
    }
}

#[test]
fn ping_is_answered() {
    match dispatch_action(Request::Ping { token: "secret".into() }, token()) {
        BridgeAction::Reply(r) => {
            assert!(r.ok);
            assert!(r.error.is_none());
        }
        other => panic!("unexpected {:?}", other),
    }
}

#[test]
fn set_affinity_parses_masks() {
    let req = Request::SetAffinity { token: "secret".into(), pid: 42, masks: vec!["0xF".into(), "0x10".into()], mode: RuleMode::Soft };
    match dispatch_action(req, token()) {
        BridgeAction::SetAffinity { pid, masks, mode } => {
            assert_eq!(pid, 42);
            assert_eq!(masks, vec![0xF, 0x10]);
            assert_eq!(mode, RuleMode::Soft);
        }
        other => panic!("unexpected {:?}", other),
    }
    let bad = Request::SetAffinity { token: "secret".into(), pid: 42, masks: vec!["nope".into()], mode: RuleMode::Strict };
    match dispatch_action(bad, token()) {
        BridgeAction::Reply(r) => assert!(!r.ok && r.error.is_some()),
        other => panic!("unexpected {:?}", other),
    }
}

#[test]
fn set_priority_lists_the_writes() {
    let req = Request::SetPriority { token: "secret".into(), pid: 7, priority_class: Some(0x80), io_priority: None, memory_priority: Some(3) };
    match dispatch_action(req, token()) {
        BridgeAction::SetPriority { pid, writes } => {
            assert_eq!(pid, 7);
            assert_eq!(writes, vec![(PriorityKind::Class, 0x80), (PriorityKind::Memory, 3)]);
        }
        other => panic!("unexpected {:?}", other),
    }
    assert!(matches!(dispatch_action(Request::ApplyRules { token: "secret".into() }, token()), BridgeAction::ApplyRules));
}

#[test]
fn responses_carry_results() {
    let ok = affinity_response(Ok(true));
    assert!(ok.ok && ok.error.is_none());
    let err = affinity_response(Err("boom".into()));
    assert!(!err.ok);
    assert_eq!(err.error.as_deref(), Some("boom"));

    let p = ProcessPriorities { priority_class: Some(0x20), io_priority: Some(2), memory_priority: Some(5) };
    let r = priority_response(Ok(p));
    assert!(r.ok);
    assert_eq!(r.priorities, Some(p));
    assert!(!priority_response(Err("x".into())).ok);

    let mut report = ApplyReport::new();
    report.record(Ok(ProcessApplyInfo { pid: 3, mask_hex: Some("0x3".into()), priorities: Some(p) }));
    report.record(Err("denied".into()));
    let r = apply_rules_response(Ok(report));
    assert!(r.ok);
    assert_eq!(r.applied, Some(1));
    let changed = r.changed.unwrap();
    assert_eq!(changed.len(), 1);
    assert_eq!(changed[0].pid, 3);
    assert_eq!(changed[0].mask_hex.as_deref(), Some("0x3"));
    assert_eq!(changed[0].priorities, Some(p));
    let r = apply_rules_response(Err("no rules".into()));
    assert_eq!(r.error.as_deref(), Some("no rules"));
}

#[test]
fn response_constructors() {
    let r = Response::ok();
    assert!(r.ok && r.error.is_none() && r.applied.is_none() && r.changed.is_none() && r.priorities.is_none());
    let r = Response::error("bad".to_string());
    assert!(!r.ok);
    assert_eq!(r.error.as_deref(), Some("bad"));
    let r = Response::applied(4, vec![]);
    assert_eq!(r.applied, Some(4));
    assert!(r.ok);
    let d = Response::default();
    assert!(!d.ok && d.error.is_none());
}

#[test]
fn token_file_text_is_trimmed() {
    assert_eq!(token_from_file("  abc\n"), Some("abc".to_string()));
    assert_eq!(token_from_file(" \n\t "), None);
    assert!(authorized(&Some("abc".into()), &"abc".to_string()));
    assert!(!authorized(&Some("abc".into()), &"abd".to_string()));
    assert!(!authorized(&None, &"abc".to_string()));
    let req = Request::ApplyRules { token: "t1".into() };
    assert_eq!(request_token(&req), "t1");
}

#[test]
fn client_reads_answers() {
    assert!(bridge_response(Response::ok()).is_ok());
    assert_eq!(bridge_response(Response::error("nope".into())).unwrap_err(), "nope");
    assert_eq!(bridge_response(Response::default()).unwrap_err(), "service bridge refused the request");
    let info = ProcessApplyInfo { pid: 1, mask_hex: None, priorities: None };
    let a = applied_process_from(&info);
    assert_eq!(a.pid, 1);
    assert!(a.mask_hex.is_none());
}
