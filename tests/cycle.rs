use notifiers::dispatch::{dispatch_for_key, settle, Cycle, Dispatch, LoopEvent, Phase};
use notifiers::gateway::{GatewayReply, Notice, Outcome};
use notifiers::intake::notify_verdict;
use notifiers::store::{registration, StoreAction};
use notifiers::token::{route_token, Environment};

fn apply(store: &mut Vec<Vec<u8>>, action: &StoreAction) {
    if let StoreAction::Remove(k) = action {
        store.retain(|x| x != k);
    }
}

fn run(store: &mut Vec<Vec<u8>>, replies: Vec<GatewayReply>) -> Vec<Dispatch> {
    let mut cycle = Cycle::start(store);
    let mut sent = Vec::new();
    for reply in replies {
        let d = cycle.pending().expect("a pending send").clone();
        let (_, action) = cycle.record(reply);
        apply(store, &action);
        sent.push(d);
    }
    assert!(cycle.is_complete());
    assert!(cycle.pending().is_none());
    sent
}

#[test]
fn scenario_register_then_delivered_keeps_token() {
    let entry = registration("abc").unwrap();
    let mut store = vec![entry.key];
    let mut cycle = Cycle::start(&store);
    assert_eq!(cycle.len(), 1);
    assert_eq!(cycle.notice(), Notice::Silent);
    let d = cycle.pending().unwrap().clone();
    assert_eq!(d.environment, Environment::Production);
    assert_eq!(d.device_token, "abc");
    let (outcome, action) = cycle.record(GatewayReply::Status(200));
    assert_eq!(outcome, Outcome::Delivered);
    assert_eq!(action, StoreAction::Keep);
    apply(&mut store, &action);
    assert_eq!(store, vec![b"abc".to_vec()]);
    assert!(cycle.is_complete());
}

#[test]
fn scenario_sandbox_invalid_removes_prefixed_key() {
    let mut store = vec![b"sandbox:xyz".to_vec()];
    let mut cycle = Cycle::start(&store);
    let d = cycle.pending().unwrap().clone();
    assert_eq!(d.environment, Environment::Sandbox);
    assert_eq!(d.device_token, "xyz");
    assert_eq!(d.store_key, b"sandbox:xyz".to_vec());
    let (outcome, action) = cycle.record(GatewayReply::Status(410));
    assert_eq!(outcome, Outcome::Invalid(410));
    assert_eq!(action, StoreAction::Remove(b"sandbox:xyz".to_vec()));
    apply(&mut store, &action);
    assert!(store.is_empty());
}

#[test]
fn scenario_notify_gone_removes_token() {
    let route = route_token("def");
    assert_eq!(route.environment, Environment::Production);
    assert_eq!(route.device_token, "def");
    let mut store = vec![b"def".to_vec(), b"ghi".to_vec()];
    let verdict = notify_verdict("def", GatewayReply::Status(410));
    assert_eq!(verdict.status, 410);
    assert_eq!(verdict.outcome, Outcome::Invalid(410));
    assert_eq!(verdict.action, StoreAction::Remove(b"def".to_vec()));
    apply(&mut store, &verdict.action);
    assert_eq!(store, vec![b"ghi".to_vec()]);
}

#[test]
fn scenario_empty_store_makes_no_sends() {
    let store: Vec<Vec<u8>> = Vec::new();
    let cycle = Cycle::start(&store);
    assert_eq!(cycle.len(), 0);
    assert_eq!(cycle.skipped(), 0);
    assert!(cycle.is_complete());
    assert!(cycle.pending().is_none());
}

#[test]
fn notify_verdicts() {
    let ok = notify_verdict("abc", GatewayReply::Status(200));
    assert_eq!(ok.status, 200);
    assert_eq!(ok.action, StoreAction::Keep);
    let other = notify_verdict("abc", GatewayReply::Status(400));
    assert_eq!(other.status, 500);
    assert_eq!(other.outcome, Outcome::TransientFailure(400));
    assert_eq!(other.action, StoreAction::Keep);
    let down = notify_verdict("abc", GatewayReply::Unreachable("dns".to_string()));
    assert_eq!(down.status, 500);
    assert_eq!(down.action, StoreAction::Keep);
    let sandbox = notify_verdict("sandbox:abc", GatewayReply::Status(410));
    assert_eq!(sandbox.status, 410);
    assert_eq!(sandbox.action, StoreAction::Remove(b"sandbox:abc".to_vec()));
}

#[test]
fn every_registered_token_is_sent_once() {
    let mut store = Vec::new();
    for t in ["a1", "sandbox:b2", "c3", "sandbox:d4"] {
        store.push(registration(t).unwrap().key);
    }
    let replies = (0..4).map(|_| GatewayReply::Status(200)).collect();
    let sent = run(&mut store, replies);
    assert_eq!(sent.len(), 4);
    for key in &store {
        assert_eq!(sent.iter().filter(|d| &d.store_key == key).count(), 1);
    }
    assert_eq!(store.len(), 4);
}

#[test]
fn failures_do_not_stop_other_sends() {
    let mut store = vec![
        b"t1".to_vec(),
        b"t2".to_vec(),
        b"sandbox:t3".to_vec(),
        b"t4".to_vec(),
    ];
    let replies = vec![
        GatewayReply::Unreachable("refused".to_string()),
        GatewayReply::Status(410),
        GatewayReply::Status(503),
        GatewayReply::Status(200),
    ];
    let sent = run(&mut store, replies);
    let names: Vec<&str> = sent.iter().map(|d| d.device_token.as_str()).collect();
    assert_eq!(names, vec!["t1", "t2", "t3", "t4"]);
    assert_eq!(
        store,
        vec![b"t1".to_vec(), b"sandbox:t3".to_vec(), b"t4".to_vec()]
    );
}

#[test]
fn malformed_keys_are_skipped() {
    let store = vec![vec![0xffu8, 0xfe], b"ok".to_vec(), vec![0xc3u8]];
    let mut cycle = Cycle::start(&store);
    assert_eq!(cycle.len(), 1);
    assert_eq!(cycle.skipped(), 2);
    assert_eq!(cycle.pending().unwrap().device_token, "ok");
    cycle.record(GatewayReply::Status(200));
    assert!(cycle.is_complete());
}

#[test]
fn dispatch_for_key_decodes_utf8() {
    let d = dispatch_for_key(&"sandbox:\u{fc}ber".as_bytes().to_vec()).unwrap();
    assert_eq!(d.environment, Environment::Sandbox);
    assert_eq!(d.device_token, "\u{fc}ber");
    assert!(dispatch_for_key(&vec![0x80u8]).is_none());
}

#[test]
fn settle_removes_only_invalid() {
    let d = dispatch_for_key(&b"sandbox:q".to_vec()).unwrap();
    assert_eq!(
        settle(&d, &Outcome::Invalid(410)),
        StoreAction::Remove(b"sandbox:q".to_vec())
    );
    assert_eq!(settle(&d, &Outcome::Delivered), StoreAction::Keep);
    assert_eq!(settle(&d, &Outcome::TransientFailure(429)), StoreAction::Keep);
    assert_eq!(
        settle(&d, &Outcome::TransportFailure("x".to_string())),
        StoreAction::Keep
    );
}

#[test]
fn loop_phases() {
    let p = Phase::initial();
    assert_eq!(p, Phase::Dispatching);
    assert_eq!(p.step(LoopEvent::Tick), Phase::Dispatching);
    let idle = p.step(LoopEvent::CycleComplete);
    assert_eq!(idle, Phase::Idle);
    assert_eq!(idle.step(LoopEvent::CycleComplete), Phase::Idle);
    assert_eq!(idle.step(LoopEvent::Tick), Phase::Dispatching);
}
