use notifiers::gateway::{classify, silent_notice, visible_notice, GatewayReply, Notice, Outcome, Priority};
use notifiers::store::{registration, RegisterError, StoreAction};
use notifiers::token::{has_sandbox_marker, route_token, Environment};

#[test]
fn production_token_is_sent_unchanged() {
    let r = route_token("abc");
    assert_eq!(r.environment, Environment::Production);
    assert_eq!(r.device_token, "abc");
}

#[test]
fn sandbox_token_is_stripped() {
    let r = route_token("sandbox:xyz");
    assert_eq!(r.environment, Environment::Sandbox);
    assert_eq!(r.device_token, "xyz");
}

#[test]
fn marker_must_be_complete_and_leading() {
    assert!(!has_sandbox_marker("sandbox"));
    assert!(!has_sandbox_marker("xsandbox:abc"));
    assert!(!has_sandbox_marker(""));
    assert!(has_sandbox_marker("sandbox:"));
    let r = route_token("sandboxabc");
    assert_eq!(r.environment, Environment::Production);
    assert_eq!(r.device_token, "sandboxabc");
}

#[test]
fn bare_marker_routes_to_sandbox_with_empty_name() {
    let r = route_token("sandbox:");
    assert_eq!(r.environment, Environment::Sandbox);
    assert_eq!(r.device_token, "");
}

#[test]
fn sandbox_token_with_multibyte_characters() {
    let r = route_token("sandbox:\u{e9}t\u{e9}");
    assert_eq!(r.environment, Environment::Sandbox);
    assert_eq!(r.device_token, "\u{e9}t\u{e9}");
}

#[test]
fn classify_each_reply() {
    assert_eq!(classify(GatewayReply::Status(200)), Outcome::Delivered);
    assert_eq!(classify(GatewayReply::Status(410)), Outcome::Invalid(410));
    assert_eq!(classify(GatewayReply::Status(400)), Outcome::TransientFailure(400));
    assert_eq!(classify(GatewayReply::Status(500)), Outcome::TransientFailure(500));
    assert_eq!(
        classify(GatewayReply::Unreachable("connection reset".to_string())),
        Outcome::TransportFailure("connection reset".to_string())
    );
}

#[test]
fn only_invalid_prunes() {
    assert!(Outcome::Invalid(410).is_invalid());
    assert!(!Outcome::Delivered.is_invalid());
    assert!(!Outcome::TransientFailure(503).is_invalid());
    assert!(!Outcome::TransportFailure("timeout".to_string()).is_invalid());
}

#[test]
fn payload_shapes() {
    let silent = silent_notice();
    assert_eq!(silent, Notice::Silent);
    assert_eq!(silent.priority(), Priority::Normal);
    let visible = visible_notice();
    assert_eq!(visible.priority(), Priority::High);
    match visible {
        Notice::Visible(alert) => {
            assert_eq!(alert.title, "New messages");
            assert_eq!(alert.title_loc_key, "new_messages");
            assert_eq!(alert.body, "You have new messages");
            assert_eq!(alert.loc_key, "new_messages_body");
            assert_eq!(alert.sound, "default");
        }
        Notice::Silent => panic!("expected a visible notice"),
    }
}

#[test]
fn registration_writes_token_bytes_and_marker() {
    let e = registration("abc").unwrap();
    assert_eq!(e.key, b"abc".to_vec());
    assert_eq!(e.marker, vec![1u8]);
    let s = registration("sandbox:xyz").unwrap();
    assert_eq!(s.key, b"sandbox:xyz".to_vec());
}

#[test]
fn registration_refuses_empty_token() {
    let e = registration("").unwrap_err();
    assert_eq!(e, RegisterError::EmptyToken);
    assert_eq!(e.status(), 400);
}

#[test]
fn registering_twice_gives_one_entry() {
    let mut store: Vec<Vec<u8>> = Vec::new();
    for _ in 0..2 {
        let e = registration("abc").unwrap();
        if !store.contains(&e.key) {
            store.push(e.key);
        }
    }
    assert_eq!(store, vec![b"abc".to_vec()]);
    assert_eq!(registration("abc").unwrap(), registration("abc").unwrap());
}

#[test]
fn store_action_keep_is_distinct_from_remove() {
    assert_ne!(StoreAction::Keep, StoreAction::Remove(b"abc".to_vec()));
}
