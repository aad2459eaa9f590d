use chat_core::Envelope;
use chat_core::MsgTypes;
use chat_core::Notification;
use chat_core::Phase;
use chat_core::Synchronizer;
use chat_core::derive_avatar;
use chat_core::encode_message_payload;

fn users_env(names: &[&str]) -> Envelope {
    Envelope {
        kind: MsgTypes::Users,
        payload_list: Some(names.iter().map(|s| s.to_string()).collect()),
        payload_text: None,
    }
}

fn message_env(from: &str, body: &str) -> Envelope {
    Envelope {
        kind: MsgTypes::Message,
        payload_list: None,
        payload_text: Some(encode_message_payload(from, body)),
    }
}

#[test]
fn roster_replacement_is_atomic() {
    let mut s = Synchronizer::new();
    let n = s.on_inbound_envelope(users_env(&["A", "B"]));
    assert_eq!(n, Some(Notification::RosterChanged));
    assert_eq!(s.state.roster.len(), 2);
    let n = s.on_inbound_envelope(users_env(&["C"]));
    assert_eq!(n, Some(Notification::RosterChanged));
    assert_eq!(s.state.roster.len(), 1);
    assert_eq!(s.state.roster[0].name, "C");
    assert_eq!(
        s.state.roster[0].avatar,
        "https://avatars.dicebear.com/api/adventurer-neutral/C.svg"
    );
}

#[test]
fn absent_user_list_means_empty_roster() {
    let mut s = Synchronizer::new();
    s.on_inbound_envelope(users_env(&["A"]));
    let n = s.on_inbound_envelope(Envelope {
        kind: MsgTypes::Users,
        payload_list: None,
        payload_text: None,
    });
    assert_eq!(n, Some(Notification::RosterChanged));
    assert_eq!(s.state.roster.len(), 0);
}

#[test]
fn log_is_append_only_in_receipt_order() {
    let mut s = Synchronizer::new();
    assert_eq!(s.state.log.len(), 0);
    let n = s.on_inbound_envelope(message_env("bob", "hi"));
    assert_eq!(n, Some(Notification::MessageReceived));
    assert_eq!(s.state.log.len(), 1);
    let n = s.on_inbound_envelope(message_env("amy", "yo"));
    assert_eq!(n, Some(Notification::MessageReceived));
    assert_eq!(s.state.log.len(), 2);
    assert_eq!(s.state.log[0].sender, "bob");
    assert_eq!(s.state.log[0].body, "hi");
    assert_eq!(s.state.log[1].sender, "amy");
    assert_eq!(s.state.log[1].body, "yo");
}

#[test]
fn malformed_payload_does_not_corrupt_state() {
    let mut s = Synchronizer::new();
    s.on_inbound_envelope(users_env(&["bob"]));
    s.on_inbound_envelope(message_env("bob", "hi"));
    let bad = Envelope {
        kind: MsgTypes::Message,
        payload_list: None,
        payload_text: Some("{not valid".to_string()),
    };
    let n = s.on_inbound_envelope(bad);
    assert_eq!(n, None);
    assert_eq!(s.state.log.len(), 1);
    assert_eq!(s.state.roster.len(), 1);
    let absent = Envelope { kind: MsgTypes::Message, payload_list: None, payload_text: None };
    let n = s.on_inbound_envelope(absent);
    assert_eq!(n, None);
    assert_eq!(s.state.log.len(), 1);
}

#[test]
fn avatar_derivation_is_deterministic() {
    assert_eq!(derive_avatar("carol"), derive_avatar("carol"));
    assert_eq!(
        derive_avatar("carol"),
        "https://avatars.dicebear.com/api/adventurer-neutral/carol.svg"
    );
}

#[test]
fn register_inbound_is_a_no_op() {
    let mut s = Synchronizer::new();
    s.on_inbound_envelope(users_env(&["A"]));
    let n = s.on_inbound_envelope(Envelope {
        kind: MsgTypes::Register,
        payload_list: None,
        payload_text: Some("mallory".to_string()),
    });
    assert_eq!(n, None);
    assert_eq!(s.state.roster.len(), 1);
    assert_eq!(s.state.log.len(), 0);
}

#[test]
fn phase_advances_on_first_processed_envelope() {
    let mut s = Synchronizer::new();
    assert_eq!(s.phase, Phase::Disconnected);
    let env = s.on_connect("alice");
    assert_eq!(s.phase, Phase::Registering);
    assert_eq!(env.kind, MsgTypes::Register);
    assert_eq!(env.payload_text.as_deref(), Some("alice"));
    assert_eq!(env.payload_list, None);
    // A malformed message is not successfully processed.
    let bad = Envelope {
        kind: MsgTypes::Message,
        payload_list: None,
        payload_text: Some("nope".to_string()),
    };
    s.on_inbound_envelope(bad);
    assert_eq!(s.phase, Phase::Registering);
    s.on_inbound_envelope(users_env(&["alice"]));
    assert_eq!(s.phase, Phase::Active);
}

#[test]
fn disconnect_keeps_state_and_allows_reconnect() {
    let mut s = Synchronizer::new();
    s.on_connect("alice");
    s.on_inbound_envelope(users_env(&["alice"]));
    s.on_inbound_envelope(message_env("alice", "hi"));
    s.on_disconnect();
    assert_eq!(s.phase, Phase::Disconnected);
    assert_eq!(s.state.roster.len(), 1);
    assert_eq!(s.state.log.len(), 1);
    let env = s.on_connect("alice2");
    assert_eq!(env.payload_text.as_deref(), Some("alice2"));
    assert_eq!(s.phase, Phase::Registering);
}

#[test]
fn submit_outbound_does_not_echo_locally() {
    let mut s = Synchronizer::new();
    s.on_connect("alice");
    let env = s.submit_outbound_message("hello").unwrap();
    assert_eq!(env.kind, MsgTypes::Message);
    assert_eq!(
        env.payload_text.as_deref(),
        Some(r#"{"from":"alice","message":"hello"}"#)
    );
    assert_eq!(s.state.log.len(), 0);
    assert_eq!(s.state.roster.len(), 0);
}

#[test]
fn submit_outbound_needs_a_connected_user() {
    let s = Synchronizer::new();
    assert!(s.submit_outbound_message("hello").is_none());
}

#[test]
fn sender_avatar_lookup_by_exact_name() {
    let mut s = Synchronizer::new();
    s.on_inbound_envelope(users_env(&["amy", "bob"]));
    assert_eq!(
        s.avatar_for_sender("bob"),
        "https://avatars.dicebear.com/api/adventurer-neutral/bob.svg"
    );
    assert_eq!(s.avatar_for_sender("Bob"), "https://via.placeholder.com/40");
    assert_eq!(s.avatar_for_sender("eve"), "https://via.placeholder.com/40");
    // The miss did not touch the roster.
    assert_eq!(s.state.roster.len(), 2);
}
