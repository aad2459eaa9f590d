use chat_core::Bus;
use chat_core::Chat;
use chat_core::MsgTypes;
use chat_core::Notification;
use chat_core::encode;
use chat_core::encode_message_payload;
use chat_core::Envelope;

fn inbound_users_text(names: &[&str]) -> String {
    encode(&Envelope {
        kind: MsgTypes::Users,
        payload_list: Some(names.iter().map(|s| s.to_string()).collect()),
        payload_text: None,
    })
}

fn inbound_message_text(from: &str, body: &str) -> String {
    encode(&Envelope {
        kind: MsgTypes::Message,
        payload_list: None,
        payload_text: Some(encode_message_payload(from, body)),
    })
}

#[test]
fn publish_reaches_every_subscriber_in_order() {
    let mut bus = Bus::new();
    let h1 = bus.subscribe();
    let h2 = bus.subscribe();
    assert_ne!(h1, h2);
    bus.publish(Notification::RosterChanged);
    bus.publish(Notification::MessageReceived);
    let expected = vec![Notification::RosterChanged, Notification::MessageReceived];
    assert_eq!(bus.notifications(h1), Some(expected.clone()));
    assert_eq!(bus.notifications(h2), Some(expected));
}

#[test]
fn late_subscriber_only_sees_later_notifications() {
    let mut bus = Bus::new();
    let h1 = bus.subscribe();
    bus.publish(Notification::RosterChanged);
    let h2 = bus.subscribe();
    bus.publish(Notification::MessageReceived);
    assert_eq!(
        bus.notifications(h1),
        Some(vec![Notification::RosterChanged, Notification::MessageReceived])
    );
    assert_eq!(bus.notifications(h2), Some(vec![Notification::MessageReceived]));
}

#[test]
fn unsubscribe_stops_delivery_and_repeats_are_no_ops() {
    let mut bus = Bus::new();
    let h1 = bus.subscribe();
    let h2 = bus.subscribe();
    bus.publish(Notification::RosterChanged);
    bus.unsubscribe(h1);
    assert_eq!(bus.notifications(h1), None);
    bus.publish(Notification::MessageReceived);
    assert_eq!(bus.notifications(h1), None);
    assert_eq!(
        bus.notifications(h2),
        Some(vec![Notification::RosterChanged, Notification::MessageReceived])
    );
    // Unsubscribing again changes nothing.
    bus.unsubscribe(h1);
    bus.unsubscribe(h1);
    assert_eq!(bus.notifications(h1), None);
    assert_eq!(
        bus.notifications(h2),
        Some(vec![Notification::RosterChanged, Notification::MessageReceived])
    );
}

#[test]
fn unsubscribe_unknown_handle_is_a_no_op() {
    let mut bus = Bus::new();
    let h1 = bus.subscribe();
    bus.unsubscribe(12345);
    bus.publish(Notification::RosterChanged);
    assert_eq!(bus.notifications(h1), Some(vec![Notification::RosterChanged]));
}

#[test]
fn notification_order_matches_processing_order() {
    // Two observers, three envelopes: one roster snapshot and two messages.
    // Both observers see three notifications, in arrival order.
    let mut chat = Chat::new();
    chat.connect("alice");
    let h1 = chat.bus.subscribe();
    let h2 = chat.bus.subscribe();
    assert_eq!(
        chat.handle_inbound(&inbound_users_text(&["alice", "bob"])),
        Some(Notification::RosterChanged)
    );
    assert_eq!(
        chat.handle_inbound(&inbound_message_text("bob", "hi")),
        Some(Notification::MessageReceived)
    );
    assert_eq!(
        chat.handle_inbound(&inbound_message_text("alice", "yo")),
        Some(Notification::MessageReceived)
    );
    let expected = vec![
        Notification::RosterChanged,
        Notification::MessageReceived,
        Notification::MessageReceived,
    ];
    assert_eq!(chat.bus.notifications(h1), Some(expected.clone()));
    assert_eq!(chat.bus.notifications(h2), Some(expected));
}

#[test]
fn dropped_text_publishes_nothing() {
    let mut chat = Chat::new();
    let h = chat.bus.subscribe();
    assert_eq!(chat.handle_inbound("garbage"), None);
    assert_eq!(
        chat.handle_inbound(r#"{"messageType":"register","dataArray":null,"data":"x"}"#),
        None
    );
    assert_eq!(chat.bus.notifications(h), Some(vec![]));
    assert_eq!(chat.sync.state.log.len(), 0);
}

#[test]
fn client_connect_and_submit_produce_wire_text() {
    let mut chat = Chat::new();
    let reg = chat.connect("alice");
    assert_eq!(reg, r#"{"messageType":"register","dataArray":null,"data":"alice"}"#);
    let out = chat.submit_outbound("hello").unwrap();
    assert_eq!(
        out,
        "{\"messageType\":\"message\",\"dataArray\":null,\"data\":\"{\\\"from\\\":\\\"alice\\\",\\\"message\\\":\\\"hello\\\"}\"}"
    );
    // No optimistic echo into the local log.
    assert_eq!(chat.sync.state.log.len(), 0);
}
