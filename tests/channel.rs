use hug_relay::{message_sockets, Hub, KeyRegistry, Message, RecvOutcome, SendOutcome, CHANNEL_CAPACITY, ROOM_TTL_MILLIS};

#[test]
fn dropped_end_closes_peer_stream() {
    let mut hub: Hub<u32> = Hub::new();
    let (a, b) = message_sockets(&mut hub);
    assert_eq!(hub.recv(&b), RecvOutcome::Empty);
    assert_eq!(hub.send(&a, Message::Payload(1)), SendOutcome::Sent);
    hub.release(a);
    assert_eq!(hub.recv(&b), RecvOutcome::Message(Message::Payload(1)));
    assert_eq!(hub.recv(&b), RecvOutcome::Closed);
    assert_eq!(hub.send(&b, Message::Payload(2)), SendOutcome::Disconnected);
}

#[test]
fn full_inbox_refuses_without_dropping() {
    let mut hub: Hub<u32> = Hub::new();
    let (a, b) = message_sockets(&mut hub);
    for i in 0..CHANNEL_CAPACITY {
        assert_eq!(hub.send(&a, Message::Payload(i as u32)), SendOutcome::Sent);
    }
    assert_eq!(hub.check_send(&a), SendOutcome::Full);
    assert_eq!(hub.send(&a, Message::Payload(999)), SendOutcome::Full);
    // Notices count against the bound too.
    assert_eq!(hub.send(&a, Message::Leave), SendOutcome::Full);
    for i in 0..CHANNEL_CAPACITY {
        assert_eq!(hub.recv(&b), RecvOutcome::Message(Message::Payload(i as u32)));
    }
    assert_eq!(hub.recv(&b), RecvOutcome::Empty);
    // The other direction is independent.
    assert_eq!(hub.recv(&a), RecvOutcome::Empty);
}

#[test]
fn channels_get_distinct_numbers() {
    let mut hub: Hub<u32> = Hub::new();
    let (a, b) = message_sockets(&mut hub);
    let (c, d) = hub.open();
    assert_eq!(a.channel, b.channel);
    assert!(!a.side && b.side);
    assert_ne!(a.channel, c.channel);
    assert_eq!(c.channel, d.channel);
    assert!(hub.has_capacity());
}

#[test]
fn registry_reports_expired_room_as_absent() {
    let mut hub: Hub<u32> = Hub::new();
    let (_a, b) = message_sockets(&mut hub);
    let mut registry = KeyRegistry::new();
    registry.insert(5, b, 1_000);
    assert!(registry.contains(5));
    assert_eq!(registry.remove(5, 1_000 + ROOM_TTL_MILLIS), None);
    assert!(registry.contains(5));
    assert_eq!(registry.take_expired(5, 1_000), None);
    let expired = registry.take_expired(5, 1_000 + ROOM_TTL_MILLIS).unwrap();
    assert_eq!(expired.expires_at, 1_000 + ROOM_TTL_MILLIS);
    assert!(!registry.contains(5));
    assert_eq!(registry.remove(5, 0), None);
}

#[test]
fn registry_hands_out_live_room_once() {
    let mut hub: Hub<u32> = Hub::new();
    let (a, b) = message_sockets(&mut hub);
    let mut registry = KeyRegistry::new();
    registry.insert(9, b, 0);
    let entry = registry.remove(9, ROOM_TTL_MILLIS - 1).unwrap();
    assert_eq!(entry.socket.channel, a.channel);
    assert!(entry.socket.side);
    assert_eq!(registry.remove(9, 0), None);
}
