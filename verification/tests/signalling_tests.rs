use dango::signalling::{join_response, HostSocketAction, HostSocketMessage, JoinOutcome, RoomHost, RoomRegistry};

fn is_safe(c: char) -> bool {
    c.is_ascii_alphanumeric() || c == '_' || c == '~'
}

#[test]
fn registry_lookup_follows_connect_and_disconnect() {
    let mut r: RoomRegistry<u32> = RoomRegistry::new();
    let a = "room-a".to_string();
    let b = "room-b".to_string();
    assert_eq!(r.get_host(&a), None);
    r.host_connect(a.clone(), 1);
    r.host_connect(b.clone(), 2);
    assert_eq!(r.get_host(&a), Some(&1));
    assert_eq!(r.get_host(&b), Some(&2));
    r.host_connect(a.clone(), 3);
    assert_eq!(r.get_host(&a), Some(&3));
    r.host_disconnect(&a);
    assert_eq!(r.get_host(&a), None);
    assert_eq!(r.get_host(&b), Some(&2));
    r.host_disconnect(&a);
    assert_eq!(r.get_host(&b), Some(&2));
}

#[test]
fn new_room_has_fresh_safe_id() {
    let h1: RoomHost<u8, &str> = RoomHost::new("registry");
    let h2: RoomHost<u8, &str> = RoomHost::new("registry");
    assert_eq!(h1.id().chars().count(), 21);
    assert!(h1.id().chars().all(is_safe));
    assert_ne!(h1.id(), h2.id());
    assert_eq!(*h1.registry_address(), "registry");
}

#[test]
fn host_answers_ping_and_ignores_other() {
    let mut h: RoomHost<u8, ()> = RoomHost::new(());
    match h.on_socket_message(HostSocketMessage::Ping(vec![9, 8])) {
        HostSocketAction::Pong(b) => assert_eq!(b, vec![9, 8]),
        _ => panic!("expected a pong"),
    }
    assert!(matches!(h.on_socket_message(HostSocketMessage::Other), HostSocketAction::Ignore));
}

#[test]
fn answers_go_to_joiners_in_offer_order() {
    let mut h: RoomHost<u32, ()> = RoomHost::new(());
    assert_eq!(h.on_offer("offer-1".to_string(), 1), "offer-1");
    assert_eq!(h.on_offer("offer-2".to_string(), 2), "offer-2");
    assert_eq!(h.waiting_len(), 2);
    match h.on_socket_message(HostSocketMessage::Text("answer-1".to_string())) {
        HostSocketAction::Answer(w, a) => {
            assert_eq!(w, 1);
            assert_eq!(a, "answer-1");
        },
        _ => panic!("expected an answer"),
    }
    assert_eq!(h.waiting_len(), 1);
    h.on_offer("offer-3".to_string(), 3);
    for expected in [2u32, 3] {
        match h.on_socket_message(HostSocketMessage::Text("answer".to_string())) {
            HostSocketAction::Answer(w, _) => assert_eq!(w, expected),
            _ => panic!("expected an answer"),
        }
    }
}

#[test]
fn join_responses() {
    assert_eq!(join_response(JoinOutcome::Answer("sdp".to_string())), (200, "sdp".to_string()));
    assert_eq!(join_response(JoinOutcome::RoomNotFound), (404, "Room with given id not found".to_string()));
    assert_eq!(join_response(JoinOutcome::RegistryUnavailable), (500, String::new()));
    assert_eq!(join_response(JoinOutcome::HostUnavailable), (500, String::new()));
    assert_eq!(join_response(JoinOutcome::NoAnswer), (500, String::new()));
}
