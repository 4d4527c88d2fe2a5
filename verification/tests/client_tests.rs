use dango::client::{
    all_audio_loaded, disconnection_event, find_available_port, join_endpoint_url, load_complete_class, ping_reply,
    shareable_relative_url, status_class_name, ClientConnectionEvent, ClientSystemState,
};

#[test]
fn connected_is_reported_once_when_the_client_becomes_ready() {
    let mut s = ClientSystemState::new();
    assert_eq!(s.update(None), None);
    assert_eq!(s.update(Some(4)), Some(ClientConnectionEvent::Connected(4)));
    assert_eq!(s.update(Some(4)), None);
    assert_eq!(s.update(None), None);
    assert_eq!(s.update(Some(6)), Some(ClientConnectionEvent::Connected(6)));
}

#[test]
fn disconnection_event_carries_handle() {
    assert_eq!(disconnection_event(12), ClientConnectionEvent::Disconnected(12));
}

#[test]
fn first_free_port_is_found() {
    assert_eq!(find_available_port(|p: u16| p >= 3000), Some(3000));
    assert_eq!(find_available_port(|_p: u16| true), Some(1025));
    assert_eq!(find_available_port(|p: u16| p == 65534), Some(65534));
}

#[test]
fn no_port_when_none_is_free() {
    assert_eq!(find_available_port(|_p: u16| false), None);
    assert_eq!(find_available_port(|p: u16| p < 1025 || p == 65535), None);
}

#[test]
fn ping_is_answered_with_pong() {
    assert_eq!(ping_reply(b"ping"), Some(b"pong".to_vec()));
}

#[test]
fn other_payloads_get_no_reply() {
    assert_eq!(ping_reply(b"pong"), None);
    assert_eq!(ping_reply(b"ping!"), None);
    assert_eq!(ping_reply(b"pin"), None);
    assert_eq!(ping_reply(b""), None);
}

#[test]
fn join_urls() {
    assert_eq!(join_endpoint_url("abc"), "http://dango-daikazoku.herokuapp.com/join/abc");
    assert_eq!(shareable_relative_url("xyz_1"), "../client/?join=xyz_1");
    assert_eq!(shareable_relative_url(""), "../client/?join=");
}

#[test]
fn audio_loaded_only_when_all_of_at_least_one_loaded() {
    assert!(!all_audio_loaded(&vec![]));
    assert!(all_audio_loaded(&vec![true]));
    assert!(all_audio_loaded(&vec![true, true, true]));
    assert!(!all_audio_loaded(&vec![true, false, true]));
}

#[test]
fn status_class_names() {
    assert_eq!(status_class_name(&ClientConnectionEvent::Connected(1)), "status-connected");
    assert_eq!(status_class_name(&ClientConnectionEvent::Disconnected(1)), "status-disconnected");
}

#[test]
fn load_complete_classes() {
    assert_eq!(load_complete_class("audio"), "load-complete-audio");
    assert_eq!(load_complete_class("connection"), "load-complete-connection");
}
