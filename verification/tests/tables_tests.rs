use dango::address::SocketAddress;
use dango::connections::{ConnectionRecord, ConnectionTable, NetworkEvent};
use dango::keyed_map::{contains_key_view, KeyedMap};
use dango::player::PlayerId;

fn record(address: SocketAddress, tag: u8) -> ConnectionRecord<u8> {
    ConnectionRecord { remote: Some(address), connection: tag }
}

#[test]
fn keyed_map_insert_get_remove() {
    let mut m: KeyedMap<PlayerId, &str> = KeyedMap::new();
    assert_eq!(m.len(), 0);
    assert_eq!(m.insert(PlayerId(1), "one"), None);
    assert_eq!(m.insert(PlayerId(2), "two"), None);
    assert_eq!(m.insert(PlayerId(1), "uno"), Some("one"));
    assert_eq!(m.len(), 2);
    assert!(m.contains_key(&PlayerId(2)));
    assert_eq!(m.get(&PlayerId(1)), Some(&"uno"));
    assert_eq!(m.remove(&PlayerId(2)), Some("two"));
    assert_eq!(m.remove(&PlayerId(2)), None);
    assert!(!m.contains_key(&PlayerId(2)));
    assert_eq!(m.keys(), vec![PlayerId(1)]);
}

#[test]
fn keyed_map_retain_keys() {
    let mut m: KeyedMap<String, u32> = KeyedMap::new();
    for (k, v) in [("a", 1), ("b", 2), ("c", 3)] {
        m.insert(k.to_string(), v);
    }
    let mut removed = m.retain_keys(&vec!["c".to_string(), "a".to_string(), "z".to_string()]);
    removed.sort();
    assert_eq!(removed, vec![("b".to_string(), 2)]);
    let mut keys = m.keys();
    keys.sort();
    assert_eq!(keys, vec!["a".to_string(), "c".to_string()]);
    assert_eq!(m.get(&"c".to_string()), Some(&3));
}

#[test]
fn key_view_search() {
    let keys = vec![PlayerId(3), PlayerId(5), PlayerId(8)];
    assert!(contains_key_view(&keys, &PlayerId(5)));
    assert!(!contains_key_view(&keys, &PlayerId(4)));
    assert!(!contains_key_view(&Vec::<PlayerId>::new(), &PlayerId(4)));
}

#[test]
fn connections_get_sequential_handles() {
    let a = SocketAddress::v4(1, 1, 1, 1, 1);
    let mut t: ConnectionTable<u8> = ConnectionTable::new();
    assert_eq!(t.register(record(a, 10)), 0);
    assert_eq!(t.register(record(a, 11)), 1);
    assert_eq!(t.register(record(a, 12)), 2);
    assert_eq!(t.len(), 3);
    assert_eq!(t.get(1).map(|r| r.connection), Some(11));
    let removed = t.remove(1);
    assert_eq!(removed.map(|r| r.connection), Some(11));
    assert!(t.get(1).is_none());
    assert_eq!(t.register(record(a, 13)), 3);
    let mut handles = t.handles();
    handles.sort();
    assert_eq!(handles, vec![0, 2, 3]);
}

#[test]
fn disconnecting_an_address_removes_all_its_connections() {
    let a = SocketAddress::v4(1, 1, 1, 1, 1);
    let b = SocketAddress::v4(2, 2, 2, 2, 2);
    let mut t: ConnectionTable<u8> = ConnectionTable::new();
    t.register(record(a, 0));
    t.register(record(b, 1));
    t.register(record(a, 2));
    let mut removed = t.disconnect(a);
    removed.sort();
    assert_eq!(removed, vec![0, 2]);
    assert_eq!(t.handles(), vec![1]);
    assert!(t.disconnect(a).is_empty());
    for h in t.handles() {
        assert_ne!(t.get(h).unwrap().remote, Some(a));
    }
}

#[test]
fn network_update_events_in_order() {
    let a = SocketAddress::v4(1, 1, 1, 1, 1);
    let b = SocketAddress::v4(2, 2, 2, 2, 2);
    let mut t: ConnectionTable<u8> = ConnectionTable::new();
    t.register(record(b, 0));
    let events: Vec<NetworkEvent<Vec<u8>>> =
        t.accept_and_disconnect(Some("endpoint".to_string()), vec![record(a, 1), record(a, 2)], vec![b]);
    assert_eq!(events.len(), 4);
    assert!(matches!(&events[0], NetworkEvent::Hosted(id) if id == "endpoint"));
    assert!(matches!(events[1], NetworkEvent::Connected(1)));
    assert!(matches!(events[2], NetworkEvent::Connected(2)));
    assert!(matches!(events[3], NetworkEvent::Disconnected(0)));
    let mut handles = t.handles();
    handles.sort();
    assert_eq!(handles, vec![1, 2]);
}

#[test]
fn network_update_without_changes() {
    let mut t: ConnectionTable<u8> = ConnectionTable::new();
    let events: Vec<NetworkEvent<()>> = t.accept_and_disconnect(None, vec![], vec![]);
    assert!(events.is_empty());
    assert_eq!(t.len(), 0);
}

#[test]
fn handles_are_distinct_before_wrapping() {
    let a = SocketAddress::v4(1, 1, 1, 1, 1);
    let mut t: ConnectionTable<u8> = ConnectionTable::new();
    let handles: Vec<u32> = (0..100).map(|i| t.register(record(a, i as u8))).collect();
    let mut sorted = handles.clone();
    sorted.dedup();
    assert_eq!(sorted.len(), 100);
    assert_eq!(t.len(), 100);
}
