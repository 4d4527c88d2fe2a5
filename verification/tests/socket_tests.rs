use dango::address::{IpAddress, SocketAddress};
use dango::client_packet::Packet as ClientPacket;
use dango::keyed_map::KeyedMap;
use dango::server_packet::Packet;
use dango::server_socket::{
    fake_client_address, ice_state_ends_connection, server_loop_step, IceConnectionState, ServerLoopAction,
    ServerLoopEvent, SignallingMessage, SignallingState,
};
use dango::timestamp::{PacketReader, Timestamp};

#[test]
fn ipv4_address_value() {
    let a = SocketAddress::v4(127, 0, 0, 1, 8080);
    assert_eq!(a.ip, IpAddress::V4(0x7f00_0001));
    assert_eq!(a.port, 8080);
    assert_eq!(SocketAddress::v4(255, 255, 255, 255, 0).ip, IpAddress::V4(u32::MAX));
}

#[test]
fn packets_keep_address_and_payload() {
    let a = SocketAddress::v4(10, 0, 0, 2, 1);
    let p = Packet::new(a, vec![1, 2, 3]);
    assert_eq!(p.address(), a);
    assert_eq!(p.payload(), &[1, 2, 3]);
    let raw = Packet::new_raw(a, vec![4u8, 5].into_boxed_slice());
    assert_eq!(raw.payload(), &[4, 5]);
    assert_eq!(ClientPacket::new(vec![7]).payload(), &[7]);
    assert_eq!(ClientPacket::new_raw(vec![8u8].into_boxed_slice()).payload(), &[8]);
    assert!(ClientPacket::empty().payload().is_empty());
}

#[test]
fn fake_addresses_are_in_range() {
    for _ in 0..200 {
        let a = fake_client_address();
        match a.ip {
            IpAddress::V4(v) => {
                for octet in v.to_be_bytes() {
                    assert!(octet < 255);
                }
            },
            IpAddress::V6(_) => panic!("expected an IPv4 address"),
        }
        assert!(a.port < 65353);
    }
}

#[test]
fn fake_addresses_vary() {
    let first = fake_client_address();
    assert!((0..20).any(|_| fake_client_address() != first));
}

#[test]
fn first_relay_message_is_the_endpoint_id() {
    let mut s = SignallingState::new();
    assert_eq!(s.on_message("id".to_string()), SignallingMessage::EndpointId("id".to_string()));
    assert_eq!(s.on_message("o1".to_string()), SignallingMessage::Offer("o1".to_string()));
    assert_eq!(s.on_message("o2".to_string()), SignallingMessage::Offer("o2".to_string()));
}

#[test]
fn ice_states_that_end_a_connection() {
    assert!(ice_state_ends_connection(IceConnectionState::Failed));
    assert!(ice_state_ends_connection(IceConnectionState::Closed));
    assert!(ice_state_ends_connection(IceConnectionState::Disconnected));
    assert!(!ice_state_ends_connection(IceConnectionState::New));
    assert!(!ice_state_ends_connection(IceConnectionState::Checking));
    assert!(!ice_state_ends_connection(IceConnectionState::Connected));
    assert!(!ice_state_ends_connection(IceConnectionState::Completed));
}

#[test]
fn server_loop_keeps_clients_by_address() {
    let a = SocketAddress::v4(1, 2, 3, 4, 5);
    let b = SocketAddress::v4(1, 2, 3, 4, 6);
    let mut clients: KeyedMap<SocketAddress, &str> = KeyedMap::new();
    assert_eq!(server_loop_step(&mut clients, ServerLoopEvent::NewClient(a, "channel-a")), ServerLoopAction::Nothing);
    assert_eq!(server_loop_step(&mut clients, ServerLoopEvent::NewClient(b, "channel-b")), ServerLoopAction::Nothing);
    assert_eq!(clients.get(&a), Some(&"channel-a"));
    let p = Packet::new(b, vec![1]);
    assert_eq!(server_loop_step(&mut clients, ServerLoopEvent::ToClient(p)), ServerLoopAction::Send(Packet::new(b, vec![1])));
    assert_eq!(
        server_loop_step(&mut clients, ServerLoopEvent::DisconnectedClient(a)),
        ServerLoopAction::ReportDisconnected(a)
    );
    assert_eq!(clients.get(&a), None);
    assert_eq!(clients.get(&b), Some(&"channel-b"));
    assert_eq!(clients.len(), 1);
}

#[test]
fn timestamp_is_written_big_endian() {
    let mut buffer = vec![0xaa];
    Timestamp::from_millis(0x0102_0304_0506_0708).write(&mut buffer);
    assert_eq!(buffer, vec![0xaa, 1, 2, 3, 4, 5, 6, 7, 8]);
}

#[test]
fn timestamp_round_trip() {
    for millis in [0u64, 1, 1_600_000_000_000, u64::MAX] {
        let mut buffer = vec![9, 9, 9];
        Timestamp::from_millis(millis).write(&mut buffer);
        let mut reader = PacketReader::new(&buffer);
        let mut prefix_reader = PacketReader::new(&buffer[3..]);
        let t = Timestamp::read(&mut prefix_reader);
        assert_eq!(t.millis(), millis);
        assert!(!prefix_reader.has_more());
        assert_eq!(reader.remaining(), 11);
        assert!(reader.has_more());
        let first = Timestamp::read(&mut reader);
        assert_eq!(reader.remaining(), 3);
        assert_eq!(first.millis() >> 40, 0x09_0909);
        assert_eq!(t, Timestamp::from_millis(millis));
    }
}
