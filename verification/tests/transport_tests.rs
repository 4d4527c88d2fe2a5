use dango::address::SocketAddress;
use dango::client_socket::{
    client_receive, conditioner_step, server_conditioner_step, ConditionerStep, ServerConditionerEvent,
};
use dango::keyed_map::KeyedMap;
use dango::listener::{listener_step, ListenerAction, ListenerEvent};
use dango::server_packet::Packet;
use dango::server_socket::IceConnectionState;
use dango::webrtc::{
    client_handshake_step, data_channel_label, data_channel_settings, server_handshake_step, stun_server_url,
    ClientHandshakeAction, ClientHandshakeEvent, ServerHandshakeAction, ServerHandshakeEvent,
};
use std::collections::VecDeque;

#[test]
fn client_receive_resends_dropped_and_takes_oldest() {
    let mut dropped: VecDeque<u8> = VecDeque::from(vec![1, 2, 3]);
    let mut incoming: VecDeque<Result<Option<u8>, String>> = VecDeque::from(vec![Ok(Some(7)), Err("e".to_string())]);
    let (resend, result) = client_receive(&mut dropped, &mut incoming);
    assert_eq!(resend, vec![1, 2, 3]);
    assert!(dropped.is_empty());
    assert_eq!(result, Ok(Some(7)));
    let (resend, result) = client_receive(&mut dropped, &mut incoming);
    assert!(resend.is_empty());
    assert_eq!(result, Err("e".to_string()));
    let (_, result) = client_receive(&mut dropped, &mut incoming);
    assert_eq!(result, Ok(None));
}

#[test]
fn listener_opens_a_channel_per_address() {
    let a = SocketAddress::v4(1, 2, 3, 4, 5);
    let mut channels: KeyedMap<SocketAddress, u32> = KeyedMap::new();
    let mut opened = 0u32;
    let action = listener_step(&mut channels, ListenerEvent::Received(Packet::new(a, vec![1])), |_addr| {
        opened += 1;
        opened
    });
    assert_eq!(action, ListenerAction::Forward { opened: true, packet: Packet::new(a, vec![1]) });
    assert_eq!(channels.get(&a), Some(&1));
    let action = listener_step(&mut channels, ListenerEvent::Received(Packet::new(a, vec![2])), |_addr| 99);
    assert_eq!(action, ListenerAction::Forward { opened: false, packet: Packet::new(a, vec![2]) });
    assert_eq!(channels.get(&a), Some(&1));
    assert_eq!(listener_step(&mut channels, ListenerEvent::ReceiveError, |_addr| 0), ListenerAction::LogError);
    assert_eq!(listener_step(&mut channels, ListenerEvent::Disconnected(a), |_addr| 0), ListenerAction::Disconnect(a));
    assert!(channels.get(&a).is_none());
}

#[test]
fn data_channel_is_unreliable_and_unordered() {
    let s = data_channel_settings();
    assert!(!s.ordered);
    assert_eq!(s.max_retransmits, 0);
    assert!(s.negotiated);
    assert_eq!(s.id, 0);
    assert_eq!(data_channel_label(), "webudp");
    assert_eq!(stun_server_url(), "stun:stun.l.google.com:19302");
}

#[test]
fn client_handshake_steps() {
    assert_eq!(
        client_handshake_step(ClientHandshakeEvent::OfferCreated("o".to_string())),
        ClientHandshakeAction::SetLocalOffer("o".to_string())
    );
    assert_eq!(client_handshake_step(ClientHandshakeEvent::LocalDescriptionSet), ClientHandshakeAction::AwaitCandidates);
    assert_eq!(
        client_handshake_step(ClientHandshakeEvent::IceCandidate(Some("c".to_string()))),
        ClientHandshakeAction::Nothing
    );
    assert_eq!(client_handshake_step(ClientHandshakeEvent::IceCandidate(None)), ClientHandshakeAction::PostOffer);
    assert_eq!(
        client_handshake_step(ClientHandshakeEvent::OfferReply(200, "answer".to_string())),
        ClientHandshakeAction::SetRemoteAnswer("answer".to_string())
    );
    assert_eq!(
        client_handshake_step(ClientHandshakeEvent::OfferReply(404, "nope".to_string())),
        ClientHandshakeAction::Nothing
    );
}

#[test]
fn server_handshake_steps() {
    assert_eq!(
        server_handshake_step(ServerHandshakeEvent::Offer("o".to_string())),
        ServerHandshakeAction::SetRemoteOffer("o".to_string())
    );
    assert_eq!(server_handshake_step(ServerHandshakeEvent::RemoteDescriptionSet), ServerHandshakeAction::CreateAnswer);
    assert_eq!(
        server_handshake_step(ServerHandshakeEvent::AnswerCreated("a".to_string())),
        ServerHandshakeAction::SetLocalAnswer("a".to_string())
    );
    assert_eq!(server_handshake_step(ServerHandshakeEvent::LocalDescriptionSet), ServerHandshakeAction::AwaitCandidates);
    assert_eq!(server_handshake_step(ServerHandshakeEvent::IceCandidate(None)), ServerHandshakeAction::SendAnswer);
    assert_eq!(
        server_handshake_step(ServerHandshakeEvent::IceCandidate(Some("c".to_string()))),
        ServerHandshakeAction::Nothing
    );
    assert_eq!(
        server_handshake_step(ServerHandshakeEvent::IceStateChanged(IceConnectionState::Disconnected)),
        ServerHandshakeAction::CloseAndDisconnect
    );
    assert_eq!(
        server_handshake_step(ServerHandshakeEvent::IceStateChanged(IceConnectionState::Connected)),
        ServerHandshakeAction::Nothing
    );
}

#[test]
fn conditioner_steps() {
    assert_eq!(conditioner_step::<u8, String>(Ok(Some(4))), ConditionerStep::Condition(4));
    assert_eq!(conditioner_step::<u8, String>(Ok(None)), ConditionerStep::Deliver);
    assert_eq!(conditioner_step::<u8, String>(Err("e".to_string())), ConditionerStep::Fail("e".to_string()));
    assert_eq!(
        server_conditioner_step::<u8, String>(ServerConditionerEvent::Received(Ok(4))),
        ConditionerStep::Condition(4)
    );
    assert_eq!(
        server_conditioner_step::<u8, String>(ServerConditionerEvent::Received(Err("e".to_string()))),
        ConditionerStep::Fail("e".to_string())
    );
    assert_eq!(server_conditioner_step::<u8, String>(ServerConditionerEvent::DelayPassed), ConditionerStep::Deliver);
}
