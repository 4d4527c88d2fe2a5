//! The decisions of the WebRTC handshake between a browser client and the browser-hosted
//! server: how the data channel is set up, when each side hands its session description
//! on, and what the client does with the server's reply.

use vstd::prelude::*;
use crate::server_socket::{ice_state_ends_connection, IceConnectionState};

verus! {

/// The STUN server both sides gather candidates with.
pub open spec fn stun_server_text() -> Seq<char> {
    "stun:stun.l.google.com:19302"@
}

/// The URL of the STUN server that a peer connection is configured with.
pub fn stun_server_url() -> (url: String)
    ensures
        url@ == stun_server_text(),
{
    let url = "stun:stun.l.google.com:19302".to_string();
    proof {
        vstd::string::to_string_from_display_ensures_for_str("stun:stun.l.google.com:19302", url);
    }
    url
}

/// How the data channel of a peer connection is set up.
#[derive(Clone, Copy, Debug, PartialEq, Eq, Structural)]
pub struct DataChannelSettings {
    /// Whether messages arrive in order.
    pub ordered: bool,
    /// How often a lost message is sent again.
    pub max_retransmits: u16,
    /// Whether both sides create the channel themselves rather than announcing it.
    pub negotiated: bool,
    /// The channel's id.
    pub id: u16,
}

/// The channel is unreliable and unordered, like UDP: no retransmits, no ordering,
/// negotiated on both sides with id 0.
pub fn data_channel_settings() -> (settings: DataChannelSettings)
    ensures
        !settings.ordered,
        settings.max_retransmits == 0,
        settings.negotiated,
        settings.id == 0,
{
    DataChannelSettings { ordered: false, max_retransmits: 0, negotiated: true, id: 0 }
}

/// The label of the data channel.
pub open spec fn data_channel_label_text() -> Seq<char> {
    "webudp"@
}

/// The label both sides give the data channel.
pub fn data_channel_label() -> (label: String)
    ensures
        label@ == data_channel_label_text(),
{
    let label = "webudp".to_string();
    proof {
        vstd::string::to_string_from_display_ensures_for_str("webudp", label);
    }
    label
}

/// What happens on the client's side of the handshake.
#[derive(Debug, PartialEq, Eq)]
pub enum ClientHandshakeEvent {
    /// The peer connection created an offer with this session description.
    OfferCreated(String),
    /// The offer became the local description.
    LocalDescriptionSet,
    /// ICE gathering produced a candidate; `None` marks the end of the candidates.
    IceCandidate(Option<String>),
    /// The server replied to the posted offer with this status and text.
    OfferReply(u16, String),
}

/// What the client does next.
#[derive(Debug, PartialEq, Eq)]
pub enum ClientHandshakeAction {
    /// Make the session description the local one, as an offer.
    SetLocalOffer(String),
    /// Wait for ICE candidates.
    AwaitCandidates,
    /// Post the local description to the server.
    PostOffer,
    /// Make the text the remote description, as an answer.
    SetRemoteAnswer(String),
    /// Nothing.
    Nothing,
}

/// One step of the client's handshake: its offer becomes its local description, candidates
/// are gathered until the last one, then the offer is posted, and a successful reply (status
/// 200) carries the answer, which becomes the remote description. Other replies are
/// ignored.
pub fn client_handshake_step(event: ClientHandshakeEvent) -> (action: ClientHandshakeAction)
    ensures
        match event {
            ClientHandshakeEvent::OfferCreated(sdp) => action == ClientHandshakeAction::SetLocalOffer(sdp),
            ClientHandshakeEvent::LocalDescriptionSet => action == ClientHandshakeAction::AwaitCandidates,
            ClientHandshakeEvent::IceCandidate(candidate) => if candidate is None {
                action == ClientHandshakeAction::PostOffer
            } else {
                action == ClientHandshakeAction::Nothing
            },
            ClientHandshakeEvent::OfferReply(status, text) => if status == 200 {
                action == ClientHandshakeAction::SetRemoteAnswer(text)
            } else {
                action == ClientHandshakeAction::Nothing
            },
        },
{
    match event {
        ClientHandshakeEvent::OfferCreated(sdp) => ClientHandshakeAction::SetLocalOffer(sdp),
        ClientHandshakeEvent::LocalDescriptionSet => ClientHandshakeAction::AwaitCandidates,
        ClientHandshakeEvent::IceCandidate(candidate) => match candidate {
            None => ClientHandshakeAction::PostOffer,
            Some(_) => ClientHandshakeAction::Nothing,
        },
        ClientHandshakeEvent::OfferReply(status, text) => {
            if status == 200 {
                ClientHandshakeAction::SetRemoteAnswer(text)
            } else {
                ClientHandshakeAction::Nothing
            }
        },
    }
}

/// What happens on the server's side of the handshake with one client.
#[derive(Debug, PartialEq, Eq)]
pub enum ServerHandshakeEvent {
    /// The signalling relay passed on a client's offer.
    Offer(String),
    /// The offer became the remote description.
    RemoteDescriptionSet,
    /// The peer connection created an answer with this session description.
    AnswerCreated(String),
    /// The answer became the local description.
    LocalDescriptionSet,
    /// ICE gathering produced a candidate; `None` marks the end of the candidates.
    IceCandidate(Option<String>),
    /// The peer connection's ICE state changed.
    IceStateChanged(IceConnectionState),
}

/// What the server does next for that client.
#[derive(Debug, PartialEq, Eq)]
pub enum ServerHandshakeAction {
    /// Make the offer the remote description.
    SetRemoteOffer(String),
    /// Ask the peer connection for an answer.
    CreateAnswer,
    /// Make the answer the local description.
    SetLocalAnswer(String),
    /// Wait for ICE candidates.
    AwaitCandidates,
    /// Send the local description to the client through the signalling relay.
    SendAnswer,
    /// Close the peer connection and report the client as disconnected.
    CloseAndDisconnect,
    /// Nothing.
    Nothing,
}

/// One step of the server's handshake with a client: the offer becomes the remote
/// description, an answer is created and becomes the local description, candidates are
/// gathered until the last one and then the answer is sent back; a connection whose ICE
/// state ends it is closed and its client reported as disconnected.
pub fn server_handshake_step(event: ServerHandshakeEvent) -> (action: ServerHandshakeAction)
    ensures
        match event {
            ServerHandshakeEvent::Offer(sdp) => action == ServerHandshakeAction::SetRemoteOffer(sdp),
            ServerHandshakeEvent::RemoteDescriptionSet => action == ServerHandshakeAction::CreateAnswer,
            ServerHandshakeEvent::AnswerCreated(sdp) => action == ServerHandshakeAction::SetLocalAnswer(sdp),
            ServerHandshakeEvent::LocalDescriptionSet => action == ServerHandshakeAction::AwaitCandidates,
            ServerHandshakeEvent::IceCandidate(candidate) => if candidate is None {
                action == ServerHandshakeAction::SendAnswer
            } else {
                action == ServerHandshakeAction::Nothing
            },
            ServerHandshakeEvent::IceStateChanged(state) => if state == IceConnectionState::Failed
                || state == IceConnectionState::Closed || state == IceConnectionState::Disconnected {
                action == ServerHandshakeAction::CloseAndDisconnect
            } else {
                action == ServerHandshakeAction::Nothing
            },
        },
{
    match event {
        ServerHandshakeEvent::Offer(sdp) => ServerHandshakeAction::SetRemoteOffer(sdp),
        ServerHandshakeEvent::RemoteDescriptionSet => ServerHandshakeAction::CreateAnswer,
        ServerHandshakeEvent::AnswerCreated(sdp) => ServerHandshakeAction::SetLocalAnswer(sdp),
        ServerHandshakeEvent::LocalDescriptionSet => ServerHandshakeAction::AwaitCandidates,
        ServerHandshakeEvent::IceCandidate(candidate) => match candidate {
            None => ServerHandshakeAction::SendAnswer,
            Some(_) => ServerHandshakeAction::Nothing,
        },
        ServerHandshakeEvent::IceStateChanged(state) => {
            if ice_state_ends_connection(state) {
                ServerHandshakeAction::CloseAndDisconnect
            } else {
                ServerHandshakeAction::Nothing
            }
        },
    }
}

} // verus!
