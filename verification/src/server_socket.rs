//! The decisions of the browser-hosted server socket: the signalling relay's first message
//! is the endpoint id and every later one an offer; a client whose ICE connection fails,
//! closes or disconnects is dropped; packets go to the data channel of their address.

use vstd::prelude::*;
use rand::Rng;
use crate::address::{IpAddress, SocketAddress, ipv4_value};
use crate::keyed_map::KeyedMap;
use crate::server_packet::Packet;

verus! {

/// A uniformly random value below `upper`, from rand's `thread_rng().gen_range(0..upper)`,
/// which samples the half-open range and panics only when it is empty.
#[verifier::external_body]
fn random_below(upper: u32) -> (value: u32)
    requires
        upper > 0,
    ensures
        value < upper,
{
    rand::thread_rng().gen_range(0..upper)
}

/// A made-up address for a client whose real address is not known (it would have to be
/// parsed out of the session description): four random octets below 255 and a random port
/// below 65353.
pub fn fake_client_address() -> (address: SocketAddress)
    ensures
        exists|a: u8, b: u8, c: u8, d: u8| a < 255 && b < 255 && c < 255 && d < 255
            && address.ip == IpAddress::V4(ipv4_value(a, b, c, d) as u32),
        address.port < 65353,
{
    let a = random_below(255) as u8;
    let b = random_below(255) as u8;
    let c = random_below(255) as u8;
    let d = random_below(255) as u8;
    let port = random_below(65353) as u16;
    SocketAddress::v4(a, b, c, d, port)
}

/// What a message from the signalling relay is.
#[derive(Debug, PartialEq, Eq)]
pub enum SignallingMessage {
    /// The id under which clients can join this server.
    EndpointId(String),
    /// A client's session offer.
    Offer(String),
}

/// Whether the relay's first message has arrived yet.
pub struct SignallingState {
    is_first_message: bool,
}

impl SignallingState {
    /// Whether the next message is the first one.
    pub closed spec fn spec_expects_endpoint_id(&self) -> bool {
        self.is_first_message
    }

    /// The state before any message.
    pub fn new() -> (state: SignallingState)
        ensures
            state.spec_expects_endpoint_id(),
    {
        SignallingState { is_first_message: true }
    }

    /// Classifies a relay message: the first one is the endpoint id, every later one an
    /// offer.
    pub fn on_message(&mut self, text: String) -> (message: SignallingMessage)
        ensures
            old(self).spec_expects_endpoint_id() ==> message == SignallingMessage::EndpointId(text),
            !old(self).spec_expects_endpoint_id() ==> message == SignallingMessage::Offer(text),
            !final(self).spec_expects_endpoint_id(),
    {
        if self.is_first_message {
            self.is_first_message = false;
            SignallingMessage::EndpointId(text)
        } else {
            SignallingMessage::Offer(text)
        }
    }
}

/// The classification of each message in a sequence of relay messages.
pub open spec fn classify_all(expects_endpoint_id: bool, texts: Seq<String>) -> Seq<SignallingMessage>
    decreases texts.len(),
{
    if texts.len() == 0 {
        seq![]
    } else {
        seq![if expects_endpoint_id { SignallingMessage::EndpointId(texts[0]) } else { SignallingMessage::Offer(texts[0]) }]
            + classify_all(false, texts.drop_first())
    }
}

/// Law: of the messages a fresh relay connection receives, exactly the first is taken as the
/// endpoint id and every later one as an offer.
pub proof fn lemma_only_first_is_endpoint_id(texts: Seq<String>, i: int)
    requires
        0 <= i < texts.len(),
    ensures
        classify_all(true, texts).len() == texts.len(),
        i == 0 ==> classify_all(true, texts)[i] == SignallingMessage::EndpointId(texts[i]),
        i > 0 ==> classify_all(true, texts)[i] == SignallingMessage::Offer(texts[i]),
    decreases texts.len(),
{
    lemma_classify_len(true, texts);
    if i > 0 {
        lemma_classify_later(texts.drop_first(), i - 1);
    }
}

proof fn lemma_classify_len(expects: bool, texts: Seq<String>)
    ensures
        classify_all(expects, texts).len() == texts.len(),
    decreases texts.len(),
{
    if texts.len() > 0 {
        lemma_classify_len(false, texts.drop_first());
    }
}

proof fn lemma_classify_later(texts: Seq<String>, i: int)
    requires
        0 <= i < texts.len(),
    ensures
        classify_all(false, texts)[i] == SignallingMessage::Offer(texts[i]),
    decreases texts.len(),
{
    lemma_classify_len(false, texts.drop_first());
    if i > 0 {
        lemma_classify_later(texts.drop_first(), i - 1);
    }
}

/// The ICE connection state of a peer connection.
#[derive(Clone, Copy, Debug, PartialEq, Eq, Structural)]
pub enum IceConnectionState {
    New,
    Checking,
    Connected,
    Completed,
    Failed,
    Disconnected,
    Closed,
}

/// A peer is dropped when its ICE connection has failed, closed or disconnected.
pub fn ice_state_ends_connection(state: IceConnectionState) -> (ends: bool)
    ensures
        ends == (state == IceConnectionState::Failed || state == IceConnectionState::Closed
            || state == IceConnectionState::Disconnected),
{
    match state {
        IceConnectionState::Failed | IceConnectionState::Closed | IceConnectionState::Disconnected => true,
        _ => false,
    }
}

/// What wakes the server socket's main loop.
pub enum ServerLoopEvent<C> {
    /// A client's data channel was created.
    NewClient(SocketAddress, C),
    /// A client disconnected.
    DisconnectedClient(SocketAddress),
    /// A packet is to be sent to a client.
    ToClient(Packet),
}

/// What the main loop does next, besides updating its clients.
#[derive(Debug, PartialEq, Eq)]
pub enum ServerLoopAction {
    /// Nothing more.
    Nothing,
    /// Report the client's disconnection to the socket's user.
    ReportDisconnected(SocketAddress),
    /// Send the packet's payload on the data channel of its address.
    Send(Packet),
}

/// One step of the server socket's main loop: a new client's data channel is kept under its
/// address, a disconnected client's is dropped and reported, and a packet is passed on for
/// its client's data channel, which must exist.
pub fn server_loop_step<C>(clients: &mut KeyedMap<SocketAddress, C>, event: ServerLoopEvent<C>) -> (action: ServerLoopAction)
    requires
        old(clients).wf(),
        event matches ServerLoopEvent::ToClient(packet) ==> old(clients)@.contains_key(packet.spec_address()),
    ensures
        final(clients).wf(),
        match event {
            ServerLoopEvent::NewClient(address, channel) => final(clients)@ == old(clients)@.insert(address, channel)
                && action == ServerLoopAction::Nothing,
            ServerLoopEvent::DisconnectedClient(address) => final(clients)@ == old(clients)@.remove(address)
                && action == ServerLoopAction::ReportDisconnected(address),
            ServerLoopEvent::ToClient(packet) => final(clients)@ == old(clients)@
                && action == ServerLoopAction::Send(packet),
        },
{
    match event {
        ServerLoopEvent::NewClient(address, channel) => {
            let _replaced = clients.insert(address, channel);
            ServerLoopAction::Nothing
        },
        ServerLoopEvent::DisconnectedClient(address) => {
            let _removed = clients.remove(&address);
            ServerLoopAction::ReportDisconnected(address)
        },
        ServerLoopEvent::ToClient(packet) => ServerLoopAction::Send(packet),
    }
}

} // verus!
