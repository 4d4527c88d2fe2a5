//! The receiving side of a listening server: a client address gets a channel, and a pending
//! connection that reads from it, with its first packet; every packet is forwarded to the
//! channel of its address; a disconnection drops the address's channel.

use vstd::prelude::*;
use crate::address::SocketAddress;
use crate::keyed_map::KeyedMap;
use crate::server_packet::Packet;

verus! {

/// What the server socket delivers to the listener.
#[derive(Debug, PartialEq, Eq)]
pub enum ListenerEvent {
    /// A packet from a client.
    Received(Packet),
    /// Receiving failed.
    ReceiveError,
    /// A client disconnected.
    Disconnected(SocketAddress),
}

/// What the listener does besides keeping its channels.
#[derive(Debug, PartialEq, Eq)]
pub enum ListenerAction {
    /// Pass the packet's payload on to the channel of its address; `opened` tells whether
    /// that channel was opened for this very packet.
    Forward { opened: bool, packet: Packet },
    /// Log the receive error.
    LogError,
    /// Queue the address as a pending disconnection.
    Disconnect(SocketAddress),
}

/// One step of the listener: a packet from an address without a channel opens one with
/// `open_channel` (which also sets up the connection that reads from it); the packet is then
/// forwarded to its address's channel. A disconnection drops the address's channel and is
/// queued; a receive error changes nothing.
pub fn listener_step<C, F: FnOnce(SocketAddress) -> C>(
    channels: &mut KeyedMap<SocketAddress, C>,
    event: ListenerEvent,
    open_channel: F,
) -> (action: ListenerAction)
    requires
        old(channels).wf(),
        event matches ListenerEvent::Received(packet) ==> open_channel.requires((packet.spec_address(),)),
    ensures
        final(channels).wf(),
        match event {
            ListenerEvent::Received(packet) => {
                let address = packet.spec_address();
                &&& action == (ListenerAction::Forward { opened: !old(channels)@.contains_key(address), packet })
                &&& final(channels)@.contains_key(address)
                &&& old(channels)@.contains_key(address) ==> final(channels)@ == old(channels)@
                &&& !old(channels)@.contains_key(address) ==> {
                    &&& final(channels)@ == old(channels)@.insert(address, final(channels)@[address])
                    &&& open_channel.ensures((address,), final(channels)@[address])
                }
            },
            ListenerEvent::ReceiveError => action == ListenerAction::LogError && final(channels)@ == old(channels)@,
            ListenerEvent::Disconnected(address) => action == ListenerAction::Disconnect(address)
                && final(channels)@ == old(channels)@.remove(address),
        },
{
    match event {
        ListenerEvent::Received(packet) => {
            let address = packet.address();
            let known = channels.contains_key(&address);
            if !known {
                let channel = open_channel(address);
                let _previous = channels.insert(address, channel);
            }
            ListenerAction::Forward { opened: !known, packet }
        },
        ListenerEvent::ReceiveError => ListenerAction::LogError,
        ListenerEvent::Disconnected(address) => {
            let _removed = channels.remove(&address);
            ListenerAction::Disconnect(address)
        },
    }
}

} // verus!
