//! Packets that the server exchanges with a client at a given address.

use vstd::prelude::*;
use crate::address::SocketAddress;

verus! {

/// A packet from or to a client.
#[derive(Debug, PartialEq, Eq)]
pub struct Packet {
    address: SocketAddress,
    payload: Vec<u8>,
}

impl Packet {
    /// The address the packet came from or goes to.
    pub closed spec fn spec_address(&self) -> SocketAddress {
        self.address
    }

    /// The packet's payload bytes.
    pub closed spec fn spec_payload(&self) -> Seq<u8> {
        self.payload@
    }

    /// Creates a packet from an address and a payload.
    pub fn new(address: SocketAddress, payload: Vec<u8>) -> (packet: Packet)
        ensures
            packet.spec_address() == address,
            packet.spec_payload() == payload@,
    {
        Packet { address, payload }
    }

    /// Creates a packet from an address and an existing boxed slice of bytes.
    pub fn new_raw(address: SocketAddress, payload: Box<[u8]>) -> (packet: Packet)
        ensures
            packet.spec_address() == address,
            packet.spec_payload() == payload@,
    {
        Packet { address, payload: payload.into_vec() }
    }

    /// The underlying byte payload of the packet.
    pub fn payload(&self) -> (payload: &[u8])
        ensures
            payload@ == self.spec_payload(),
    {
        self.payload.as_slice()
    }

    /// The address the packet came from or goes to.
    pub fn address(&self) -> (address: SocketAddress)
        ensures
            address == self.spec_address(),
    {
        self.address
    }
}

} // verus!
