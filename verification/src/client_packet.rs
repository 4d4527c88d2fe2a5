//! Packets that a client sends to the server.

use vstd::prelude::*;

verus! {

/// A packet that can be sent to the server.
#[derive(Debug, PartialEq, Eq)]
pub struct Packet {
    payload: Vec<u8>,
}

impl Packet {
    /// The packet's payload bytes.
    pub closed spec fn spec_payload(&self) -> Seq<u8> {
        self.payload@
    }

    /// Creates a packet from a payload.
    pub fn new(payload: Vec<u8>) -> (packet: Packet)
        ensures
            packet.spec_payload() == payload@,
    {
        Packet { payload }
    }

    /// Creates a packet from an existing boxed slice of bytes.
    pub fn new_raw(payload: Box<[u8]>) -> (packet: Packet)
        ensures
            packet.spec_payload() == payload@,
    {
        Packet { payload: payload.into_vec() }
    }

    /// Creates an empty packet.
    pub fn empty() -> (packet: Packet)
        ensures
            packet.spec_payload() == Seq::<u8>::empty(),
    {
        Packet { payload: Vec::new() }
    }

    /// The underlying byte payload of the packet.
    pub fn payload(&self) -> (payload: &[u8])
        ensures
            payload@ == self.spec_payload(),
    {
        self.payload.as_slice()
    }
}

} // verus!
