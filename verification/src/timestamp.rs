//! Timestamps that travel in packets as eight big-endian bytes.

use vstd::prelude::*;
use byteorder::{BigEndian, ByteOrder, WriteBytesExt};

verus! {

/// The eight big-endian bytes of a 64-bit value, most significant first.
pub open spec fn be_bytes(value: u64) -> Seq<u8> {
    seq![
        (value >> 56u64) as u8,
        (value >> 48u64) as u8,
        (value >> 40u64) as u8,
        (value >> 32u64) as u8,
        (value >> 24u64) as u8,
        (value >> 16u64) as u8,
        (value >> 8u64) as u8,
        value as u8,
    ]
}

/// The 64-bit value of eight big-endian bytes.
pub open spec fn be_value(bytes: Seq<u8>) -> u64 {
    ((bytes[0] as u64) << 56u64) | ((bytes[1] as u64) << 48u64) | ((bytes[2] as u64) << 40u64)
        | ((bytes[3] as u64) << 32u64) | ((bytes[4] as u64) << 24u64) | ((bytes[5] as u64) << 16u64)
        | ((bytes[6] as u64) << 8u64) | (bytes[7] as u64)
}

/// Decoding the big-endian bytes of a value gives the value back.
pub proof fn lemma_be_round_trip(value: u64)
    ensures
        be_value(be_bytes(value)) == value,
{
    let b = be_bytes(value);
    assert(b[0] == (value >> 56u64) as u8 && b[7] == value as u8);
    let v = value;
    assert(
        ((((v >> 56u64) as u8) as u64) << 56u64) | ((((v >> 48u64) as u8) as u64) << 48u64)
        | ((((v >> 40u64) as u8) as u64) << 40u64) | ((((v >> 32u64) as u8) as u64) << 32u64)
        | ((((v >> 24u64) as u8) as u64) << 24u64) | ((((v >> 16u64) as u8) as u64) << 16u64)
        | ((((v >> 8u64) as u8) as u64) << 8u64) | ((v as u8) as u64) == v
    ) by (bit_vector);
}

/// Appends a value to a buffer with byteorder's big-endian `WriteBytesExt::write_u64`;
/// writing to a `Vec<u8>` never fails, and the eight bytes of the value, most significant
/// first, are appended.
#[verifier::external_body]
fn write_u64_be(buffer: &mut Vec<u8>, value: u64)
    ensures
        final(buffer)@ == old(buffer)@ + be_bytes(value),
{
    buffer.write_u64::<BigEndian>(value).unwrap()
}

/// Reads a value from the eight bytes at `position` with byteorder's
/// `BigEndian::read_u64`, which decodes the first eight bytes it is given, most
/// significant first.
#[verifier::external_body]
fn read_u64_be(bytes: &[u8], position: usize) -> (value: u64)
    requires
        position + 8 <= bytes@.len(),
    ensures
        value == be_value(bytes@.subrange(position as int, position + 8)),
{
    BigEndian::read_u64(&bytes[position..])
}

/// Reads an incoming packet's bytes from front to back.
pub struct PacketReader {
    buffer: Vec<u8>,
    position: usize,
}

impl PacketReader {
    /// The bytes being read.
    pub closed spec fn spec_buffer(&self) -> Seq<u8> {
        self.buffer@
    }

    /// How many bytes have been read.
    pub closed spec fn spec_position(&self) -> nat {
        self.position as nat
    }

    /// The reader never stands past the end of its bytes.
    pub closed spec fn well_formed(&self) -> bool {
        self.position <= self.buffer@.len()
    }

    /// Starts reading a packet's payload from its first byte.
    pub fn new(buffer: &[u8]) -> (reader: PacketReader)
        ensures
            reader.well_formed(),
            reader.spec_buffer() == buffer@,
            reader.spec_position() == 0,
    {
        PacketReader { buffer: vstd::slice::slice_to_vec(buffer), position: 0 }
    }

    /// Whether bytes remain to be read.
    pub fn has_more(&self) -> (more: bool)
        requires
            self.well_formed(),
        ensures
            more == (self.spec_position() < self.spec_buffer().len()),
    {
        self.position < self.buffer.len()
    }

    /// How many bytes remain to be read.
    pub fn remaining(&self) -> (count: usize)
        requires
            self.well_formed(),
        ensures
            count == self.spec_buffer().len() - self.spec_position(),
    {
        self.buffer.len() - self.position
    }
}

/// A moment in time, in milliseconds, that can be written to and read from a packet.
#[derive(Clone, Copy, Debug, PartialEq, Eq, Structural)]
pub struct Timestamp {
    time: u64,
}

impl Timestamp {
    /// The timestamp's milliseconds.
    pub closed spec fn spec_millis(&self) -> u64 {
        self.time
    }

    /// A timestamp for a moment given in milliseconds (such as the clock's current time).
    pub fn from_millis(millis: u64) -> (timestamp: Timestamp)
        ensures
            timestamp.spec_millis() == millis,
    {
        Timestamp { time: millis }
    }

    /// The timestamp's milliseconds.
    pub fn millis(&self) -> (millis: u64)
        ensures
            millis == self.spec_millis(),
    {
        self.time
    }

    /// Writes the timestamp into an outgoing packet's bytes: its eight big-endian bytes are
    /// appended.
    pub fn write(&self, buffer: &mut Vec<u8>)
        ensures
            final(buffer)@ == old(buffer)@ + be_bytes(self.spec_millis()),
    {
        write_u64_be(buffer, self.time);
    }

    /// Reads a timestamp from the next eight bytes of an incoming packet.
    pub fn read(reader: &mut PacketReader) -> (timestamp: Timestamp)
        requires
            old(reader).well_formed(),
            old(reader).spec_position() + 8 <= old(reader).spec_buffer().len(),
        ensures
            final(reader).well_formed(),
            final(reader).spec_buffer() == old(reader).spec_buffer(),
            final(reader).spec_position() == old(reader).spec_position() + 8,
            timestamp.spec_millis() == be_value(
                old(reader).spec_buffer().subrange(old(reader).spec_position() as int, old(reader).spec_position() + 8int),
            ),
    {
        proof {
            assert(reader.buffer@.len() == reader.buffer.len());
        }
        let time = read_u64_be(reader.buffer.as_slice(), reader.position);
        reader.position = reader.position + 8;
        Timestamp { time }
    }
}

/// Law: a timestamp read back from the bytes that `write` appended is the timestamp that
/// was written, whatever the buffer held before.
pub proof fn lemma_timestamp_round_trip(timestamp: Timestamp, prefix: Seq<u8>)
    ensures
        be_value((prefix + be_bytes(timestamp.spec_millis())).subrange(prefix.len() as int, prefix.len() + 8int))
            == timestamp.spec_millis(),
{
    let written = prefix + be_bytes(timestamp.spec_millis());
    assert(written.subrange(prefix.len() as int, prefix.len() + 8int) =~= be_bytes(timestamp.spec_millis()));
    lemma_be_round_trip(timestamp.spec_millis());
}

} // verus!
