use vstd::prelude::*;

verus! {

/// Direction in which a packet was transferred.
#[derive(Debug, Clone, Copy, PartialEq, Eq, Structural)]
pub enum Direction {
    /// Data read from the wrapped handle.
    Read,
    /// Data written to the wrapped handle.
    Write,
}

/// Mathematical model of a packet: direction, elapsed milliseconds and payload.
pub struct PacketModel {
    pub direction: Direction,
    pub elapsed: nat,
    pub data: Seq<u8>,
}

/// Unit of data either read or written.
#[derive(Debug)]
pub struct Packet {
    direction: Direction,
    elapsed: u64,
    data: Vec<u8>,
}

impl View for Packet {
    type V = PacketModel;

    closed spec fn view(&self) -> PacketModel {
        PacketModel { direction: self.direction, elapsed: self.elapsed as nat, data: self.data@ }
    }
}

impl Packet {
    /// Builds a packet from its parts.
    pub fn new(direction: Direction, elapsed: u64, data: Vec<u8>) -> (r: Packet)
        ensures
            r@ == (PacketModel { direction, elapsed: elapsed as nat, data: data@ }),
    {
        Packet { direction, elapsed, data }
    }

    /// The packet direction, either `Read` or `Write`.
    pub fn direction(&self) -> (r: Direction)
        ensures
            r == self@.direction,
    {
        self.direction
    }

    /// Milliseconds elapsed from the start of the capture to this packet.
    pub fn elapsed(&self) -> (r: u64)
        ensures
            r == self@.elapsed,
    {
        self.elapsed
    }

    /// The bytes transferred.
    pub fn data(&self) -> (r: &[u8])
        ensures
            r@ == self@.data,
    {
        self.data.as_slice()
    }
}

} // verus!
