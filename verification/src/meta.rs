//! Per-packet metadata.
//!
//! A [`PacketMeta`] is a small set of attributes that travels together with a
//! packet all the way through the stack.

use vstd::prelude::*;

verus! {

/// A point on a device's own clock.
#[derive(Debug, Clone, Copy, PartialEq, Eq, Structural, Hash)]
pub struct Timestamp {
    pub seconds: u64,
    pub nanos: u32,
}

impl Timestamp {
    /// The point `seconds` and `nanos` after the clock's start.
    pub fn from_seconds_and_nanos(seconds: u64, nanos: u32) -> (r: Self)
        ensures
            r == (Timestamp { seconds, nanos }),
    {
        Timestamp { seconds, nanos }
    }
}

/// The transmit timestamp of a packet, tagged with the packet's id.
#[derive(Debug, Clone, Copy, PartialEq, Eq, Structural, Hash)]
pub struct TxTimestamp {
    pub id: u32,
    pub timestamp: Timestamp,
}

/// Metadata attached to one packet.
#[derive(Debug, Clone, Copy, PartialEq, Eq, Structural, Hash)]
pub struct PacketMeta {
    /// An identifier chosen by whoever created the packet.
    pub id: u32,
    /// Whether the device should report when it sent the packet.
    pub request_timestamp: bool,
    /// When the device received the packet.
    pub timestamp: Option<Timestamp>,
}

impl PacketMeta {
    /// The metadata of packets nobody attached any to.
    pub open spec fn none() -> Self {
        PacketMeta { id: 0, request_timestamp: false, timestamp: None }
    }
}

impl Default for PacketMeta {
    fn default() -> (r: Self)
        ensures
            r == Self::none(),
    {
        PacketMeta { id: 0, request_timestamp: false, timestamp: None }
    }
}

} // verus!
