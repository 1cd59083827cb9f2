//! ARP packets (RFC 826), for IPv4 over Ethernet.

use vstd::prelude::*;

use crate::wire::bytes;
use crate::wire::ethernet::EthernetAddress;
use crate::wire::ip::Ipv4Address;
use crate::wire::protocol::EthernetProtocol;
use crate::wire::Error;

verus! {

/// The length of an ARP packet for IPv4 over Ethernet.
pub const ARP_BUFFER_LEN: usize = 28;

/// An ARP operation.
#[derive(Debug, Clone, Copy, PartialEq, Eq, Structural)]
pub enum ArpOperation {
    Request,
    Reply,
    Unknown(u16),
}

impl ArpOperation {
    pub open spec fn number(self) -> u16 {
        match self {
            ArpOperation::Request => 1,
            ArpOperation::Reply => 2,
            ArpOperation::Unknown(n) => n,
        }
    }

    pub open spec fn of_number(n: u16) -> ArpOperation {
        if n == 1 {
            ArpOperation::Request
        } else if n == 2 {
            ArpOperation::Reply
        } else {
            ArpOperation::Unknown(n)
        }
    }

    /// The operation a number stands for.
    pub fn from_u16(n: u16) -> (r: ArpOperation)
        ensures
            r == Self::of_number(n),
    {
        if n == 1 {
            ArpOperation::Request
        } else if n == 2 {
            ArpOperation::Reply
        } else {
            ArpOperation::Unknown(n)
        }
    }

    /// The number that stands for the operation.
    pub fn to_u16(&self) -> (r: u16)
        ensures
            r == self.number(),
    {
        match self {
            ArpOperation::Request => 1,
            ArpOperation::Reply => 2,
            ArpOperation::Unknown(n) => *n,
        }
    }
}

/// Whether the four addresses the packet announces are there in full.
pub open spec fn well_formed(data: Seq<u8>) -> bool {
    data.len() >= 8 && 8 + 2 * (data[4] + data[5]) <= data.len()
}

/// Whether the packet maps IPv4 addresses to Ethernet addresses.
pub open spec fn ipv4_over_ethernet(data: Seq<u8>) -> bool {
    &&& bytes::be16(data, 0) == 1
    &&& EthernetProtocol::of_number(bytes::be16(data, 2)) == EthernetProtocol::Ipv4
    &&& data[4] == 6
    &&& data[5] == 4
}

/// The octets of a packet, given the octets of its addresses.
pub open spec fn packet_octets(
    operation: u16,
    source_hardware: Seq<u8>,
    source_protocol: Seq<u8>,
    target_hardware: Seq<u8>,
    target_protocol: Seq<u8>,
) -> Seq<u8> {
    seq![0u8, 1u8, 0x08u8, 0u8, 6u8, 4u8] + bytes::octets16(operation) + source_hardware + source_protocol
        + target_hardware + target_protocol
}

/// The fields of an ARP packet for IPv4 over Ethernet.
#[derive(Debug, Clone, Copy)]
pub struct ArpRepr {
    pub operation: ArpOperation,
    pub source_hardware_addr: EthernetAddress,
    pub source_protocol_addr: Ipv4Address,
    pub target_hardware_addr: EthernetAddress,
    pub target_protocol_addr: Ipv4Address,
}

impl ArpRepr {
    /// Whether these are the fields of the packet `data`.
    pub open spec fn describes(self, data: Seq<u8>) -> bool {
        &&& self.operation == ArpOperation::of_number(bytes::be16(data, 6))
        &&& self.source_hardware_addr.0@ == data.subrange(8, 14)
        &&& self.source_protocol_addr.0@ == data.subrange(14, 18)
        &&& self.target_hardware_addr.0@ == data.subrange(18, 24)
        &&& self.target_protocol_addr.0@ == data.subrange(24, 28)
    }

    /// The octets of the packet.
    pub open spec fn octets(self) -> Seq<u8> {
        packet_octets(
            self.operation.number(),
            self.source_hardware_addr.0@,
            self.source_protocol_addr.0@,
            self.target_hardware_addr.0@,
            self.target_protocol_addr.0@,
        )
    }

    /// Read a packet. Fails exactly when it is too short for the addresses it
    /// announces, or does not map IPv4 to Ethernet addresses.
    pub fn parse(data: &[u8]) -> (r: Result<Self, Error>)
        ensures
            r is Ok <==> well_formed(data@) && ipv4_over_ethernet(data@),
            r matches Ok(p) ==> p.describes(data@),
    {
        if data.len() < 8 {
            return Err(Error);
        }
        let addrs: usize = 2 * (data[4] as usize + data[5] as usize);
        if addrs > data.len() - 8 {
            return Err(Error);
        }
        if bytes::get_u16(data, 0) != 1 || EthernetProtocol::from_u16(bytes::get_u16(data, 2))
            != EthernetProtocol::Ipv4 || data[4] != 6 || data[5] != 4 {
            return Err(Error);
        }
        Ok(
            ArpRepr {
                operation: ArpOperation::from_u16(bytes::get_u16(data, 6)),
                source_hardware_addr: EthernetAddress::from_bytes(&data[8..14]),
                source_protocol_addr: Ipv4Address::from_bytes(&data[14..18]),
                target_hardware_addr: EthernetAddress::from_bytes(&data[18..24]),
                target_protocol_addr: Ipv4Address::from_bytes(&data[24..28]),
            },
        )
    }

    /// The octets of the packet.
    pub fn emit(&self) -> (r: Vec<u8>)
        ensures
            r@ == self.octets(),
            r@.len() == ARP_BUFFER_LEN,
    {
        let mut out: Vec<u8> = Vec::new();
        out.push(0);
        out.push(1);
        out.push(0x08);
        out.push(0);
        out.push(6);
        out.push(4);
        bytes::push_u16(&mut out, self.operation.to_u16());
        bytes::push_bytes(&mut out, self.source_hardware_addr.as_bytes());
        bytes::push_bytes(&mut out, &self.source_protocol_addr.0);
        bytes::push_bytes(&mut out, self.target_hardware_addr.as_bytes());
        bytes::push_bytes(&mut out, &self.target_protocol_addr.0);
        assert(out@ =~= self.octets());
        out
    }
}

/// An emitted packet is accepted and parses back to the fields it was built
/// from.
pub proof fn law_arp_round_trip(repr: ArpRepr)
    requires
        repr.operation == ArpOperation::of_number(repr.operation.number()),
    ensures
        well_formed(repr.octets()),
        ipv4_over_ethernet(repr.octets()),
        repr.describes(repr.octets()),
{
    let data = repr.octets();
    assert(bytes::be16(data, 0) == 1);
    assert(bytes::be16(data, 2) == 0x0800);
    assert(bytes::be16(data, 6) == repr.operation.number());
    assert(data.subrange(8, 14) =~= repr.source_hardware_addr.0@);
    assert(data.subrange(14, 18) =~= repr.source_protocol_addr.0@);
    assert(data.subrange(18, 24) =~= repr.target_hardware_addr.0@);
    assert(data.subrange(24, 28) =~= repr.target_protocol_addr.0@);
}

} // verus!
