//! ICMP errors, as sockets see them.

use vstd::prelude::*;

use crate::wire::bytes;
use crate::wire::icmpv4;
use crate::wire::icmpv6;
use crate::wire::ip::{IpAddress, IpVersion, Ipv4Address, Ipv6Address};
use crate::wire::ipv4;
use crate::wire::ipv4::{Ipv4Header, IPV4_HEADER_LEN};
use crate::wire::ipv6;
use crate::wire::ipv6::{Ipv6Header, IPV6_HEADER_LEN};
use crate::wire::protocol::IpProtocol;
use crate::wire::tcp::TcpSeqNumber;

verus! {

/// What an ICMP error reports about a packet that was sent, of either IP version.
#[derive(Debug, Clone, Copy, PartialEq, Eq, Structural, Hash)]
pub enum IcmpError {
    /// The network cannot be reached.
    NetUnreachable,
    /// The host cannot be reached.
    HostUnreachable,
    /// The host does not speak the protocol.
    ProtoUnreachable,
    /// Nothing listens on the port.
    PortUnreachable,
    /// The packet is too big for a link on the way.
    PacketTooBig,
    /// The packet was administratively rejected.
    Prohibited,
    /// The packet's hop limit ran out, or its fragments came too late.
    TimeExceeded,
    /// The packet's header makes no sense to a node on the way.
    ParamProblem,
}

impl IcmpError {
    /// What an ICMPv4 message reports. Redirects report no error.
    pub open spec fn of_icmpv4(msg_type: icmpv4::Message, code: u8) -> Option<IcmpError> {
        match msg_type {
            icmpv4::Message::DstUnreachable => match icmpv4::DstUnreachable::of_number(code) {
                icmpv4::DstUnreachable::NetUnreachable => Some(IcmpError::NetUnreachable),
                icmpv4::DstUnreachable::HostUnreachable => Some(IcmpError::HostUnreachable),
                icmpv4::DstUnreachable::ProtoUnreachable => Some(IcmpError::ProtoUnreachable),
                icmpv4::DstUnreachable::PortUnreachable => Some(IcmpError::PortUnreachable),
                icmpv4::DstUnreachable::FragRequired => Some(IcmpError::PacketTooBig),
                icmpv4::DstUnreachable::SrcRouteFailed => Some(IcmpError::HostUnreachable),
                icmpv4::DstUnreachable::DstNetUnknown => Some(IcmpError::NetUnreachable),
                icmpv4::DstUnreachable::DstHostUnknown => Some(IcmpError::HostUnreachable),
                icmpv4::DstUnreachable::SrcHostIsolated => Some(IcmpError::HostUnreachable),
                icmpv4::DstUnreachable::NetUnreachToS => Some(IcmpError::NetUnreachable),
                icmpv4::DstUnreachable::HostUnreachToS => Some(IcmpError::HostUnreachable),
                icmpv4::DstUnreachable::Unknown(_) => None,
                _ => Some(IcmpError::Prohibited),
            },
            icmpv4::Message::TimeExceeded => Some(IcmpError::TimeExceeded),
            icmpv4::Message::ParamProblem => Some(IcmpError::ParamProblem),
            _ => None,
        }
    }

    /// What an ICMPv6 message reports.
    pub open spec fn of_icmpv6(msg_type: icmpv6::Message, code: u8) -> Option<IcmpError> {
        match msg_type {
            icmpv6::Message::DstUnreachable => match icmpv6::DstUnreachable::of_number(code) {
                icmpv6::DstUnreachable::NoRoute => Some(IcmpError::NetUnreachable),
                icmpv6::DstUnreachable::BeyondScope => Some(IcmpError::NetUnreachable),
                icmpv6::DstUnreachable::AddrUnreachable => Some(IcmpError::HostUnreachable),
                icmpv6::DstUnreachable::PortUnreachable => Some(IcmpError::PortUnreachable),
                icmpv6::DstUnreachable::Unknown(_) => None,
                _ => Some(IcmpError::Prohibited),
            },
            icmpv6::Message::PktTooBig => Some(IcmpError::PacketTooBig),
            icmpv6::Message::TimeExceeded => Some(IcmpError::TimeExceeded),
            icmpv6::Message::ParamProblem => if icmpv6::ParamProblem::of_number(code)
                == icmpv6::ParamProblem::UnrecognizedNxtHdr {
                Some(IcmpError::ProtoUnreachable)
            } else {
                Some(IcmpError::ParamProblem)
            },
            _ => None,
        }
    }

    /// What an ICMPv4 message reports.
    pub fn from_icmpv4(msg_type: icmpv4::Message, code: u8) -> (r: Option<IcmpError>)
        ensures
            r == Self::of_icmpv4(msg_type, code),
    {
        match msg_type {
            icmpv4::Message::DstUnreachable => match icmpv4::DstUnreachable::from(code) {
                icmpv4::DstUnreachable::NetUnreachable => Some(IcmpError::NetUnreachable),
                icmpv4::DstUnreachable::HostUnreachable => Some(IcmpError::HostUnreachable),
                icmpv4::DstUnreachable::ProtoUnreachable => Some(IcmpError::ProtoUnreachable),
                icmpv4::DstUnreachable::PortUnreachable => Some(IcmpError::PortUnreachable),
                icmpv4::DstUnreachable::FragRequired => Some(IcmpError::PacketTooBig),
                icmpv4::DstUnreachable::SrcRouteFailed => Some(IcmpError::HostUnreachable),
                icmpv4::DstUnreachable::DstNetUnknown => Some(IcmpError::NetUnreachable),
                icmpv4::DstUnreachable::DstHostUnknown => Some(IcmpError::HostUnreachable),
                icmpv4::DstUnreachable::SrcHostIsolated => Some(IcmpError::HostUnreachable),
                icmpv4::DstUnreachable::NetUnreachToS => Some(IcmpError::NetUnreachable),
                icmpv4::DstUnreachable::HostUnreachToS => Some(IcmpError::HostUnreachable),
                icmpv4::DstUnreachable::Unknown(_) => None,
                _ => Some(IcmpError::Prohibited),
            },
            icmpv4::Message::TimeExceeded => Some(IcmpError::TimeExceeded),
            icmpv4::Message::ParamProblem => Some(IcmpError::ParamProblem),
            _ => None,
        }
    }

    /// What an ICMPv6 message reports.
    pub fn from_icmpv6(msg_type: icmpv6::Message, code: u8) -> (r: Option<IcmpError>)
        ensures
            r == Self::of_icmpv6(msg_type, code),
    {
        match msg_type {
            icmpv6::Message::DstUnreachable => match icmpv6::DstUnreachable::from(code) {
                icmpv6::DstUnreachable::NoRoute => Some(IcmpError::NetUnreachable),
                icmpv6::DstUnreachable::BeyondScope => Some(IcmpError::NetUnreachable),
                icmpv6::DstUnreachable::AddrUnreachable => Some(IcmpError::HostUnreachable),
                icmpv6::DstUnreachable::PortUnreachable => Some(IcmpError::PortUnreachable),
                icmpv6::DstUnreachable::Unknown(_) => None,
                _ => Some(IcmpError::Prohibited),
            },
            icmpv6::Message::PktTooBig => Some(IcmpError::PacketTooBig),
            icmpv6::Message::TimeExceeded => Some(IcmpError::TimeExceeded),
            icmpv6::Message::ParamProblem => {
                if icmpv6::ParamProblem::from(code) == icmpv6::ParamProblem::UnrecognizedNxtHdr {
                    Some(IcmpError::ProtoUnreachable)
                } else {
                    Some(IcmpError::ParamProblem)
                }
            },
            _ => None,
        }
    }
}

/// How much of a packet behind its IP header a quote has to hold to identify its
/// flow.
pub const QUOTED_L4_LEN: usize = 8;

/// The flow of a packet quoted in an ICMP error: a packet *we sent*, so its source
/// is the local end.
#[derive(Debug, Clone, Copy)]
pub struct QuotedPacket {
    pub src_addr: IpAddress,
    pub dst_addr: IpAddress,
    pub protocol: IpProtocol,
    pub src_port: u16,
    pub dst_port: u16,
    /// Where the sequence number stands in TCP segments.
    pub tcp_seq: TcpSeqNumber,
}

/// The flow of a packet whose IP payload starts at `at`.
pub open spec fn quoted_at(
    quote: Seq<u8>,
    at: int,
    src_addr: IpAddress,
    dst_addr: IpAddress,
    protocol: IpProtocol,
) -> Option<QuotedPacket> {
    if at + QUOTED_L4_LEN <= quote.len() {
        Some(
            QuotedPacket {
                src_addr,
                dst_addr,
                protocol,
                src_port: bytes::be16(quote, at),
                dst_port: bytes::be16(quote, at + 2),
                tcp_seq: TcpSeqNumber(bytes::be32(quote, at + 4)),
            },
        )
    } else {
        None
    }
}

/// The flow a quoted packet belongs to, or `None` if too little of it is quoted to
/// tell.
pub open spec fn quoted_flow(quote: Seq<u8>) -> Option<QuotedPacket> {
    if quote.len() == 0 {
        None
    } else {
        match IpVersion::of_packet_view(quote) {
            Some(IpVersion::Ipv4) => if quote.len() >= IPV4_HEADER_LEN && ipv4::header_len(quote)
                >= IPV4_HEADER_LEN {
                quoted_at(
                    quote,
                    ipv4::header_len(quote),
                    IpAddress::Ipv4(Ipv4Address::of(ipv4::src_octets(quote))),
                    IpAddress::Ipv4(Ipv4Address::of(ipv4::dst_octets(quote))),
                    IpProtocol::of_number(quote[9]),
                )
            } else {
                None
            },
            Some(IpVersion::Ipv6) => if quote.len() >= IPV6_HEADER_LEN {
                quoted_at(
                    quote,
                    IPV6_HEADER_LEN as int,
                    IpAddress::Ipv6(Ipv6Address::of(ipv6::src_octets(quote))),
                    IpAddress::Ipv6(Ipv6Address::of(ipv6::dst_octets(quote))),
                    IpProtocol::of_number(quote[6]),
                )
            } else {
                None
            },
            None => None,
        }
    }
}

fn parse_quoted_at(
    quote: &[u8],
    at: usize,
    src_addr: IpAddress,
    dst_addr: IpAddress,
    protocol: IpProtocol,
) -> (r: Option<QuotedPacket>)
    requires
        at <= 60,
    ensures
        r == quoted_at(quote@, at as int, src_addr, dst_addr, protocol),
{
    if quote.len() < at + QUOTED_L4_LEN {
        return None;
    }
    Some(
        QuotedPacket {
            src_addr,
            dst_addr,
            protocol,
            src_port: bytes::get_u16(quote, at),
            dst_port: bytes::get_u16(quote, at + 2),
            tcp_seq: TcpSeqNumber(bytes::get_u32(quote, at + 4)),
        },
    )
}

/// Identify the flow a quoted packet belongs to.
pub fn parse_quoted_packet(quote: &[u8]) -> (r: Option<QuotedPacket>)
    ensures
        r == quoted_flow(quote@),
{
    if quote.len() == 0 {
        return None;
    }
    match IpVersion::of_packet(quote) {
        Ok(IpVersion::Ipv4) => {
            if quote.len() < IPV4_HEADER_LEN {
                return None;
            }
            let header = Ipv4Header::read(quote);
            if header.header_len < IPV4_HEADER_LEN {
                return None;
            }
            proof {
                header.src_addr.lemma_of();
                header.dst_addr.lemma_of();
            }
            parse_quoted_at(
                quote,
                header.header_len,
                IpAddress::Ipv4(header.src_addr),
                IpAddress::Ipv4(header.dst_addr),
                header.next_header,
            )
        },
        Ok(IpVersion::Ipv6) => {
            if quote.len() < IPV6_HEADER_LEN {
                return None;
            }
            let header = Ipv6Header::read(quote);
            proof {
                header.src_addr.lemma_of();
                header.dst_addr.lemma_of();
            }
            parse_quoted_at(
                quote,
                IPV6_HEADER_LEN,
                IpAddress::Ipv6(header.src_addr),
                IpAddress::Ipv6(header.dst_addr),
                header.next_header,
            )
        },
        Err(_) => None,
    }
}

} // verus!
