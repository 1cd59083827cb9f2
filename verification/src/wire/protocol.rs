//! Protocol numbers.

use vstd::prelude::*;

verus! {

/// An IP protocol, or an IPv6 next header.
#[derive(Debug, Clone, Copy, PartialEq, Eq, Structural, Hash)]
pub enum IpProtocol {
    HopByHop,
    Icmp,
    Igmp,
    Tcp,
    Udp,
    Ipv6Route,
    Ipv6Frag,
    IpSecEsp,
    IpSecAh,
    Icmpv6,
    Ipv6NoNxt,
    Ipv6Opts,
    Unknown(u8),
}

impl IpProtocol {
    /// The number that stands for the protocol on the wire.
    pub open spec fn number(self) -> u8 {
        match self {
            IpProtocol::HopByHop => 0x00,
            IpProtocol::Icmp => 0x01,
            IpProtocol::Igmp => 0x02,
            IpProtocol::Tcp => 0x06,
            IpProtocol::Udp => 0x11,
            IpProtocol::Ipv6Route => 0x2b,
            IpProtocol::Ipv6Frag => 0x2c,
            IpProtocol::IpSecEsp => 0x32,
            IpProtocol::IpSecAh => 0x33,
            IpProtocol::Icmpv6 => 0x3a,
            IpProtocol::Ipv6NoNxt => 0x3b,
            IpProtocol::Ipv6Opts => 0x3c,
            IpProtocol::Unknown(n) => n,
        }
    }

    /// The protocol a number stands for.
    pub open spec fn of_number(n: u8) -> IpProtocol {
        if n == 0x00 {
            IpProtocol::HopByHop
        } else if n == 0x01 {
            IpProtocol::Icmp
        } else if n == 0x02 {
            IpProtocol::Igmp
        } else if n == 0x06 {
            IpProtocol::Tcp
        } else if n == 0x11 {
            IpProtocol::Udp
        } else if n == 0x2b {
            IpProtocol::Ipv6Route
        } else if n == 0x2c {
            IpProtocol::Ipv6Frag
        } else if n == 0x32 {
            IpProtocol::IpSecEsp
        } else if n == 0x33 {
            IpProtocol::IpSecAh
        } else if n == 0x3a {
            IpProtocol::Icmpv6
        } else if n == 0x3b {
            IpProtocol::Ipv6NoNxt
        } else if n == 0x3c {
            IpProtocol::Ipv6Opts
        } else {
            IpProtocol::Unknown(n)
        }
    }

    /// The number that stands for the protocol on the wire.
    pub fn to_u8(&self) -> (r: u8)
        ensures
            r == self.number(),
    {
        match self {
            IpProtocol::HopByHop => 0x00,
            IpProtocol::Icmp => 0x01,
            IpProtocol::Igmp => 0x02,
            IpProtocol::Tcp => 0x06,
            IpProtocol::Udp => 0x11,
            IpProtocol::Ipv6Route => 0x2b,
            IpProtocol::Ipv6Frag => 0x2c,
            IpProtocol::IpSecEsp => 0x32,
            IpProtocol::IpSecAh => 0x33,
            IpProtocol::Icmpv6 => 0x3a,
            IpProtocol::Ipv6NoNxt => 0x3b,
            IpProtocol::Ipv6Opts => 0x3c,
            IpProtocol::Unknown(n) => *n,
        }
    }

    /// The protocol a number stands for.
    pub fn from_u8(n: u8) -> (r: IpProtocol)
        ensures
            r == Self::of_number(n),
    {
        if n == 0x00 {
            IpProtocol::HopByHop
        } else if n == 0x01 {
            IpProtocol::Icmp
        } else if n == 0x02 {
            IpProtocol::Igmp
        } else if n == 0x06 {
            IpProtocol::Tcp
        } else if n == 0x11 {
            IpProtocol::Udp
        } else if n == 0x2b {
            IpProtocol::Ipv6Route
        } else if n == 0x2c {
            IpProtocol::Ipv6Frag
        } else if n == 0x32 {
            IpProtocol::IpSecEsp
        } else if n == 0x33 {
            IpProtocol::IpSecAh
        } else if n == 0x3a {
            IpProtocol::Icmpv6
        } else if n == 0x3b {
            IpProtocol::Ipv6NoNxt
        } else if n == 0x3c {
            IpProtocol::Ipv6Opts
        } else {
            IpProtocol::Unknown(n)
        }
    }
}

/// An EtherType.
#[derive(Debug, Clone, Copy, PartialEq, Eq, Structural, Hash)]
pub enum EthernetProtocol {
    Ipv4,
    Arp,
    Ipv6,
    Unknown(u16),
}

impl EthernetProtocol {
    /// The number that stands for the protocol on the wire.
    pub open spec fn number(self) -> u16 {
        match self {
            EthernetProtocol::Ipv4 => 0x0800,
            EthernetProtocol::Arp => 0x0806,
            EthernetProtocol::Ipv6 => 0x86dd,
            EthernetProtocol::Unknown(n) => n,
        }
    }

    /// The protocol a number stands for.
    pub open spec fn of_number(n: u16) -> EthernetProtocol {
        if n == 0x0800 {
            EthernetProtocol::Ipv4
        } else if n == 0x0806 {
            EthernetProtocol::Arp
        } else if n == 0x86dd {
            EthernetProtocol::Ipv6
        } else {
            EthernetProtocol::Unknown(n)
        }
    }

    /// The number that stands for the protocol on the wire.
    pub fn to_u16(&self) -> (r: u16)
        ensures
            r == self.number(),
    {
        match self {
            EthernetProtocol::Ipv4 => 0x0800,
            EthernetProtocol::Arp => 0x0806,
            EthernetProtocol::Ipv6 => 0x86dd,
            EthernetProtocol::Unknown(n) => *n,
        }
    }

    /// The protocol a number stands for.
    pub fn from_u16(n: u16) -> (r: EthernetProtocol)
        ensures
            r == Self::of_number(n),
    {
        if n == 0x0800 {
            EthernetProtocol::Ipv4
        } else if n == 0x0806 {
            EthernetProtocol::Arp
        } else if n == 0x86dd {
            EthernetProtocol::Ipv6
        } else {
            EthernetProtocol::Unknown(n)
        }
    }
}

/// Every protocol number survives a round trip through the enumeration.
pub proof fn law_protocol_number_round_trip(n: u8, m: u16)
    ensures
        IpProtocol::of_number(n).number() == n,
        EthernetProtocol::of_number(m).number() == m,
{
}

} // verus!
