//! Low-level packet access and construction.

use vstd::prelude::*;
use vstd::std_specs::cmp::PartialEqSpecImpl;
use vstd::std_specs::convert::FromSpecImpl;

use crate::iface::Medium;
use crate::text;
use crate::wire::bytes::bytes_eq;
use crate::wire::ethernet::EthernetAddress;

pub mod arp;
pub mod bytes;
pub mod checksum;
pub mod cidr;
pub mod dns;
pub mod endpoint;
pub mod ethernet;
pub mod icmpv4;
pub mod icmpv6;
pub mod ieee802154;
pub mod ip;
pub mod ipv4;
pub mod ipv6;
pub mod ipv6ext;
pub mod ndisc;
pub mod protocol;
pub mod sixlowpan;
pub mod tcp;
pub mod udp;

verus! {

/// Parsing a packet failed.
///
/// Either it is malformed, or it is not supported.
#[derive(Debug, Clone, Copy, PartialEq, Eq, Structural)]
pub struct Error;

impl Error {
    /// The error in words.
    pub fn text(&self) -> (r: String)
        ensures
            r@ == "wire::Error"@,
    {
        text::owned("wire::Error")
    }
}

/// A hardware (link-layer) address.
#[derive(Debug, Clone, Copy, Eq, Hash)]
pub enum HardwareAddress {
    /// An Ethernet (MAC) address.
    Ethernet(EthernetAddress),
    /// No address, for interfaces that send and receive bare IP packets.
    Ip,
}

impl PartialEq for HardwareAddress {
    fn eq(&self, other: &Self) -> (r: bool) {
        match (self, other) {
            (HardwareAddress::Ethernet(a), HardwareAddress::Ethernet(b)) => *a == *b,
            (HardwareAddress::Ip, HardwareAddress::Ip) => true,
            _ => false,
        }
    }
}

impl PartialEqSpecImpl for HardwareAddress {
    open spec fn obeys_eq_spec() -> bool {
        true
    }

    open spec fn eq_spec(&self, other: &Self) -> bool {
        *self == *other
    }
}

impl HardwareAddress {
    /// The medium this kind of address belongs to.
    pub open spec fn medium_view(self) -> Medium {
        match self {
            HardwareAddress::Ethernet(_) => Medium::Ethernet,
            HardwareAddress::Ip => Medium::Ip,
        }
    }

    /// The medium this kind of address belongs to.
    pub fn medium(&self) -> (r: Medium)
        ensures
            r == self.medium_view(),
    {
        match self {
            HardwareAddress::Ethernet(_) => Medium::Ethernet,
            HardwareAddress::Ip => Medium::Ip,
        }
    }

    /// The Ethernet address, or `None` if this is not one.
    pub fn ethernet(&self) -> (r: Option<EthernetAddress>)
        ensures
            r == match *self {
                HardwareAddress::Ethernet(addr) => Some(addr),
                HardwareAddress::Ip => None,
            },
    {
        match self {
            HardwareAddress::Ethernet(addr) => Some(*addr),
            HardwareAddress::Ip => None,
        }
    }

    /// The Ethernet address of an address known to be one.
    pub(crate) fn ethernet_or_panic(&self) -> (r: EthernetAddress)
        requires
            self is Ethernet,
        ensures
            r == self->Ethernet_0,
    {
        match self {
            HardwareAddress::Ethernet(addr) => *addr,
            HardwareAddress::Ip => vstd::pervasive::unreached(),
        }
    }
}

impl From<EthernetAddress> for HardwareAddress {
    fn from(addr: EthernetAddress) -> (r: Self) {
        HardwareAddress::Ethernet(addr)
    }
}

impl FromSpecImpl<EthernetAddress> for HardwareAddress {
    open spec fn obeys_from_spec() -> bool {
        true
    }

    open spec fn from_spec(addr: EthernetAddress) -> Self {
        HardwareAddress::Ethernet(addr)
    }
}

/// The headroom every egress packet reserves for the link-layer header below IP:
/// an IP packet may end up going out of an Ethernet interface.
pub const LINK_HEADER_LEN: usize = 14;

/// The length of the longest hardware address.
pub const MAX_HARDWARE_ADDRESS_LEN: usize = 6;

/// Unparsed hardware address.
///
/// Used to make NDISC parsing agnostic of the hardware medium in use.
#[derive(Debug, Clone, Copy, Eq, Hash)]
pub struct RawHardwareAddress {
    len: u8,
    data: [u8; 6],
}

impl PartialEq for RawHardwareAddress {
    fn eq(&self, other: &Self) -> (r: bool) {
        let r = self.len == other.len && bytes_eq(&self.data, &other.data);
        assert(r ==> self.data =~= other.data);
        r
    }
}

impl PartialEqSpecImpl for RawHardwareAddress {
    open spec fn obeys_eq_spec() -> bool {
        true
    }

    open spec fn eq_spec(&self, other: &Self) -> bool {
        *self == *other
    }
}

impl RawHardwareAddress {
    /// The length never exceeds what an address can hold.
    pub closed spec fn wf(&self) -> bool {
        self.len <= MAX_HARDWARE_ADDRESS_LEN
    }

    /// The octets of the address.
    pub closed spec fn octets(&self) -> Seq<u8> {
        self.data@.take(self.len as int)
    }

    /// An Ethernet address, unparsed.
    pub closed spec fn of_ethernet(addr: EthernetAddress) -> Self {
        RawHardwareAddress { len: 6, data: addr.0 }
    }

    /// Create a new `RawHardwareAddress` from a byte slice.
    pub fn from_bytes(addr: &[u8]) -> (r: Self)
        requires
            addr@.len() <= MAX_HARDWARE_ADDRESS_LEN,
        ensures
            r.wf(),
            r.octets() == addr@,
    {
        let mut data: [u8; 6] = [0, 0, 0, 0, 0, 0];
        let mut i: usize = 0;
        while i < addr.len()
            invariant
                i <= addr@.len() <= 6,
                forall|j: int| 0 <= j < i ==> data@[j] == addr@[j],
            decreases addr@.len() - i,
        {
            data[i] = addr[i];
            i += 1;
        }
        let r = RawHardwareAddress { len: addr.len() as u8, data };
        assert(r.octets() =~= addr@);
        r
    }

    /// The octets of the address.
    pub fn as_bytes(&self) -> (r: &[u8])
        requires
            self.wf(),
        ensures
            r@ == self.octets(),
    {
        let r = &self.data.as_slice()[0..self.len as usize];
        assert(r@ =~= self.octets());
        r
    }

    /// The number of octets.
    pub fn len(&self) -> (r: usize)
        requires
            self.wf(),
        ensures
            r == self.octets().len(),
    {
        self.len as usize
    }

    /// Whether there are no octets.
    pub fn is_empty(&self) -> (r: bool)
        requires
            self.wf(),
        ensures
            r == (self.octets().len() == 0),
    {
        self.len == 0
    }

    /// The octets in hexadecimal, with colons between them.
    pub fn text(&self) -> (r: String)
        requires
            self.wf(),
        ensures
            r@ == text::hex_octets(self.octets()),
    {
        text::hex_text(self.as_bytes())
    }

    /// Parse the address as an Ethernet address, if it has the right length.
    pub fn parse_ethernet(&self) -> (r: Result<EthernetAddress, Error>)
        requires
            self.wf(),
        ensures
            r is Ok <==> self.octets().len() == 6,
            r matches Ok(addr) ==> addr.0@ == self.octets(),
    {
        if self.len() != 6 {
            return Err(Error);
        }
        Ok(EthernetAddress::from_bytes(self.as_bytes()))
    }
}

impl From<EthernetAddress> for RawHardwareAddress {
    fn from(addr: EthernetAddress) -> (r: Self) {
        RawHardwareAddress { len: 6, data: addr.0 }
    }
}

impl FromSpecImpl<EthernetAddress> for RawHardwareAddress {
    open spec fn obeys_from_spec() -> bool {
        true
    }

    open spec fn from_spec(addr: EthernetAddress) -> Self {
        RawHardwareAddress::of_ethernet(addr)
    }
}

/// An Ethernet address survives a round trip through its unparsed form.
pub proof fn law_raw_address_round_trip(addr: EthernetAddress)
    ensures
        RawHardwareAddress::of_ethernet(addr).wf(),
        RawHardwareAddress::of_ethernet(addr).octets() == addr.0@,
{
    assert(RawHardwareAddress::of_ethernet(addr).octets() =~= addr.0@);
}

} // verus!
