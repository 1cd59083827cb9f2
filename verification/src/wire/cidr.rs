//! Address prefixes.

use vstd::prelude::*;
use vstd::std_specs::cmp::PartialEqSpecImpl;

use crate::wire::ip;
use crate::wire::ip::{IpAddress, Ipv4Address, Ipv6Address};

verus! {

/// An IPv4 address and the length of its network prefix.
#[derive(Debug, Clone, Copy, Eq, Hash)]
pub struct Ipv4Cidr {
    pub address: Ipv4Address,
    pub prefix_len: u8,
}

/// An IPv6 address and the length of its network prefix.
#[derive(Debug, Clone, Copy, Eq, Hash)]
pub struct Ipv6Cidr {
    pub address: Ipv6Address,
    pub prefix_len: u8,
}

/// An IP address of either version and the length of its network prefix.
#[derive(Debug, Clone, Copy, Eq, Hash)]
pub enum IpCidr {
    Ipv4(Ipv4Cidr),
    Ipv6(Ipv6Cidr),
}

impl PartialEq for Ipv4Cidr {
    fn eq(&self, other: &Self) -> (r: bool) {
        self.address == other.address && self.prefix_len == other.prefix_len
    }
}

impl PartialEqSpecImpl for Ipv4Cidr {
    open spec fn obeys_eq_spec() -> bool {
        true
    }

    open spec fn eq_spec(&self, other: &Self) -> bool {
        *self == *other
    }
}

impl PartialEq for Ipv6Cidr {
    fn eq(&self, other: &Self) -> (r: bool) {
        self.address == other.address && self.prefix_len == other.prefix_len
    }
}

impl PartialEqSpecImpl for Ipv6Cidr {
    open spec fn obeys_eq_spec() -> bool {
        true
    }

    open spec fn eq_spec(&self, other: &Self) -> bool {
        *self == *other
    }
}

impl PartialEq for IpCidr {
    fn eq(&self, other: &Self) -> (r: bool) {
        match (self, other) {
            (IpCidr::Ipv4(a), IpCidr::Ipv4(b)) => *a == *b,
            (IpCidr::Ipv6(a), IpCidr::Ipv6(b)) => *a == *b,
            _ => false,
        }
    }
}

impl PartialEqSpecImpl for IpCidr {
    open spec fn obeys_eq_spec() -> bool {
        true
    }

    open spec fn eq_spec(&self, other: &Self) -> bool {
        *self == *other
    }
}

impl Ipv4Cidr {
    /// A prefix is no longer than the address.
    pub open spec fn wf(self) -> bool {
        self.prefix_len <= 32
    }

    /// Whether the subnet contains the address: they agree in the prefix bits.
    pub open spec fn contains(self, addr: Ipv4Address) -> bool {
        ip::prefix_agree(self.address.0@, addr.0@, self.prefix_len as int)
    }

    /// The address with every host bit set.
    pub open spec fn host_bits_set(self) -> Seq<u8> {
        let p = self.prefix_len as int;
        Seq::new(
            4,
            |i: int|
                if 8 * (i + 1) <= p {
                    self.address.0@[i]
                } else if 8 * i >= p {
                    0xffu8
                } else {
                    self.address.0@[i] | (0xffu8 >> ((p % 8) as u8))
                },
        )
    }

    /// The subnet's broadcast address. Point-to-point (`/31`) and host (`/32`)
    /// prefixes have none.
    pub open spec fn broadcast_view(self) -> Option<Seq<u8>> {
        if self.prefix_len >= 31 {
            None
        } else {
            Some(self.host_bits_set())
        }
    }

    /// An address with its prefix length.
    pub fn new(address: Ipv4Address, prefix_len: u8) -> (r: Self)
        requires
            prefix_len <= 32,
        ensures
            r == (Ipv4Cidr { address, prefix_len }),
    {
        Ipv4Cidr { address, prefix_len }
    }

    /// The address.
    pub fn address(&self) -> (r: Ipv4Address)
        ensures
            r == self.address,
    {
        self.address
    }

    /// Whether the subnet contains the address.
    pub fn contains_addr(&self, addr: &Ipv4Address) -> (r: bool)
        requires
            self.wf(),
        ensures
            r == self.contains(*addr),
    {
        ip::same_prefix(&self.address.0, &addr.0, self.prefix_len)
    }

    /// One octet of the broadcast address.
    fn broadcast_octet(&self, i: usize) -> (r: u8)
        requires
            self.wf(),
            i < 4,
        ensures
            r == self.host_bits_set()[i as int],
    {
        let p: usize = self.prefix_len as usize;
        if 8 * (i + 1) <= p {
            self.address.0[i]
        } else if 8 * i >= p {
            0xff
        } else {
            let k: u8 = self.prefix_len % 8;
            self.address.0[i] | (0xffu8 >> k)
        }
    }

    /// The subnet's broadcast address, if it has one.
    pub fn broadcast(&self) -> (r: Option<Ipv4Address>)
        requires
            self.wf(),
        ensures
            (match r {
                Some(a) => Some(a.0@),
                None => None,
            }) == self.broadcast_view(),
    {
        if self.prefix_len >= 31 {
            return None;
        }
        let r = Ipv4Address(
            [self.broadcast_octet(0), self.broadcast_octet(1), self.broadcast_octet(2), self.broadcast_octet(3)],
        );
        assert(r.0@ =~= self.host_bits_set());
        Some(r)
    }
}

impl Ipv6Cidr {
    /// A prefix is no longer than the address.
    pub open spec fn wf(self) -> bool {
        self.prefix_len <= 128
    }

    /// Whether the subnet contains the address: they agree in the prefix bits.
    pub open spec fn contains(self, addr: Ipv6Address) -> bool {
        ip::prefix_agree(self.address.0@, addr.0@, self.prefix_len as int)
    }

    /// An address with its prefix length.
    pub fn new(address: Ipv6Address, prefix_len: u8) -> (r: Self)
        requires
            prefix_len <= 128,
        ensures
            r == (Ipv6Cidr { address, prefix_len }),
    {
        Ipv6Cidr { address, prefix_len }
    }

    /// The address.
    pub fn address(&self) -> (r: Ipv6Address)
        ensures
            r == self.address,
    {
        self.address
    }

    /// Whether the subnet contains the address.
    pub fn contains_addr(&self, addr: &Ipv6Address) -> (r: bool)
        requires
            self.wf(),
        ensures
            r == self.contains(*addr),
    {
        ip::same_prefix(&self.address.0, &addr.0, self.prefix_len)
    }
}

impl IpCidr {
    /// A prefix is no longer than the address.
    pub open spec fn wf(self) -> bool {
        match self {
            IpCidr::Ipv4(c) => c.wf(),
            IpCidr::Ipv6(c) => c.wf(),
        }
    }

    pub open spec fn address_view(self) -> IpAddress {
        match self {
            IpCidr::Ipv4(c) => IpAddress::Ipv4(c.address),
            IpCidr::Ipv6(c) => IpAddress::Ipv6(c.address),
        }
    }

    pub open spec fn prefix_len_view(self) -> u8 {
        match self {
            IpCidr::Ipv4(c) => c.prefix_len,
            IpCidr::Ipv6(c) => c.prefix_len,
        }
    }

    /// Whether the subnet contains the address. An address of the other IP
    /// version never is.
    pub open spec fn contains(self, addr: IpAddress) -> bool {
        match (self, addr) {
            (IpCidr::Ipv4(c), IpAddress::Ipv4(a)) => c.contains(a),
            (IpCidr::Ipv6(c), IpAddress::Ipv6(a)) => c.contains(a),
            _ => false,
        }
    }

    /// An address with its prefix length.
    pub fn new(address: IpAddress, prefix_len: u8) -> (r: Self)
        requires
            prefix_len <= (if address is Ipv4 {
                32u8
            } else {
                128u8
            }),
        ensures
            r.wf(),
            r.address_view() == address,
            r.prefix_len_view() == prefix_len,
    {
        match address {
            IpAddress::Ipv4(address) => IpCidr::Ipv4(Ipv4Cidr { address, prefix_len }),
            IpAddress::Ipv6(address) => IpCidr::Ipv6(Ipv6Cidr { address, prefix_len }),
        }
    }

    /// The address.
    pub fn address(&self) -> (r: IpAddress)
        ensures
            r == self.address_view(),
    {
        match self {
            IpCidr::Ipv4(c) => IpAddress::Ipv4(c.address),
            IpCidr::Ipv6(c) => IpAddress::Ipv6(c.address),
        }
    }

    /// The length of the prefix, in bits.
    pub fn prefix_len(&self) -> (r: u8)
        ensures
            r == self.prefix_len_view(),
    {
        match self {
            IpCidr::Ipv4(c) => c.prefix_len,
            IpCidr::Ipv6(c) => c.prefix_len,
        }
    }

    /// Whether the subnet contains the address.
    pub fn contains_addr(&self, addr: &IpAddress) -> (r: bool)
        requires
            self.wf(),
        ensures
            r == self.contains(*addr),
    {
        match (self, addr) {
            (IpCidr::Ipv4(c), IpAddress::Ipv4(a)) => c.contains_addr(a),
            (IpCidr::Ipv6(c), IpAddress::Ipv6(a)) => c.contains_addr(a),
            _ => false,
        }
    }
}

/// Every address is in its own subnet.
pub proof fn law_cidr_contains_its_address(cidr: IpCidr)
    ensures
        cidr.contains(cidr.address_view()),
{
}

} // verus!
