//! Transport endpoints: an address and a port.

use vstd::prelude::*;
use vstd::std_specs::cmp::PartialEqSpecImpl;
use vstd::std_specs::convert::FromSpecImpl;

use crate::wire::ip::{IpAddress, IpVersion, Ipv4Address, Ipv6Address};

verus! {

/// An address and a port.
#[derive(Debug, Clone, Copy, Eq, Hash)]
pub struct IpEndpoint {
    pub addr: IpAddress,
    pub port: u16,
}

/// An address filter and a port, either of which may be a wildcard.
///
/// No address matches any address of any version, an unspecified one matches
/// any address of its own version, and a concrete one only itself.
#[derive(Debug, Clone, Copy, Eq, Hash)]
pub struct IpListenEndpoint {
    pub addr: Option<IpAddress>,
    pub port: u16,
}

impl PartialEq for IpEndpoint {
    fn eq(&self, other: &Self) -> (r: bool) {
        self.addr == other.addr && self.port == other.port
    }
}

impl PartialEqSpecImpl for IpEndpoint {
    open spec fn obeys_eq_spec() -> bool {
        true
    }

    open spec fn eq_spec(&self, other: &Self) -> bool {
        *self == *other
    }
}

impl PartialEq for IpListenEndpoint {
    fn eq(&self, other: &Self) -> (r: bool) {
        let same_addr = match (self.addr, other.addr) {
            (Some(a), Some(b)) => a == b,
            (None, None) => true,
            _ => false,
        };
        same_addr && self.port == other.port
    }
}

impl PartialEqSpecImpl for IpListenEndpoint {
    open spec fn obeys_eq_spec() -> bool {
        true
    }

    open spec fn eq_spec(&self, other: &Self) -> bool {
        *self == *other
    }
}

impl IpEndpoint {
    /// An address and a port.
    pub fn new(addr: IpAddress, port: u16) -> (r: Self)
        ensures
            r == (IpEndpoint { addr, port }),
    {
        IpEndpoint { addr, port }
    }

    /// The wildcard endpoint: `0.0.0.0`, port zero.
    pub fn unspecified() -> (r: Self)
        ensures
            r.addr is Ipv4,
            r.addr.unspecified_view(),
            r.port == 0,
    {
        IpEndpoint { addr: IpAddress::Ipv4(Ipv4Address::unspecified()), port: 0 }
    }

    /// Whether both the address and the port are given.
    pub open spec fn specified(self) -> bool {
        !self.addr.unspecified_view() && self.port != 0
    }

    /// Whether both the address and the port are given.
    pub fn is_specified(&self) -> (r: bool)
        ensures
            r == self.specified(),
    {
        !self.addr.is_unspecified() && self.port != 0
    }
}

impl IpListenEndpoint {
    /// The fully wildcard endpoint.
    pub open spec fn wildcard() -> Self {
        IpListenEndpoint { addr: None, port: 0 }
    }

    /// The fully wildcard endpoint.
    pub fn unspecified() -> (r: Self)
        ensures
            r == Self::wildcard(),
    {
        IpListenEndpoint { addr: None, port: 0 }
    }

    /// The IP version the address filter restricts to, if any.
    pub open spec fn version_view(self) -> Option<IpVersion> {
        match self.addr {
            Some(a) => Some(a.version_view()),
            None => None,
        }
    }

    /// The address, if it names a single one.
    pub open spec fn concrete(self) -> Option<IpAddress> {
        match self.addr {
            Some(a) => if a.unspecified_view() {
                None
            } else {
                Some(a)
            },
            None => None,
        }
    }

    /// The IP version the address filter restricts to, if any.
    pub fn version(&self) -> (r: Option<IpVersion>)
        ensures
            r == self.version_view(),
    {
        match self.addr {
            Some(a) => Some(a.version()),
            None => None,
        }
    }

    /// The address, if it names a single one.
    pub fn concrete_addr(&self) -> (r: Option<IpAddress>)
        ensures
            r == self.concrete(),
    {
        match self.addr {
            Some(a) => if a.is_unspecified() {
                None
            } else {
                Some(a)
            },
            None => None,
        }
    }
}

impl From<u16> for IpListenEndpoint {
    fn from(port: u16) -> (r: Self) {
        IpListenEndpoint { addr: None, port }
    }
}

impl FromSpecImpl<u16> for IpListenEndpoint {
    open spec fn obeys_from_spec() -> bool {
        true
    }

    open spec fn from_spec(port: u16) -> Self {
        IpListenEndpoint { addr: None, port }
    }
}

impl From<IpEndpoint> for IpListenEndpoint {
    fn from(endpoint: IpEndpoint) -> (r: Self) {
        IpListenEndpoint { addr: Some(endpoint.addr), port: endpoint.port }
    }
}

impl FromSpecImpl<IpEndpoint> for IpListenEndpoint {
    open spec fn obeys_from_spec() -> bool {
        true
    }

    open spec fn from_spec(endpoint: IpEndpoint) -> Self {
        IpListenEndpoint { addr: Some(endpoint.addr), port: endpoint.port }
    }
}

impl From<(Ipv4Address, u16)> for IpListenEndpoint {
    fn from(parts: (Ipv4Address, u16)) -> (r: Self) {
        IpListenEndpoint { addr: Some(IpAddress::Ipv4(parts.0)), port: parts.1 }
    }
}

impl FromSpecImpl<(Ipv4Address, u16)> for IpListenEndpoint {
    open spec fn obeys_from_spec() -> bool {
        true
    }

    open spec fn from_spec(parts: (Ipv4Address, u16)) -> Self {
        IpListenEndpoint { addr: Some(IpAddress::Ipv4(parts.0)), port: parts.1 }
    }
}

impl From<(Ipv6Address, u16)> for IpListenEndpoint {
    fn from(parts: (Ipv6Address, u16)) -> (r: Self) {
        IpListenEndpoint { addr: Some(IpAddress::Ipv6(parts.0)), port: parts.1 }
    }
}

impl FromSpecImpl<(Ipv6Address, u16)> for IpListenEndpoint {
    open spec fn obeys_from_spec() -> bool {
        true
    }

    open spec fn from_spec(parts: (Ipv6Address, u16)) -> Self {
        IpListenEndpoint { addr: Some(IpAddress::Ipv6(parts.0)), port: parts.1 }
    }
}

impl From<(Ipv4Address, u16)> for IpEndpoint {
    fn from(parts: (Ipv4Address, u16)) -> (r: Self) {
        IpEndpoint { addr: IpAddress::Ipv4(parts.0), port: parts.1 }
    }
}

impl FromSpecImpl<(Ipv4Address, u16)> for IpEndpoint {
    open spec fn obeys_from_spec() -> bool {
        true
    }

    open spec fn from_spec(parts: (Ipv4Address, u16)) -> Self {
        IpEndpoint { addr: IpAddress::Ipv4(parts.0), port: parts.1 }
    }
}

impl From<(Ipv6Address, u16)> for IpEndpoint {
    fn from(parts: (Ipv6Address, u16)) -> (r: Self) {
        IpEndpoint { addr: IpAddress::Ipv6(parts.0), port: parts.1 }
    }
}

impl FromSpecImpl<(Ipv6Address, u16)> for IpEndpoint {
    open spec fn obeys_from_spec() -> bool {
        true
    }

    open spec fn from_spec(parts: (Ipv6Address, u16)) -> Self {
        IpEndpoint { addr: IpAddress::Ipv6(parts.0), port: parts.1 }
    }
}

} // verus!
