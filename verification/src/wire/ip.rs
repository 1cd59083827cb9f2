//! IP addresses, prefixes, endpoints and protocol numbers.

use vstd::prelude::*;
use vstd::std_specs::cmp::PartialEqSpecImpl;
use vstd::std_specs::convert::FromSpecImpl;

use crate::wire::bytes;
use crate::wire::bytes::bytes_eq;
use crate::wire::checksum;

verus! {

/// An IPv4 address.
#[derive(Debug, Clone, Copy, Eq, Hash)]
pub struct Ipv4Address(pub [u8; 4]);

/// An IPv6 address.
#[derive(Debug, Clone, Copy, Eq, Hash)]
pub struct Ipv6Address(pub [u8; 16]);

/// An IP address of either version.
#[derive(Debug, Clone, Copy, Eq, Hash)]
pub enum IpAddress {
    Ipv4(Ipv4Address),
    Ipv6(Ipv6Address),
}

/// An IP version.
#[derive(Debug, Clone, Copy, PartialEq, Eq, Structural, Hash)]
pub enum IpVersion {
    Ipv4,
    Ipv6,
}

/// The scope of an IPv6 multicast address (RFC 4291 §2.7), or the comparable
/// scope of a unicast one.
#[derive(Debug, Clone, Copy, PartialEq, Eq, Structural)]
pub enum Ipv6MulticastScope {
    Reserved,
    InterfaceLocal,
    LinkLocal,
    AdminLocal,
    SiteLocal,
    OrganizationLocal,
    Global,
    Unknown,
}

impl Ipv6MulticastScope {
    /// The number scopes are ordered by: wider scopes are larger.
    pub open spec fn rank_view(self) -> u8 {
        match self {
            Ipv6MulticastScope::Reserved => 0x0,
            Ipv6MulticastScope::InterfaceLocal => 0x1,
            Ipv6MulticastScope::LinkLocal => 0x2,
            Ipv6MulticastScope::AdminLocal => 0x4,
            Ipv6MulticastScope::SiteLocal => 0x5,
            Ipv6MulticastScope::OrganizationLocal => 0x8,
            Ipv6MulticastScope::Global => 0xe,
            Ipv6MulticastScope::Unknown => 0xff,
        }
    }

    /// The number scopes are ordered by.
    pub fn rank(&self) -> (r: u8)
        ensures
            r == self.rank_view(),
    {
        match self {
            Ipv6MulticastScope::Reserved => 0x0,
            Ipv6MulticastScope::InterfaceLocal => 0x1,
            Ipv6MulticastScope::LinkLocal => 0x2,
            Ipv6MulticastScope::AdminLocal => 0x4,
            Ipv6MulticastScope::SiteLocal => 0x5,
            Ipv6MulticastScope::OrganizationLocal => 0x8,
            Ipv6MulticastScope::Global => 0xe,
            Ipv6MulticastScope::Unknown => 0xff,
        }
    }

    /// The scope a multicast address names in its second octet's low half.
    pub open spec fn of_nibble(n: int) -> Ipv6MulticastScope {
        if n == 0x0 {
            Ipv6MulticastScope::Reserved
        } else if n == 0x1 {
            Ipv6MulticastScope::InterfaceLocal
        } else if n == 0x2 {
            Ipv6MulticastScope::LinkLocal
        } else if n == 0x4 {
            Ipv6MulticastScope::AdminLocal
        } else if n == 0x5 {
            Ipv6MulticastScope::SiteLocal
        } else if n == 0x8 {
            Ipv6MulticastScope::OrganizationLocal
        } else if n == 0xe {
            Ipv6MulticastScope::Global
        } else {
            Ipv6MulticastScope::Unknown
        }
    }
}

impl PartialEq for Ipv4Address {
    fn eq(&self, other: &Self) -> (r: bool) {
        let r = bytes_eq(&self.0, &other.0);
        assert(r ==> self.0 =~= other.0);
        r
    }
}

impl PartialEqSpecImpl for Ipv4Address {
    open spec fn obeys_eq_spec() -> bool {
        true
    }

    open spec fn eq_spec(&self, other: &Self) -> bool {
        *self == *other
    }
}

impl PartialEq for Ipv6Address {
    fn eq(&self, other: &Self) -> (r: bool) {
        let r = bytes_eq(&self.0, &other.0);
        assert(r ==> self.0 =~= other.0);
        r
    }
}

impl PartialEqSpecImpl for Ipv6Address {
    open spec fn obeys_eq_spec() -> bool {
        true
    }

    open spec fn eq_spec(&self, other: &Self) -> bool {
        *self == *other
    }
}

impl PartialEq for IpAddress {
    fn eq(&self, other: &Self) -> (r: bool) {
        match (self, other) {
            (IpAddress::Ipv4(a), IpAddress::Ipv4(b)) => *a == *b,
            (IpAddress::Ipv6(a), IpAddress::Ipv6(b)) => *a == *b,
            _ => false,
        }
    }
}

impl PartialEqSpecImpl for IpAddress {
    open spec fn obeys_eq_spec() -> bool {
        true
    }

    open spec fn eq_spec(&self, other: &Self) -> bool {
        *self == *other
    }
}

impl From<Ipv4Address> for IpAddress {
    fn from(addr: Ipv4Address) -> (r: Self) {
        IpAddress::Ipv4(addr)
    }
}

impl FromSpecImpl<Ipv4Address> for IpAddress {
    open spec fn obeys_from_spec() -> bool {
        true
    }

    open spec fn from_spec(addr: Ipv4Address) -> Self {
        IpAddress::Ipv4(addr)
    }
}

impl From<Ipv6Address> for IpAddress {
    fn from(addr: Ipv6Address) -> (r: Self) {
        IpAddress::Ipv6(addr)
    }
}

impl FromSpecImpl<Ipv6Address> for IpAddress {
    open spec fn obeys_from_spec() -> bool {
        true
    }

    open spec fn from_spec(addr: Ipv6Address) -> Self {
        IpAddress::Ipv6(addr)
    }
}

/// The highest `k` bits of an octet.
pub open spec fn top_bits(x: u8, k: int) -> u8 {
    x >> ((8 - k) as u8)
}

/// Whether two octet strings agree in their first `p` bits.
pub open spec fn prefix_agree(a: Seq<u8>, b: Seq<u8>, p: int) -> bool {
    &&& forall|i: int| 0 <= i < p / 8 ==> #[trigger] a[i] == b[i]
    &&& p % 8 != 0 ==> top_bits(a[p / 8], p % 8) == top_bits(b[p / 8], p % 8)
}

/// Whether two octet strings agree in their first `p` bits.
pub(crate) fn same_prefix(a: &[u8], b: &[u8], p: u8) -> (r: bool)
    requires
        p <= 8 * a@.len(),
        a@.len() == b@.len(),
    ensures
        r == prefix_agree(a@, b@, p as int),
{
    let whole: usize = (p / 8) as usize;
    let mut i: usize = 0;
    while i < whole
        invariant
            i <= whole,
            whole == p / 8,
            whole <= a@.len(),
            a@.len() == b@.len(),
            forall|j: int| 0 <= j < i ==> a@[j] == b@[j],
        decreases whole - i,
    {
        if a[i] != b[i] {
            return false;
        }
        i += 1;
    }
    let rest: u8 = p % 8;
    if rest != 0 {
        a[whole] >> (8 - rest) == b[whole] >> (8 - rest)
    } else {
        true
    }
}

impl Ipv4Address {
    /// The address `a.b.c.d`.
    pub fn new(a: u8, b: u8, c: u8, d: u8) -> (r: Self)
        ensures
            r.0@ == seq![a, b, c, d],
    {
        let r = Ipv4Address([a, b, c, d]);
        assert(r.0@ =~= seq![a, b, c, d]);
        r
    }

    /// The address with the given four octets.
    pub open spec fn of(octets: Seq<u8>) -> Self {
        Ipv4Address([octets[0], octets[1], octets[2], octets[3]])
    }

    /// An address is the one with its octets.
    pub proof fn lemma_of(self)
        ensures
            Self::of(self.0@) == self,
    {
        assert(Self::of(self.0@).0 =~= self.0);
    }

    /// The address has the octets it was made of.
    pub proof fn lemma_octets(octets: Seq<u8>)
        requires
            octets.len() == 4,
        ensures
            Self::of(octets).0@ == octets,
    {
        assert(Self::of(octets).0@ =~= octets);
    }

    /// The address held in the first four octets of the slice.
    pub fn from_bytes(data: &[u8]) -> (r: Self)
        requires
            data@.len() == 4,
        ensures
            r.0@ == data@,
            r == Self::of(data@),
    {
        let r = Ipv4Address([data[0], data[1], data[2], data[3]]);
        assert(r.0@ =~= data@);
        r
    }

    /// The octets of the address.
    pub fn octets(&self) -> (r: [u8; 4])
        ensures
            r == self.0,
    {
        self.0
    }

    /// The wildcard address `0.0.0.0`.
    pub fn unspecified() -> (r: Self)
        ensures
            r.unspecified_view(),
    {
        Ipv4Address([0, 0, 0, 0])
    }

    /// Whether this is `0.0.0.0`.
    pub open spec fn unspecified_view(self) -> bool {
        self.0@ == seq![0u8, 0u8, 0u8, 0u8]
    }

    /// Whether this is the limited broadcast address `255.255.255.255`.
    pub open spec fn broadcast_view(self) -> bool {
        self.0@ == seq![255u8, 255u8, 255u8, 255u8]
    }

    /// Whether this is in `224.0.0.0/4`.
    pub open spec fn multicast_view(self) -> bool {
        224 <= self.0@[0] <= 239
    }

    /// Neither unspecified, broadcast nor multicast.
    pub open spec fn unicast_view(self) -> bool {
        !self.unspecified_view() && !self.broadcast_view() && !self.multicast_view()
    }

    pub fn is_unspecified(&self) -> (r: bool)
        ensures
            r == self.unspecified_view(),
    {
        let z: [u8; 4] = [0, 0, 0, 0];
        assert(z@ =~= seq![0u8, 0u8, 0u8, 0u8]);
        bytes_eq(&self.0, &z)
    }

    pub fn is_broadcast(&self) -> (r: bool)
        ensures
            r == self.broadcast_view(),
    {
        let z: [u8; 4] = [255, 255, 255, 255];
        assert(z@ =~= seq![255u8, 255u8, 255u8, 255u8]);
        bytes_eq(&self.0, &z)
    }

    pub fn is_multicast(&self) -> (r: bool)
        ensures
            r == self.multicast_view(),
    {
        self.0[0] >= 224 && self.0[0] <= 239
    }

    pub fn is_unicast(&self) -> (r: bool)
        ensures
            r == self.unicast_view(),
    {
        !self.is_unspecified() && !self.is_broadcast() && !self.is_multicast()
    }
}

impl Ipv6Address {
    /// The address made of eight 16-bit segments.
    pub fn new(a: u16, b: u16, c: u16, d: u16, e: u16, f: u16, g: u16, h: u16) -> (r: Self)
        ensures
            r.0@ == bytes::octets16(a) + bytes::octets16(b)
                + bytes::octets16(c) + bytes::octets16(d)
                + bytes::octets16(e) + bytes::octets16(f)
                + bytes::octets16(g) + bytes::octets16(h),
    {
        let r = Ipv6Address(
            [
                (a / 0x100) as u8,
                (a % 0x100) as u8,
                (b / 0x100) as u8,
                (b % 0x100) as u8,
                (c / 0x100) as u8,
                (c % 0x100) as u8,
                (d / 0x100) as u8,
                (d % 0x100) as u8,
                (e / 0x100) as u8,
                (e % 0x100) as u8,
                (f / 0x100) as u8,
                (f % 0x100) as u8,
                (g / 0x100) as u8,
                (g % 0x100) as u8,
                (h / 0x100) as u8,
                (h % 0x100) as u8,
            ],
        );
        assert(r.0@ =~= bytes::octets16(a) + bytes::octets16(b)
            + bytes::octets16(c) + bytes::octets16(d)
            + bytes::octets16(e) + bytes::octets16(f)
            + bytes::octets16(g) + bytes::octets16(h));
        r
    }

    /// The address with the given sixteen octets.
    pub open spec fn of(s: Seq<u8>) -> Self {
        Ipv6Address(
            [
                s[0],
                s[1],
                s[2],
                s[3],
                s[4],
                s[5],
                s[6],
                s[7],
                s[8],
                s[9],
                s[10],
                s[11],
                s[12],
                s[13],
                s[14],
                s[15],
            ],
        )
    }

    /// An address is the one with its octets.
    pub proof fn lemma_of(self)
        ensures
            Self::of(self.0@) == self,
    {
        assert(Self::of(self.0@).0 =~= self.0);
    }

    /// The address has the octets it was made of.
    pub proof fn lemma_octets(octets: Seq<u8>)
        requires
            octets.len() == 16,
        ensures
            Self::of(octets).0@ == octets,
    {
        assert(Self::of(octets).0@ =~= octets);
    }

    /// The address held in the sixteen octets of the slice.
    pub fn from_bytes(data: &[u8]) -> (r: Self)
        requires
            data@.len() == 16,
        ensures
            r.0@ == data@,
            r == Self::of(data@),
    {
        let mut octets: [u8; 16] = [0, 0, 0, 0, 0, 0, 0, 0, 0, 0, 0, 0, 0, 0, 0, 0];
        let mut i: usize = 0;
        while i < 16
            invariant
                i <= 16,
                data@.len() == 16,
                forall|j: int| 0 <= j < i ==> octets@[j] == data@[j],
            decreases 16 - i,
        {
            octets[i] = data[i];
            i += 1;
        }
        assert(octets@ =~= data@);
        let r = Ipv6Address(octets);
        proof {
            r.lemma_of();
        }
        r
    }

    /// The octets of the address.
    pub fn octets(&self) -> (r: [u8; 16])
        ensures
            r == self.0,
    {
        self.0
    }

    /// The octets of `::`.
    pub open spec fn unspecified_octets() -> Seq<u8> {
        Seq::new(16, |i: int| 0u8)
    }

    /// The octets of the loopback address `::1`.
    pub open spec fn localhost_octets() -> Seq<u8> {
        Seq::new(16, |i: int| if i == 15 { 1u8 } else { 0u8 })
    }

    /// The octets of the link-local all-nodes group `ff02::1`.
    pub open spec fn all_nodes_octets() -> Seq<u8> {
        Seq::new(
            16,
            |i: int|
                if i == 0 {
                    0xffu8
                } else if i == 1 {
                    2u8
                } else if i == 15 {
                    1u8
                } else {
                    0u8
                },
        )
    }

    pub open spec fn unspecified_view(self) -> bool {
        self.0@ == Self::unspecified_octets()
    }

    pub open spec fn loopback_view(self) -> bool {
        self.0@ == Self::localhost_octets()
    }

    /// Whether this is in `ff00::/8`.
    pub open spec fn multicast_view(self) -> bool {
        self.0@[0] == 0xff
    }

    /// Neither unspecified nor multicast.
    pub open spec fn unicast_view(self) -> bool {
        !self.unspecified_view() && !self.multicast_view()
    }

    /// Whether this is in `fe80::/64`.
    pub open spec fn link_local_view(self) -> bool {
        self.0@.take(8) == seq![0xfeu8, 0x80u8, 0u8, 0u8, 0u8, 0u8, 0u8, 0u8]
    }

    /// Whether this is in `fc00::/7`.
    pub open spec fn unique_local_view(self) -> bool {
        self.0@[0] == 0xfc || self.0@[0] == 0xfd
    }

    /// Whether this is in `2000::/3`.
    pub open spec fn global_unicast_view(self) -> bool {
        0x20 <= self.0@[0] <= 0x3f
    }

    /// The first 13 octets of every solicited-node group (RFC 4291 §2.7.1).
    pub open spec fn solicited_node_prefix() -> Seq<u8> {
        seq![0xffu8, 0x02u8, 0u8, 0u8, 0u8, 0u8, 0u8, 0u8, 0u8, 0u8, 0u8, 0x01u8, 0xffu8]
    }

    /// Whether this is a solicited-node group.
    pub open spec fn solicited_node_group_view(self) -> bool {
        self.0@.take(13) == Self::solicited_node_prefix()
    }

    /// The scope of the address, for source address selection.
    pub open spec fn scope_view(self) -> Ipv6MulticastScope {
        if self.multicast_view() {
            Ipv6MulticastScope::of_nibble((self.0@[1] % 16) as int)
        } else if self.link_local_view() {
            Ipv6MulticastScope::LinkLocal
        } else if self.unique_local_view() || self.global_unicast_view() {
            Ipv6MulticastScope::Global
        } else {
            Ipv6MulticastScope::Unknown
        }
    }

    /// The wildcard address `::`.
    pub fn unspecified() -> (r: Self)
        ensures
            r.unspecified_view(),
    {
        let r = Ipv6Address([0, 0, 0, 0, 0, 0, 0, 0, 0, 0, 0, 0, 0, 0, 0, 0]);
        assert(r.0@ =~= Self::unspecified_octets());
        r
    }

    /// The loopback address `::1`.
    pub fn localhost() -> (r: Self)
        ensures
            r.loopback_view(),
    {
        let r = Ipv6Address([0, 0, 0, 0, 0, 0, 0, 0, 0, 0, 0, 0, 0, 0, 0, 1]);
        assert(r.0@ =~= Self::localhost_octets());
        r
    }

    /// The link-local all-nodes group `ff02::1`.
    pub fn link_local_all_nodes() -> (r: Self)
        ensures
            r.0@ == Self::all_nodes_octets(),
    {
        let r = Ipv6Address([0xff, 2, 0, 0, 0, 0, 0, 0, 0, 0, 0, 0, 0, 0, 0, 1]);
        assert(r.0@ =~= Self::all_nodes_octets());
        r
    }

    pub fn is_unspecified(&self) -> (r: bool)
        ensures
            r == self.unspecified_view(),
    {
        let z = Ipv6Address::unspecified();
        bytes_eq(&self.0, &z.0)
    }

    pub fn is_loopback(&self) -> (r: bool)
        ensures
            r == self.loopback_view(),
    {
        let z = Ipv6Address::localhost();
        bytes_eq(&self.0, &z.0)
    }

    pub fn is_multicast(&self) -> (r: bool)
        ensures
            r == self.multicast_view(),
    {
        self.0[0] == 0xff
    }

    pub fn is_unicast(&self) -> (r: bool)
        ensures
            r == self.unicast_view(),
    {
        !self.is_unspecified() && !self.is_multicast()
    }

    pub fn is_link_local(&self) -> (r: bool)
        ensures
            r == self.link_local_view(),
    {
        let prefix: [u8; 8] = [0xfe, 0x80, 0, 0, 0, 0, 0, 0];
        assert(prefix@ =~= seq![0xfeu8, 0x80u8, 0u8, 0u8, 0u8, 0u8, 0u8, 0u8]);
        assert(self.0@.subrange(0, 8) =~= self.0@.take(8));
        bytes_eq(&self.0.as_slice()[0..8], &prefix)
    }

    pub fn is_unique_local(&self) -> (r: bool)
        ensures
            r == self.unique_local_view(),
    {
        self.0[0] == 0xfc || self.0[0] == 0xfd
    }

    pub fn is_global_unicast(&self) -> (r: bool)
        ensures
            r == self.global_unicast_view(),
    {
        self.0[0] >= 0x20 && self.0[0] <= 0x3f
    }

    pub fn is_solicited_node_multicast(&self) -> (r: bool)
        ensures
            r == self.solicited_node_group_view(),
    {
        let prefix: [u8; 13] = [0xff, 0x02, 0, 0, 0, 0, 0, 0, 0, 0, 0, 0x01, 0xff];
        assert(prefix@ =~= Self::solicited_node_prefix());
        assert(self.0@.subrange(0, 13) =~= self.0@.take(13));
        bytes_eq(&self.0.as_slice()[0..13], &prefix)
    }

    /// The solicited-node group of this address: the group prefix followed by
    /// the address's last three octets.
    pub fn solicited_node(&self) -> (r: Self)
        ensures
            r.0@ == Self::solicited_node_prefix() + self.0@.skip(13),
            r.solicited_node_group_view(),
            r.multicast_view(),
    {
        let r = Ipv6Address(
            [0xff, 0x02, 0, 0, 0, 0, 0, 0, 0, 0, 0, 0x01, 0xff, self.0[13], self.0[14], self.0[15]],
        );
        assert(r.0@ =~= Self::solicited_node_prefix() + self.0@.skip(13));
        assert(r.0@.take(13) =~= Self::solicited_node_prefix());
        r
    }

    /// The scope of the address, for source address selection.
    pub fn multicast_scope(&self) -> (r: Ipv6MulticastScope)
        ensures
            r == self.scope_view(),
    {
        if self.is_multicast() {
            let n: u8 = self.0[1] % 16;
            if n == 0x0 {
                Ipv6MulticastScope::Reserved
            } else if n == 0x1 {
                Ipv6MulticastScope::InterfaceLocal
            } else if n == 0x2 {
                Ipv6MulticastScope::LinkLocal
            } else if n == 0x4 {
                Ipv6MulticastScope::AdminLocal
            } else if n == 0x5 {
                Ipv6MulticastScope::SiteLocal
            } else if n == 0x8 {
                Ipv6MulticastScope::OrganizationLocal
            } else if n == 0xe {
                Ipv6MulticastScope::Global
            } else {
                Ipv6MulticastScope::Unknown
            }
        } else if self.is_link_local() {
            Ipv6MulticastScope::LinkLocal
        } else if self.is_unique_local() || self.is_global_unicast() {
            Ipv6MulticastScope::Global
        } else {
            Ipv6MulticastScope::Unknown
        }
    }
}

impl IpAddress {
    pub open spec fn octets_view(self) -> Seq<u8> {
        match self {
            IpAddress::Ipv4(a) => a.0@,
            IpAddress::Ipv6(a) => a.0@,
        }
    }

    pub open spec fn version_view(self) -> IpVersion {
        match self {
            IpAddress::Ipv4(_) => IpVersion::Ipv4,
            IpAddress::Ipv6(_) => IpVersion::Ipv6,
        }
    }

    pub open spec fn unspecified_view(self) -> bool {
        match self {
            IpAddress::Ipv4(a) => a.unspecified_view(),
            IpAddress::Ipv6(a) => a.unspecified_view(),
        }
    }

    pub open spec fn unicast_view(self) -> bool {
        match self {
            IpAddress::Ipv4(a) => a.unicast_view(),
            IpAddress::Ipv6(a) => a.unicast_view(),
        }
    }

    pub open spec fn multicast_view(self) -> bool {
        match self {
            IpAddress::Ipv4(a) => a.multicast_view(),
            IpAddress::Ipv6(a) => a.multicast_view(),
        }
    }

    /// The IP version of the address.
    pub fn version(&self) -> (r: IpVersion)
        ensures
            r == self.version_view(),
    {
        match self {
            IpAddress::Ipv4(_) => IpVersion::Ipv4,
            IpAddress::Ipv6(_) => IpVersion::Ipv6,
        }
    }

    pub fn is_unspecified(&self) -> (r: bool)
        ensures
            r == self.unspecified_view(),
    {
        match self {
            IpAddress::Ipv4(a) => a.is_unspecified(),
            IpAddress::Ipv6(a) => a.is_unspecified(),
        }
    }

    pub fn is_unicast(&self) -> (r: bool)
        ensures
            r == self.unicast_view(),
    {
        match self {
            IpAddress::Ipv4(a) => a.is_unicast(),
            IpAddress::Ipv6(a) => a.is_unicast(),
        }
    }

    pub fn is_multicast(&self) -> (r: bool)
        ensures
            r == self.multicast_view(),
    {
        match self {
            IpAddress::Ipv4(a) => a.is_multicast(),
            IpAddress::Ipv6(a) => a.is_multicast(),
        }
    }

    /// The ones' complement sum of the address, for pseudo-headers.
    pub(crate) fn octets_sum(&self) -> (r: u16)
        ensures
            r == checksum::ones_sum(self.octets_view()),
    {
        match self {
            IpAddress::Ipv4(a) => checksum::data(&a.0),
            IpAddress::Ipv6(a) => checksum::data(&a.0),
        }
    }
}

impl IpVersion {
    /// The version nibble of a packet, if it is one the stack knows.
    pub open spec fn of_packet_view(data: Seq<u8>) -> Option<IpVersion> {
        if data[0] / 16 == 4 {
            Some(IpVersion::Ipv4)
        } else if data[0] / 16 == 6 {
            Some(IpVersion::Ipv6)
        } else {
            None
        }
    }

    /// The version nibble of a packet, if it is one the stack knows.
    pub fn of_packet(data: &[u8]) -> (r: Result<IpVersion, crate::wire::Error>)
        requires
            data@.len() > 0,
        ensures
            (match r {
                Ok(v) => Some(v),
                Err(_) => None,
            }) == Self::of_packet_view(data@),
    {
        let nibble: u8 = data[0] / 16;
        if nibble == 4 {
            Ok(IpVersion::Ipv4)
        } else if nibble == 6 {
            Ok(IpVersion::Ipv6)
        } else {
            Err(crate::wire::Error)
        }
    }
}

} // verus!
