//! An interface's state and what can be asked about its addresses.

use core::task::Waker;

use vstd::prelude::*;
use vstd::std_specs::cmp::PartialEqSpecImpl;

use crate::buf::{PacketBuf, PacketView, PACKET_BUF_SIZE};
use crate::config::IFACE_ADDR_COUNT;
use crate::iface::{IfaceCapabilities, IfaceHandle, Medium};
use crate::meta::{PacketMeta, TxTimestamp};
use crate::waker;
use crate::waker::WakerRegistration;
use crate::wire::bytes;
use crate::wire::cidr::{IpCidr, Ipv6Cidr};
use crate::wire::ethernet::{EthernetAddress, ETHERNET_HEADER_LEN};
use crate::wire::ip::{IpAddress, Ipv4Address, Ipv6Address};
use crate::wire::{HardwareAddress, LINK_HEADER_LEN};

verus! {

/// Where an interface address came from.
#[derive(Debug, Clone, Copy, PartialEq, Eq, Structural)]
#[non_exhaustive]
pub enum AddrOrigin {
    /// Assigned by the application.
    Manual,
    /// The IPv6 link-local address the stack derives from the hardware address.
    LinkLocal,
}

/// An IP address assigned to an interface.
#[derive(Debug, Clone, Copy, Eq)]
pub struct IfaceAddr {
    /// The address and its prefix.
    pub cidr: IpCidr,
    /// Where the address came from.
    pub origin: AddrOrigin,
}

impl PartialEq for IfaceAddr {
    fn eq(&self, other: &Self) -> (r: bool) {
        self.cidr == other.cidr && self.origin == other.origin
    }
}

impl PartialEqSpecImpl for IfaceAddr {
    open spec fn obeys_eq_spec() -> bool {
        true
    }

    open spec fn eq_spec(&self, other: &Self) -> bool {
        *self == *other
    }
}

impl IfaceAddr {
    /// An assigned address is a single host's, with a prefix no longer than it.
    pub open spec fn wf(self) -> bool {
        self.cidr.wf() && self.cidr.address_view().unicast_view()
    }

    /// An address assigned by the application.
    pub fn manual(cidr: IpCidr) -> (r: Self)
        ensures
            r == (IfaceAddr { cidr, origin: AddrOrigin::Manual }),
    {
        IfaceAddr { cidr, origin: AddrOrigin::Manual }
    }
}

/// The octets of the IPv6 link-local address derived from an Ethernet address
/// (RFC 4291 §2.5.1, modified EUI-64).
pub open spec fn link_local_octets(mac: EthernetAddress) -> Seq<u8> {
    seq![0xfeu8, 0x80u8, 0u8, 0u8, 0u8, 0u8, 0u8, 0u8] + mac.eui_64_view()
}

/// The link-local address an interface with this hardware address gets, if it gets
/// one.
pub open spec fn link_local_of(hardware_addr: HardwareAddress) -> Option<IfaceAddr> {
    match hardware_addr {
        HardwareAddress::Ethernet(mac) => Some(
            IfaceAddr {
                cidr: IpCidr::Ipv6(
                    Ipv6Cidr { address: Ipv6Address::of(link_local_octets(mac)), prefix_len: 64 },
                ),
                origin: AddrOrigin::LinkLocal,
            },
        ),
        HardwareAddress::Ip => None,
    }
}

/// The IPv6 link-local address derived from an Ethernet address.
pub fn link_local_addr(hardware_addr: HardwareAddress) -> (r: Option<IfaceAddr>)
    ensures
        r == link_local_of(hardware_addr),
        r matches Some(addr) ==> addr.wf(),
{
    let mac = match hardware_addr {
        HardwareAddress::Ethernet(mac) => mac,
        HardwareAddress::Ip => return None,
    };
    let mut octets: Vec<u8> = Vec::new();
    octets.push(0xfe);
    octets.push(0x80);
    octets.push(0);
    octets.push(0);
    octets.push(0);
    octets.push(0);
    octets.push(0);
    octets.push(0);
    bytes::push_bytes(&mut octets, &mac.as_eui_64());
    assert(octets@ =~= link_local_octets(mac));
    let addr = Ipv6Address::from_bytes(octets.as_slice());
    assert(addr.0@[0] == 0xfe);
    assert(!addr.unspecified_view()) by {
        assert(Ipv6Address::unspecified_octets()[0] == 0);
    }
    Some(
        IfaceAddr {
            cidr: IpCidr::Ipv6(Ipv6Cidr { address: addr, prefix_len: 64 }),
            origin: AddrOrigin::LinkLocal,
        },
    )
}

/// A frame handed to a device, as the device sees it.
#[verifier::ext_equal]
pub struct Frame {
    pub data: Seq<u8>,
    pub meta: PacketMeta,
}

impl PacketView {
    /// The packet without its headroom.
    pub open spec fn frame(self) -> Frame {
        Frame { data: self.data, meta: self.meta }
    }
}

/// What an interface holds.
#[verifier::ext_equal]
pub struct IfaceModel {
    pub handle: IfaceHandle,
    pub caps: IfaceCapabilities,
    pub hardware_addr: HardwareAddress,
    pub ip_addrs: Seq<IfaceAddr>,
    pub config_generation: u32,
    /// The task to wake when the configuration changes, if any.
    pub config_waker: Option<Waker>,
    /// Frames received and not yet processed, oldest first.
    pub rx: Seq<PacketView>,
    /// Frames transmitted and not yet taken by the device, oldest first.
    pub tx: Seq<Frame>,
    /// Transmit timestamps the device reported, oldest first.
    pub stamps: Seq<TxTimestamp>,
}

/// The views of a list of packets.
pub open spec fn packet_views(packets: Seq<PacketBuf>) -> Seq<PacketView> {
    packets.map_values(|p: PacketBuf| p@)
}

/// A list of packets, without their headroom.
pub open spec fn frames(packets: Seq<PacketBuf>) -> Seq<Frame> {
    packets.map_values(|p: PacketBuf| p@.frame())
}

/// Whether every packet's buffer is well-formed.
pub open spec fn packets_ok(packets: Seq<PacketBuf>) -> bool {
    forall|i: int| 0 <= i < packets.len() ==> (#[trigger] packets[i]).wf()
}

/// Whether a received frame leaves room for a link-layer header to be put in
/// front of a reply that is as long as it.
pub open spec fn rx_ok(medium: Medium, packet: PacketView) -> bool {
    packet.fits() && (medium == Medium::Ip ==> packet.data.len() + LINK_HEADER_LEN <= PACKET_BUF_SIZE)
}

impl IfaceModel {
    /// What every operation keeps of an interface: its hardware address is of its
    /// medium's kind, its frames can hold a link-layer header, its addresses are
    /// usable, and its received frames leave room for replies.
    pub open spec fn wf(self) -> bool {
        &&& self.hardware_addr.medium_view() == self.caps.medium
        &&& self.caps.medium == Medium::Ethernet ==> self.caps.max_transmission_unit >= ETHERNET_HEADER_LEN
        &&& self.ip_addrs.len() <= IFACE_ADDR_COUNT
        &&& addrs_ok(self.ip_addrs)
        &&& forall|i: int| 0 <= i < self.rx.len() ==> rx_ok(self.caps.medium, #[trigger] self.rx[i])
    }

    /// The interface with one more frame transmitted.
    pub open spec fn sent(self, frame: Frame) -> IfaceModel {
        IfaceModel { tx: self.tx.push(frame), ..self }
    }

    /// The interface's IP-layer MTU: the device MTU minus the Ethernet header on
    /// Ethernet mediums, clamped to what a packet buffer can carry behind the
    /// link-layer headroom.
    pub open spec fn ip_mtu(self) -> int {
        let mtu = if self.caps.medium == Medium::Ethernet {
            self.caps.max_transmission_unit - ETHERNET_HEADER_LEN
        } else {
            self.caps.max_transmission_unit as int
        };
        if mtu <= PACKET_BUF_SIZE - LINK_HEADER_LEN {
            mtu
        } else {
            PACKET_BUF_SIZE - LINK_HEADER_LEN
        }
    }

    /// The interface's Ethernet address.
    pub open spec fn ethernet_addr(self) -> EthernetAddress {
        self.hardware_addr->Ethernet_0
    }
}

/// Whether every address is usable.
pub open spec fn addrs_ok(addrs: Seq<IfaceAddr>) -> bool {
    forall|i: int| 0 <= i < addrs.len() ==> (#[trigger] addrs[i]).wf()
}

/// Whether the address is assigned.
pub open spec fn has_addr(addrs: Seq<IfaceAddr>, addr: IpAddress) -> bool {
    exists|i: int| 0 <= i < addrs.len() && (#[trigger] addrs[i]).cidr.address_view() == addr
}

/// Whether the address is in the subnet of an assigned address.
pub open spec fn on_link(addrs: Seq<IfaceAddr>, addr: IpAddress) -> bool {
    exists|i: int| 0 <= i < addrs.len() && (#[trigger] addrs[i]).cidr.contains(addr)
}

/// The first IPv4 address at or after `from`.
pub open spec fn first_ipv4(addrs: Seq<IfaceAddr>, from: int) -> Option<Ipv4Address>
    decreases addrs.len() - from,
{
    if from < 0 || from >= addrs.len() {
        None
    } else {
        match addrs[from].cidr {
            IpCidr::Ipv4(c) => Some(c.address),
            IpCidr::Ipv6(_) => first_ipv4(addrs, from + 1),
        }
    }
}

/// The first IPv4 address at or after `from` whose subnet contains `dst`.
pub open spec fn first_ipv4_near(addrs: Seq<IfaceAddr>, dst: Ipv4Address, from: int) -> Option<Ipv4Address>
    decreases addrs.len() - from,
{
    if from < 0 || from >= addrs.len() {
        None
    } else {
        match addrs[from].cidr {
            IpCidr::Ipv4(c) => if c.contains(dst) {
                Some(c.address)
            } else {
                first_ipv4_near(addrs, dst, from + 1)
            },
            IpCidr::Ipv6(_) => first_ipv4_near(addrs, dst, from + 1),
        }
    }
}

/// The IPv4 source address for a destination: the first one in the destination's
/// subnet, else the first one.
pub open spec fn source_ipv4(addrs: Seq<IfaceAddr>, dst: Ipv4Address) -> Option<Ipv4Address> {
    match first_ipv4_near(addrs, dst, 0) {
        Some(a) => Some(a),
        None => first_ipv4(addrs, 0),
    }
}

/// A selected IPv4 source address is one of the interface's own.
pub proof fn law_ipv4_source_is_own(addrs: Seq<IfaceAddr>, dst: Ipv4Address)
    ensures
        source_ipv4(addrs, dst) matches Some(src) ==> has_addr(addrs, IpAddress::Ipv4(src)),
{
    lemma_first_ipv4_is_own(addrs, 0);
    lemma_first_ipv4_near_is_own(addrs, dst, 0);
}

proof fn lemma_first_ipv4_is_own(addrs: Seq<IfaceAddr>, from: int)
    ensures
        first_ipv4(addrs, from) matches Some(src) ==> has_addr(addrs, IpAddress::Ipv4(src)),
    decreases addrs.len() - from,
{
    if 0 <= from < addrs.len() {
        if addrs[from].cidr is Ipv6 {
            lemma_first_ipv4_is_own(addrs, from + 1);
        } else {
            assert(addrs[from].cidr.address_view() == IpAddress::Ipv4(first_ipv4(addrs, from)->0));
        }
    }
}

proof fn lemma_first_ipv4_near_is_own(addrs: Seq<IfaceAddr>, dst: Ipv4Address, from: int)
    ensures
        first_ipv4_near(addrs, dst, from) matches Some(src) ==> has_addr(addrs, IpAddress::Ipv4(src)),
    decreases addrs.len() - from,
{
    if 0 <= from < addrs.len() {
        lemma_first_ipv4_near_is_own(addrs, dst, from + 1);
        if let IpCidr::Ipv4(c) = addrs[from].cidr {
            assert(addrs[from].cidr.address_view() == IpAddress::Ipv4(c.address));
        }
    }
}

/// Whether the address is the limited broadcast address or the broadcast address
/// of an assigned address's subnet.
pub open spec fn is_broadcast_v4(addrs: Seq<IfaceAddr>, addr: Ipv4Address) -> bool {
    addr.broadcast_view() || exists|i: int|
        0 <= i < addrs.len() && ((#[trigger] addrs[i]).cidr matches IpCidr::Ipv4(c) && c.broadcast_view()
            == Some(addr.0@))
}

/// Whether the address is broadcast on the interface.
pub open spec fn is_broadcast(addrs: Seq<IfaceAddr>, addr: IpAddress) -> bool {
    addr matches IpAddress::Ipv4(a) && is_broadcast_v4(addrs, a)
}

/// Whether the address is a single host's, as seen from the interface.
pub open spec fn is_unicast_v4(addrs: Seq<IfaceAddr>, addr: Ipv4Address) -> bool {
    addr.unicast_view() && !is_broadcast_v4(addrs, addr)
}

/// Whether the address is the solicited-node group of an assigned IPv6 address
/// other than the loopback address (RFC 4291 §2.7.1).
pub open spec fn has_solicited_node(addrs: Seq<IfaceAddr>, addr: Ipv6Address) -> bool {
    addr.solicited_node_group_view() && exists|i: int|
        0 <= i < addrs.len() && ((#[trigger] addrs[i]).cidr matches IpCidr::Ipv6(c) && !c.address.loopback_view()
            && c.address.0@.skip(13) == addr.0@.skip(13))
}

/// Whether the interface listens to the multicast group.
pub open spec fn has_multicast_group(addrs: Seq<IfaceAddr>, addr: IpAddress) -> bool {
    match addr {
        IpAddress::Ipv4(a) => a.0@ == seq![224u8, 0u8, 0u8, 1u8],
        IpAddress::Ipv6(a) => a.0@ == Ipv6Address::all_nodes_octets() || has_solicited_node(addrs, a),
    }
}

/// An interface added to the stack, with its configuration.
pub struct IfaceState {
    pub handle: IfaceHandle,
    pub caps: IfaceCapabilities,
    pub hardware_addr: HardwareAddress,
    pub ip_addrs: Vec<IfaceAddr>,
    /// Bumped whenever the interface's addresses or routes change.
    pub config_generation: u32,
    pub config_waker: WakerRegistration,
    /// Frames received and not yet processed, oldest first.
    pub rx: Vec<PacketBuf>,
    /// Frames transmitted and not yet taken by the device, oldest first.
    pub tx: Vec<PacketBuf>,
    /// Transmit timestamps the device reported, oldest first.
    pub stamps: Vec<TxTimestamp>,
}

impl View for IfaceState {
    type V = IfaceModel;

    open spec fn view(&self) -> IfaceModel {
        IfaceModel {
            handle: self.handle,
            caps: self.caps,
            hardware_addr: self.hardware_addr,
            ip_addrs: self.ip_addrs@,
            config_generation: self.config_generation,
            config_waker: self.config_waker@,
            rx: packet_views(self.rx@),
            tx: frames(self.tx@),
            stamps: self.stamps@,
        }
    }
}

impl IfaceState {
    /// What every operation keeps of an interface.
    pub open spec fn wf(&self) -> bool {
        self@.wf() && packets_ok(self.rx@) && packets_ok(self.tx@)
    }

    /// The interface's medium.
    pub fn medium(&self) -> (r: Medium)
        ensures
            r == self@.caps.medium,
    {
        self.caps.medium
    }

    /// The interface's Ethernet address.
    pub fn ethernet_addr(&self) -> (r: EthernetAddress)
        requires
            self.wf(),
            self@.caps.medium == Medium::Ethernet,
        ensures
            r == self@.ethernet_addr(),
    {
        self.hardware_addr.ethernet_or_panic()
    }

    /// Note that the interface's configuration changed: bump the generation and
    /// wake whoever is waiting for it.
    pub fn config_changed(&mut self)
        requires
            old(self).wf(),
        ensures
            final(self).wf(),
            final(self)@ == (IfaceModel {
                config_generation: bumped(old(self)@.config_generation),
                config_waker: None,
                ..old(self)@
            }),
            old(self)@.config_waker matches Some(w) ==> waker::woken(w),
    {
        self.config_generation = if self.config_generation == u32::MAX {
            0
        } else {
            self.config_generation + 1
        };
        self.config_waker.wake();
    }

    /// The interface's IP-layer MTU.
    pub fn ip_mtu(&self) -> (r: usize)
        requires
            self.wf(),
        ensures
            r == self@.ip_mtu(),
    {
        let mtu: usize = match self.caps.medium {
            Medium::Ethernet => self.caps.max_transmission_unit - ETHERNET_HEADER_LEN,
            _ => self.caps.max_transmission_unit,
        };
        if mtu <= PACKET_BUF_SIZE - LINK_HEADER_LEN {
            mtu
        } else {
            PACKET_BUF_SIZE - LINK_HEADER_LEN
        }
    }

    /// Hand a frame to the device.
    pub fn transmit(&mut self, buf: PacketBuf)
        requires
            old(self).wf(),
            buf.wf(),
        ensures
            final(self).wf(),
            final(self)@ == old(self)@.sent(buf@.frame()),
    {
        self.tx.push(buf);
        assert(self@ =~= old(self)@.sent(buf@.frame()));
    }

    /// Check whether the given address is assigned to the interface.
    pub fn has_ip_addr(&self, addr: &IpAddress) -> (r: bool)
        ensures
            r == has_addr(self@.ip_addrs, *addr),
    {
        let mut i: usize = 0;
        while i < self.ip_addrs.len()
            invariant
                i <= self.ip_addrs@.len(),
                forall|j: int| 0 <= j < i ==> (#[trigger] self.ip_addrs@[j]).cidr.address_view() != *addr,
            decreases self.ip_addrs@.len() - i,
        {
            if self.ip_addrs[i].cidr.address() == *addr {
                return true;
            }
            i += 1;
        }
        false
    }

    /// Whether the address is in the subnet of an assigned address.
    pub fn in_same_network(&self, addr: &IpAddress) -> (r: bool)
        requires
            addrs_ok(self@.ip_addrs),
        ensures
            r == on_link(self@.ip_addrs, *addr),
    {
        let mut i: usize = 0;
        while i < self.ip_addrs.len()
            invariant
                i <= self.ip_addrs@.len(),
                addrs_ok(self.ip_addrs@),
                forall|j: int| 0 <= j < i ==> !(#[trigger] self.ip_addrs@[j]).cidr.contains(*addr),
            decreases self.ip_addrs@.len() - i,
        {
            assert(self.ip_addrs@[i as int].wf());
            if self.ip_addrs[i].cidr.contains_addr(addr) {
                return true;
            }
            i += 1;
        }
        false
    }

    /// Get the first IPv4 address of the interface.
    pub fn ipv4_addr(&self) -> (r: Option<Ipv4Address>)
        ensures
            r == first_ipv4(self@.ip_addrs, 0),
    {
        let mut i: usize = 0;
        while i < self.ip_addrs.len()
            invariant
                i <= self.ip_addrs@.len(),
                first_ipv4(self.ip_addrs@, i as int) == first_ipv4(self.ip_addrs@, 0),
            decreases self.ip_addrs@.len() - i,
        {
            if let IpCidr::Ipv4(c) = self.ip_addrs[i].cidr {
                return Some(c.address);
            }
            i += 1;
        }
        None
    }

    /// Get an IPv4 source address based on a destination address.
    ///
    /// This function tries to find the first IPv4 address from the interface
    /// that is in the same subnet as the destination address. If no such
    /// address is found, the first IPv4 address from the interface is returned.
    pub fn get_source_address_ipv4(&self, dst_addr: &Ipv4Address) -> (r: Option<Ipv4Address>)
        requires
            addrs_ok(self@.ip_addrs),
        ensures
            r == source_ipv4(self@.ip_addrs, *dst_addr),
    {
        let mut first: Option<Ipv4Address> = None;
        let mut i: usize = 0;
        while i < self.ip_addrs.len()
            invariant
                i <= self.ip_addrs@.len(),
                addrs_ok(self.ip_addrs@),
                first_ipv4_near(self.ip_addrs@, *dst_addr, i as int) == first_ipv4_near(
                    self.ip_addrs@,
                    *dst_addr,
                    0,
                ),
                first is Some ==> first == first_ipv4(self.ip_addrs@, 0),
                first is None ==> first_ipv4(self.ip_addrs@, i as int) == first_ipv4(self.ip_addrs@, 0),
            decreases self.ip_addrs@.len() - i,
        {
            assert(self.ip_addrs@[i as int].wf());
            if let IpCidr::Ipv4(c) = self.ip_addrs[i].cidr {
                // Return immediately if we find an address in the same subnet
                if c.contains_addr(dst_addr) {
                    return Some(c.address);
                }
                // Remember the first IPv4 address as fallback
                if first.is_none() {
                    first = Some(c.address);
                }
            }
            i += 1;
        }
        first
    }

    /// Checks if an address is broadcast, taking into account ipv4 subnet-local
    /// broadcast addresses.
    pub fn is_broadcast(&self, address: &IpAddress) -> (r: bool)
        requires
            addrs_ok(self@.ip_addrs),
        ensures
            r == is_broadcast(self@.ip_addrs, *address),
    {
        match address {
            IpAddress::Ipv4(address) => self.is_broadcast_v4(*address),
            IpAddress::Ipv6(_) => false,
        }
    }

    /// Checks if an address is broadcast, taking into account ipv4 subnet-local
    /// broadcast addresses.
    pub fn is_broadcast_v4(&self, address: Ipv4Address) -> (r: bool)
        requires
            addrs_ok(self@.ip_addrs),
        ensures
            r == is_broadcast_v4(self@.ip_addrs, address),
    {
        if address.is_broadcast() {
            return true;
        }
        let mut i: usize = 0;
        while i < self.ip_addrs.len()
            invariant
                i <= self.ip_addrs@.len(),
                addrs_ok(self.ip_addrs@),
                forall|j: int|
                    0 <= j < i ==> !((#[trigger] self.ip_addrs@[j]).cidr matches IpCidr::Ipv4(c)
                        && c.broadcast_view() == Some(address.0@)),
            decreases self.ip_addrs@.len() - i,
        {
            assert(self.ip_addrs@[i as int].wf());
            if let IpCidr::Ipv4(c) = self.ip_addrs[i].cidr {
                if let Some(b) = c.broadcast() {
                    if bytes::bytes_eq(&b.0, &address.0) {
                        return true;
                    }
                }
            }
            i += 1;
        }
        false
    }

    /// Checks if an ipv4 address is unicast, taking into account subnet broadcast addresses
    pub fn is_unicast_v4(&self, address: Ipv4Address) -> (r: bool)
        requires
            addrs_ok(self@.ip_addrs),
        ensures
            r == is_unicast_v4(self@.ip_addrs, address),
    {
        address.is_unicast() && !self.is_broadcast_v4(address)
    }

    /// Determine if the given `Ipv6Address` is the solicited node
    /// multicast address for a IPv6 addresses assigned to the interface.
    pub fn has_solicited_node(&self, addr: Ipv6Address) -> (r: bool)
        ensures
            r == has_solicited_node(self@.ip_addrs, addr),
    {
        if !addr.is_solicited_node_multicast() {
            return false;
        }
        let mut i: usize = 0;
        while i < self.ip_addrs.len()
            invariant
                i <= self.ip_addrs@.len(),
                addr.solicited_node_group_view(),
                forall|j: int|
                    0 <= j < i ==> !((#[trigger] self.ip_addrs@[j]).cidr matches IpCidr::Ipv6(c)
                        && !c.address.loopback_view() && c.address.0@.skip(13) == addr.0@.skip(13)),
            decreases self.ip_addrs@.len() - i,
        {
            if let IpCidr::Ipv6(c) = self.ip_addrs[i].cidr {
                // Take the lower order 24 bits of the IPv6 address and
                // append those bits to FF02:0:0:0:0:1:FF00::/104.
                assert(c.address.0@.subrange(13, 16) =~= c.address.0@.skip(13));
                assert(addr.0@.subrange(13, 16) =~= addr.0@.skip(13));
                if !c.address.is_loopback() && bytes::bytes_eq(
                    &c.address.0.as_slice()[13..16],
                    &addr.0.as_slice()[13..16],
                ) {
                    return true;
                }
            }
            i += 1;
        }
        false
    }

    /// Check whether the interface listens to given destination multicast IP address.
    pub fn has_multicast_group(&self, addr: &IpAddress) -> (r: bool)
        ensures
            r == has_multicast_group(self@.ip_addrs, *addr),
    {
        match addr {
            IpAddress::Ipv4(a) => {
                let group = Ipv4Address::new(224, 0, 0, 1);
                bytes::bytes_eq(&a.0, &group.0)
            },
            IpAddress::Ipv6(a) => {
                let group = Ipv6Address::link_local_all_nodes();
                bytes::bytes_eq(&a.0, &group.0) || self.has_solicited_node(*a)
            },
        }
    }
}

/// A configuration generation after one more change. It wraps around.
pub open spec fn bumped(generation: u32) -> u32 {
    if generation == u32::MAX {
        0
    } else {
        (generation + 1) as u32
    }
}

} // verus!
