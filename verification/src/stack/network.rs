//! The interfaces and the routing table: picking the interface a packet goes out
//! of, building its IP header, and handing it to the link layer.
//!
//! Sockets hand fully-built L4 packets to [`Network::transmit_ip`], so socket code
//! doesn't have to care about any of it.

use vstd::prelude::*;

use crate::buf::{PacketBuf, PacketView};
use crate::config::IFACE_COUNT;
use crate::iface::{IfaceHandle, Medium};
use crate::route;
use crate::route::Route;
use crate::stack::iface_state;
use crate::stack::iface_state::{IfaceModel, IfaceState};
use crate::stack::link;
use crate::stack::link::{ethertype_for, push_ipv4_header, push_ipv6_header, InnerModel, LinkModel, StackInner};
use crate::stack::offload;
use crate::stack::source;
use crate::storage::slab;
use crate::storage::slab::Slab;
use crate::time::Instant;
use crate::wire::ip::{IpAddress, Ipv6Address};
use crate::wire::ipv4;
use crate::wire::ipv4::IPV4_HEADER_LEN;
use crate::wire::ipv6;
use crate::wire::ipv6::IPV6_HEADER_LEN;
use crate::wire::protocol::{EthernetProtocol, IpProtocol};
use crate::wire::LINK_HEADER_LEN;

verus! {

/// What the network side of the stack holds.
#[verifier::ext_equal]
pub struct NetModel {
    pub inner: InnerModel,
    pub ifaces: Seq<Option<IfaceModel>>,
}

/// Whether the slot holds an Ethernet interface.
pub open spec fn ethernet_at(ifaces: Seq<Option<IfaceModel>>, handle: IfaceHandle) -> bool {
    slab::occupied(ifaces, handle.0 as int) && ifaces[handle.0 as int]->0.caps.medium == Medium::Ethernet
}

/// Whether an interface in slot `i` is usable and knows its own handle.
pub open spec fn iface_ok(iface: IfaceModel, i: int) -> bool {
    iface.wf() && iface.handle.0 == i
}

impl NetModel {
    /// What every operation keeps: interfaces are usable and know their own
    /// handles, and every neighbor is on an Ethernet interface.
    pub open spec fn wf(self) -> bool {
        &&& self.inner.wf()
        &&& forall|i: int| slab::occupied(self.ifaces, i) ==> iface_ok(#[trigger] self.ifaces[i]->0, i)
        &&& forall|i: int|
            0 <= i < self.inner.cache.len() ==> ethernet_at(self.ifaces, (#[trigger] self.inner.cache[i]).0.0)
    }

    /// Whether every route leaves through an interface that is there.
    ///
    /// Not an invariant: the routing table can be changed at will, and using a route
    /// through a removed interface is a mistake of whoever put it there.
    pub open spec fn routes_attached(self) -> bool {
        forall|i: int|
            0 <= i < self.inner.routes.len() ==> slab::occupied(
                self.ifaces,
                (#[trigger] self.inner.routes[i]).iface.0 as int,
            )
    }

    /// Whether the handle is that of an interface that is there.
    pub open spec fn has_iface(self, handle: IfaceHandle) -> bool {
        slab::occupied(self.ifaces, handle.0 as int)
    }

    /// The interface with a handle.
    pub open spec fn iface(self, handle: IfaceHandle) -> IfaceModel {
        self.ifaces[handle.0 as int]->0
    }

    /// The interface in slot `i`, together with the device-independent part.
    pub open spec fn link(self, i: int) -> LinkModel {
        LinkModel { inner: self.inner, iface: self.ifaces[i]->0 }
    }

    /// The state after something happened on the interface in slot `i`.
    pub open spec fn with_link(self, i: int, link: LinkModel) -> NetModel {
        NetModel { inner: link.inner, ifaces: self.ifaces.update(i, Some(link.iface)) }
    }

    /// The interface with a handle, together with the device-independent part.
    pub open spec fn link_at(self, handle: IfaceHandle) -> LinkModel {
        self.link(handle.0 as int)
    }

    /// The state after something happened on the interface with a handle.
    pub open spec fn with_link_at(self, handle: IfaceHandle, link: LinkModel) -> NetModel {
        self.with_link(handle.0 as int, link)
    }

    /// Whether any interface has the address.
    pub open spec fn has_addr(self, addr: IpAddress) -> bool {
        exists|i: int|
            slab::occupied(self.ifaces, i) && iface_state::has_addr((#[trigger] self.ifaces[i])->0.ip_addrs, addr)
    }
}

/// A complete egress routing decision for one destination: the interface the packet
/// goes out of, the next hop to resolve on that link, and the interface's IP MTU.
#[derive(Debug, Clone, Copy)]
pub struct EgressRoute {
    pub iface: IfaceHandle,
    /// The address to resolve on the link: the destination itself when on-link
    /// (or broadcast/multicast), else the gateway from the routing table.
    pub next_hop: IpAddress,
    /// The egress interface's IP-layer MTU.
    pub ip_mtu: usize,
}

/// The first interface at or after slot `from` whose network the destination is in.
pub open spec fn first_on_link(ifaces: Seq<Option<IfaceModel>>, dst: IpAddress, from: int) -> Option<int>
    decreases ifaces.len() - from,
{
    if from < 0 || from >= ifaces.len() {
        None
    } else if ifaces[from] is Some && iface_state::on_link(ifaces[from]->0.ip_addrs, dst) {
        Some(from)
    } else {
        first_on_link(ifaces, dst, from + 1)
    }
}

/// The decision to send through the interface in slot `i`.
pub open spec fn egress(net: NetModel, i: int, next_hop: IpAddress) -> EgressRoute {
    EgressRoute { iface: IfaceHandle(i as usize), next_hop, ip_mtu: net.ifaces[i]->0.ip_mtu() as usize }
}

/// The egress routing decision for a destination: broadcast and multicast leave
/// through the first interface, an address on some interface's network through
/// that interface, and any other by the routing table.
pub open spec fn route_of(net: NetModel, dst: IpAddress) -> Option<EgressRoute> {
    if !dst.unicast_view() {
        match slab::next_occupied_slot(net.ifaces, 0) {
            Some(i) => Some(egress(net, i, dst)),
            None => None,
        }
    } else {
        match first_on_link(net.ifaces, dst, 0) {
            Some(i) => Some(egress(net, i, dst)),
            None => match route::lookup_view(net.inner.routes, dst, net.inner.now) {
                Some(route) => Some(egress(net, route.iface.0 as int, route.via_router)),
                None => None,
            },
        }
    }
}

/// The routing decision for a reply to a packet that arrived on `arrival`. An IPv6
/// link-local destination is meaningful only on the link the packet came from.
pub open spec fn reply_route_of(net: NetModel, arrival: IfaceHandle, dst: IpAddress) -> Option<EgressRoute> {
    if dst matches IpAddress::Ipv6(a) && a.link_local_view() {
        Some(egress(net, arrival.0 as int, dst))
    } else {
        route_of(net, dst)
    }
}

/// The source address for a destination, selected from the interface the packet
/// would go out of.
pub open spec fn source_for(net: NetModel, dst: IpAddress) -> Option<IpAddress> {
    match route_of(net, dst) {
        Some(route) => source::source_addr(net.ifaces[route.iface.0 as int]->0.ip_addrs, dst),
        None => None,
    }
}

/// The state after transmitting an IP payload by a routing decision. A packet
/// between addresses of different versions is dropped.
pub open spec fn sent_by(
    net: NetModel,
    route: EgressRoute,
    message: PacketView,
    src: IpAddress,
    dst: IpAddress,
    protocol: IpProtocol,
    hop_limit: u8,
) -> NetModel {
    let i = route.iface.0 as int;
    let iface = net.ifaces[i]->0;
    match (src, dst) {
        (IpAddress::Ipv4(s), IpAddress::Ipv4(d)) => net.with_link(
            i,
            link::ip_frame_sent(
                net.link(i),
                dst,
                route.next_hop,
                link::ipv4_packet(iface, s.0@, d.0@, protocol, hop_limit, message),
                EthernetProtocol::Ipv4,
            ),
        ),
        (IpAddress::Ipv6(s), IpAddress::Ipv6(d)) => net.with_link(
            i,
            link::ip_frame_sent(
                net.link(i),
                dst,
                route.next_hop,
                link::ipv6_packet(iface, s.0@, d.0@, protocol, hop_limit, message),
                EthernetProtocol::Ipv6,
            ),
        ),
        _ => net,
    }
}

/// The state after transmitting an IP payload. Without a route it is dropped.
pub open spec fn sent(
    net: NetModel,
    message: PacketView,
    src: IpAddress,
    dst: IpAddress,
    protocol: IpProtocol,
    hop_limit: u8,
) -> NetModel {
    match route_of(net, dst) {
        Some(route) => sent_by(net, route, message, src, dst, protocol, hop_limit),
        None => net,
    }
}

/// The state after replying to a packet that arrived on `arrival`. Without a route
/// the reply is dropped.
pub open spec fn reply_sent(
    net: NetModel,
    arrival: IfaceHandle,
    message: PacketView,
    src: IpAddress,
    dst: IpAddress,
    protocol: IpProtocol,
    hop_limit: u8,
) -> NetModel {
    match reply_route_of(net, arrival, dst) {
        Some(route) => sent_by(net, route, message, src, dst, protocol, hop_limit),
        None => net,
    }
}

/// Whether a routing decision can be carried out.
pub open spec fn route_ok(net: NetModel, route: EgressRoute, dst: IpAddress) -> bool {
    let i = route.iface.0 as int;
    &&& slab::occupied(net.ifaces, i)
    &&& net.ifaces[i]->0.caps.medium == Medium::Ethernet ==> link::resolvable(
        net.ifaces[i]->0,
        dst,
        route.next_hop,
    )
}

/// Whether a state follows from another by what sending and link-layer processing
/// do: the same interfaces with the same configuration, with no frame taken back,
/// and the same clock, random numbers and routes.
pub open spec fn net_kept(before: NetModel, after: NetModel) -> bool {
    &&& after.ifaces.len() == before.ifaces.len()
    &&& forall|i: int| #[trigger] slab::occupied(after.ifaces, i) == slab::occupied(before.ifaces, i)
    &&& forall|i: int|
        slab::occupied(before.ifaces, i) ==> iface_kept(before.ifaces[i]->0, (#[trigger] after.ifaces[i])->0)
    &&& after.inner == (InnerModel { cache: after.inner.cache, pending: after.inner.pending, ..before.inner })
}

/// Whether an interface only transmitted.
pub open spec fn iface_kept(before: IfaceModel, after: IfaceModel) -> bool {
    &&& after == (IfaceModel { tx: after.tx, ..before })
    &&& before.tx.len() <= after.tx.len()
    &&& after.tx.take(before.tx.len() as int) == before.tx
}

pub proof fn lemma_net_kept_refl(net: NetModel)
    ensures
        net_kept(net, net),
{
    assert forall|i: int| slab::occupied(net.ifaces, i) implies iface_kept(
        net.ifaces[i]->0,
        (#[trigger] net.ifaces[i])->0,
    ) by {
        assert(net.ifaces[i]->0.tx.take(net.ifaces[i]->0.tx.len() as int) =~= net.ifaces[i]->0.tx);
    }
}

pub proof fn lemma_net_kept_trans(a: NetModel, b: NetModel, c: NetModel)
    requires
        net_kept(a, b),
        net_kept(b, c),
    ensures
        net_kept(a, c),
{
    assert forall|i: int| #[trigger] slab::occupied(c.ifaces, i) == slab::occupied(a.ifaces, i) by {
        assert(slab::occupied(b.ifaces, i) == slab::occupied(a.ifaces, i));
    }
    assert forall|i: int| slab::occupied(a.ifaces, i) implies iface_kept(
        a.ifaces[i]->0,
        (#[trigger] c.ifaces[i])->0,
    ) by {
        assert(slab::occupied(b.ifaces, i));
        assert(iface_kept(a.ifaces[i]->0, b.ifaces[i]->0));
        assert(iface_kept(b.ifaces[i]->0, c.ifaces[i]->0));
        let (x, y, z) = (a.ifaces[i]->0, b.ifaces[i]->0, c.ifaces[i]->0);
        assert(z.tx.take(x.tx.len() as int) =~= z.tx.take(y.tx.len() as int).take(x.tx.len() as int));
    }
}

/// A link-layer change on one interface keeps the stack well-formed, its
/// interfaces and its routes.
pub proof fn lemma_with_link(net: NetModel, i: int, after: LinkModel)
    requires
        net.wf(),
        slab::occupied(net.ifaces, i),
        link::link_kept(net.link(i), after),
        after.inner.wf(),
        after.iface.wf(),
    ensures
        net.with_link(i, after).wf(),
        net_kept(net, net.with_link(i, after)),
        net.routes_attached() ==> net.with_link(i, after).routes_attached(),
{
    let now = net.with_link(i, after);
    lemma_net_kept_refl(net);
    assert(iface_ok(net.ifaces[i]->0, i));
    assert forall|k: int| #[trigger] slab::occupied(now.ifaces, k) == slab::occupied(net.ifaces, k) by {}
    assert forall|k: int| slab::occupied(now.ifaces, k) implies iface_ok(#[trigger] now.ifaces[k]->0, k) by {
        if k != i {
            assert(iface_ok(net.ifaces[k]->0, k));
        }
    }
    assert forall|k: int| slab::occupied(net.ifaces, k) implies iface_kept(
        net.ifaces[k]->0,
        (#[trigger] now.ifaces[k])->0,
    ) by {
        assert(iface_kept(net.ifaces[k]->0, net.ifaces[k]->0));
    }
    assert forall|k: int| 0 <= k < now.inner.cache.len() implies ethernet_at(
        now.ifaces,
        (#[trigger] now.inner.cache[k]).0.0,
    ) by {
        if now.inner.cache[k].0.0 != net.ifaces[i]->0.handle {
            let j = choose|j: int|
                0 <= j < net.inner.cache.len() && (#[trigger] net.inner.cache[j]).0 == now.inner.cache[k].0;
            assert(ethernet_at(net.ifaces, net.inner.cache[j].0.0));
        } else if net.ifaces[i]->0.caps.medium != Medium::Ethernet {
            assert(now.inner.cache[k] == net.inner.cache[k]);
            assert(ethernet_at(net.ifaces, net.inner.cache[k].0.0));
        }
    }
    if net.routes_attached() {
        assert forall|k: int| 0 <= k < now.inner.routes.len() implies slab::occupied(
            now.ifaces,
            (#[trigger] now.inner.routes[k]).iface.0 as int,
        ) by {
            assert(slab::occupied(net.ifaces, net.inner.routes[k].iface.0 as int));
        }
    }
}

/// Routes stay attached as long as the interfaces stay.
pub proof fn lemma_kept_routes_attached(before: NetModel, after: NetModel)
    requires
        net_kept(before, after),
        before.routes_attached(),
    ensures
        after.routes_attached(),
{
    assert forall|k: int| 0 <= k < after.inner.routes.len() implies slab::occupied(
        after.ifaces,
        (#[trigger] after.inner.routes[k]).iface.0 as int,
    ) by {
        assert(slab::occupied(before.ifaces, before.inner.routes[k].iface.0 as int));
    }
}

proof fn lemma_first_on_link(ifaces: Seq<Option<IfaceModel>>, dst: IpAddress, from: int)
    requires
        0 <= from,
    ensures
        first_on_link(ifaces, dst, from) matches Some(i) ==> {
            &&& from <= i
            &&& slab::occupied(ifaces, i)
            &&& iface_state::on_link(ifaces[i]->0.ip_addrs, dst)
        },
    decreases ifaces.len() - from,
{
    if from < ifaces.len() && !(ifaces[from] is Some && iface_state::on_link(ifaces[from]->0.ip_addrs, dst)) {
        lemma_first_on_link(ifaces, dst, from + 1);
    }
}

/// A lookup finds a route of the table.
proof fn lemma_lookup_in_table(routes: Seq<Route>, dst: IpAddress, now: Instant, n: int)
    requires
        0 <= n <= routes.len(),
    ensures
        route::best_route(routes, dst, now, n) matches Some(b) ==> 0 <= b < n,
    decreases n,
{
    if n > 0 {
        lemma_lookup_in_table(routes, dst, now, n - 1);
    }
}

/// A source address is a single host's, of the destination's IP version.
pub proof fn lemma_source_for(net: NetModel, dst: IpAddress)
    requires
        net.wf(),
        net.routes_attached(),
    ensures
        source_for(net, dst) matches Some(src) ==> src.unicast_view() && src.version_view() == dst.version_view(),
{
    lemma_route_ok(net, dst);
    if let Some(route) = route_of(net, dst) {
        assert(iface_ok(net.ifaces[route.iface.0 as int]->0, route.iface.0 as int));
        source::law_source_is_single_host(net.ifaces[route.iface.0 as int]->0.ip_addrs, dst);
    }
}

/// A routing decision to a specified address can be carried out.
pub proof fn lemma_route_ok(net: NetModel, dst: IpAddress)
    requires
        net.wf(),
        net.routes_attached(),
    ensures
        route_of(net, dst) matches Some(route) ==> {
            &&& slab::occupied(net.ifaces, route.iface.0 as int)
            &&& route.ip_mtu == net.ifaces[route.iface.0 as int]->0.ip_mtu() as usize
            &&& !dst.unspecified_view() ==> route_ok(net, route, dst)
        },
{
    lemma_first_on_link(net.ifaces, dst, 0);
    slab::lemma_next_occupied(net.ifaces, 0);
    lemma_lookup_in_table(net.inner.routes, dst, net.inner.now, net.inner.routes.len() as int);
    match route::best_route(net.inner.routes, dst, net.inner.now, net.inner.routes.len() as int) {
        Some(b) => {
            assert(net.inner.routes[b].wf());
        },
        None => {},
    }
    assert forall|i: int| slab::occupied(net.ifaces, i) implies #[trigger] (i as usize) == i by {
        assert(iface_ok(net.ifaces[i]->0, i));
    }
}

/// The decision for a reply can be carried out.
pub proof fn lemma_reply_route_ok(net: NetModel, arrival: IfaceHandle, dst: IpAddress)
    requires
        net.wf(),
        net.routes_attached(),
        net.has_iface(arrival),
        !dst.unspecified_view(),
    ensures
        reply_route_of(net, arrival, dst) matches Some(route) ==> route_ok(net, route, dst),
{
    lemma_route_ok(net, dst);
    if let IpAddress::Ipv6(a) = dst {
        if a.link_local_view() {
            assert(a.0@[0] == a.0@.take(8)[0]);
            assert(a.unicast_view());
        }
    }
}

/// A packet to an IPv6 link-local address that answers one from an interface
/// leaves through that interface, whatever the routing table says.
pub proof fn law_link_local_reply_stays_on_link(net: NetModel, arrival: IfaceHandle, dst: Ipv6Address)
    requires
        dst.link_local_view(),
    ensures
        reply_route_of(net, arrival, IpAddress::Ipv6(dst)) matches Some(route) && route.iface == arrival
            && route.next_hop == IpAddress::Ipv6(dst),
{
}

/// A destination on an interface's network is reached directly; the routing table
/// is not consulted.
pub proof fn law_on_link_destination_is_its_own_next_hop(net: NetModel, dst: IpAddress, i: int)
    requires
        net.wf(),
        dst.unicast_view(),
        slab::occupied(net.ifaces, i),
        iface_state::on_link(net.ifaces[i]->0.ip_addrs, dst),
    ensures
        route_of(net, dst) is Some,
        route_of(net, dst)->0.next_hop == dst,
        iface_state::on_link(net.ifaces[route_of(net, dst)->0.iface.0 as int]->0.ip_addrs, dst),
        route_of(net, dst)->0.iface.0 <= i,
{
    lemma_first_on_link_some(net.ifaces, dst, 0, i);
    lemma_first_on_link(net.ifaces, dst, 0);
    let k = first_on_link(net.ifaces, dst, 0)->0;
    assert(iface_ok(net.ifaces[k]->0, k));
}

proof fn lemma_first_on_link_some(ifaces: Seq<Option<IfaceModel>>, dst: IpAddress, from: int, i: int)
    requires
        0 <= from <= i,
        slab::occupied(ifaces, i),
        iface_state::on_link(ifaces[i]->0.ip_addrs, dst),
    ensures
        first_on_link(ifaces, dst, from) matches Some(k) && k <= i,
    decreases i - from,
{
    if from < i && !(ifaces[from] is Some && iface_state::on_link(ifaces[from]->0.ip_addrs, dst)) {
        lemma_first_on_link_some(ifaces, dst, from + 1, i);
    }
}

/// The interfaces of the stack and its device-independent part.
pub struct Network {
    pub inner: StackInner,
    pub ifaces: Slab<IfaceState, IFACE_COUNT>,
}

impl View for Network {
    type V = NetModel;

    open spec fn view(&self) -> NetModel {
        NetModel { inner: self.inner@, ifaces: slab::views(self.ifaces@) }
    }
}

/// Whether every interface holds well-formed buffers.
pub open spec fn slots_ok(slots: Seq<Option<IfaceState>>) -> bool {
    forall|i: int| slab::occupied(slots, i) ==> (#[trigger] slots[i])->0.wf()
}

impl Network {
    /// What every operation keeps.
    pub open spec fn wf(&self) -> bool {
        self@.wf() && self.inner.wf() && self.ifaces.wf() && slots_ok(self.ifaces@)
    }

    /// The interface with a handle.
    pub fn iface_state(&self, handle: IfaceHandle) -> (r: &IfaceState)
        requires
            self.wf(),
            self@.has_iface(handle),
        ensures
            r@ == self@.iface(handle),
            r.wf(),
    {
        let r = self.ifaces.get(handle.0);
        assert(self@.ifaces[handle.0 as int] == Some(r@));
        assert(r.wf());
        r
    }

    /// Check whether any interface has the given IP address assigned.
    pub fn has_ip_addr(&self, addr: &IpAddress) -> (r: bool)
        ensures
            r == self@.has_addr(*addr),
    {
        let mut i: usize = 0;
        while i < self.ifaces.slot_count()
            invariant
                i <= self.ifaces@.len(),
                forall|k: int|
                    0 <= k < i && slab::occupied(self@.ifaces, k) ==> !iface_state::has_addr(
                        (#[trigger] self@.ifaces[k])->0.ip_addrs,
                        *addr,
                    ),
            decreases self.ifaces@.len() - i,
        {
            if self.ifaces.is_occupied(i) {
                let iface = self.ifaces.get(i);
                assert(self@.ifaces[i as int] == Some(iface@));
                if iface.has_ip_addr(addr) {
                    assert(slab::occupied(self@.ifaces, i as int));
                    return true;
                }
            }
            i += 1;
        }
        false
    }

    /// The first interface whose network the destination is in.
    fn find_on_link(&self, dst_addr: &IpAddress) -> (r: Option<usize>)
        requires
            self.wf(),
        ensures
            (match r {
                Some(i) => Some(i as int),
                None => None,
            }) == first_on_link(self@.ifaces, *dst_addr, 0),
            r matches Some(i) ==> slab::occupied(self.ifaces@, i as int),
    {
        let mut i: usize = 0;
        while i < self.ifaces.slot_count()
            invariant
                i <= self.ifaces@.len(),
                self.wf(),
                first_on_link(self@.ifaces, *dst_addr, i as int) == first_on_link(self@.ifaces, *dst_addr, 0),
            decreases self.ifaces@.len() - i,
        {
            if self.ifaces.is_occupied(i) {
                let iface = self.ifaces.get(i);
                assert(self@.ifaces[i as int] == Some(iface@));
                assert(iface.wf());
                if iface.in_same_network(dst_addr) {
                    return Some(i);
                }
            }
            i += 1;
        }
        None
    }

    /// The decision to send through the interface in slot `i`.
    fn egress_through(&self, i: usize, next_hop: IpAddress) -> (r: EgressRoute)
        requires
            self.wf(),
            slab::occupied(self.ifaces@, i as int),
        ensures
            r == egress(self@, i as int, next_hop),
    {
        let iface = self.ifaces.get(i);
        assert(self@.ifaces[i as int] == Some(iface@));
        assert(iface.wf());
        EgressRoute { iface: IfaceHandle(i), next_hop, ip_mtu: iface.ip_mtu() }
    }

    /// Make the egress routing decision for a destination: the interface the
    /// destination is on-link for (next hop: the destination itself), else the
    /// interface and gateway named by the matching route.
    pub fn route(&self, dst_addr: &IpAddress) -> (r: Option<EgressRoute>)
        requires
            self.wf(),
            self@.routes_attached(),
        ensures
            r == route_of(self@, *dst_addr),
            r matches Some(route) ==> slab::occupied(self@.ifaces, route.iface.0 as int),
    {
        proof {
            lemma_route_ok(self@, *dst_addr);
            slab::lemma_next_occupied_views(self.ifaces@, 0);
        }
        if !dst_addr.is_unicast() {
            // Broadcast and multicast destinations carry nothing to route on, so
            // they go out the first interface. The next hop is the destination
            // itself, resolved to a broadcast/multicast hardware address.
            return match self.ifaces.next_occupied(0) {
                Some(i) => Some(self.egress_through(i, *dst_addr)),
                None => None,
            };
        }
        if let Some(i) = self.find_on_link(dst_addr) {
            return Some(self.egress_through(i, *dst_addr));
        }
        match self.inner.routes.lookup(dst_addr, self.inner.now) {
            Some(route) => {
                proof {
                    let k = choose|k: int| 0 <= k < self@.inner.routes.len() && self@.inner.routes[k] == route;
                    assert(slab::occupied(self@.ifaces, self@.inner.routes[k].iface.0 as int));
                }
                Some(self.egress_through(route.iface.0, route.via_router))
            },
            None => None,
        }
    }

    /// [`route`](Self::route) for a locally-generated reply to an ingress packet
    /// that arrived on `arrival`.
    ///
    /// Replies are routed like any other egress, so a reply may leave a different
    /// interface than the packet came in on (asymmetric routing). The
    /// exception is an IPv6 link-local destination: it is meaningful only on the
    /// link the packet came from, so it goes back out the arrival interface, with
    /// the destination itself as the next hop.
    pub fn route_reply(&self, arrival: IfaceHandle, dst_addr: &IpAddress) -> (r: Option<EgressRoute>)
        requires
            self.wf(),
            self@.routes_attached(),
            self@.has_iface(arrival),
        ensures
            r == reply_route_of(self@, arrival, *dst_addr),
    {
        if let IpAddress::Ipv6(dst) = dst_addr {
            if dst.is_link_local() {
                return Some(self.egress_through(arrival.0, *dst_addr));
            }
        }
        self.route(dst_addr)
    }

    /// Get a source address for sending to the given destination, selected from the
    /// interface the packet would go out of.
    pub fn get_source_address(&self, dst_addr: &IpAddress) -> (r: Option<IpAddress>)
        requires
            self.wf(),
            self@.routes_attached(),
            !dst_addr.unspecified_view(),
        ensures
            r == source_for(self@, *dst_addr),
    {
        match self.route(dst_addr) {
            Some(route) => {
                let iface = self.ifaces.get(route.iface.0);
                assert(self@.ifaces[route.iface.0 as int] == Some(iface@));
                assert(iface.wf());
                iface.get_source_address(dst_addr)
            },
            None => None,
        }
    }

    /// Transmit an IP packet by a routing decision, its IP header included.
    fn transmit_routed(
        &mut self,
        route: &EgressRoute,
        buf: PacketBuf,
        dst_addr: IpAddress,
        ethertype: EthernetProtocol,
    )
        requires
            old(self).wf(),
            route_ok(old(self)@, *route, dst_addr),
            buf.wf(),
            buf@.head.len() >= LINK_HEADER_LEN,
            link::ip_packet(buf@.data),
        ensures
            final(self).wf(),
            net_kept(old(self)@, final(self)@),
            old(self)@.routes_attached() ==> final(self)@.routes_attached(),
            final(self)@ == old(self)@.with_link(
                route.iface.0 as int,
                link::ip_frame_sent(
                    old(self)@.link(route.iface.0 as int),
                    dst_addr,
                    route.next_hop,
                    buf@,
                    ethertype,
                ),
            ),
    {
        let i: usize = route.iface.0;
        let ghost slots = self.ifaces@;
        let ghost net = self@;
        let ghost packet = buf@;
        proof {
            assert(net.ifaces[i as int] == Some(slots[i as int]->0@));
            assert(slots[i as int]->0.wf());
        }
        let iface = self.ifaces.get_mut(i);
        self.inner.transmit_ip_frame(iface, dst_addr, route.next_hop, buf, ethertype);
        proof {
            let after = self.ifaces@[i as int]->0;
            slab::lemma_views_update(slots, i as int, after);
            let link = LinkModel { inner: self.inner@, iface: after@ };
            link::lemma_ip_frame_sent_kept(net.link(i as int), dst_addr, route.next_hop, packet, ethertype);
            lemma_with_link(net, i as int, link);
            assert(self@ == net.with_link(i as int, link));
        }
    }

    /// Transmit a fully-built IP payload, with the L4 header but not the IP header,
    /// to a destination the caller already routed: on the decided interface,
    /// resolving `route.next_hop`.
    ///
    /// `src_addr` and `dst_addr` must belong to the same address family, the packet
    /// is dropped otherwise.
    pub fn transmit_ip_routed(
        &mut self,
        route: &EgressRoute,
        mut buf: PacketBuf,
        src_addr: IpAddress,
        dst_addr: IpAddress,
        next_header: IpProtocol,
        hop_limit: u8,
    )
        requires
            old(self).wf(),
            route_ok(old(self)@, *route, dst_addr),
            buf.wf(),
            buf@.head.len() >= LINK_HEADER_LEN + (if dst_addr is Ipv4 {
                IPV4_HEADER_LEN
            } else {
                IPV6_HEADER_LEN
            }),
        ensures
            final(self).wf(),
            net_kept(old(self)@, final(self)@),
            old(self)@.routes_attached() ==> final(self)@.routes_attached(),
            final(self)@ == sent_by(old(self)@, *route, buf@, src_addr, dst_addr, next_header, hop_limit),
    {
        proof {
            lemma_net_kept_refl(self@);
        }
        let iface = self.ifaces.get(route.iface.0);
        assert(self@.ifaces[route.iface.0 as int] == Some(iface@));
        match (src_addr, dst_addr) {
            (IpAddress::Ipv4(src), IpAddress::Ipv4(dst)) => {
                offload::blank_checksum(&mut buf, &iface.caps.checksum, next_header);
                let ghost payload_len = buf@.data.len();
                push_ipv4_header(&mut buf, src, dst, next_header, hop_limit, iface.caps.checksum.ipv4.tx());
                proof {
                    ipv4::lemma_header_shape(
                        src.0@,
                        dst.0@,
                        next_header,
                        hop_limit,
                        payload_len,
                        iface.caps.checksum.ipv4.tx_view(),
                    );
                }
                self.transmit_routed(route, buf, dst_addr, EthernetProtocol::Ipv4);
            },
            (IpAddress::Ipv6(src), IpAddress::Ipv6(dst)) => {
                offload::blank_checksum(&mut buf, &iface.caps.checksum, next_header);
                let ghost payload_len = buf@.data.len();
                push_ipv6_header(&mut buf, src, dst, next_header, hop_limit);
                proof {
                    ipv6::lemma_header_shape(src.0@, dst.0@, next_header, hop_limit, payload_len);
                }
                self.transmit_routed(route, buf, dst_addr, EthernetProtocol::Ipv6);
            },
            _ => {},
        }
    }

    /// Transmit a fully-built IP payload, with the L4 header but not the IP header.
    ///
    /// `src_addr` and `dst_addr` must belong to the same address family, the packet
    /// is dropped otherwise.
    pub fn transmit_ip(
        &mut self,
        buf: PacketBuf,
        src_addr: IpAddress,
        dst_addr: IpAddress,
        next_header: IpProtocol,
        hop_limit: u8,
    )
        requires
            old(self).wf(),
            old(self)@.routes_attached(),
            !dst_addr.unspecified_view(),
            buf.wf(),
            buf@.head.len() >= LINK_HEADER_LEN + (if dst_addr is Ipv4 {
                IPV4_HEADER_LEN
            } else {
                IPV6_HEADER_LEN
            }),
        ensures
            final(self).wf(),
            net_kept(old(self)@, final(self)@),
            final(self)@.routes_attached(),
            final(self)@ == sent(old(self)@, buf@, src_addr, dst_addr, next_header, hop_limit),
    {
        proof {
            lemma_net_kept_refl(self@);
            lemma_route_ok(self@, dst_addr);
        }
        if let Some(route) = self.route(&dst_addr) {
            self.transmit_ip_routed(&route, buf, src_addr, dst_addr, next_header, hop_limit);
        }
    }

    /// Route and transmit a locally-generated reply to an ingress packet that
    /// arrived on `arrival`.
    ///
    /// Replies are routed like any other egress, so they may leave a different
    /// interface than the packet came in on. With no route to the destination the
    /// reply is dropped.
    pub fn transmit_reply(
        &mut self,
        arrival: IfaceHandle,
        buf: PacketBuf,
        src_addr: IpAddress,
        dst_addr: IpAddress,
        next_header: IpProtocol,
        hop_limit: u8,
    )
        requires
            old(self).wf(),
            old(self)@.routes_attached(),
            old(self)@.has_iface(arrival),
            !dst_addr.unspecified_view(),
            buf.wf(),
            buf@.head.len() >= LINK_HEADER_LEN + (if dst_addr is Ipv4 {
                IPV4_HEADER_LEN
            } else {
                IPV6_HEADER_LEN
            }),
        ensures
            final(self).wf(),
            net_kept(old(self)@, final(self)@),
            final(self)@.routes_attached(),
            final(self)@ == reply_sent(old(self)@, arrival, buf@, src_addr, dst_addr, next_header, hop_limit),
    {
        proof {
            lemma_net_kept_refl(self@);
            lemma_reply_route_ok(self@, arrival, dst_addr);
        }
        if let Some(route) = self.route_reply(arrival, &dst_addr) {
            self.transmit_ip_routed(&route, buf, src_addr, dst_addr, next_header, hop_limit);
        }
    }

    /// Transmit a fully-built Ethernet frame on the given interface, as-is.
    pub fn transmit_ethernet_frame(&mut self, iface: IfaceHandle, buf: PacketBuf)
        requires
            old(self).wf(),
            old(self)@.has_iface(iface),
            buf.wf(),
        ensures
            final(self).wf(),
            net_kept(old(self)@, final(self)@),
            old(self)@.routes_attached() ==> final(self)@.routes_attached(),
            final(self)@ == (NetModel {
                ifaces: old(self)@.ifaces.update(
                    iface.0 as int,
                    Some(old(self)@.ifaces[iface.0 as int]->0.sent(buf@.frame())),
                ),
                ..old(self)@
            }),
    {
        let i: usize = iface.0;
        let ghost slots = self.ifaces@;
        let ghost net = self@;
        let ghost frame = buf@.frame();
        proof {
            assert(net.ifaces[i as int] == Some(slots[i as int]->0@));
            assert(slots[i as int]->0.wf());
        }
        let state = self.ifaces.get_mut(i);
        self.inner.transmit_raw(state, buf);
        proof {
            let after = self.ifaces@[i as int]->0;
            slab::lemma_views_update(slots, i as int, after);
            let link = LinkModel { inner: self.inner@, iface: after@ };
            link::lemma_sent_kept(net.link(i as int), frame);
            lemma_with_link(net, i as int, link);
            assert(self@ == net.with_link(i as int, link));
        }
    }

    /// Transmit a fully-built IP packet (IP header included, emitted as-is): pick
    /// the egress interface from the destination address, resolve the neighbor, and
    /// hand the frame to the device.
    ///
    /// Returns `false` if there is no route to the destination.
    pub fn transmit_raw_ip(&mut self, buf: PacketBuf, dst_addr: IpAddress) -> (r: bool)
        requires
            old(self).wf(),
            old(self)@.routes_attached(),
            !dst_addr.unspecified_view(),
            buf.wf(),
            buf@.head.len() >= LINK_HEADER_LEN,
            link::ip_packet(buf@.data),
        ensures
            final(self).wf(),
            net_kept(old(self)@, final(self)@),
            final(self)@.routes_attached(),
            match route_of(old(self)@, dst_addr) {
                Some(route) => r && final(self)@ == old(self)@.with_link(
                    route.iface.0 as int,
                    link::ip_frame_sent(
                        old(self)@.link(route.iface.0 as int),
                        dst_addr,
                        route.next_hop,
                        buf@,
                        link::ethertype_of(dst_addr),
                    ),
                ),
                None => !r && final(self)@ == old(self)@,
            },
    {
        proof {
            lemma_net_kept_refl(self@);
            lemma_route_ok(self@, dst_addr);
        }
        match self.route(&dst_addr) {
            Some(route) => {
                let ethertype = ethertype_for(&dst_addr);
                self.transmit_routed(&route, buf, dst_addr, ethertype);
                true
            },
            None => false,
        }
    }
}

} // verus!
