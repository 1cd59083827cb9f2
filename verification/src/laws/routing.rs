//! Where packets go out.

use vstd::prelude::*;

use crate::buf::{PacketView, PACKET_BUF_SIZE};
use crate::iface::{IfaceHandle, Medium};
use crate::laws::address;
use crate::laws::packet;
use crate::route;
use crate::route::Route;
use crate::stack::iface_state;
use crate::stack::iface_state::IfaceModel;
use crate::stack::link;
use crate::stack::link::LinkModel;
use crate::stack::network;
use crate::stack::network::NetModel;
use crate::storage::slab;
use crate::time::Instant;
use crate::wire::ip::{IpAddress, Ipv4Address, Ipv6Address};
use crate::wire::protocol::{EthernetProtocol, IpProtocol};

verus! {

/// Whether the interface in slot `i` has an address whose network holds the destination.
pub open spec fn reaches(net: NetModel, i: int, dst: IpAddress) -> bool {
    0 <= i < net.ifaces.len() && net.ifaces[i] is Some && exists|j: int|
        0 <= j < net.ifaces[i]->0.ip_addrs.len() && address::holds(
            (#[trigger] net.ifaces[i]->0.ip_addrs[j]).cidr,
            dst,
        )
}

/// Whether a route leads to the destination and has not gone away.
pub open spec fn leads_to(route: Route, dst: IpAddress, now: Instant) -> bool {
    address::holds(route.cidr, dst) && (route.expires_at matches Some(t) ==> now.micros <= t.micros)
}

proof fn lemma_reaches(net: NetModel, i: int, dst: IpAddress)
    requires
        0 <= i < net.ifaces.len(),
    ensures
        reaches(net, i, dst) == (net.ifaces[i] is Some && iface_state::on_link(net.ifaces[i]->0.ip_addrs, dst)),
{
    if net.ifaces[i] is Some {
        let addrs = net.ifaces[i]->0.ip_addrs;
        assert forall|j: int| 0 <= j < addrs.len() implies #[trigger] addrs[j].cidr.contains(dst) == address::holds(
            addrs[j].cidr,
            dst,
        ) by {
            address::law_network_holds_what_agrees(addrs[j].cidr, dst);
        }
        if reaches(net, i, dst) {
            let j = choose|j: int|
                0 <= j < addrs.len() && address::holds((#[trigger] net.ifaces[i]->0.ip_addrs[j]).cidr, dst);
            assert(addrs[j].cidr.contains(dst));
        }
        if iface_state::on_link(addrs, dst) {
            let j = choose|j: int| 0 <= j < addrs.len() && (#[trigger] addrs[j]).cidr.contains(dst);
            assert(address::holds(net.ifaces[i]->0.ip_addrs[j].cidr, dst));
        }
    }
}

proof fn lemma_leads_to(route: Route, dst: IpAddress, now: Instant)
    ensures
        leads_to(route, dst, now) == route.applies(dst, now),
{
    address::law_network_holds_what_agrees(route.cidr, dst);
}

proof fn lemma_none_on_link(net: NetModel, dst: IpAddress, from: int)
    requires
        0 <= from,
        forall|i: int| !#[trigger] reaches(net, i, dst),
    ensures
        network::first_on_link(net.ifaces, dst, from) is None,
    decreases net.ifaces.len() - from,
{
    if from < net.ifaces.len() {
        lemma_reaches(net, from, dst);
        assert(!reaches(net, from, dst));
        lemma_none_on_link(net, dst, from + 1);
    }
}

proof fn lemma_first_reaching(net: NetModel, dst: IpAddress, from: int, i: int)
    requires
        0 <= from <= i,
        reaches(net, i, dst),
        forall|j: int| from <= j < i ==> !#[trigger] reaches(net, j, dst),
    ensures
        network::first_on_link(net.ifaces, dst, from) == Some(i),
    decreases i - from,
{
    lemma_reaches(net, from, dst);
    if from < i {
        assert(!reaches(net, from, dst));
        lemma_first_reaching(net, dst, from + 1, i);
    }
}

/// Of the routes that lead to a destination, the one used is the most specific one, and the
/// latest of equally specific ones.
proof fn lemma_best_route(routes: Seq<Route>, dst: IpAddress, now: Instant, n: int)
    requires
        0 <= n <= routes.len(),
    ensures
        match route::best_route(routes, dst, now, n) {
            Some(b) => {
                &&& 0 <= b < n
                &&& leads_to(routes[b], dst, now)
                &&& forall|i: int|
                    0 <= i < n && leads_to(#[trigger] routes[i], dst, now) ==> routes[i].cidr.prefix_len_view()
                        <= routes[b].cidr.prefix_len_view()
                &&& forall|i: int|
                    b < i < n && leads_to(#[trigger] routes[i], dst, now) ==> routes[i].cidr.prefix_len_view()
                        < routes[b].cidr.prefix_len_view()
            },
            None => forall|i: int| 0 <= i < n ==> !leads_to(#[trigger] routes[i], dst, now),
        },
    decreases n,
{
    if n > 0 {
        lemma_best_route(routes, dst, now, n - 1);
        lemma_leads_to(routes[n - 1], dst, now);
    }
}

/// A packet to a single host on no interface's network goes to the gateway of the most
/// specific route that leads there, the latest of equally specific ones, and out of that
/// route's interface.
pub proof fn law_off_link_packet_goes_to_gateway(net: NetModel, dst: IpAddress, i: int)
    requires
        address::single_host(dst),
        forall|k: int| !#[trigger] reaches(net, k, dst),
        0 <= i < net.inner.routes.len(),
        leads_to(net.inner.routes[i], dst, net.inner.now),
    ensures
        exists|b: int|
            {
                &&& 0 <= b < net.inner.routes.len()
                &&& leads_to(#[trigger] net.inner.routes[b], dst, net.inner.now)
                &&& net.inner.routes[i].cidr.prefix_len_view() <= net.inner.routes[b].cidr.prefix_len_view()
                &&& b < i ==> net.inner.routes[i].cidr.prefix_len_view() < net.inner.routes[b].cidr.prefix_len_view()
                &&& network::route_of(net, dst) is Some
                &&& network::route_of(net, dst)->0.next_hop == net.inner.routes[b].via_router
                &&& network::route_of(net, dst)->0.iface == net.inner.routes[b].iface
            },
{
    let routes = net.inner.routes;
    address::lemma_single_host(dst);
    lemma_none_on_link(net, dst, 0);
    lemma_best_route(routes, dst, net.inner.now, routes.len() as int);
    let b = route::best_route(routes, dst, net.inner.now, routes.len() as int)->0;
    assert(leads_to(net.inner.routes[b], dst, net.inner.now));
    assert(IfaceHandle(routes[b].iface.0) == routes[b].iface);
}

/// A packet to a single host that no interface reaches and no route leads to goes nowhere:
/// nothing is sent and nothing changes.
pub proof fn law_packet_without_route_is_dropped(
    net: NetModel,
    dst: IpAddress,
    message: PacketView,
    src: IpAddress,
    protocol: IpProtocol,
    hop_limit: u8,
)
    requires
        address::single_host(dst),
        forall|k: int| !#[trigger] reaches(net, k, dst),
        forall|i: int|
            0 <= i < net.inner.routes.len() ==> !leads_to(#[trigger] net.inner.routes[i], dst, net.inner.now),
    ensures
        network::route_of(net, dst) is None,
        network::source_for(net, dst) is None,
        network::sent(net, message, src, dst, protocol, hop_limit) == net,
{
    address::lemma_single_host(dst);
    lemma_none_on_link(net, dst, 0);
    lemma_best_route(net.inner.routes, dst, net.inner.now, net.inner.routes.len() as int);
}

/// A packet to a single host on an interface's network goes there itself, out of the first
/// such interface, whatever the routes.
pub proof fn law_on_link_packet_goes_directly(net: NetModel, dst: IpAddress, i: int)
    requires
        net.wf(),
        address::single_host(dst),
        reaches(net, i, dst),
        forall|j: int| 0 <= j < i ==> !#[trigger] reaches(net, j, dst),
    ensures
        network::route_of(net, dst) is Some,
        network::route_of(net, dst)->0.next_hop == dst,
        network::route_of(net, dst)->0.iface.0 == i,
{
    address::lemma_single_host(dst);
    lemma_first_reaching(net, dst, 0, i);
    assert(slab::occupied(net.ifaces, i));
    assert(network::iface_ok(net.ifaces[i]->0, i));
}

/// A packet to a group or to all goes out of the first interface, as it is.
pub proof fn law_group_packet_leaves_by_first_interface(net: NetModel, dst: IpAddress, i: int)
    requires
        net.wf(),
        !address::single_host(dst),
        slab::occupied(net.ifaces, i),
        forall|j: int| 0 <= j < i ==> !#[trigger] slab::occupied(net.ifaces, j),
    ensures
        network::route_of(net, dst) is Some,
        network::route_of(net, dst)->0.next_hop == dst,
        network::route_of(net, dst)->0.iface.0 == i,
{
    address::lemma_single_host(dst);
    lemma_first_occupied(net.ifaces, 0, i);
    assert(network::iface_ok(net.ifaces[i]->0, i));
}

proof fn lemma_first_occupied(slots: Seq<Option<IfaceModel>>, from: int, i: int)
    requires
        0 <= from <= i,
        slab::occupied(slots, i),
        forall|j: int| from <= j < i ==> !#[trigger] slab::occupied(slots, j),
    ensures
        slab::next_occupied_slot(slots, from) == Some(i),
    decreases i - from,
{
    if from < i {
        assert(!slab::occupied(slots, from));
        lemma_first_occupied(slots, from + 1, i);
    }
}

/// What a packet's way out can carry: as much as the device takes, its link header aside,
/// unless a packet buffer holds less.
pub proof fn law_way_out_carries_what_device_takes(net: NetModel, dst: IpAddress)
    requires
        net.wf(),
        net.routes_attached(),
        network::route_of(net, dst) is Some,
    ensures
        ({
            let r = network::route_of(net, dst)->0;
            let caps = net.iface(r.iface).caps;
            let link = if caps.medium == Medium::Ethernet {
                14int
            } else {
                0
            };
            &&& net.has_iface(r.iface)
            &&& r.ip_mtu + link <= caps.max_transmission_unit
            &&& r.ip_mtu + 14 <= PACKET_BUF_SIZE
            &&& r.ip_mtu + link == caps.max_transmission_unit || r.ip_mtu + 14 == PACKET_BUF_SIZE
        }),
{
    network::lemma_route_ok(net, dst);
    let r = network::route_of(net, dst)->0;
    assert(network::iface_ok(net.ifaces[r.iface.0 as int]->0, r.iface.0 as int));
}

/// The answer to a packet from a link-local address goes back out of the interface that the
/// packet came in by; all other answers go where packets go.
pub proof fn law_answers_go_back(net: NetModel, arrival: IfaceHandle, dst: IpAddress)
    ensures
        dst is Ipv6 && crate::laws::source::link_local(dst.octets_view()) ==> {
            &&& network::reply_route_of(net, arrival, dst) is Some
            &&& network::reply_route_of(net, arrival, dst)->0.iface == arrival
            &&& network::reply_route_of(net, arrival, dst)->0.next_hop == dst
        },
        !(dst is Ipv6 && crate::laws::source::link_local(dst.octets_view())) ==> network::reply_route_of(
            net,
            arrival,
            dst,
        ) == network::route_of(net, dst),
{
    if let IpAddress::Ipv6(a) = dst {
        address::law_ipv6_classes(a);
    }
    assert(IfaceHandle(arrival.0) == arrival);
}

/// The default route leads to every address of its IP version and is the least specific
/// route there is; setting it anew replaces the one before.
pub proof fn law_default_route_leads_everywhere(
    gateway: Ipv4Address,
    gateway6: Ipv6Address,
    iface: IfaceHandle,
    dst: IpAddress,
    now: Instant,
)
    ensures
        dst is Ipv4 ==> leads_to(Route::default_v4(gateway, iface), dst, now),
        dst is Ipv6 ==> leads_to(Route::default_v6(gateway6, iface), dst, now),
        Route::default_v4(gateway, iface).via_router == IpAddress::Ipv4(gateway),
        Route::default_v6(gateway6, iface).via_router == IpAddress::Ipv6(gateway6),
        Route::default_v4(gateway, iface).iface == iface,
        Route::default_v6(gateway6, iface).iface == iface,
        Route::default_v4(gateway, iface).cidr.prefix_len_view() == 0,
        Route::default_v6(gateway6, iface).cidr.prefix_len_view() == 0,
{
}

/// An answer leaves in an IP packet from one address to another, with the protocol's number,
/// the hop limit and the message given, by the way that answers go. Without a way it does not
/// leave.
pub proof fn law_answer_leaves_v4(
    net: NetModel,
    arrival: IfaceHandle,
    message: PacketView,
    src: Ipv4Address,
    dst: Ipv4Address,
    protocol: IpProtocol,
    hop_limit: u8,
)
    requires
        message.data.len() <= 0xffff - 20,
    ensures
        ({
            let after = network::reply_sent(
                net,
                arrival,
                message,
                IpAddress::Ipv4(src),
                IpAddress::Ipv4(dst),
                protocol,
                hop_limit,
            );
            match network::route_of(net, IpAddress::Ipv4(dst)) {
                Some(route) => exists|p: PacketView|
                    {
                        &&& packet::ipv4_carries(
                            p.data,
                            src.0@,
                            dst.0@,
                            protocol.number() as int,
                            hop_limit as int,
                            packet::left_of(net.iface(route.iface), protocol, message.data),
                        )
                        &&& p.meta == message.meta
                        &&& after == net.with_link_at(
                            route.iface,
                            #[trigger] link::ip_frame_sent(
                                net.link_at(route.iface),
                                IpAddress::Ipv4(dst),
                                route.next_hop,
                                p,
                                EthernetProtocol::Ipv4,
                            ),
                        )
                    },
                None => after == net,
            }
        }),
{
    if let Some(route) = network::route_of(net, IpAddress::Ipv4(dst)) {
        packet::law_ipv4_packet(net.iface(route.iface), src.0@, dst.0@, protocol, hop_limit, message);
        let p = link::ipv4_packet(net.iface(route.iface), src.0@, dst.0@, protocol, hop_limit, message);
        let sent = link::ip_frame_sent(
            net.link_at(route.iface),
            IpAddress::Ipv4(dst),
            route.next_hop,
            p,
            EthernetProtocol::Ipv4,
        );
        assert(network::reply_sent(
            net,
            arrival,
            message,
            IpAddress::Ipv4(src),
            IpAddress::Ipv4(dst),
            protocol,
            hop_limit,
        ) == net.with_link_at(route.iface, sent));
    }
}

/// The same of IPv6. To a link-local address an answer leaves by the interface that the
/// question came in by, directly.
pub proof fn law_answer_leaves_v6(
    net: NetModel,
    arrival: IfaceHandle,
    message: PacketView,
    src: Ipv6Address,
    dst: Ipv6Address,
    protocol: IpProtocol,
    hop_limit: u8,
    iface: IfaceHandle,
    next_hop: IpAddress,
)
    requires
        message.data.len() <= 0xffff,
        if crate::laws::source::link_local(dst.0@) {
            iface == arrival && next_hop == IpAddress::Ipv6(dst)
        } else {
            &&& network::route_of(net, IpAddress::Ipv6(dst)) is Some
            &&& network::route_of(net, IpAddress::Ipv6(dst))->0.iface == iface
            &&& network::route_of(net, IpAddress::Ipv6(dst))->0.next_hop == next_hop
        },
    ensures
        exists|p: PacketView|
            {
                &&& packet::ipv6_carries(
                    p.data,
                    src.0@,
                    dst.0@,
                    protocol.number() as int,
                    hop_limit as int,
                    packet::left_of(net.iface(iface), protocol, message.data),
                )
                &&& p.meta == message.meta
                &&& network::reply_sent(
                    net,
                    arrival,
                    message,
                    IpAddress::Ipv6(src),
                    IpAddress::Ipv6(dst),
                    protocol,
                    hop_limit,
                ) == net.with_link_at(
                    iface,
                    #[trigger] link::ip_frame_sent(
                        net.link_at(iface),
                        IpAddress::Ipv6(dst),
                        next_hop,
                        p,
                        EthernetProtocol::Ipv6,
                    ),
                )
            },
{
    law_answers_go_back(net, arrival, IpAddress::Ipv6(dst));
    packet::law_ipv6_packet(net.iface(iface), src.0@, dst.0@, protocol, hop_limit, message);
    let p = link::ipv6_packet(net.iface(iface), src.0@, dst.0@, protocol, hop_limit, message);
    let sent = link::ip_frame_sent(net.link_at(iface), IpAddress::Ipv6(dst), next_hop, p, EthernetProtocol::Ipv6);
    assert(network::reply_sent(
        net,
        arrival,
        message,
        IpAddress::Ipv6(src),
        IpAddress::Ipv6(dst),
        protocol,
        hop_limit,
    ) == net.with_link_at(iface, sent));
}

/// What is sent by one interface alone goes, in a datagram with a hop limit of 64, to its
/// destination if that is attached to the interface or is no single host, and otherwise to
/// the router of the most specific route, or to the destination if there is no route.
pub proof fn law_datagram_by_one_interface(
    on: LinkModel,
    src: Ipv4Address,
    dst: Ipv4Address,
    message: PacketView,
    b: int,
)
    requires
        message.data.len() <= 0xffff - 20,
    ensures
        ({
            let to = IpAddress::Ipv4(dst);
            let near = exists|j: int|
                0 <= j < on.iface.ip_addrs.len() && address::holds((#[trigger] on.iface.ip_addrs[j]).cidr, to);
            let routes = on.inner.routes;
            exists|p: PacketView, next_hop: IpAddress|
                {
                    &&& packet::ipv4_carries(
                        p.data,
                        src.0@,
                        dst.0@,
                        17,
                        64,
                        packet::left_of(on.iface, IpProtocol::Udp, message.data),
                    )
                    &&& link::ipv4_sent_on(on, src, dst, message)
                        == #[trigger] link::ip_frame_sent(
                        on,
                        to,
                        next_hop,
                        p,
                        EthernetProtocol::Ipv4,
                    )
                    &&& near || !address::single_host(to) ==> next_hop == to
                    &&& !near && address::single_host(to) && 0 <= b < routes.len() && leads_to(
                        routes[b],
                        to,
                        on.inner.now,
                    ) && (forall|i: int|
                        0 <= i < routes.len() && i != b && leads_to(#[trigger] routes[i], to, on.inner.now)
                            ==> routes[i].cidr.prefix_len_view() < routes[b].cidr.prefix_len_view()) ==> next_hop
                        == routes[b].via_router
                    &&& (forall|i: int| 0 <= i < routes.len() ==> !leads_to(#[trigger] routes[i], to, on.inner.now))
                        ==> next_hop == to
                }
        }),
{
    let to = IpAddress::Ipv4(dst);
    let routes = on.inner.routes;
    address::lemma_single_host(to);
    assert forall|j: int| 0 <= j < on.iface.ip_addrs.len() implies (#[trigger] on.iface.ip_addrs[j]).cidr.contains(
        to,
    ) == address::holds(on.iface.ip_addrs[j].cidr, to) by {
        address::law_network_holds_what_agrees(on.iface.ip_addrs[j].cidr, to);
    }
    lemma_best_route(routes, to, on.inner.now, routes.len() as int);
    let next_hop = if !dst.unicast_view() || iface_state::on_link(on.iface.ip_addrs, to) {
        to
    } else {
        match route::lookup_view(routes, to, on.inner.now) {
            Some(route) => route.via_router,
            None => to,
        }
    };
    packet::law_ipv4_packet(on.iface, src.0@, dst.0@, IpProtocol::Udp, 64, message);
    let p = link::ipv4_packet(on.iface, src.0@, dst.0@, IpProtocol::Udp, 64, message);
    assert(link::ipv4_sent_on(on, src, dst, message) == link::ip_frame_sent(
        on,
        to,
        next_hop,
        p,
        EthernetProtocol::Ipv4,
    ));
}

} // verus!
