//! Datagrams.

use vstd::prelude::*;

use crate::buf::PacketView;
use crate::icmp_error::IcmpError;
use crate::laws;
use crate::laws::address;
use crate::laws::packet;
use crate::stack::link;
use crate::stack::network;
use crate::stack::network::{EgressRoute, NetModel};
use crate::stack::ports;
use crate::stack::source;
use crate::storage::slab;
use crate::udp;
use crate::udp::datagram;
use crate::udp::datagram::UdpMetadata;
use crate::udp::demux;
use crate::udp::demux::{Flow, UdpModel, UdpSlots};
use crate::udp::socket;
use crate::udp::socket::{BindError, SendError};
use crate::wire::endpoint::{IpEndpoint, IpListenEndpoint};
use crate::wire::ip::{IpAddress, Ipv4Address, Ipv6Address};
use crate::wire::ipv4;
use crate::wire::protocol::{EthernetProtocol, IpProtocol};

verus! {

/// Whether an address is all zeros.
pub open spec fn blank(addr: IpAddress) -> bool {
    laws::number(addr.octets_view()) == 0
}

pub proof fn lemma_blank(addr: IpAddress)
    ensures
        addr.unspecified_view() == blank(addr),
{
    match addr {
        IpAddress::Ipv4(a) => address::law_ipv4_classes(a),
        IpAddress::Ipv6(a) => address::law_ipv6_classes(a),
    }
}

/// Whether a datagram given to a socket with this metadata is for `dst`: the endpoint given,
/// or where it leaves an address or a port open, the socket's remote.
pub open spec fn is_for(sender: UdpModel, meta: UdpMetadata, dst: IpEndpoint) -> bool {
    &&& !blank(dst.addr)
    &&& dst.port != 0
    &&& if blank(meta.endpoint.addr) {
        sender.remote.addr == Some(dst.addr)
    } else {
        meta.endpoint.addr == dst.addr
    }
    &&& if meta.endpoint.port == 0 {
        sender.remote.port == dst.port
    } else {
        meta.endpoint.port == dst.port
    }
}

/// Whether a datagram given to a socket with this metadata is from `src`: the address given,
/// or else the one the socket is bound to, or else the source address for the destination of
/// the interface that the datagram goes out of.
pub open spec fn is_from(net: NetModel, sender: UdpModel, meta: UdpMetadata, dst: IpAddress, src: IpAddress) -> bool {
    match meta.local_address {
        Some(addr) => addr == src,
        None => if sender.local.addr is Some && !blank(sender.local.addr->0) {
            sender.local.addr == Some(src)
        } else {
            network::route_of(net, dst) is Some && source::source_addr(
                net.ifaces[network::route_of(net, dst)->0.iface.0 as int]->0.ip_addrs,
                dst,
            ) == Some(src)
        },
    }
}

proof fn lemma_ends(net: NetModel, sender: UdpModel, meta: UdpMetadata, src: IpAddress, dst: IpEndpoint)
    requires
        is_for(sender, meta, dst),
        is_from(net, sender, meta, dst.addr, src),
    ensures
        socket::destination(sender, meta) == dst,
        socket::send_source(net, sender, meta) == Some(src),
        dst.specified(),
{
    lemma_blank(meta.endpoint.addr);
    lemma_blank(dst.addr);
    if sender.local.addr is Some {
        lemma_blank(sender.local.addr->0);
    }
    if sender.remote.addr is Some {
        lemma_blank(sender.remote.addr->0);
    }
}

/// A bound socket sends every datagram that fits in a packet buffer behind its headers, if it
/// is not bound to the other IP version.
pub proof fn law_addressed_datagram_is_sent(
    net: NetModel,
    sender: UdpModel,
    meta: UdpMetadata,
    src: IpAddress,
    dst: IpEndpoint,
    size: nat,
)
    requires
        sender.local.port != 0,
        is_for(sender, meta, dst),
        is_from(net, sender, meta, dst.addr, src),
        src is Ipv4 == dst.addr is Ipv4,
        sender.local.addr matches Some(a) ==> a is Ipv4 == dst.addr is Ipv4,
    ensures
        socket::send_refusal(net, sender, meta, size) == (if size + 14 + 8 + (if dst.addr is Ipv4 {
            20int
        } else {
            40
        }) > 1536 {
            Some(SendError::BufferFull)
        } else {
            None
        }),
{
    lemma_ends(net, sender, meta, src, dst);
}

/// A datagram is refused as unaddressable if the socket is not bound or bound to the other IP
/// version, if nothing says where it goes, or if it would come from an address of the other
/// IP version.
pub proof fn law_unaddressed_datagram_is_refused(net: NetModel, sender: UdpModel, meta: UdpMetadata, size: nat)
    requires
        ({
            ||| sender.local.port == 0
            ||| blank(meta.endpoint.addr) && (sender.remote.addr is None || blank(sender.remote.addr->0))
            ||| meta.endpoint.port == 0 && sender.remote.port == 0
            ||| !blank(meta.endpoint.addr) && sender.local.addr is Some && sender.local.addr->0 is Ipv4
                != meta.endpoint.addr is Ipv4
            ||| !blank(meta.endpoint.addr) && meta.local_address is Some && meta.local_address->0 is Ipv4
                != meta.endpoint.addr is Ipv4
        }),
    ensures
        socket::send_refusal(net, sender, meta, size) == Some(SendError::Unaddressable),
{
    lemma_blank(meta.endpoint.addr);
    if sender.remote.addr is Some {
        lemma_blank(sender.remote.addr->0);
    }
}

/// The hop limit of a socket's datagrams.
pub open spec fn hops(sender: UdpModel) -> int {
    if sender.hop_limit is Some {
        sender.hop_limit->0 as int
    } else {
        64
    }
}

/// An IPv4 datagram goes out once, to the next hop on its way, as a packet from the address
/// that it is from to the one that it is for, between the ports of the two, with the
/// socket's hop limit, which is 64 if none was set.
pub proof fn law_datagram_on_the_wire_v4(
    net: NetModel,
    sender: UdpModel,
    meta: UdpMetadata,
    payload: Seq<u8>,
    src: Ipv4Address,
    dst: Ipv4Address,
    dst_port: u16,
    route: EgressRoute,
)
    requires
        is_for(sender, meta, IpEndpoint { addr: IpAddress::Ipv4(dst), port: dst_port }),
        is_from(net, sender, meta, IpAddress::Ipv4(dst), IpAddress::Ipv4(src)),
        network::route_of(net, IpAddress::Ipv4(dst)) == Some(route),
        net.ifaces[route.iface.0 as int]->0.caps.checksum.udp.tx_view(),
        payload.len() <= 1494,
    ensures
        exists|p: PacketView, d: Seq<u8>|
            {
                &&& #[trigger] packet::ipv4_carries(
                    p.data,
                    src.0@,
                    dst.0@,
                    17,
                    hops(sender),
                    d,
                )
                &&& packet::udp_carries(d, sender.local.port as int, dst_port as int, payload)
                &&& packet::word(d, 6) != 0
                &&& packet::covered(src.0@, dst.0@, 17, d) % 0xffff == 0
                &&& p.meta == meta.meta
                &&& socket::datagram_sent(net, sender, meta, payload) == net.with_link_at(
                    route.iface,
                    link::ip_frame_sent(
                        net.link_at(route.iface),
                        IpAddress::Ipv4(dst),
                        route.next_hop,
                        p,
                        EthernetProtocol::Ipv4,
                    ),
                )
            },
{
    let to = IpEndpoint { addr: IpAddress::Ipv4(dst), port: dst_port };
    let from = IpAddress::Ipv4(src);
    lemma_ends(net, sender, meta, from, to);
    let message = socket::datagram_packet(sender, from, to, meta, payload);
    let d = udp_octets(from, to, sender.local.port, payload);
    packet::law_udp_datagram(src.0@, sender.local.port, dst.0@, dst_port, payload);
    assert(message.data =~= d);
    let hop_limit: u8 = match sender.hop_limit {
        Some(n) => n,
        None => 64,
    };
    let iface = net.ifaces[route.iface.0 as int]->0;
    packet::law_ipv4_packet(iface, src.0@, dst.0@, IpProtocol::Udp, hop_limit, message);
    packet::law_only_checksum_is_left_out(iface, IpProtocol::Udp, message.data);
    let p = link::ipv4_packet(iface, src.0@, dst.0@, IpProtocol::Udp, hop_limit, message);
    assert(packet::ipv4_carries(p.data, src.0@, dst.0@, 17, hops(sender), d));
    assert(p.meta == meta.meta);
    assert(packet::udp_carries(d, sender.local.port as int, dst_port as int, payload));
    assert(socket::datagram_sent(net, sender, meta, payload) == net.with_link_at(
        route.iface,
        link::ip_frame_sent(net.link_at(route.iface), to.addr, route.next_hop, p, EthernetProtocol::Ipv4),
    ));
}

spec fn udp_octets(src: IpAddress, dst: IpEndpoint, src_port: u16, payload: Seq<u8>) -> Seq<u8> {
    crate::wire::udp::header_octets(src.octets_view(), src_port, dst.addr.octets_view(), dst.port, payload) + payload
}

/// An IPv6 datagram goes out in the same way.
pub proof fn law_datagram_on_the_wire_v6(
    net: NetModel,
    sender: UdpModel,
    meta: UdpMetadata,
    payload: Seq<u8>,
    src: Ipv6Address,
    dst: Ipv6Address,
    dst_port: u16,
    route: EgressRoute,
)
    requires
        is_for(sender, meta, IpEndpoint { addr: IpAddress::Ipv6(dst), port: dst_port }),
        is_from(net, sender, meta, IpAddress::Ipv6(dst), IpAddress::Ipv6(src)),
        network::route_of(net, IpAddress::Ipv6(dst)) == Some(route),
        net.ifaces[route.iface.0 as int]->0.caps.checksum.udp.tx_view(),
        payload.len() <= 1474,
    ensures
        exists|p: PacketView, d: Seq<u8>|
            {
                &&& #[trigger] packet::ipv6_carries(
                    p.data,
                    src.0@,
                    dst.0@,
                    17,
                    hops(sender),
                    d,
                )
                &&& packet::udp_carries(d, sender.local.port as int, dst_port as int, payload)
                &&& packet::word(d, 6) != 0
                &&& packet::covered(src.0@, dst.0@, 17, d) % 0xffff == 0
                &&& p.meta == meta.meta
                &&& socket::datagram_sent(net, sender, meta, payload) == net.with_link_at(
                    route.iface,
                    link::ip_frame_sent(
                        net.link_at(route.iface),
                        IpAddress::Ipv6(dst),
                        route.next_hop,
                        p,
                        EthernetProtocol::Ipv6,
                    ),
                )
            },
{
    let to = IpEndpoint { addr: IpAddress::Ipv6(dst), port: dst_port };
    let from = IpAddress::Ipv6(src);
    lemma_ends(net, sender, meta, from, to);
    let message = socket::datagram_packet(sender, from, to, meta, payload);
    let d = udp_octets(from, to, sender.local.port, payload);
    packet::law_udp_datagram(src.0@, sender.local.port, dst.0@, dst_port, payload);
    assert(message.data =~= d);
    let hop_limit: u8 = match sender.hop_limit {
        Some(n) => n,
        None => 64,
    };
    let iface = net.ifaces[route.iface.0 as int]->0;
    packet::law_ipv6_packet(iface, src.0@, dst.0@, IpProtocol::Udp, hop_limit, message);
    packet::law_only_checksum_is_left_out(iface, IpProtocol::Udp, message.data);
    let p = link::ipv6_packet(iface, src.0@, dst.0@, IpProtocol::Udp, hop_limit, message);
    assert(packet::ipv6_carries(p.data, src.0@, dst.0@, 17, hops(sender), d));
    assert(p.meta == meta.meta);
    assert(packet::udp_carries(d, sender.local.port as int, dst_port as int, payload));
    assert(socket::datagram_sent(net, sender, meta, payload) == net.with_link_at(
        route.iface,
        link::ip_frame_sent(net.link_at(route.iface), to.addr, route.next_hop, p, EthernetProtocol::Ipv6),
    ));
}

/// What is received of an IPv4 datagram: who sent it, to which address, and its payload.
pub proof fn law_datagram_off_the_wire_v4(
    p: PacketView,
    src: Ipv4Address,
    dst: Ipv4Address,
    src_port: u16,
    dst_port: u16,
    hop_limit: int,
    d: Seq<u8>,
    payload: Seq<u8>,
)
    requires
        packet::ipv4_carries(p.data, src.0@, dst.0@, 17, hop_limit, d),
        packet::udp_carries(d, src_port as int, dst_port as int, payload),
    ensures
        datagram::datagram_ok(p.data),
        datagram::received_payload(p.data) == payload,
        datagram::received_meta(p).endpoint == (IpEndpoint { addr: IpAddress::Ipv4(src), port: src_port }),
        datagram::received_meta(p).local_address == Some(IpAddress::Ipv4(dst)),
        datagram::received_meta(p).meta == p.meta,
{
    let x = p.data;
    src.lemma_of();
    dst.lemma_of();
    assert(x[0] / 16 == 4 && x[0] % 16 == 5);
    assert(ipv4::header_len(x) == 20);
    assert(x.skip(20) =~= d) by {
        assert(x.skip(20) =~= x.subrange(20, x.len() as int));
    }
    assert(datagram::received_payload(x) =~= payload) by {
        assert(d.subrange(8, d.len() as int) == payload);
        assert forall|i: int| 0 <= i < payload.len() implies #[trigger] x.subrange(28, x.len() as int)[i]
            == payload[i] by {
            assert(x.skip(20)[8 + i] == x[28 + i]);
            assert(d.subrange(8, d.len() as int)[i] == d[8 + i]);
        }
    }
}

/// What is received of an IPv6 datagram.
pub proof fn law_datagram_off_the_wire_v6(
    p: PacketView,
    src: Ipv6Address,
    dst: Ipv6Address,
    src_port: u16,
    dst_port: u16,
    hop_limit: int,
    d: Seq<u8>,
    payload: Seq<u8>,
)
    requires
        packet::ipv6_carries(p.data, src.0@, dst.0@, 17, hop_limit, d),
        packet::udp_carries(d, src_port as int, dst_port as int, payload),
    ensures
        datagram::datagram_ok(p.data),
        datagram::received_payload(p.data) == payload,
        datagram::received_meta(p).endpoint == (IpEndpoint { addr: IpAddress::Ipv6(src), port: src_port }),
        datagram::received_meta(p).local_address == Some(IpAddress::Ipv6(dst)),
        datagram::received_meta(p).meta == p.meta,
{
    let x = p.data;
    src.lemma_of();
    dst.lemma_of();
    assert(x[0] / 16 == 6);
    assert(x.skip(40) =~= d) by {
        assert(x.skip(40) =~= x.subrange(40, x.len() as int));
    }
    assert(datagram::received_payload(x) =~= payload) by {
        assert forall|i: int| 0 <= i < payload.len() implies #[trigger] x.subrange(48, x.len() as int)[i]
            == payload[i] by {
            assert(x.skip(40)[8 + i] == x[48 + i]);
            assert(d.subrange(8, d.len() as int)[i] == d[8 + i]);
        }
    }
}

/// An answer to a received datagram, sent with its metadata, leaves from the address that the
/// datagram was sent to, and goes to the endpoint that sent it.
pub proof fn law_answer_mirrors_request(
    net: NetModel,
    sender: UdpModel,
    request: PacketView,
    src: Ipv4Address,
    dst: Ipv4Address,
    src_port: u16,
    dst_port: u16,
    hop_limit: int,
    d: Seq<u8>,
    asked: Seq<u8>,
    payload: Seq<u8>,
    route: EgressRoute,
)
    requires
        packet::ipv4_carries(request.data, src.0@, dst.0@, 17, hop_limit, d),
        packet::udp_carries(d, src_port as int, dst_port as int, asked),
        laws::number(src.0@) != 0,
        src_port != 0,
        network::route_of(net, IpAddress::Ipv4(src)) == Some(route),
        net.ifaces[route.iface.0 as int]->0.caps.checksum.udp.tx_view(),
        payload.len() <= 1494,
    ensures
        exists|p: PacketView, e: Seq<u8>|
            {
                &&& #[trigger] packet::ipv4_carries(
                    p.data,
                    dst.0@,
                    src.0@,
                    17,
                    hops(sender),
                    e,
                )
                &&& packet::udp_carries(e, sender.local.port as int, src_port as int, payload)
                &&& socket::datagram_sent(net, sender, datagram::received_meta(request), payload)
                    == net.with_link_at(
                    route.iface,
                    link::ip_frame_sent(
                        net.link_at(route.iface),
                        IpAddress::Ipv4(src),
                        route.next_hop,
                        p,
                        EthernetProtocol::Ipv4,
                    ),
                )
            },
{
    law_datagram_off_the_wire_v4(request, src, dst, src_port, dst_port, hop_limit, d, asked);
    law_datagram_on_the_wire_v4(
        net,
        sender,
        datagram::received_meta(request),
        payload,
        dst,
        src,
        src_port,
        route,
    );
}

/// The same of IPv6: what is sent with what came with a received datagram goes back to its
/// sender, from the address that it was sent to.
pub proof fn law_answer_mirrors_request_v6(
    net: NetModel,
    sender: UdpModel,
    request: PacketView,
    src: Ipv6Address,
    dst: Ipv6Address,
    src_port: u16,
    dst_port: u16,
    hop_limit: int,
    d: Seq<u8>,
    asked: Seq<u8>,
    payload: Seq<u8>,
    route: EgressRoute,
)
    requires
        packet::ipv6_carries(request.data, src.0@, dst.0@, 17, hop_limit, d),
        packet::udp_carries(d, src_port as int, dst_port as int, asked),
        laws::number(src.0@) != 0,
        src_port != 0,
        network::route_of(net, IpAddress::Ipv6(src)) == Some(route),
        net.ifaces[route.iface.0 as int]->0.caps.checksum.udp.tx_view(),
        payload.len() <= 1474,
    ensures
        exists|p: PacketView, e: Seq<u8>|
            {
                &&& #[trigger] packet::ipv6_carries(p.data, dst.0@, src.0@, 17, hops(sender), e)
                &&& packet::udp_carries(e, sender.local.port as int, src_port as int, payload)
                &&& socket::datagram_sent(net, sender, datagram::received_meta(request), payload)
                    == net.with_link_at(
                    route.iface,
                    link::ip_frame_sent(
                        net.link_at(route.iface),
                        IpAddress::Ipv6(src),
                        route.next_hop,
                        p,
                        EthernetProtocol::Ipv6,
                    ),
                )
            },
{
    law_datagram_off_the_wire_v6(request, src, dst, src_port, dst_port, hop_limit, d, asked);
    let meta = datagram::received_meta(request);
    law_datagram_on_the_wire_v6(net, sender, meta, payload, dst, src, src_port, route);
}

/// Where a received datagram starts: behind the IPv4 header with its options, or behind the
/// IPv6 header, and behind the options for every hop if there are any.
pub open spec fn starts_at(d: Seq<u8>) -> int {
    if d[0] / 16 == 4 {
        d[0] % 16 * 4
    } else if d[6] == 0 {
        40 + (d[41] + 1) * 8
    } else {
        40
    }
}

/// What is received of a datagram behind headers of any length: its payload, and the port and
/// the addresses that it came from and went to.
pub proof fn law_received_datagram(p: PacketView, src: IpAddress, dst: IpAddress)
    requires
        src is Ipv4 == dst is Ipv4,
        ({
            let d = p.data;
            let at = starts_at(d);
            &&& if src is Ipv4 {
                &&& d[0] / 16 == 4
                &&& d.len() >= 20
                &&& at >= 20
                &&& d.subrange(12, 16) == src.octets_view()
                &&& d.subrange(16, 20) == dst.octets_view()
            } else {
                &&& d[0] / 16 == 6
                &&& d.len() >= 42
                &&& d.subrange(8, 24) == src.octets_view()
                &&& d.subrange(24, 40) == dst.octets_view()
            }
            &&& at + 8 <= d.len()
            &&& 8 <= packet::word(d, at + 4)
            &&& at + packet::word(d, at + 4) <= d.len()
        }),
    ensures
        ({
            let d = p.data;
            let at = starts_at(d);
            let meta = datagram::received_meta(p);
            &&& datagram::datagram_ok(d)
            &&& datagram::received_payload(d) == d.subrange(at + 8, at + packet::word(d, at + 4))
            &&& meta.endpoint.addr == src
            &&& meta.endpoint.port == packet::word(d, at)
            &&& meta.local_address == Some(dst)
            &&& meta.meta == p.meta
        }),
{
    let d = p.data;
    let at = starts_at(d);
    match (src, dst) {
        (IpAddress::Ipv4(a), IpAddress::Ipv4(b)) => {
            assert(Ipv4Address::of(d.subrange(12, 16)).0 =~= a.0);
            assert(Ipv4Address::of(d.subrange(16, 20)).0 =~= b.0);
        },
        (IpAddress::Ipv6(a), IpAddress::Ipv6(b)) => {
            assert(Ipv6Address::of(d.subrange(8, 24)).0 =~= a.0);
            assert(Ipv6Address::of(d.subrange(24, 40)).0 =~= b.0);
            assert(d.skip(40)[1] == d[41]);
        },
        _ => {},
    }
    assert(datagram::l4_offset(d) == Some(at));
    let u = d.skip(at);
    assert(u[0] == d[at] && u[1] == d[at + 1] && u[4] == d[at + 4] && u[5] == d[at + 5]);
}

/// Whether a filter lets an address through: it names none, or all of its IP version, or it.
pub open spec fn lets_through(filter: IpListenEndpoint, addr: IpAddress) -> bool {
    match filter.addr {
        None => true,
        Some(a) => a == addr || blank(a) && a is Ipv4 == addr is Ipv4,
    }
}

/// Whether a socket takes the datagrams of a flow: they are for its port, from the port it is
/// connected to if it is, and both ends get through its filters. A datagram to a group or to
/// all also gets to sockets bound to any one address of its IP version.
pub open spec fn takes(socket: UdpModel, flow: Flow) -> bool {
    &&& socket.local.port == flow.dst_port
    &&& socket.remote.port == 0 || socket.remote.port == flow.src_port
    &&& lets_through(socket.remote, flow.src)
    &&& lets_through(socket.local, flow.dst) || flow.dst_is_bcast && (socket.local.addr matches Some(a) ==> a is Ipv4
        == flow.dst is Ipv4)
}

pub proof fn lemma_filter(filter: IpListenEndpoint, addr: IpAddress)
    requires
        !blank(addr),
    ensures
        ports::filter_score(filter, addr) is Some == lets_through(filter, addr),
        ports::filter_score(filter, addr) matches Some(score) ==> score == (match filter.addr {
            None => 0int,
            Some(a) => if a == addr {
                2
            } else {
                1
            },
        }),
{
    if let Some(a) = filter.addr {
        lemma_blank(a);
    }
}

proof fn lemma_takes(socket: UdpModel, flow: Flow)
    requires
        !blank(flow.src),
        !blank(flow.dst),
    ensures
        socket.score(flow.src, flow.src_port, flow.dst, flow.dst_port, flow.dst_is_bcast) is Some == takes(
            socket,
            flow,
        ),
{
    lemma_filter(socket.local, flow.dst);
    lemma_filter(socket.remote, flow.src);
}

/// A datagram gets to a socket that takes it, if there is one.
pub proof fn law_datagram_gets_to_a_socket_that_takes_it(slots: UdpSlots, flow: Flow)
    requires
        !blank(flow.src),
        !blank(flow.dst),
    ensures
        match demux::demux(slots, flow) {
            Some(i) => slab::occupied(slots, i) && takes(slots[i]->0, flow),
            None => forall|i: int| slab::occupied(slots, i) ==> !takes((#[trigger] slots[i])->0, flow),
        },
{
    demux::law_demux_picks_most_specific(slots, flow, slots.len() as int);
    match demux::demux(slots, flow) {
        Some(i) => lemma_takes(slots[i]->0, flow),
        None => {
            assert forall|i: int| slab::occupied(slots, i) implies !takes((#[trigger] slots[i])->0, flow) by {
                assert(demux::slot_score(slots, flow, i) is None);
                lemma_takes(slots[i]->0, flow);
            }
        },
    }
}

/// How closely a filter names an address: not at all, by its IP version, or exactly.
pub open spec fn closer(a: IpListenEndpoint, b: IpListenEndpoint, addr: IpAddress) -> bool {
    ||| a.addr == Some(addr) && b.addr != Some(addr)
    ||| a.addr is Some && b.addr is None
}

/// A datagram does not get to a socket if another one that takes it names one of its ends
/// more closely, or the remote port, and neither end less closely.
pub proof fn law_datagram_gets_to_the_most_specific_socket(slots: UdpSlots, flow: Flow, i: int, j: int)
    requires
        !blank(flow.src),
        !blank(flow.dst),
        !flow.dst_is_bcast,
        slab::occupied(slots, i),
        slab::occupied(slots, j),
        takes(slots[i]->0, flow),
        takes(slots[j]->0, flow),
        !closer(slots[j]->0.local, slots[i]->0.local, flow.dst),
        !closer(slots[j]->0.remote, slots[i]->0.remote, flow.src),
        slots[j]->0.remote.port == 0 || slots[i]->0.remote.port != 0,
        ({
            ||| closer(slots[i]->0.local, slots[j]->0.local, flow.dst)
            ||| closer(slots[i]->0.remote, slots[j]->0.remote, flow.src)
            ||| slots[i]->0.remote.port != 0 && slots[j]->0.remote.port == 0
        }),
    ensures
        demux::demux(slots, flow) != Some(j),
{
    demux::law_demux_picks_most_specific(slots, flow, slots.len() as int);
    lemma_takes(slots[i]->0, flow);
    lemma_takes(slots[j]->0, flow);
    lemma_filter(slots[i]->0.local, flow.dst);
    lemma_filter(slots[i]->0.remote, flow.src);
    lemma_filter(slots[j]->0.local, flow.dst);
    lemma_filter(slots[j]->0.remote, flow.src);
    assert(demux::slot_score(slots, flow, i) is Some);
    assert(demux::slot_score(slots, flow, j) is Some);
    assert(demux::slot_score(slots, flow, i)->0 > demux::slot_score(slots, flow, j)->0);
}

/// How closely a filter names an address, in points: exactly, by its IP version, or not at all.
pub open spec fn points(filter: IpListenEndpoint) -> int {
    match filter.addr {
        None => 0,
        Some(a) => if blank(a) {
            1
        } else {
            2
        },
    }
}

/// How closely a socket fits a flow: by its two filters, and by one more if it is connected to
/// a port.
pub open spec fn fit(socket: UdpModel, flow: Flow) -> int {
    points(socket.local) + points(socket.remote) + if socket.remote.port != 0 {
        1int
    } else {
        0
    }
}

/// A datagram gets to the socket that fits best, and to the first of those that fit equally.
pub proof fn law_datagram_gets_to_the_best_fit(slots: UdpSlots, flow: Flow, i: int)
    requires
        !blank(flow.src),
        !blank(flow.dst),
        slab::occupied(slots, i),
        takes(slots[i]->0, flow),
    ensures
        demux::demux(slots, flow) is Some,
        ({
            let b = demux::demux(slots, flow)->0;
            &&& fit(slots[i]->0, flow) <= fit(slots[b]->0, flow)
            &&& i < b ==> fit(slots[i]->0, flow) < fit(slots[b]->0, flow)
        }),
{
    demux::law_demux_picks_most_specific(slots, flow, slots.len() as int);
    law_datagram_gets_to_a_socket_that_takes_it(slots, flow);
    let b = demux::demux(slots, flow)->0;
    lemma_fit(slots[i]->0, flow);
    lemma_fit(slots[b]->0, flow);
    assert(demux::slot_score(slots, flow, i) is Some);
    assert(demux::slot_score(slots, flow, b) is Some);
}

proof fn lemma_fit(socket: UdpModel, flow: Flow)
    requires
        !blank(flow.src),
        !blank(flow.dst),
        takes(socket, flow),
    ensures
        socket.score(flow.src, flow.src_port, flow.dst, flow.dst_port, flow.dst_is_bcast) == Some(fit(socket, flow)),
{
    lemma_takes(socket, flow);
    lemma_filter(socket.local, flow.dst);
    lemma_filter(socket.remote, flow.src);
    if let Some(a) = socket.local.addr {
        lemma_blank(a);
    }
    if let Some(a) = socket.remote.addr {
        lemma_blank(a);
    }
}

/// Binding a socket that is open is refused, and so is binding one between two IP versions.
pub proof fn law_bind_refusals(
    net: NetModel,
    slots: UdpSlots,
    index: int,
    local: IpListenEndpoint,
    remote: IpListenEndpoint,
)
    ensures
        slots[index]->0.local.port != 0 ==> socket::bind_outcome(net, slots, index, local, remote) == Err::<
            IpListenEndpoint,
            BindError,
        >(BindError::InvalidState),
        slots[index]->0.local.port == 0 && local.addr is Some && remote.addr is Some && local.addr->0 is Ipv4
            != remote.addr->0 is Ipv4 ==> socket::bind_outcome(net, slots, index, local, remote) == Err::<
            IpListenEndpoint,
            BindError,
        >(BindError::Unaddressable),
{
}

/// A closed socket is bound to the endpoint asked for, unless another one holds the same pair
/// of endpoints. Where a remote endpoint is named in full and no local address is, the local
/// one is the source address for it.
pub proof fn law_bind_to_port(
    net: NetModel,
    slots: UdpSlots,
    index: int,
    local: IpListenEndpoint,
    remote: IpListenEndpoint,
    bound: IpListenEndpoint,
)
    requires
        slots[index]->0.local.port == 0,
        local.port != 0,
        bound.port == local.port,
        local.addr is None || remote.addr is None || local.addr->0 is Ipv4 == remote.addr->0 is Ipv4,
        if remote.addr is Some && !blank(remote.addr->0) && remote.port != 0 && (local.addr is None || blank(
            local.addr->0,
        )) {
            bound.addr is Some && network::source_for(net, remote.addr->0) == bound.addr
        } else {
            bound.addr == local.addr
        },
    ensures
        socket::bind_outcome(net, slots, index, local, remote) == (if exists|i: int|
            {
                &&& i != index
                &&& slab::occupied(slots, i)
                &&& (#[trigger] slots[i])->0.local == bound
                &&& slots[i]->0.remote == remote
            } {
            Err(BindError::InUse)
        } else {
            Ok(bound)
        }),
{
    if let Some(a) = local.addr {
        lemma_blank(a);
    }
    if let Some(a) = remote.addr {
        lemma_blank(a);
    }
}

/// Whether another socket holds a pair of endpoints.
pub open spec fn holds_port(
    slots: UdpSlots,
    index: int,
    addr: Option<IpAddress>,
    port: u16,
    remote: IpListenEndpoint,
) -> bool {
    exists|i: int|
        {
            &&& i != index
            &&& slab::occupied(slots, i)
            &&& (#[trigger] slots[i])->0.local == (IpListenEndpoint { addr, port })
            &&& slots[i]->0.remote == remote
        }
}

/// A socket bound to no port in particular gets one from 49152 on that makes no other
/// socket's pair of endpoints, if there is any.
pub proof fn law_bind_to_any_port(
    net: NetModel,
    slots: UdpSlots,
    index: int,
    local: IpListenEndpoint,
    remote: IpListenEndpoint,
)
    requires
        slots[index]->0.local.port == 0,
        local.port == 0,
        local.addr is None || remote.addr is None || local.addr->0 is Ipv4 == remote.addr->0 is Ipv4,
        remote.port == 0,
    ensures
        match socket::bind_outcome(net, slots, index, local, remote) {
            Ok(bound) => {
                &&& bound.addr == local.addr
                &&& 49152 <= bound.port <= 65535
                &&& forall|i: int|
                    i != index && slab::occupied(slots, i) ==> !((#[trigger] slots[i])->0.local == bound
                        && slots[i]->0.remote == remote)
            },
            Err(error) => {
                &&& error == BindError::NoFreePorts
                &&& forall|port: u16| 49152 <= port ==> #[trigger] holds_port(slots, index, local.addr, port, remote)
            },
        },
{
    let seed = net.inner.rand.value();
    let taken = demux::port_taken(slots, index, local.addr, remote);
    ports::law_allocated_port_is_free(seed, taken, 0);
    if socket::bind_outcome(net, slots, index, local, remote) is Err {
        assert forall|port: u16| 49152 <= port implies #[trigger] holds_port(
            slots,
            index,
            local.addr,
            port,
            remote,
        ) by {
            ports::law_allocation_fails_only_when_full(seed, taken, port);
            assert(taken(port));
        }
    }
}

/// An error about a datagram is recorded on the socket that would take a datagram back, with
/// the endpoint that the datagram went to, and on no other.
pub proof fn law_error_is_recorded(slots: UdpSlots, error: IcmpError, local: IpEndpoint, remote: IpEndpoint)
    requires
        local.port != 0,
        !blank(local.addr),
        !blank(remote.addr),
    ensures
        ({
            let flow = Flow {
                src: remote.addr,
                src_port: remote.port,
                dst: local.addr,
                dst_port: local.port,
                dst_is_bcast: false,
            };
            let after = udp::ingress::error_delivered(slots, error, local, remote);
            &&& after.len() == slots.len()
            &&& forall|i: int|
                0 <= i < slots.len() ==> (#[trigger] after[i]) == slots[i] || {
                    &&& slots[i] is Some && after[i] is Some
                    &&& takes(slots[i]->0, flow)
                    &&& after[i]->0 == UdpModel { error: Some((error, remote)), ..slots[i]->0 }
                }
            &&& (exists|i: int| slab::occupied(slots, i) && takes((#[trigger] slots[i])->0, flow)) ==> exists|i: int|
                slab::occupied(after, i) && (#[trigger] after[i])->0.error == Some((error, remote)) && takes(
                    after[i]->0,
                    flow,
                )
        }),
{
    let flow = Flow {
        src: remote.addr,
        src_port: remote.port,
        dst: local.addr,
        dst_port: local.port,
        dst_is_bcast: false,
    };
    law_datagram_gets_to_a_socket_that_takes_it(slots, flow);
    let after = udp::ingress::error_delivered(slots, error, local, remote);
    if let Some(i) = demux::demux(slots, flow) {
        assert(after[i]->0.error == Some((error, remote)));
    }
}

/// What is sent to an endpoint alone goes there, from the address that the socket is bound to,
/// or else from the one for its destination.
pub proof fn law_datagram_to_endpoint(net: NetModel, sender: UdpModel, to: IpEndpoint, src: IpAddress)
    requires
        !blank(to.addr),
        to.port != 0,
        if sender.local.addr is Some && !blank(sender.local.addr->0) {
            sender.local.addr == Some(src)
        } else {
            network::source_for(net, to.addr) == Some(src)
        },
    ensures
        socket::destination(sender, UdpMetadata::to_endpoint(to)) == to,
        socket::send_source(net, sender, UdpMetadata::to_endpoint(to)) == Some(src),
{
    lemma_blank(to.addr);
    if let Some(a) = sender.local.addr {
        lemma_blank(a);
    }
}

/// Binding draws a random number if and only if a port has to be found for a socket that can
/// be bound.
pub proof fn law_bind_draws_a_number(
    net: NetModel,
    slots: UdpSlots,
    index: int,
    local: IpListenEndpoint,
    remote: IpListenEndpoint,
)
    ensures
        ({
            let after = socket::after_bind(net, slots[index]->0, local, remote);
            let outcome = socket::bind_outcome(net, slots, index, local, remote);
            &&& after.ifaces == net.ifaces
            &&& after.inner.cache == net.inner.cache
            &&& after.inner.routes == net.inner.routes
            &&& local.port != 0 || slots[index]->0.local.port != 0 ==> after == net
            &&& local.port == 0 && outcome is Ok ==> after.inner.rand == net.inner.rand.next()
        }),
{
}

} // verus!
