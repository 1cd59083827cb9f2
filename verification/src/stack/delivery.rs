//! What becomes of a datagram between the socket that sends it and the one that gets it.

use vstd::prelude::*;

use crate::buf::PacketView;
use crate::icmp_error;
use crate::icmp_error::IcmpError;
use crate::iface::IfaceHandle;
use crate::stack::icmp;
use crate::stack::icmp_ingress;
use crate::stack::iface_state;
use crate::stack::iface_state::IfaceAddr;
use crate::stack::ingress;
use crate::stack::link;
use crate::stack::network;
use crate::stack::network::{EgressRoute, NetModel};
use crate::stack::state::StackModel;
use crate::udp::datagram;
use crate::udp::datagram::UdpMetadata;
use crate::udp::demux;
use crate::udp::demux::{Flow, UdpModel};
use crate::udp::socket;
use crate::wire::endpoint::IpEndpoint;
use crate::wire::ethernet::EthernetAddress;
use crate::wire::ip::{IpAddress, Ipv4Address, Ipv6Address};
use crate::wire::ipv4;
use crate::wire::ipv6;
use crate::wire::protocol::{EthernetProtocol, IpProtocol};
use crate::wire::udp;

verus! {

/// The hop limit a socket sends with.
pub open spec fn hop_limit_of(socket: UdpModel) -> u8 {
    match socket.hop_limit {
        Some(hop_limit) => hop_limit,
        None => 64,
    }
}

/// Whether an interface takes packets to an IPv4 address: one of its own, that of a group
/// it listens to, or a broadcast address.
pub open spec fn takes_v4(addrs: Seq<IfaceAddr>, dst: Ipv4Address) -> bool {
    iface_state::has_addr(addrs, IpAddress::Ipv4(dst)) || iface_state::has_multicast_group(addrs, IpAddress::Ipv4(dst))
        || iface_state::is_broadcast_v4(addrs, dst)
}

/// Whether an interface takes packets to an IPv6 address: one of its own, that of a group
/// it listens to, or the loopback address.
pub open spec fn takes_v6(addrs: Seq<IfaceAddr>, dst: Ipv6Address) -> bool {
    iface_state::has_addr(addrs, IpAddress::Ipv6(dst)) || iface_state::has_multicast_group(addrs, IpAddress::Ipv6(dst))
        || dst.loopback_view()
}

/// Whether all that a stack's sockets got is one datagram, last in the queue of the
/// socket in slot `i`: with the payload, the sender and the destination given.
pub open spec fn got(
    before: StackModel,
    after: StackModel,
    i: int,
    payload: Seq<u8>,
    from: IpEndpoint,
    to: IpAddress,
) -> bool {
    let packet = after.udp[i]->0.rx.last();
    &&& after.udp == crate::udp::ingress::enqueued(before.udp, i, packet)
    &&& datagram::datagram_ok(packet.data)
    &&& datagram::received_payload(packet.data) == payload
    &&& datagram::received_meta(packet).endpoint == from
    &&& datagram::received_meta(packet).local_address == Some(to)
}

/// A datagram that arrives in an IPv4 packet is queued on the socket its flow goes to.
proof fn lemma_datagram_arrives_v4(
    stack: StackModel,
    iface: IfaceHandle,
    eth_src: Option<EthernetAddress>,
    packet: PacketView,
    src: Ipv4Address,
    sport: u16,
    dst: Ipv4Address,
    dport: u16,
    hop_limit: u8,
    payload: Seq<u8>,
    i: int,
)
    requires
        payload.len() <= 0xffff - 28,
        packet.data == ipv4::header_octets(src.0@, dst.0@, IpProtocol::Udp, hop_limit, payload.len() + 8, true) + (
        udp::header_octets(src.0@, sport, dst.0@, dport, payload) + payload),
        dport != 0,
        ({
            let addrs = stack.net.iface(iface).ip_addrs;
            &&& iface_state::is_unicast_v4(addrs, src)
            &&& takes_v4(addrs, dst)
            &&& 0 <= i < stack.udp.len()
            &&& demux::demux(
                stack.udp,
                Flow {
                    src: IpAddress::Ipv4(src),
                    src_port: sport,
                    dst: IpAddress::Ipv4(dst),
                    dst_port: dport,
                    dst_is_bcast: iface_state::is_broadcast_v4(addrs, dst) || dst.multicast_view(),
                },
            ) == Some(i)
        }),
    ensures
        got(
            stack,
            ingress::ipv4_processed(stack, iface, eth_src, packet),
            i,
            payload,
            IpEndpoint { addr: IpAddress::Ipv4(src), port: sport },
            IpAddress::Ipv4(dst),
        ),
{
    let message = udp::header_octets(src.0@, sport, dst.0@, dport, payload) + payload;
    let header = ipv4::header_octets(src.0@, dst.0@, IpProtocol::Udp, hop_limit, message.len(), true);
    let whole = packet.truncated(ipv4::total_len(packet.data));
    let inner = whole.pulled(20);
    let last = crate::udp::ingress::queued(inner, 20);
    udp::law_udp_round_trip(src.0@, sport, dst.0@, dport, payload);
    assert(whole.data == packet.data && inner.data == message && last.data == packet.data && packet.data[9] == 17
        && ipv4::header_len(packet.data) == 20 && ingress::src_v4(packet.data) == src && ingress::dst_v4(packet.data)
        == dst && ingress::ipv4_accepted(stack.net, iface, packet.data)) by {
        ipv4::law_ipv4_header_round_trip(src.0@, dst.0@, IpProtocol::Udp, hop_limit, message);
        ipv4::lemma_header_shape(src.0@, dst.0@, IpProtocol::Udp, hop_limit, message.len(), true);
        src.lemma_of();
        dst.lemma_of();
        assert(whole.data =~= packet.data);
        assert(inner.data =~= message);
        assert(message.take(message.len() as int) =~= message);
        assert(last.data =~= packet.data);
    }
    datagram::law_ipv4_datagram_round_trip(src, sport, dst, dport, hop_limit, payload, message, last);
    let heard = stack.with_net(ingress::ipv4_heard(stack.net, iface, eth_src, packet.data));
    assert(heard.net.iface(iface).ip_addrs == stack.net.iface(iface).ip_addrs);
    assert(heard.net.iface(iface).caps == stack.net.iface(iface).caps);
    let after = ingress::ipv4_processed(stack, iface, eth_src, packet);
    assert(after == ingress::ipv4_offered(heard, iface, whole));
    assert(after.udp == crate::udp::ingress::delivered(
        heard.net,
        stack.udp,
        iface,
        IpAddress::Ipv4(src),
        IpAddress::Ipv4(dst),
        20,
        inner,
    ));
    assert(after.udp[i]->0.rx.last() == last);
}

/// A datagram that a socket sends over IPv4 goes out in one packet, and where that packet
/// arrives, the socket the datagram is for receives it: with the payload it was sent
/// with, from the address and port of the socket that sent it, and with the address it
/// was sent to. The one that sends fills in the checksums, and the one that receives
/// takes the sender for a single host.
pub proof fn law_sent_datagram_is_received_v4(
    net: NetModel,
    sender: UdpModel,
    meta: UdpMetadata,
    payload: Seq<u8>,
    route: EgressRoute,
    src: Ipv4Address,
    dst: Ipv4Address,
    stack: StackModel,
    iface: IfaceHandle,
    eth_src: Option<EthernetAddress>,
    packet: PacketView,
    i: int,
)
    requires
        socket::send_refusal(net, sender, meta, payload.len()) is None,
        socket::destination(sender, meta).addr == IpAddress::Ipv4(dst),
        socket::send_source(net, sender, meta) == Some(IpAddress::Ipv4(src)),
        network::route_of(net, IpAddress::Ipv4(dst)) == Some(route),
        net.iface(route.iface).caps.checksum.ipv4.tx_view(),
        net.iface(route.iface).caps.checksum.udp.tx_view(),
        packet.data == link::ipv4_packet(
            net.iface(route.iface),
            src.0@,
            dst.0@,
            IpProtocol::Udp,
            hop_limit_of(sender),
            socket::datagram_packet(
                sender,
                IpAddress::Ipv4(src),
                socket::destination(sender, meta),
                meta,
                payload,
            ),
        ).data,
        iface_state::is_unicast_v4(stack.net.iface(iface).ip_addrs, src),
        takes_v4(stack.net.iface(iface).ip_addrs, dst),
        0 <= i < stack.udp.len(),
        demux::demux(
            stack.udp,
            Flow {
                src: IpAddress::Ipv4(src),
                src_port: sender.local.port,
                dst: IpAddress::Ipv4(dst),
                dst_port: socket::destination(sender, meta).port,
                dst_is_bcast: iface_state::is_broadcast_v4(stack.net.iface(iface).ip_addrs, dst)
                    || dst.multicast_view(),
            },
        ) == Some(i),
    ensures
        socket::datagram_sent(net, sender, meta, payload) == net.with_link_at(
            route.iface,
            link::ip_frame_sent(
                net.link_at(route.iface),
                IpAddress::Ipv4(dst),
                route.next_hop,
                link::ipv4_packet(
                    net.iface(route.iface),
                    src.0@,
                    dst.0@,
                    IpProtocol::Udp,
                    hop_limit_of(sender),
                    socket::datagram_packet(
                        sender,
                        IpAddress::Ipv4(src),
                        socket::destination(sender, meta),
                        meta,
                        payload,
                    ),
                ),
                EthernetProtocol::Ipv4,
            ),
        ),
        got(
            stack,
            ingress::ipv4_processed(stack, iface, eth_src, packet),
            i,
            payload,
            IpEndpoint { addr: IpAddress::Ipv4(src), port: sender.local.port },
            IpAddress::Ipv4(dst),
        ),
{
    let to = socket::destination(sender, meta);
    let message = socket::datagram_packet(sender, IpAddress::Ipv4(src), to, meta, payload);
    udp::law_udp_round_trip(src.0@, sender.local.port, dst.0@, to.port, payload);
    assert(message.data.len() == payload.len() + 8);
    lemma_datagram_arrives_v4(
        stack,
        iface,
        eth_src,
        packet,
        src,
        sender.local.port,
        dst,
        to.port,
        hop_limit_of(sender),
        payload,
        i,
    );
}

/// A datagram that arrives in an IPv6 packet is queued on the socket its flow goes to.
proof fn lemma_datagram_arrives_v6(
    stack: StackModel,
    iface: IfaceHandle,
    eth_src: Option<EthernetAddress>,
    packet: PacketView,
    src: Ipv6Address,
    sport: u16,
    dst: Ipv6Address,
    dport: u16,
    hop_limit: u8,
    payload: Seq<u8>,
    i: int,
)
    requires
        payload.len() <= 0xffff - 8,
        packet.data == ipv6::header_octets(src.0@, dst.0@, IpProtocol::Udp, hop_limit, payload.len() + 8) + (
        udp::header_octets(src.0@, sport, dst.0@, dport, payload) + payload),
        dport != 0,
        ({
            let addrs = stack.net.iface(iface).ip_addrs;
            &&& src.unicast_view()
            &&& takes_v6(addrs, dst)
            &&& 0 <= i < stack.udp.len()
            &&& demux::demux(
                stack.udp,
                Flow {
                    src: IpAddress::Ipv6(src),
                    src_port: sport,
                    dst: IpAddress::Ipv6(dst),
                    dst_port: dport,
                    dst_is_bcast: dst.multicast_view(),
                },
            ) == Some(i)
        }),
    ensures
        got(
            stack,
            ingress::ipv6_processed(stack, iface, eth_src, packet),
            i,
            payload,
            IpEndpoint { addr: IpAddress::Ipv6(src), port: sport },
            IpAddress::Ipv6(dst),
        ),
{
    let message = udp::header_octets(src.0@, sport, dst.0@, dport, payload) + payload;
    let header = ipv6::header_octets(src.0@, dst.0@, IpProtocol::Udp, hop_limit, message.len());
    let whole = packet.truncated(40 + ipv6::payload_len(packet.data));
    let inner = whole.pulled(40);
    let last = crate::udp::ingress::queued(inner, 40);
    udp::law_udp_round_trip(src.0@, sport, dst.0@, dport, payload);
    assert(whole.data == packet.data && inner.data == message && last.data == packet.data && packet.data[6] == 17
        && ingress::src_v6(packet.data) == src && ingress::dst_v6(packet.data)
        == dst && ingress::ipv6_accepted(stack.net, iface, packet.data)) by {
        ipv6::law_ipv6_header_round_trip(src.0@, dst.0@, IpProtocol::Udp, hop_limit, message);
        ipv6::lemma_header_shape(src.0@, dst.0@, IpProtocol::Udp, hop_limit, message.len());
        src.lemma_of();
        dst.lemma_of();
        assert(whole.data =~= packet.data);
        assert(inner.data =~= message);
        assert(message.take(message.len() as int) =~= message);
        assert(last.data =~= packet.data);
    }
    datagram::law_ipv6_datagram_round_trip(src, sport, dst, dport, hop_limit, payload, message, last);
    let heard = stack.with_net(ingress::ipv6_heard(stack.net, iface, eth_src, packet.data));
    assert(heard.net.iface(iface).ip_addrs == stack.net.iface(iface).ip_addrs);
    assert(heard.net.iface(iface).caps == stack.net.iface(iface).caps);
    let after = ingress::ipv6_processed(stack, iface, eth_src, packet);
    assert(after == ingress::ipv6_walked(heard, iface, eth_src is Some, whole));
    assert(after == ingress::ipv6_offered(heard, iface, eth_src is Some, whole, IpProtocol::Udp, 40, 6));
    assert(after.udp == crate::udp::ingress::delivered(
        heard.net,
        stack.udp,
        iface,
        IpAddress::Ipv6(src),
        IpAddress::Ipv6(dst),
        40,
        inner,
    ));
    assert(after.udp[i]->0.rx.last() == last);
}

/// A datagram that a socket sends over IPv6 goes out in one packet, and where that packet
/// arrives, the socket the datagram is for receives it: with the payload it was sent
/// with, from the address and port of the socket that sent it, and with the address it
/// was sent to. The one that sends fills in the checksum.
pub proof fn law_sent_datagram_is_received_v6(
    net: NetModel,
    sender: UdpModel,
    meta: UdpMetadata,
    payload: Seq<u8>,
    route: EgressRoute,
    src: Ipv6Address,
    dst: Ipv6Address,
    stack: StackModel,
    iface: IfaceHandle,
    eth_src: Option<EthernetAddress>,
    packet: PacketView,
    i: int,
)
    requires
        socket::send_refusal(net, sender, meta, payload.len()) is None,
        socket::destination(sender, meta).addr == IpAddress::Ipv6(dst),
        socket::send_source(net, sender, meta) == Some(IpAddress::Ipv6(src)),
        network::route_of(net, IpAddress::Ipv6(dst)) == Some(route),
        net.iface(route.iface).caps.checksum.udp.tx_view(),
        packet.data == link::ipv6_packet(
            net.iface(route.iface),
            src.0@,
            dst.0@,
            IpProtocol::Udp,
            hop_limit_of(sender),
            socket::datagram_packet(
                sender,
                IpAddress::Ipv6(src),
                socket::destination(sender, meta),
                meta,
                payload,
            ),
        ).data,
        src.unicast_view(),
        takes_v6(stack.net.iface(iface).ip_addrs, dst),
        0 <= i < stack.udp.len(),
        demux::demux(
            stack.udp,
            Flow {
                src: IpAddress::Ipv6(src),
                src_port: sender.local.port,
                dst: IpAddress::Ipv6(dst),
                dst_port: socket::destination(sender, meta).port,
                dst_is_bcast: dst.multicast_view(),
            },
        ) == Some(i),
    ensures
        socket::datagram_sent(net, sender, meta, payload) == net.with_link_at(
            route.iface,
            link::ip_frame_sent(
                net.link_at(route.iface),
                IpAddress::Ipv6(dst),
                route.next_hop,
                link::ipv6_packet(
                    net.iface(route.iface),
                    src.0@,
                    dst.0@,
                    IpProtocol::Udp,
                    hop_limit_of(sender),
                    socket::datagram_packet(
                        sender,
                        IpAddress::Ipv6(src),
                        socket::destination(sender, meta),
                        meta,
                        payload,
                    ),
                ),
                EthernetProtocol::Ipv6,
            ),
        ),
        got(
            stack,
            ingress::ipv6_processed(stack, iface, eth_src, packet),
            i,
            payload,
            IpEndpoint { addr: IpAddress::Ipv6(src), port: sender.local.port },
            IpAddress::Ipv6(dst),
        ),
{
    let to = socket::destination(sender, meta);
    let message = socket::datagram_packet(sender, IpAddress::Ipv6(src), to, meta, payload);
    udp::law_udp_round_trip(src.0@, sender.local.port, dst.0@, to.port, payload);
    assert(message.data.len() == payload.len() + 8);
    lemma_datagram_arrives_v6(
        stack,
        iface,
        eth_src,
        packet,
        src,
        sender.local.port,
        dst,
        to.port,
        hop_limit_of(sender),
        payload,
        i,
    );
}

/// An ICMP error that quotes an IPv4 packet with a datagram in it is delivered to the
/// socket that the datagram's answers go to.
pub proof fn law_error_about_datagram_reaches_sender_v4(
    stack: StackModel,
    error: IcmpError,
    packet: Seq<u8>,
    src: Ipv4Address,
    sport: u16,
    dst: Ipv4Address,
    dport: u16,
    hop_limit: u8,
    payload: Seq<u8>,
)
    requires
        payload.len() <= 0xffff - 28,
        packet == ipv4::header_octets(src.0@, dst.0@, IpProtocol::Udp, hop_limit, payload.len() + 8, true) + (
        udp::header_octets(src.0@, sport, dst.0@, dport, payload) + payload),
    ensures
        icmp_ingress::error_delivered(stack, error, icmp::quote_v4(packet)) == (StackModel {
            udp: crate::udp::ingress::error_delivered(
                stack.udp,
                error,
                IpEndpoint { addr: IpAddress::Ipv4(src), port: sport },
                IpEndpoint { addr: IpAddress::Ipv4(dst), port: dport },
            ),
            ..stack
        }),
{
    let message = udp::header_octets(src.0@, sport, dst.0@, dport, payload) + payload;
    icmp::law_quote_identifies_flow(packet);
    udp::law_udp_round_trip(src.0@, sport, dst.0@, dport, payload);
    ipv4::law_ipv4_header_round_trip(src.0@, dst.0@, IpProtocol::Udp, hop_limit, message);
    ipv4::lemma_header_shape(src.0@, dst.0@, IpProtocol::Udp, hop_limit, message.len(), true);
    src.lemma_of();
    dst.lemma_of();
    let at: int = 20;
    assert(packet.len() == at + message.len());
    assert(packet[at] == message[0] && packet[at + 1] == message[1] && packet[at + 2] == message[2] && packet[at + 3]
        == message[3]);
    let flow = icmp_error::quoted_flow(packet);
    assert(flow is Some && flow->0.src_port == sport && flow->0.dst_port == dport);
}

/// An ICMP error that quotes an IPv6 packet with a datagram in it is delivered to the
/// socket that the datagram's answers go to.
pub proof fn law_error_about_datagram_reaches_sender_v6(
    stack: StackModel,
    error: IcmpError,
    packet: Seq<u8>,
    src: Ipv6Address,
    sport: u16,
    dst: Ipv6Address,
    dport: u16,
    hop_limit: u8,
    payload: Seq<u8>,
)
    requires
        payload.len() <= 0xffff - 8,
        packet == ipv6::header_octets(src.0@, dst.0@, IpProtocol::Udp, hop_limit, payload.len() + 8) + (
        udp::header_octets(src.0@, sport, dst.0@, dport, payload) + payload),
    ensures
        icmp_ingress::error_delivered(stack, error, icmp::quote_v6(packet)) == (StackModel {
            udp: crate::udp::ingress::error_delivered(
                stack.udp,
                error,
                IpEndpoint { addr: IpAddress::Ipv6(src), port: sport },
                IpEndpoint { addr: IpAddress::Ipv6(dst), port: dport },
            ),
            ..stack
        }),
{
    let message = udp::header_octets(src.0@, sport, dst.0@, dport, payload) + payload;
    icmp::law_quote_identifies_flow(packet);
    udp::law_udp_round_trip(src.0@, sport, dst.0@, dport, payload);
    ipv6::law_ipv6_header_round_trip(src.0@, dst.0@, IpProtocol::Udp, hop_limit, message);
    ipv6::lemma_header_shape(src.0@, dst.0@, IpProtocol::Udp, hop_limit, message.len());
    src.lemma_of();
    dst.lemma_of();
    let at: int = 40;
    assert(packet.len() == at + message.len());
    assert(packet[at] == message[0] && packet[at + 1] == message[1] && packet[at + 2] == message[2] && packet[at + 3]
        == message[3]);
    let flow = icmp_error::quoted_flow(packet);
    assert(flow is Some && flow->0.src_port == sport && flow->0.dst_port == dport);
}

} // verus!
