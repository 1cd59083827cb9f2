//! Datagrams and errors that arrive: which socket gets them, and what is answered
//! if none does.

use vstd::prelude::*;

use crate::buf::{PacketBuf, PacketView};
use crate::config::UDP_SOCKET_COUNT;
use crate::icmp_error::IcmpError;
use crate::iface::IfaceHandle;
use crate::stack::icmp;
use crate::stack::iface_state;
use crate::stack::network;
use crate::stack::network::{NetModel, Network};
use crate::storage::slab;
use crate::storage::slab::Slab;
use crate::udp::datagram;
use crate::udp::demux;
use crate::udp::demux::{Flow, UdpModel, UdpSlots};
use crate::udp::socket;
use crate::udp::socket::UdpSocketState;
use crate::wire::endpoint::IpEndpoint;
use crate::wire::icmpv4;
use crate::wire::icmpv6;
use crate::wire::ip::IpAddress;
use crate::wire::ipv4::IPV4_HEADER_LEN;
use crate::wire::ipv6::IPV6_HEADER_LEN;
use crate::wire::udp;
use crate::wire::udp::UdpHeader;

verus! {

/// Whether a datagram that arrived is taken up: it is there in full, its checksum is
/// right unless the device checked that, and it names a port.
pub open spec fn accepted(net: NetModel, iface: IfaceHandle, src: IpAddress, dst: IpAddress, data: Seq<u8>) -> bool {
    &&& udp::well_formed(data)
    &&& net.iface(iface).caps.checksum.udp.rx_view() ==> udp::checksum_ok(src.octets_view(), dst.octets_view(), data)
    &&& udp::dst_port(data) != 0
}

/// The flow of a datagram that arrived.
pub open spec fn flow_of(net: NetModel, iface: IfaceHandle, src: IpAddress, dst: IpAddress, data: Seq<u8>) -> Flow {
    Flow {
        src,
        src_port: udp::src_port(data),
        dst,
        dst_port: udp::dst_port(data),
        dst_is_bcast: iface_state::is_broadcast(net.iface(iface).ip_addrs, dst) || dst.multicast_view(),
    }
}

/// What is queued of a datagram: what is behind it is cut off, and the IP header is
/// put back in front.
pub open spec fn queued(packet: PacketView, ip_header_len: int) -> PacketView {
    packet.truncated(udp::udp_len(packet.data)).pushed(ip_header_len)
}

/// The sockets after a packet was queued on one of them.
pub open spec fn enqueued(slots: UdpSlots, i: int, packet: PacketView) -> UdpSlots {
    let socket = slots[i]->0;
    slots.update(i, Some(UdpModel { rx: socket.rx.push(packet), ..socket }))
}

/// The sockets after a datagram arrived.
pub open spec fn delivered(
    net: NetModel,
    slots: UdpSlots,
    iface: IfaceHandle,
    src: IpAddress,
    dst: IpAddress,
    ip_header_len: int,
    packet: PacketView,
) -> UdpSlots {
    if accepted(net, iface, src, dst, packet.data) {
        match demux::demux(slots, flow_of(net, iface, src, dst, packet.data)) {
            Some(i) => enqueued(slots, i, queued(packet, ip_header_len)),
            None => slots,
        }
    } else {
        slots
    }
}

/// The network side after a port unreachable error about a packet.
pub open spec fn port_unreachable_sent(net: NetModel, iface: IfaceHandle, dst: IpAddress, orig: Seq<u8>) -> NetModel {
    match dst {
        IpAddress::Ipv4(_) => icmp::icmpv4_error_sent(
            net,
            iface,
            orig,
            icmpv4::Message::DstUnreachable,
            icmpv4::DstUnreachable::PortUnreachable.number(),
        ),
        IpAddress::Ipv6(_) => icmp::icmpv6_error_sent(
            net,
            iface,
            orig,
            icmpv6::Message::DstUnreachable,
            icmpv6::DstUnreachable::PortUnreachable.number(),
            0,
            false,
        ),
    }
}

/// The network side after a datagram arrived: one that no socket takes, and no raw
/// socket got either, is answered with a port unreachable error.
pub open spec fn answered(
    net: NetModel,
    slots: UdpSlots,
    iface: IfaceHandle,
    src: IpAddress,
    dst: IpAddress,
    ip_header_len: int,
    handled_by_raw: bool,
    packet: PacketView,
) -> NetModel {
    if accepted(net, iface, src, dst, packet.data) && !handled_by_raw && demux::demux(
        slots,
        flow_of(net, iface, src, dst, packet.data),
    ) is None {
        port_unreachable_sent(net, iface, dst, queued(packet, ip_header_len).data)
    } else {
        net
    }
}

/// The sockets after an error about a datagram sent from `local` to `remote`: the
/// socket that would get the remote's datagrams is told.
pub open spec fn error_delivered(slots: UdpSlots, error: IcmpError, local: IpEndpoint, remote: IpEndpoint) -> UdpSlots {
    let flow = Flow {
        src: remote.addr,
        src_port: remote.port,
        dst: local.addr,
        dst_port: local.port,
        dst_is_bcast: false,
    };
    match demux::demux(slots, flow) {
        Some(i) => if local.port != 0 {
            slots.update(i, Some(UdpModel { error: Some((error, remote)), ..slots[i]->0 }))
        } else {
            slots
        },
        None => slots,
    }
}

/// A datagram that arrives for a socket is what the socket receives: its payload,
/// who sent it, and to which address.
pub proof fn law_delivered_datagram_is_received(packet: PacketView, ip_header_len: int)
    requires
        0 <= ip_header_len <= packet.head.len(),
        udp::well_formed(packet.data),
        datagram::l4_offset(packet.pushed(ip_header_len).data) == Some(ip_header_len),
    ensures
        datagram::datagram_ok(queued(packet, ip_header_len).data),
        datagram::received_payload(queued(packet, ip_header_len).data) == packet.data.subrange(
            udp::UDP_HEADER_LEN as int,
            udp::udp_len(packet.data),
        ),
        datagram::received_meta(queued(packet, ip_header_len)).endpoint.port == udp::src_port(packet.data),
        datagram::received_meta(queued(packet, ip_header_len)).endpoint.addr == datagram::packet_src(
            packet.pushed(ip_header_len).data,
        ),
        datagram::received_meta(queued(packet, ip_header_len)).local_address == Some(
            datagram::packet_dst(packet.pushed(ip_header_len).data),
        ),
        datagram::received_meta(queued(packet, ip_header_len)).meta == packet.meta,
{
    let whole = packet.pushed(ip_header_len).data;
    let cut = queued(packet, ip_header_len).data;
    assert(whole.skip(ip_header_len) =~= packet.data);
    assert(cut =~= whole.take(ip_header_len + udp::udp_len(packet.data)));
    datagram::lemma_truncated_datagram(whole, ip_header_len);
    assert(datagram::received_payload(whole) =~= packet.data.subrange(
        udp::UDP_HEADER_LEN as int,
        udp::udp_len(packet.data),
    ));
}

/// The socket a flow goes to.
fn find_socket(
    sockets: &Slab<UdpSocketState, UDP_SOCKET_COUNT>,
    src_addr: &IpAddress,
    src_port: u16,
    dst_addr: &IpAddress,
    dst_port: u16,
    dst_is_bcast: bool,
) -> (r: Option<usize>)
    ensures
        (match r {
            Some(i) => Some(i as int),
            None => None,
        }) == demux::demux(
            slab::views(sockets@),
            (Flow { src: *src_addr, src_port, dst: *dst_addr, dst_port, dst_is_bcast }),
        ),
        r matches Some(i) ==> slab::occupied(sockets@, i as int),
{
    let ghost slots = slab::views(sockets@);
    let ghost flow = Flow { src: *src_addr, src_port, dst: *dst_addr, dst_port, dst_is_bcast };
    // Linear scan, most specific match wins: every candidate whose specified tuple
    // parts all match is scored by how specific those parts are. Connected sockets
    // beat bound-only ones, exact addresses beat per-version wildcards beat
    // wildcards. Ties (only possible between sockets specific in *different* parts)
    // go to the earliest socket.
    let mut best: Option<(usize, u8)> = None;
    let mut i: usize = 0;
    while i < sockets.slot_count()
        invariant
            i <= sockets@.len(),
            slots == slab::views(sockets@),
            flow == (Flow { src: *src_addr, src_port, dst: *dst_addr, dst_port, dst_is_bcast }),
            match best {
                Some((b, score)) => {
                    &&& demux::best_socket(slots, flow, i as int) == Some(b as int)
                    &&& demux::slot_score(slots, flow, b as int) == Some(score as int)
                    &&& slab::occupied(sockets@, b as int)
                },
                None => demux::best_socket(slots, flow, i as int) is None,
            },
        decreases sockets@.len() - i,
    {
        if sockets.is_occupied(i) {
            let socket = sockets.get(i);
            assert(slots[i as int] == Some(socket@));
            if let Some(score) = socket.match_score(src_addr, src_port, dst_addr, dst_port, dst_is_bcast) {
                let better = match best {
                    Some((_, best_score)) => score > best_score,
                    None => true,
                };
                if better {
                    best = Some((i, score));
                }
            }
        } else {
            assert(slots[i as int] is None);
        }
        i += 1;
    }
    match best {
        Some((b, _)) => Some(b),
        None => None,
    }
}

/// Answer a packet with a port unreachable error.
fn transmit_port_unreachable(net: &mut Network, iface: IfaceHandle, dst_addr: &IpAddress, orig: &[u8])
    requires
        old(net).wf(),
        old(net)@.routes_attached(),
        old(net)@.has_iface(iface),
        orig@.len() >= (if dst_addr is Ipv4 {
            IPV4_HEADER_LEN
        } else {
            IPV6_HEADER_LEN
        }),
    ensures
        final(net).wf(),
        network::net_kept(old(net)@, final(net)@),
        final(net)@.routes_attached(),
        final(net)@ == port_unreachable_sent(old(net)@, iface, *dst_addr, orig@),
{
    match dst_addr {
        IpAddress::Ipv4(_) => {
            net.transmit_icmpv4_error(
                iface,
                orig,
                icmpv4::Message::DstUnreachable,
                u8::from(icmpv4::DstUnreachable::PortUnreachable),
            );
        },
        IpAddress::Ipv6(_) => {
            net.transmit_icmpv6_error(
                iface,
                orig,
                icmpv6::Message::DstUnreachable,
                u8::from(icmpv6::DstUnreachable::PortUnreachable),
                0,
                false,
            );
        },
    }
}

/// Queue a packet on the socket in slot `index`.
fn enqueue(sockets: &mut Slab<UdpSocketState, UDP_SOCKET_COUNT>, index: usize, buf: PacketBuf)
    requires
        old(sockets).wf(),
        socket::slots_ok(old(sockets)@),
        slab::occupied(old(sockets)@, index as int),
        buf.wf(),
        datagram::datagram_ok(buf@.data),
    ensures
        final(sockets).wf(),
        socket::slots_ok(final(sockets)@),
        slab::views(final(sockets)@) == enqueued(slab::views(old(sockets)@), index as int, buf@),
{
    let ghost slots = sockets@;
    assert(slots[index as int]->0.wf());
    let state = sockets.get_mut(index);
    state.rx_enqueue(buf);
    proof {
        socket::lemma_changed(slots, sockets@, index);
    }
}

/// Process an ingress UDP packet: validate it and queue it on the most specific
/// matching socket.
///
/// `buf` starts at the UDP header. `ip_header_len` is the length of the headers
/// in front of it, which are added back to the buffer before queueing, so that
/// `recv` can parse the addresses back out of them.
///
/// A datagram no socket takes is answered with an ICMP port unreachable error, unless
/// a raw socket got it.
pub fn process_udp(
    net: &mut Network,
    sockets: &mut Slab<UdpSocketState, UDP_SOCKET_COUNT>,
    iface: IfaceHandle,
    src_addr: IpAddress,
    dst_addr: IpAddress,
    ip_header_len: usize,
    handled_by_raw: bool,
    mut buf: PacketBuf,
)
    requires
        old(net).wf(),
        old(net)@.routes_attached(),
        old(net)@.has_iface(iface),
        old(sockets).wf(),
        socket::slots_ok(old(sockets)@),
        src_addr.version_view() == dst_addr.version_view(),
        buf.wf(),
        ip_header_len <= buf@.head.len(),
        ip_header_len >= (if dst_addr is Ipv4 {
            IPV4_HEADER_LEN
        } else {
            IPV6_HEADER_LEN
        }),
        datagram::l4_offset(buf@.pushed(ip_header_len as int).data) == Some(ip_header_len as int),
    ensures
        final(net).wf(),
        network::net_kept(old(net)@, final(net)@),
        final(net)@.routes_attached(),
        final(sockets).wf(),
        socket::slots_ok(final(sockets)@),
        final(net)@ == answered(
            old(net)@,
            slab::views(old(sockets)@),
            iface,
            src_addr,
            dst_addr,
            ip_header_len as int,
            handled_by_raw,
            buf@,
        ),
        slab::views(final(sockets)@) == delivered(
            old(net)@,
            slab::views(old(sockets)@),
            iface,
            src_addr,
            dst_addr,
            ip_header_len as int,
            buf@,
        ),
{
    proof {
        network::lemma_net_kept_refl(net@);
    }
    let ghost packet = buf@;
    let state = net.iface_state(iface);
    let data = buf.as_slice();
    let header = match UdpHeader::parse(data) {
        Ok(header) => header,
        Err(_) => return,
    };
    if state.caps.checksum.udp.rx() && !udp::verify_checksum(data, &src_addr, &dst_addr) {
        return;
    }
    if header.dst_port == 0 {
        return;
    }
    // Sockets bound to a specific address also accept broadcast/multicast traffic
    // on their port.
    let dst_is_bcast = state.is_broadcast(&dst_addr) || dst_addr.is_multicast();
    // Strip anything past the UDP length, and add the headers back: the queued
    // packet keeps its headers, and recv() parses the addresses back out of them.
    proof {
        buf.lemma_fits();
        law_delivered_datagram_is_received(packet, ip_header_len as int);
    }
    buf.set_len(header.len);
    assert(buf@ =~= packet.truncated(udp::udp_len(packet.data)));
    buf.push_front(ip_header_len);
    match find_socket(&*sockets, &src_addr, header.src_port, &dst_addr, header.dst_port, dst_is_bcast) {
        Some(index) => {
            enqueue(sockets, index, buf);
        },
        None => {
            if !handled_by_raw {
                transmit_port_unreachable(net, iface, &dst_addr, buf.as_slice());
            }
        },
    }
}

/// Tell the socket in slot `index` about an error.
fn report(sockets: &mut Slab<UdpSocketState, UDP_SOCKET_COUNT>, index: usize, error: IcmpError, remote: IpEndpoint)
    requires
        old(sockets).wf(),
        socket::slots_ok(old(sockets)@),
        socket::has_socket(old(sockets)@, index),
    ensures
        final(sockets).wf(),
        socket::slots_ok(final(sockets)@),
        slab::views(final(sockets)@) == socket::replaced(
            slab::views(old(sockets)@),
            index,
            UdpModel { error: Some((error, remote)), ..socket::socket_at(slab::views(old(sockets)@), index) },
        ),
{
    let ghost slots = sockets@;
    let state = sockets.get_mut(index);
    state.report_error(error, remote);
    proof {
        socket::lemma_changed(slots, sockets@, index);
    }
}

/// Deliver an ICMP error about a datagram sent from `local` to `remote` to the socket
/// that sent it.
///
/// The sockets are scored like for an ordinary datagram from the remote, the most
/// specific match wins.
pub fn process_icmp_error(
    sockets: &mut Slab<UdpSocketState, UDP_SOCKET_COUNT>,
    error: IcmpError,
    local: IpEndpoint,
    remote: IpEndpoint,
)
    requires
        old(sockets).wf(),
        socket::slots_ok(old(sockets)@),
    ensures
        final(sockets).wf(),
        socket::slots_ok(final(sockets)@),
        slab::views(final(sockets)@) == error_delivered(slab::views(old(sockets)@), error, local, remote),
{
    if local.port == 0 {
        return;
    }
    if let Some(index) = find_socket(&*sockets, &remote.addr, remote.port, &local.addr, local.port, false) {
        report(sockets, index, error, remote);
    }
}

} // verus!
