//! Packets that arrive: what is taken up, who is offered it, and which protocol
//! processes it.

use vstd::prelude::*;

use crate::buf;
use crate::buf::{PacketBuf, PacketView, PACKET_BUF_SIZE};
use crate::iface::{IfaceHandle, Medium};
use crate::raw;
use crate::raw::{process_raw_ethernet, process_raw_ip, RawKey};
use crate::stack::icmp;
use crate::stack::icmp::{process_hop_by_hop, HopByHopAction};
use crate::stack::icmp_ingress;
use crate::stack::iface_state;
use crate::stack::link;
use crate::stack::neighbors;
use crate::stack::network;
use crate::stack::network::NetModel;
use crate::stack::state;
use crate::stack::state::{Stack, StackModel};
use crate::tcp;
use crate::udp;
use crate::udp::datagram;
use crate::wire::bytes;
use crate::wire::ethernet::{EthernetAddress, EthernetHeader, ETHERNET_HEADER_LEN};
use crate::wire::icmpv4;
use crate::wire::icmpv6;
use crate::wire::ip::{IpAddress, IpVersion, Ipv4Address, Ipv6Address};
use crate::wire::ipv4;
use crate::wire::ipv4::{Ipv4Header, IPV4_HEADER_LEN};
use crate::wire::ipv6;
use crate::wire::ipv6::{Ipv6Header, IPV6_HEADER_LEN};
use crate::wire::protocol::{EthernetProtocol, IpProtocol};
use crate::wire::LINK_HEADER_LEN;

verus! {

/// The stack after a UDP datagram arrived.
pub open spec fn udp_processed(
    stack: StackModel,
    iface: IfaceHandle,
    src: IpAddress,
    dst: IpAddress,
    ip_header_len: int,
    handled_by_raw: bool,
    packet: PacketView,
) -> StackModel {
    StackModel {
        net: udp::ingress::answered(
            stack.net,
            stack.udp,
            iface,
            src,
            dst,
            ip_header_len,
            handled_by_raw,
            packet,
        ),
        udp: udp::ingress::delivered(stack.net, stack.udp, iface, src, dst, ip_header_len, packet),
        ..stack
    }
}

/// The stack after a TCP segment arrived.
pub open spec fn tcp_processed(
    stack: StackModel,
    iface: IfaceHandle,
    src: IpAddress,
    dst: IpAddress,
    packet: PacketView,
) -> StackModel {
    StackModel {
        net: tcp::ingress::answered(stack.net, stack.tcp, stack.listeners, iface, src, dst, packet.data),
        tcp: tcp::ingress::delivered(stack.net, stack.tcp, iface, src, dst, packet),
        listeners: tcp::ingress::listened(
            stack.net,
            stack.tcp,
            stack.listeners,
            iface,
            src,
            dst,
            packet.data,
        ),
        ..stack
    }
}

/// Whether the stack itself processes an IPv4 protocol.
pub open spec fn wants_v4(protocol: IpProtocol) -> bool {
    protocol == IpProtocol::Icmp || protocol == IpProtocol::Udp || protocol == IpProtocol::Tcp
}

/// Whether the stack itself processes an IPv6 protocol.
pub open spec fn wants_v6(protocol: IpProtocol) -> bool {
    protocol == IpProtocol::Icmpv6 || protocol == IpProtocol::Udp || protocol == IpProtocol::Tcp
}

/// The source address of an IPv4 packet.
pub open spec fn src_v4(data: Seq<u8>) -> Ipv4Address {
    Ipv4Address::of(ipv4::src_octets(data))
}

/// The destination address of an IPv4 packet.
pub open spec fn dst_v4(data: Seq<u8>) -> Ipv4Address {
    Ipv4Address::of(ipv4::dst_octets(data))
}

/// The source address of an IPv6 packet.
pub open spec fn src_v6(data: Seq<u8>) -> Ipv6Address {
    Ipv6Address::of(ipv6::src_octets(data))
}

/// The destination address of an IPv6 packet.
pub open spec fn dst_v6(data: Seq<u8>) -> Ipv6Address {
    Ipv6Address::of(ipv6::dst_octets(data))
}

/// Whether an IPv4 packet that arrived is taken up: it is there in full and not a
/// fragment, its checksum is right unless the device checked that, it is from a single
/// host or from nowhere, and it is for this interface.
pub open spec fn ipv4_accepted(net: NetModel, iface: IfaceHandle, data: Seq<u8>) -> bool {
    let addrs = net.iface(iface).ip_addrs;
    &&& ipv4::well_formed(data)
    &&& data[0] / 16 == 4
    &&& net.iface(iface).caps.checksum.ipv4.rx_view() ==> ipv4::checksum_ok(data)
    &&& !ipv4::is_fragment(data)
    &&& iface_state::is_unicast_v4(addrs, src_v4(data)) || src_v4(data).unspecified_view()
    &&& iface_state::has_addr(addrs, IpAddress::Ipv4(dst_v4(data))) || iface_state::has_multicast_group(
        addrs,
        IpAddress::Ipv4(dst_v4(data)),
    ) || iface_state::is_broadcast_v4(addrs, dst_v4(data))
}

/// Whether an IPv6 packet that arrived is taken up: it is there in full, it is from a
/// single host, and it is for this interface.
pub open spec fn ipv6_accepted(net: NetModel, iface: IfaceHandle, data: Seq<u8>) -> bool {
    let addrs = net.iface(iface).ip_addrs;
    &&& ipv6::well_formed(data)
    &&& data[0] / 16 == 6
    &&& src_v6(data).unicast_view()
    &&& iface_state::has_addr(addrs, IpAddress::Ipv6(dst_v6(data))) || iface_state::has_multicast_group(
        addrs,
        IpAddress::Ipv6(dst_v6(data)),
    ) || dst_v6(data).loopback_view()
}

/// The network side after an IPv4 packet was taken up. One to a single host shows that
/// its sender is still there.
pub open spec fn ipv4_heard(net: NetModel, iface: IfaceHandle, eth_src: Option<EthernetAddress>, data: Seq<u8>) -> NetModel {
    match eth_src {
        Some(hardware_addr) => if iface_state::is_unicast_v4(net.iface(iface).ip_addrs, dst_v4(data)) {
            neighbors::heard(net, iface, IpAddress::Ipv4(src_v4(data)), hardware_addr)
        } else {
            net
        },
        None => net,
    }
}

/// The network side after an IPv6 packet was taken up. One to a single host shows that
/// its sender is still there.
pub open spec fn ipv6_heard(net: NetModel, iface: IfaceHandle, eth_src: Option<EthernetAddress>, data: Seq<u8>) -> NetModel {
    match eth_src {
        Some(hardware_addr) => if dst_v6(data).unicast_view() {
            neighbors::heard(net, iface, IpAddress::Ipv6(src_v6(data)), hardware_addr)
        } else {
            net
        },
        None => net,
    }
}

/// The stack after the protocol an IPv4 packet names processed it. A protocol the stack
/// does not know is answered with an error.
pub open spec fn ipv4_dispatched(
    stack: StackModel,
    iface: IfaceHandle,
    handled_by_raw: bool,
    whole: PacketView,
) -> StackModel {
    let src = src_v4(whole.data);
    let dst = dst_v4(whole.data);
    let header_len = ipv4::header_len(whole.data);
    let inner = whole.pulled(header_len);
    match IpProtocol::of_number(whole.data[9]) {
        IpProtocol::Icmp => icmp_ingress::icmpv4_processed(stack, iface, src, dst, inner.data),
        IpProtocol::Udp => udp_processed(
            stack,
            iface,
            IpAddress::Ipv4(src),
            IpAddress::Ipv4(dst),
            header_len,
            handled_by_raw,
            inner,
        ),
        IpProtocol::Tcp => tcp_processed(stack, iface, IpAddress::Ipv4(src), IpAddress::Ipv4(dst), inner),
        _ => stack.with_net(
            icmp::icmpv4_error_sent(
                stack.net,
                iface,
                whole.data,
                icmpv4::Message::DstUnreachable,
                icmpv4::DstUnreachable::ProtoUnreachable.number(),
            ),
        ),
    }
}

/// The stack after an IPv4 packet was offered to the raw sockets and, unless one of them
/// took it, processed.
pub open spec fn ipv4_offered(stack: StackModel, iface: IfaceHandle, whole: PacketView) -> StackModel {
    let protocol = IpProtocol::of_number(whole.data[9]);
    let key = RawKey::Ip { version: IpVersion::Ipv4, protocol };
    let after = StackModel { raw: raw::offered(stack.raw, key, whole), ..stack };
    if raw::taken(stack.raw, key) && !wants_v4(protocol) {
        after
    } else {
        ipv4_dispatched(after, iface, raw::taken(stack.raw, key), whole)
    }
}

/// The stack after an IPv4 packet arrived, in a frame from `eth_src` if on Ethernet.
pub open spec fn ipv4_processed(
    stack: StackModel,
    iface: IfaceHandle,
    eth_src: Option<EthernetAddress>,
    packet: PacketView,
) -> StackModel {
    if ipv4_accepted(stack.net, iface, packet.data) {
        ipv4_offered(
            stack.with_net(ipv4_heard(stack.net, iface, eth_src, packet.data)),
            iface,
            packet.truncated(ipv4::total_len(packet.data)),
        )
    } else {
        stack
    }
}

/// The stack after the protocol of an IPv6 packet processed it. `l4_offset` is where its
/// header starts, `nh_offset` where the field naming it stands. A protocol the stack does
/// not know is answered with an error that points at that field.
pub open spec fn ipv6_dispatched(
    stack: StackModel,
    iface: IfaceHandle,
    on_ethernet: bool,
    handled_by_raw: bool,
    whole: PacketView,
    protocol: IpProtocol,
    l4_offset: int,
    nh_offset: u32,
) -> StackModel {
    let src = src_v6(whole.data);
    let dst = dst_v6(whole.data);
    let inner = whole.pulled(l4_offset);
    match protocol {
        IpProtocol::Icmpv6 => icmp_ingress::icmpv6_processed(
            stack,
            iface,
            on_ethernet,
            src,
            dst,
            whole.data[7],
            inner.data,
        ),
        IpProtocol::Udp => udp_processed(
            stack,
            iface,
            IpAddress::Ipv6(src),
            IpAddress::Ipv6(dst),
            l4_offset,
            handled_by_raw,
            inner,
        ),
        IpProtocol::Tcp => tcp_processed(stack, iface, IpAddress::Ipv6(src), IpAddress::Ipv6(dst), inner),
        _ => stack.with_net(
            icmp::icmpv6_error_sent(
                stack.net,
                iface,
                whole.data,
                icmpv6::Message::ParamProblem,
                icmpv6::ParamProblem::UnrecognizedNxtHdr.number(),
                nh_offset,
                false,
            ),
        ),
    }
}

/// The stack after an IPv6 packet was offered to the raw sockets and, unless one of them
/// took it, processed.
pub open spec fn ipv6_offered(
    stack: StackModel,
    iface: IfaceHandle,
    on_ethernet: bool,
    whole: PacketView,
    protocol: IpProtocol,
    l4_offset: int,
    nh_offset: u32,
) -> StackModel {
    let key = RawKey::Ip { version: IpVersion::Ipv6, protocol };
    let after = StackModel { raw: raw::offered(stack.raw, key, whole), ..stack };
    if raw::taken(stack.raw, key) && !wants_v6(protocol) {
        after
    } else {
        ipv6_dispatched(
            after,
            iface,
            on_ethernet,
            raw::taken(stack.raw, key),
            whole,
            protocol,
            l4_offset,
            nh_offset,
        )
    }
}

/// The stack after the options an IPv6 packet starts with, if any, were acted on and the
/// rest of it processed.
pub open spec fn ipv6_walked(stack: StackModel, iface: IfaceHandle, on_ethernet: bool, whole: PacketView) -> StackModel {
    let protocol = IpProtocol::of_number(whole.data[6]);
    if protocol == IpProtocol::HopByHop {
        match icmp::hop_by_hop_outcome(whole.data.skip(40)) {
            Some(HopByHopAction::Continue { next_header, ext_len }) => ipv6_offered(
                stack,
                iface,
                on_ethernet,
                whole,
                next_header,
                IPV6_HEADER_LEN + ext_len,
                40,
            ),
            Some(HopByHopAction::Discard) => stack,
            Some(HopByHopAction::DiscardSendError { pointer, allow_multicast_dst }) => stack.with_net(
                icmp::icmpv6_error_sent(
                    stack.net,
                    iface,
                    whole.data,
                    icmpv6::Message::ParamProblem,
                    icmpv6::ParamProblem::UnrecognizedOption.number(),
                    pointer,
                    allow_multicast_dst,
                ),
            ),
            None => stack,
        }
    } else {
        ipv6_offered(stack, iface, on_ethernet, whole, protocol, 40, 6)
    }
}

/// The stack after an IPv6 packet arrived, in a frame from `eth_src` if on Ethernet.
pub open spec fn ipv6_processed(
    stack: StackModel,
    iface: IfaceHandle,
    eth_src: Option<EthernetAddress>,
    packet: PacketView,
) -> StackModel {
    if ipv6_accepted(stack.net, iface, packet.data) {
        ipv6_walked(
            stack.with_net(ipv6_heard(stack.net, iface, eth_src, packet.data)),
            iface,
            eth_src is Some,
            packet.truncated(IPV6_HEADER_LEN + ipv6::payload_len(packet.data)),
        )
    } else {
        stack
    }
}

/// The stack after a packet arrived on an interface without a link-layer header.
pub open spec fn ip_processed(stack: StackModel, iface: IfaceHandle, packet: PacketView) -> StackModel {
    if packet.data.len() == 0 {
        stack
    } else {
        match IpVersion::of_packet_view(packet.data) {
            Some(IpVersion::Ipv4) => ipv4_processed(stack, iface, None, packet),
            Some(IpVersion::Ipv6) => ipv6_processed(stack, iface, None, packet),
            None => stack,
        }
    }
}

/// Whether an Ethernet frame is for an interface: sent to its address, or to a group.
pub open spec fn frame_accepted(net: NetModel, iface: IfaceHandle, data: Seq<u8>) -> bool {
    let dst = EthernetAddress::of(data.subrange(0, 6));
    &&& data.len() >= ETHERNET_HEADER_LEN
    &&& dst.broadcast_view() || dst.multicast_view() || dst == net.iface(iface).ethernet_addr()
}

/// The stack after an Ethernet frame arrived.
pub open spec fn ethernet_processed(stack: StackModel, iface: IfaceHandle, frame: PacketView) -> StackModel {
    let eth_src = EthernetAddress::of(frame.data.subrange(6, 12));
    let ethertype = EthernetProtocol::of_number(bytes::be16(frame.data, 12));
    let key = RawKey::Ethernet { iface, ethertype };
    let after = StackModel { raw: raw::offered(stack.raw, key, frame), ..stack };
    let packet = frame.pulled(ETHERNET_HEADER_LEN as int);
    if !frame_accepted(stack.net, iface, frame.data) {
        stack
    } else {
        match ethertype {
            EthernetProtocol::Arp => after.with_net(
                after.net.with_link_at(iface, link::arp_processed(after.net.link_at(iface), packet.data)),
            ),
            EthernetProtocol::Ipv4 => ipv4_processed(after, iface, Some(eth_src), packet),
            EthernetProtocol::Ipv6 => ipv6_processed(after, iface, Some(eth_src), packet),
            _ => after,
        }
    }
}

/// The stack after a frame arrived on an interface.
pub open spec fn frame_processed(stack: StackModel, iface: IfaceHandle, frame: PacketView) -> StackModel {
    match stack.net.iface(iface).caps.medium {
        Medium::Ethernet => ethernet_processed(stack, iface, frame),
        Medium::Ip => ip_processed(stack, iface, frame),
        Medium::Ieee802154 => stack,
    }
}

/// An IPv4 packet that is not for an interface has no effect at all.
pub proof fn law_ipv4_packet_for_others_is_ignored(
    stack: StackModel,
    iface: IfaceHandle,
    eth_src: Option<EthernetAddress>,
    packet: PacketView,
)
    requires
        ({
            let addrs = stack.net.iface(iface).ip_addrs;
            let dst = dst_v4(packet.data);
            &&& !iface_state::has_addr(addrs, IpAddress::Ipv4(dst))
            &&& !iface_state::has_multicast_group(addrs, IpAddress::Ipv4(dst))
            &&& !iface_state::is_broadcast_v4(addrs, dst)
        }),
    ensures
        ipv4_processed(stack, iface, eth_src, packet) == stack,
{
}

/// An IPv6 packet that is not for an interface has no effect at all.
pub proof fn law_ipv6_packet_for_others_is_ignored(
    stack: StackModel,
    iface: IfaceHandle,
    eth_src: Option<EthernetAddress>,
    packet: PacketView,
)
    requires
        ({
            let addrs = stack.net.iface(iface).ip_addrs;
            let dst = dst_v6(packet.data);
            &&& !iface_state::has_addr(addrs, IpAddress::Ipv6(dst))
            &&& !iface_state::has_multicast_group(addrs, IpAddress::Ipv6(dst))
            &&& !dst.loopback_view()
        }),
    ensures
        ipv6_processed(stack, iface, eth_src, packet) == stack,
{
}

/// A frame sent to another host has no effect at all.
pub proof fn law_frame_for_others_is_ignored(stack: StackModel, iface: IfaceHandle, frame: PacketView)
    requires
        stack.net.iface(iface).caps.medium == Medium::Ethernet,
        ({
            let dst = EthernetAddress::of(frame.data.subrange(0, 6));
            &&& dst.unicast_view()
            &&& dst != stack.net.iface(iface).ethernet_addr()
        }),
    ensures
        frame_processed(stack, iface, frame) == stack,
{
}

/// Cutting off what is behind an IPv4 packet keeps its header.
proof fn lemma_ipv4_truncated(packet: PacketView)
    requires
        ipv4::well_formed(packet.data),
        data_version(packet.data) == 4,
    ensures
        ({
            let whole = packet.truncated(ipv4::total_len(packet.data));
            &&& src_v4(whole.data) == src_v4(packet.data)
            &&& dst_v4(whole.data) == dst_v4(packet.data)
            &&& whole.data[9] == packet.data[9]
            &&& ipv4::header_len(whole.data) == ipv4::header_len(packet.data)
            &&& whole.data.len() == ipv4::total_len(packet.data)
            &&& datagram::l4_offset(whole.data) == Some(ipv4::header_len(packet.data))
        }),
{
    let whole = packet.truncated(ipv4::total_len(packet.data));
    assert(ipv4::src_octets(whole.data) =~= ipv4::src_octets(packet.data));
    assert(ipv4::dst_octets(whole.data) =~= ipv4::dst_octets(packet.data));
}

/// The version field of an IP packet.
spec fn data_version(data: Seq<u8>) -> u8 {
    data[0] / 16
}

/// Cutting off what is behind an IPv6 packet keeps its header.
proof fn lemma_ipv6_truncated(packet: PacketView)
    requires
        ipv6::well_formed(packet.data),
    ensures
        ({
            let whole = packet.truncated(IPV6_HEADER_LEN + ipv6::payload_len(packet.data));
            &&& src_v6(whole.data) == src_v6(packet.data)
            &&& dst_v6(whole.data) == dst_v6(packet.data)
            &&& whole.data[0] == packet.data[0]
            &&& whole.data[6] == packet.data[6]
            &&& whole.data[7] == packet.data[7]
            &&& whole.data.len() == IPV6_HEADER_LEN + ipv6::payload_len(packet.data)
        }),
{
    let whole = packet.truncated(IPV6_HEADER_LEN + ipv6::payload_len(packet.data));
    assert(ipv6::src_octets(whole.data) =~= ipv6::src_octets(packet.data));
    assert(ipv6::dst_octets(whole.data) =~= ipv6::dst_octets(packet.data));
}

impl Stack {
    /// Process an ingress UDP packet.
    fn process_udp(
        &mut self,
        iface: IfaceHandle,
        src_addr: IpAddress,
        dst_addr: IpAddress,
        ip_header_len: usize,
        handled_by_raw: bool,
        buf: PacketBuf,
    )
        requires
            old(self).ready(),
            old(self)@.net.has_iface(iface),
            src_addr.version_view() == dst_addr.version_view(),
            buf.wf(),
            ip_header_len <= buf@.head.len(),
            ip_header_len >= (if dst_addr is Ipv4 {
                IPV4_HEADER_LEN
            } else {
                IPV6_HEADER_LEN
            }),
            datagram::l4_offset(buf@.pushed(ip_header_len as int).data) == Some(ip_header_len as int),
        ensures
            state::goes_on(*old(self), *final(self)),
            final(self)@ == udp_processed(
                old(self)@,
                iface,
                src_addr,
                dst_addr,
                ip_header_len as int,
                handled_by_raw,
                buf@,
            ),
    {
        udp::process_udp(
            &mut self.net,
            &mut self.sockets.udp,
            iface,
            src_addr,
            dst_addr,
            ip_header_len,
            handled_by_raw,
            buf,
        );
    }

    /// Process an ingress TCP segment.
    fn process_tcp(&mut self, iface: IfaceHandle, src_addr: IpAddress, dst_addr: IpAddress, buf: PacketBuf)
        requires
            old(self).ready(),
            old(self)@.net.has_iface(iface),
            src_addr.version_view() == dst_addr.version_view(),
            buf.wf(),
        ensures
            state::goes_on(*old(self), *final(self)),
            final(self)@ == tcp_processed(old(self)@, iface, src_addr, dst_addr, buf@),
    {
        tcp::process_tcp(
            &mut self.net,
            &mut self.sockets.tcp,
            &mut self.sockets.tcp_listeners,
            iface,
            src_addr,
            dst_addr,
            buf,
        );
    }

    /// Whether an IPv4 packet that arrived is taken up.
    fn accepts_ipv4(&self, iface: IfaceHandle, header: &Ipv4Header, data: &[u8]) -> (r: bool)
        requires
            self.ready(),
            self@.net.has_iface(iface),
            ipv4::well_formed(data@),
            header.describes(data@),
        ensures
            r == ipv4_accepted(self@.net, iface, data@),
    {
        proof {
            header.src_addr.lemma_of();
            header.dst_addr.lemma_of();
        }
        let state = self.net.iface_state(iface);
        if header.version != 4 {
            return false;
        }
        if state.caps.checksum.ipv4.rx() && !ipv4::verify_checksum(data) {
            return false;
        }
        // Fragmented packets are not supported yet.
        if header.fragment {
            return false;
        }
        // Discard packets with non-unicast source addresses but allow unspecified
        if !state.is_unicast_v4(header.src_addr) && !header.src_addr.is_unspecified() {
            return false;
        }
        // Ignore IP packets not directed at us, or broadcast, or any of the multicast groups.
        let dst = IpAddress::Ipv4(header.dst_addr);
        state.has_ip_addr(&dst) || state.has_multicast_group(&dst) || state.is_broadcast_v4(header.dst_addr)
    }

    /// Process an IPv4 packet. `eth_src` is the sender of the frame it came in, on
    /// Ethernet.
    pub fn process_ipv4(&mut self, iface: IfaceHandle, eth_src: Option<EthernetAddress>, mut buf: PacketBuf)
        requires
            old(self).ready(),
            old(self)@.net.has_iface(iface),
            buf.wf(),
            buf@.data.len() + LINK_HEADER_LEN <= PACKET_BUF_SIZE,
        ensures
            state::goes_on(*old(self), *final(self)),
            final(self)@ == ipv4_processed(old(self)@, iface, eth_src, buf@),
    {
        let ghost packet = buf@;
        proof {
            network::lemma_net_kept_refl(self@.net);
            buf.lemma_fits();
        }
        let data = buf.as_slice();
        let header = match Ipv4Header::parse(data) {
            Ok(header) => header,
            Err(_) => return,
        };
        let src_addr = header.src_addr;
        let dst_addr = header.dst_addr;
        proof {
            src_addr.lemma_of();
            dst_addr.lemma_of();
        }
        if !self.accepts_ipv4(iface, &header, data) {
            return;
        }
        if let Some(hardware_addr) = eth_src {
            if self.net.iface_state(iface).is_unicast_v4(dst_addr) {
                self.net.hear_from(iface, IpAddress::Ipv4(src_addr), hardware_addr);
            }
        }
        let ghost heard = *self;
        proof {
            lemma_ipv4_truncated(packet);
        }
        // Strip any trailing padding added by the link layer.
        buf.set_len(header.total_len);
        assert(buf@ =~= packet.truncated(ipv4::total_len(packet.data)));
        assert(heard@.net.has_iface(iface));
        self.offer_ipv4(iface, header.next_header, buf);
        proof {
            network::lemma_net_kept_trans(old(self)@.net, heard@.net, self@.net);
        }
    }

    /// Offer a whole IPv4 packet to IP-mode raw sockets, then process it. Protocols the
    /// stack itself processes are copied to the socket, everything else is consumed
    /// by it.
    fn offer_ipv4(&mut self, iface: IfaceHandle, next_header: IpProtocol, buf: PacketBuf)
        requires
            old(self).ready(),
            old(self)@.net.has_iface(iface),
            buf.wf(),
            buf@.data.len() + LINK_HEADER_LEN <= PACKET_BUF_SIZE,
            buf@.data.len() >= IPV4_HEADER_LEN,
            IPV4_HEADER_LEN <= ipv4::header_len(buf@.data) <= buf@.data.len(),
            datagram::l4_offset(buf@.data) == Some(ipv4::header_len(buf@.data)),
            next_header == IpProtocol::of_number(buf@.data[9]),
        ensures
            state::goes_on(*old(self), *final(self)),
            final(self)@ == ipv4_offered(old(self)@, iface, buf@),
    {
        proof {
            network::lemma_net_kept_refl(self@.net);
        }
        let stack_wants = next_header == IpProtocol::Icmp || next_header == IpProtocol::Udp || next_header
            == IpProtocol::Tcp;
        match process_raw_ip(&mut self.sockets.raw, IpVersion::Ipv4, next_header, stack_wants, buf) {
            Some((buf, handled_by_raw)) => {
                self.dispatch_ipv4(iface, next_header, handled_by_raw, buf);
            },
            None => {},
        }
    }

    /// Hand an IPv4 packet to the protocol it names.
    fn dispatch_ipv4(&mut self, iface: IfaceHandle, next_header: IpProtocol, handled_by_raw: bool, mut buf: PacketBuf)
        requires
            old(self).ready(),
            old(self)@.net.has_iface(iface),
            buf.wf(),
            buf@.data.len() + LINK_HEADER_LEN <= PACKET_BUF_SIZE,
            buf@.data.len() >= IPV4_HEADER_LEN,
            IPV4_HEADER_LEN <= ipv4::header_len(buf@.data) <= buf@.data.len(),
            datagram::l4_offset(buf@.data) == Some(ipv4::header_len(buf@.data)),
            next_header == IpProtocol::of_number(buf@.data[9]),
        ensures
            state::goes_on(*old(self), *final(self)),
            final(self)@ == ipv4_dispatched(old(self)@, iface, handled_by_raw, buf@),
    {
        let ghost whole = buf@;
        let header = Ipv4Header::read(buf.as_slice());
        let src_addr = header.src_addr;
        let dst_addr = header.dst_addr;
        let header_len: usize = header.header_len;
        proof {
            src_addr.lemma_of();
            dst_addr.lemma_of();
            buf::law_push_undoes_pull(whole, ipv4::header_len(whole.data));
        }
        // Strip the IP header.
        buf.pull_front(header_len);
        match next_header {
            IpProtocol::Icmp => {
                self.process_icmpv4(iface, src_addr, dst_addr, &buf);
            },
            IpProtocol::Udp => {
                self.process_udp(
                    iface,
                    IpAddress::Ipv4(src_addr),
                    IpAddress::Ipv4(dst_addr),
                    header_len,
                    handled_by_raw,
                    buf,
                );
            },
            IpProtocol::Tcp => {
                self.process_tcp(iface, IpAddress::Ipv4(src_addr), IpAddress::Ipv4(dst_addr), buf);
            },
            _ => {
                // ICMP protocol unreachable (RFC 792): restore the IP header so the
                // whole offending packet can be quoted.
                buf.push_front(header_len);
                self.net.transmit_icmpv4_error(
                    iface,
                    buf.as_slice(),
                    icmpv4::Message::DstUnreachable,
                    u8::from(icmpv4::DstUnreachable::ProtoUnreachable),
                );
            },
        }
    }

    /// Whether an IPv6 packet that arrived is taken up.
    fn accepts_ipv6(&self, iface: IfaceHandle, header: &Ipv6Header, data: &[u8]) -> (r: bool)
        requires
            self.ready(),
            self@.net.has_iface(iface),
            ipv6::well_formed(data@),
            header.describes(data@),
        ensures
            r == ipv6_accepted(self@.net, iface, data@),
    {
        proof {
            header.src_addr.lemma_of();
            header.dst_addr.lemma_of();
        }
        if header.version != 6 {
            return false;
        }
        // Discard packets with non-unicast source addresses.
        if !header.src_addr.is_unicast() {
            return false;
        }
        let state = self.net.iface_state(iface);
        let dst = IpAddress::Ipv6(header.dst_addr);
        state.has_ip_addr(&dst) || state.has_multicast_group(&dst) || header.dst_addr.is_loopback()
    }

    /// Process an IPv6 packet. `eth_src` is the sender of the frame it came in, on
    /// Ethernet.
    pub fn process_ipv6(&mut self, iface: IfaceHandle, eth_src: Option<EthernetAddress>, mut buf: PacketBuf)
        requires
            old(self).ready(),
            old(self)@.net.has_iface(iface),
            eth_src is Some ==> old(self)@.net.iface(iface).caps.medium == Medium::Ethernet,
            buf.wf(),
            buf@.data.len() + LINK_HEADER_LEN <= PACKET_BUF_SIZE,
        ensures
            state::goes_on(*old(self), *final(self)),
            final(self)@ == ipv6_processed(old(self)@, iface, eth_src, buf@),
    {
        let ghost packet = buf@;
        proof {
            network::lemma_net_kept_refl(self@.net);
            buf.lemma_fits();
        }
        let data = buf.as_slice();
        let header = match Ipv6Header::parse(data) {
            Ok(header) => header,
            Err(_) => return,
        };
        proof {
            header.src_addr.lemma_of();
            header.dst_addr.lemma_of();
        }
        if !self.accepts_ipv6(iface, &header, data) {
            return;
        }
        if let Some(hardware_addr) = eth_src {
            if header.dst_addr.is_unicast() {
                self.net.hear_from(iface, IpAddress::Ipv6(header.src_addr), hardware_addr);
            }
        }
        let ghost heard = *self;
        proof {
            lemma_ipv6_truncated(packet);
        }
        // Strip any trailing padding added by the link layer.
        buf.set_len(IPV6_HEADER_LEN + header.payload_len);
        assert(buf@ =~= packet.truncated(IPV6_HEADER_LEN + ipv6::payload_len(packet.data)));
        assert(heard@.net.has_iface(iface));
        assert(heard@.net.iface(iface).caps == old(self)@.net.iface(iface).caps);
        self.walk_ipv6(iface, eth_src.is_some(), header.next_header, buf);
        proof {
            network::lemma_net_kept_trans(old(self)@.net, heard@.net, self@.net);
        }
    }

    /// Walk the hop-by-hop options of an IPv6 packet (RFC 8200 §4.3), then continue at
    /// the upper-layer header behind the extension header.
    fn walk_ipv6(&mut self, iface: IfaceHandle, on_ethernet: bool, next_header: IpProtocol, buf: PacketBuf)
        requires
            old(self).ready(),
            old(self)@.net.has_iface(iface),
            on_ethernet ==> old(self)@.net.iface(iface).caps.medium == Medium::Ethernet,
            buf.wf(),
            buf@.data.len() + LINK_HEADER_LEN <= PACKET_BUF_SIZE,
            buf@.data.len() >= IPV6_HEADER_LEN,
            buf@.data[0] / 16 == 6,
            src_v6(buf@.data).unicast_view(),
            next_header == IpProtocol::of_number(buf@.data[6]),
        ensures
            state::goes_on(*old(self), *final(self)),
            final(self)@ == ipv6_walked(old(self)@, iface, on_ethernet, buf@),
    {
        proof {
            network::lemma_net_kept_refl(self@.net);
        }
        if next_header == IpProtocol::HopByHop {
            let data = buf.as_slice();
            let n: usize = data.len();
            let ext = &data[IPV6_HEADER_LEN..n];
            assert(ext@ =~= data@.skip(40));
            match process_hop_by_hop(ext) {
                Ok(HopByHopAction::Continue { next_header, ext_len }) => {
                    self.offer_ipv6(iface, on_ethernet, next_header, IPV6_HEADER_LEN + ext_len, 40, buf);
                },
                Ok(HopByHopAction::Discard) => {},
                Ok(HopByHopAction::DiscardSendError { pointer, allow_multicast_dst }) => {
                    self.net.transmit_icmpv6_error(
                        iface,
                        data,
                        icmpv6::Message::ParamProblem,
                        u8::from(icmpv6::ParamProblem::UnrecognizedOption),
                        pointer,
                        allow_multicast_dst,
                    );
                },
                Err(_) => {},
            }
        } else {
            // 6 is the offset of the fixed header's next header field.
            self.offer_ipv6(iface, on_ethernet, next_header, IPV6_HEADER_LEN, 6, buf);
        }
    }

    /// Offer a whole IPv6 packet to IP-mode raw sockets, then process it. Protocols the
    /// stack itself processes are copied to the socket, everything else is consumed
    /// by it.
    fn offer_ipv6(
        &mut self,
        iface: IfaceHandle,
        on_ethernet: bool,
        next_header: IpProtocol,
        l4_offset: usize,
        nh_offset: u32,
        buf: PacketBuf,
    )
        requires
            old(self).ready(),
            old(self)@.net.has_iface(iface),
            on_ethernet ==> old(self)@.net.iface(iface).caps.medium == Medium::Ethernet,
            buf.wf(),
            buf@.data.len() + LINK_HEADER_LEN <= PACKET_BUF_SIZE,
            IPV6_HEADER_LEN <= l4_offset <= buf@.data.len(),
            src_v6(buf@.data).unicast_view(),
            datagram::l4_offset(buf@.data) == Some(l4_offset as int),
        ensures
            state::goes_on(*old(self), *final(self)),
            final(self)@ == ipv6_offered(
                old(self)@,
                iface,
                on_ethernet,
                buf@,
                next_header,
                l4_offset as int,
                nh_offset,
            ),
    {
        proof {
            network::lemma_net_kept_refl(self@.net);
        }
        let stack_wants = wanted_v6(next_header);
        match process_raw_ip(&mut self.sockets.raw, IpVersion::Ipv6, next_header, stack_wants, buf) {
            Some((buf, handled_by_raw)) => {
                self.dispatch_ipv6(iface, on_ethernet, handled_by_raw, next_header, l4_offset, nh_offset, buf);
            },
            None => {},
        }
    }

    /// Hand an IPv6 packet to a protocol.
    fn dispatch_ipv6(
        &mut self,
        iface: IfaceHandle,
        on_ethernet: bool,
        handled_by_raw: bool,
        next_header: IpProtocol,
        l4_offset: usize,
        nh_offset: u32,
        mut buf: PacketBuf,
    )
        requires
            old(self).ready(),
            old(self)@.net.has_iface(iface),
            on_ethernet ==> old(self)@.net.iface(iface).caps.medium == Medium::Ethernet,
            buf.wf(),
            buf@.data.len() + LINK_HEADER_LEN <= PACKET_BUF_SIZE,
            IPV6_HEADER_LEN <= l4_offset <= buf@.data.len(),
            src_v6(buf@.data).unicast_view(),
            datagram::l4_offset(buf@.data) == Some(offset(l4_offset)),
        ensures
            state::goes_on(*old(self), *final(self)),
            final(self)@ == ipv6_dispatched(
                old(self)@,
                iface,
                on_ethernet,
                handled_by_raw,
                buf@,
                next_header,
                offset(l4_offset),
                nh_offset,
            ),
    {
        let ghost whole = buf@;
        let header = Ipv6Header::read(buf.as_slice());
        let src_addr = header.src_addr;
        let dst_addr = header.dst_addr;
        proof {
            src_addr.lemma_of();
            dst_addr.lemma_of();
            buf::law_push_undoes_pull(whole, offset(l4_offset));
        }
        // Strip the IP header (and any extension headers).
        buf.pull_front(l4_offset);
        match next_header {
            IpProtocol::Icmpv6 => {
                self.process_icmpv6(iface, on_ethernet, src_addr, dst_addr, header.hop_limit, &buf);
            },
            IpProtocol::Udp => {
                self.process_udp(
                    iface,
                    IpAddress::Ipv6(src_addr),
                    IpAddress::Ipv6(dst_addr),
                    l4_offset,
                    handled_by_raw,
                    buf,
                );
            },
            IpProtocol::Tcp => {
                self.process_tcp(iface, IpAddress::Ipv6(src_addr), IpAddress::Ipv6(dst_addr), buf);
            },
            _ => {
                // ICMPv6 parameter problem, unrecognized next header (RFC 4443
                // §3.4): restore the headers so the whole offending packet can be
                // quoted. The pointer names the next header field that held the
                // unrecognized value.
                buf.push_front(l4_offset);
                self.net.transmit_icmpv6_error(
                    iface,
                    buf.as_slice(),
                    icmpv6::Message::ParamProblem,
                    u8::from(icmpv6::ParamProblem::UnrecognizedNxtHdr),
                    nh_offset,
                    false,
                );
            },
        }
    }

    /// Process a packet that arrived without a link-layer header.
    pub fn process_ip(&mut self, iface: IfaceHandle, buf: PacketBuf)
        requires
            old(self).ready(),
            old(self)@.net.has_iface(iface),
            buf.wf(),
            buf@.data.len() + LINK_HEADER_LEN <= PACKET_BUF_SIZE,
        ensures
            state::goes_on(*old(self), *final(self)),
            final(self)@ == ip_processed(old(self)@, iface, buf@),
    {
        proof {
            network::lemma_net_kept_refl(self@.net);
        }
        if buf.is_empty() {
            return;
        }
        match IpVersion::of_packet(buf.as_slice()) {
            Ok(IpVersion::Ipv4) => self.process_ipv4(iface, None, buf),
            Ok(IpVersion::Ipv6) => self.process_ipv6(iface, None, buf),
            Err(_) => {},
        }
    }

    /// Process an Ethernet frame.
    pub fn process_ethernet(&mut self, iface: IfaceHandle, buf: PacketBuf)
        requires
            old(self).ready(),
            old(self)@.net.has_iface(iface),
            old(self)@.net.iface(iface).caps.medium == Medium::Ethernet,
            buf.wf(),
        ensures
            state::goes_on(*old(self), *final(self)),
            final(self)@ == ethernet_processed(old(self)@, iface, buf@),
    {
        let ghost frame = buf@;
        proof {
            network::lemma_net_kept_refl(self@.net);
            buf.lemma_fits();
        }
        let header = match EthernetHeader::parse(buf.as_slice()) {
            Ok(header) => header,
            Err(_) => return,
        };
        proof {
            header.dst_addr.lemma_of();
            header.src_addr.lemma_of();
        }
        // Ignore any packets not directed to our hardware address or any of the multicast groups.
        if !header.dst_addr.is_broadcast() && !header.dst_addr.is_multicast() && header.dst_addr
            != self.net.iface_state(iface).ethernet_addr() {
            return;
        }
        // Offer the whole frame to Ethernet-mode raw sockets. Ethertypes the stack
        // itself processes are copied to the socket, everything else is consumed
        // by it.
        let ethertype = header.ethertype;
        let stack_wants = ethertype == EthernetProtocol::Arp || ethertype == EthernetProtocol::Ipv4 || ethertype
            == EthernetProtocol::Ipv6;
        let mut buf = match process_raw_ethernet(&mut self.sockets.raw, iface, ethertype, stack_wants, buf) {
            Some(buf) => buf,
            None => return,
        };
        buf.pull_front(ETHERNET_HEADER_LEN);
        match ethertype {
            EthernetProtocol::Arp => self.net.process_arp(iface, &buf),
            EthernetProtocol::Ipv4 => self.process_ipv4(iface, Some(header.src_addr), buf),
            EthernetProtocol::Ipv6 => self.process_ipv6(iface, Some(header.src_addr), buf),
            // Drop all other traffic.
            _ => {},
        }
    }

    /// Process a frame received on an interface.
    pub fn process(&mut self, iface: IfaceHandle, buf: PacketBuf)
        requires
            old(self).ready(),
            old(self)@.net.has_iface(iface),
            buf.wf(),
            iface_state::rx_ok(old(self)@.net.iface(iface).caps.medium, buf@),
        ensures
            state::goes_on(*old(self), *final(self)),
            final(self)@ == frame_processed(old(self)@, iface, buf@),
    {
        proof {
            network::lemma_net_kept_refl(self@.net);
        }
        match self.net.iface_state(iface).medium() {
            Medium::Ethernet => self.process_ethernet(iface, buf),
            Medium::Ip => self.process_ip(iface, buf),
            Medium::Ieee802154 => {},
        }
    }
}

/// Whether the stack itself processes an IPv6 protocol.
fn wanted_v6(protocol: IpProtocol) -> (r: bool)
    ensures
        r == wants_v6(protocol),
{
    protocol == IpProtocol::Icmpv6 || protocol == IpProtocol::Udp || protocol == IpProtocol::Tcp
}

/// A position in a packet.
pub open spec fn offset(n: usize) -> int {
    n as int
}

} // verus!
