//! What becomes of a ping.

use vstd::prelude::*;

use crate::buf::PacketView;
use crate::iface::IfaceHandle;
use crate::stack::icmp_ingress;
use crate::stack::iface_state;
use crate::stack::ingress;
use crate::stack::network;
use crate::stack::state::StackModel;
use crate::wire::ethernet::EthernetAddress;
use crate::wire::icmpv4;
use crate::wire::icmpv6;
use crate::wire::ip::{IpAddress, Ipv4Address, Ipv6Address};
use crate::wire::ipv4;
use crate::wire::ipv6;
use crate::wire::protocol::IpProtocol;

verus! {

/// The ICMPv4 echo request with the given identifier, sequence number and data.
pub open spec fn echo_request_v4(rest: Seq<u8>) -> Seq<u8> {
    icmpv4::with_checksum(seq![8u8, 0u8, 0u8, 0u8] + rest)
}

/// The ICMPv6 echo request with the given identifier, sequence number and data.
pub open spec fn echo_request_v6(src: Seq<u8>, dst: Seq<u8>, rest: Seq<u8>) -> Seq<u8> {
    icmpv6::with_checksum(src, dst, seq![128u8, 0u8, 0u8, 0u8] + rest)
}

/// An IPv4 ping of one of an interface's addresses, from a single host, is answered: a
/// reply with the same identifier, sequence number and data goes from the address that
/// was pinged to the host that pinged it. No socket but a raw one notices.
pub proof fn law_ping_is_answered_v4(
    stack: StackModel,
    iface: IfaceHandle,
    eth_src: Option<EthernetAddress>,
    packet: PacketView,
    src: Ipv4Address,
    dst: Ipv4Address,
    hop_limit: u8,
    rest: Seq<u8>,
)
    requires
        4 <= rest.len() <= 0xffff - 24,
        packet.data == ipv4::header_octets(src.0@, dst.0@, IpProtocol::Icmp, hop_limit, rest.len() + 4, true)
            + echo_request_v4(rest),
        ({
            let addrs = stack.net.iface(iface).ip_addrs;
            &&& iface_state::is_unicast_v4(addrs, src)
            &&& iface_state::is_unicast_v4(addrs, dst)
            &&& iface_state::has_addr(addrs, IpAddress::Ipv4(dst))
        }),
    ensures
        ({
            let after = ingress::ipv4_processed(stack, iface, eth_src, packet);
            let reply = icmpv4::with_checksum(seq![0u8, 0u8, 0u8, 0u8] + rest);
            after == (StackModel {
                net: network::reply_sent(
                    ingress::ipv4_heard(stack.net, iface, eth_src, packet.data),
                    iface,
                    PacketView::fresh(34, reply),
                    IpAddress::Ipv4(dst),
                    IpAddress::Ipv4(src),
                    IpProtocol::Icmp,
                    64,
                ),
                raw: after.raw,
                ..stack
            })
        }),
{
    let request = echo_request_v4(rest);
    let unsummed = seq![8u8, 0u8, 0u8, 0u8] + rest;
    icmpv4::law_icmpv4_filled_checksum_verifies(unsummed);
    assert(request.len() == rest.len() + 4);
    assert(request[0] == 8 && request[1] == 0);
    assert(request.skip(4) =~= rest);
    let whole = packet.truncated(ipv4::total_len(packet.data));
    assert(whole.data == packet.data && whole.pulled(20).data == request && packet.data[9] == 1 && ipv4::header_len(
        packet.data,
    ) == 20 && ingress::src_v4(packet.data) == src && ingress::dst_v4(packet.data) == dst && ingress::ipv4_accepted(
        stack.net,
        iface,
        packet.data,
    )) by {
        ipv4::law_ipv4_header_round_trip(src.0@, dst.0@, IpProtocol::Icmp, hop_limit, request);
        ipv4::lemma_header_shape(src.0@, dst.0@, IpProtocol::Icmp, hop_limit, request.len(), true);
        src.lemma_of();
        dst.lemma_of();
        assert(whole.data =~= packet.data);
        assert(whole.pulled(20).data =~= request);
    }
    let heard = stack.with_net(ingress::ipv4_heard(stack.net, iface, eth_src, packet.data));
    assert(heard.net.iface(iface) == stack.net.iface(iface));
    let after = ingress::ipv4_processed(stack, iface, eth_src, packet);
    assert(after == ingress::ipv4_offered(heard, iface, whole));
    assert(after == icmp_ingress::icmpv4_processed(
        StackModel { raw: after.raw, ..heard },
        iface,
        src,
        dst,
        request,
    ));
}

/// An IPv6 ping of one of an interface's addresses, from a single host, is answered: a
/// reply with the same identifier, sequence number and data goes from the address that
/// was pinged to the host that pinged it. No socket but a raw one notices.
pub proof fn law_ping_is_answered_v6(
    stack: StackModel,
    iface: IfaceHandle,
    eth_src: Option<EthernetAddress>,
    packet: PacketView,
    src: Ipv6Address,
    dst: Ipv6Address,
    hop_limit: u8,
    rest: Seq<u8>,
)
    requires
        4 <= rest.len() <= 0xffff - 4,
        packet.data == ipv6::header_octets(src.0@, dst.0@, IpProtocol::Icmpv6, hop_limit, rest.len() + 4)
            + echo_request_v6(src.0@, dst.0@, rest),
        src.unicast_view(),
        dst.unicast_view(),
        iface_state::has_addr(stack.net.iface(iface).ip_addrs, IpAddress::Ipv6(dst)),
    ensures
        ({
            let after = ingress::ipv6_processed(stack, iface, eth_src, packet);
            let reply = icmpv6::with_checksum(dst.0@, src.0@, seq![129u8, 0u8, 0u8, 0u8] + rest);
            after == (StackModel {
                net: network::reply_sent(
                    ingress::ipv6_heard(stack.net, iface, eth_src, packet.data),
                    iface,
                    PacketView::fresh(54, reply),
                    IpAddress::Ipv6(dst),
                    IpAddress::Ipv6(src),
                    IpProtocol::Icmpv6,
                    64,
                ),
                raw: after.raw,
                ..stack
            })
        }),
{
    let request = echo_request_v6(src.0@, dst.0@, rest);
    let unsummed = seq![128u8, 0u8, 0u8, 0u8] + rest;
    icmpv6::law_icmpv6_filled_checksum_verifies(src.0@, dst.0@, unsummed);
    assert(request.len() == rest.len() + 4);
    assert(request[0] == 128);
    assert(request.skip(4) =~= rest);
    let whole = packet.truncated(40 + ipv6::payload_len(packet.data));
    assert(whole.data == packet.data && whole.pulled(40).data == request && packet.data[6] == 58
        && ingress::src_v6(packet.data) == src && ingress::dst_v6(packet.data) == dst && ingress::ipv6_accepted(
        stack.net,
        iface,
        packet.data,
    )) by {
        ipv6::law_ipv6_header_round_trip(src.0@, dst.0@, IpProtocol::Icmpv6, hop_limit, request);
        ipv6::lemma_header_shape(src.0@, dst.0@, IpProtocol::Icmpv6, hop_limit, request.len());
        src.lemma_of();
        dst.lemma_of();
        assert(whole.data =~= packet.data);
        assert(whole.pulled(40).data =~= request);
    }
    let heard = stack.with_net(ingress::ipv6_heard(stack.net, iface, eth_src, packet.data));
    assert(heard.net.iface(iface) == stack.net.iface(iface));
    let after = ingress::ipv6_processed(stack, iface, eth_src, packet);
    assert(after == ingress::ipv6_walked(heard, iface, eth_src is Some, whole));
    assert(after == ingress::ipv6_offered(heard, iface, eth_src is Some, whole, IpProtocol::Icmpv6, 40, 6));
    assert(icmpv6::Message::of_number(128) == icmpv6::Message::EchoRequest);
    assert(icmp_ingress::icmpv6_accepted(heard.net, iface, src, dst, request));
}

} // verus!
