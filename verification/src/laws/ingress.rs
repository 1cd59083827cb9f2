//! What comes in, and where it goes.

use vstd::prelude::*;

use crate::buf::PacketView;
use crate::iface::{IfaceHandle, Medium};
use crate::laws;
use crate::laws::address;
use crate::laws::control;
use crate::laws::packet;
use crate::laws::udp as datagrams;
use crate::raw;
use crate::raw::{RawKey, RawMode, RawSlots};
use crate::stack::icmp;
use crate::stack::icmp::HopByHopAction;
use crate::stack::icmp_ingress;
use crate::stack::iface_state;
use crate::stack::iface_state::IfaceAddr;
use crate::stack::ingress;
use crate::stack::link;
use crate::stack::network;
use crate::stack::network::NetModel;
use crate::stack::state::StackModel;
use crate::storage::slab;
use crate::udp;
use crate::udp::demux;
use crate::udp::demux::UdpSlots;
use crate::wire::bytes;
use crate::wire::ethernet::EthernetAddress;
use crate::wire::ip::{IpAddress, IpVersion, Ipv4Address, Ipv6Address};
use crate::wire::ipv4;
use crate::wire::protocol::{EthernetProtocol, IpProtocol};

verus! {

/// Whether an address stands for all hosts, or for all of an attached network.
pub open spec fn to_all(addrs: Seq<IfaceAddr>, addr: Ipv4Address) -> bool {
    ||| laws::number(addr.0@) == 0xffff_ffff
    ||| exists|i: int|
        0 <= i < addrs.len() && (#[trigger] addrs[i]).cidr is Ipv4 && addrs[i].cidr->Ipv4_0.prefix_len <= 30
            && address::holds(addrs[i].cidr, IpAddress::Ipv4(addr)) && forall|k: int|
            addrs[i].cidr->Ipv4_0.prefix_len <= k < 32 ==> #[trigger] laws::bit(addr.0@, k)
}

proof fn lemma_to_all(addrs: Seq<IfaceAddr>, addr: Ipv4Address)
    ensures
        iface_state::is_broadcast_v4(addrs, addr) == to_all(addrs, addr),
{
    address::law_ipv4_classes(addr);
    assert forall|i: int| 0 <= i < addrs.len() && (#[trigger] addrs[i]).cidr is Ipv4 implies (
    addrs[i].cidr->Ipv4_0.broadcast_view() == Some(addr.0@)) == (addrs[i].cidr->Ipv4_0.prefix_len <= 30
        && address::holds(addrs[i].cidr, IpAddress::Ipv4(addr)) && forall|k: int|
        addrs[i].cidr->Ipv4_0.prefix_len <= k < 32 ==> #[trigger] laws::bit(addr.0@, k)) by {
        address::law_broadcast_has_all_host_bits_set(addrs[i].cidr->Ipv4_0, addr);
    }
    if iface_state::is_broadcast_v4(addrs, addr) && laws::number(addr.0@) != 0xffff_ffff {
        let i = choose|i: int|
            0 <= i < addrs.len() && ((#[trigger] addrs[i]).cidr is Ipv4 && addrs[i].cidr->Ipv4_0.broadcast_view()
                == Some(addr.0@));
        assert(addrs[i].cidr is Ipv4);
    }
    if to_all(addrs, addr) && laws::number(addr.0@) != 0xffff_ffff {
        let i = choose|i: int|
            0 <= i < addrs.len() && (#[trigger] addrs[i]).cidr is Ipv4 && addrs[i].cidr->Ipv4_0.prefix_len <= 30
                && address::holds(addrs[i].cidr, IpAddress::Ipv4(addr)) && forall|k: int|
                addrs[i].cidr->Ipv4_0.prefix_len <= k < 32 ==> #[trigger] laws::bit(addr.0@, k);
        assert(addrs[i].cidr matches crate::wire::cidr::IpCidr::Ipv4(c) && c.broadcast_view() == Some(addr.0@));
    }
}

/// Whether one of the addresses of an interface has the given octets.
pub open spec fn own(addrs: Seq<IfaceAddr>, octets: Seq<u8>) -> bool {
    exists|i: int| 0 <= i < addrs.len() && (#[trigger] addrs[i]).cidr.address_view().octets_view() == octets
}

pub proof fn lemma_own(addrs: Seq<IfaceAddr>, addr: IpAddress)
    ensures
        iface_state::has_addr(addrs, addr) == own(addrs, addr.octets_view()),
{
    assert forall|i: int| 0 <= i < addrs.len() implies ((#[trigger] addrs[i]).cidr.address_view() == addr) == (
    addrs[i].cidr.address_view().octets_view() == addr.octets_view()) by {
        let a = addrs[i].cidr.address_view();
        match (a, addr) {
            (IpAddress::Ipv4(x), IpAddress::Ipv4(y)) => {
                if x.0@ == y.0@ {
                    assert(x.0 =~= y.0);
                }
            },
            (IpAddress::Ipv6(x), IpAddress::Ipv6(y)) => {
                if x.0@ == y.0@ {
                    assert(x.0 =~= y.0);
                }
            },
            (IpAddress::Ipv4(x), IpAddress::Ipv6(y)) => {
                assert(x.0@.len() != y.0@.len());
            },
            (IpAddress::Ipv6(x), IpAddress::Ipv4(y)) => {
                assert(x.0@.len() != y.0@.len());
            },
        }
    }
}

/// Whether octets are an IPv4 packet that an interface with these addresses takes: whole, not
/// in fragments, from a single host or from one that has no address yet, and to one of the
/// addresses, to all, or to the group of all systems.
pub open spec fn wanted_v4(addrs: Seq<IfaceAddr>, d: Seq<u8>) -> bool {
    let src = Ipv4Address::of(d.subrange(12, 16));
    let dst = Ipv4Address::of(d.subrange(16, 20));
    &&& d.len() >= 20
    &&& d[0] / 16 == 4
    &&& 20 <= d[0] % 16 * 4 <= packet::word(d, 2) <= d.len()
    &&& packet::word(d, 6) % 0x4000 == 0
    &&& control::lone(addrs, src) || laws::number(src.0@) == 0
    &&& own(addrs, dst.0@) || to_all(addrs, dst) || laws::number(dst.0@) == 0xe000_0001
}

/// An IPv4 packet whose header adds up, or need not, gets further if and only if it is wanted,
/// cut to the length that it gives.
pub proof fn law_wanted_packets_get_in_v4(
    stack: StackModel,
    iface: IfaceHandle,
    eth_src: Option<EthernetAddress>,
    p: PacketView,
)
    ensures
        ({
            let addrs = stack.net.iface(iface).ip_addrs;
            let d = p.data;
            let after = ingress::ipv4_processed(stack, iface, eth_src, p);
            &&& !wanted_v4(addrs, d) ==> after == stack
            &&& stack.net.iface(iface).caps.checksum.ipv4.rx_view() && !control::sound(d.take(d[0] % 16 * 4)) ==> after
                == stack
            &&& wanted_v4(addrs, d) && control::sound(d.take(d[0] % 16 * 4)) ==> after == ingress::ipv4_offered(
                stack.with_net(ingress::ipv4_heard(stack.net, iface, eth_src, d)),
                iface,
                p.truncated(packet::word(d, 2)),
            )
        }),
{
    let addrs = stack.net.iface(iface).ip_addrs;
    let d = p.data;
    let src = Ipv4Address::of(d.subrange(12, 16));
    let dst = Ipv4Address::of(d.subrange(16, 20));
    control::lemma_lone(addrs, src);
    lemma_to_all(addrs, dst);
    lemma_own(addrs, IpAddress::Ipv4(dst));
    address::law_ipv4_classes(src);
    packet::law_checksum_adds_up(d.take(d[0] % 16 * 4));
    laws::lemma_number_four(dst.0@);
    assert(dst.0@ == seq![224u8, 0u8, 0u8, 1u8] <==> laws::number(dst.0@) == 0xe000_0001) by {
        if laws::number(dst.0@) == 0xe000_0001 {
            assert(dst.0@ =~= seq![224u8, 0u8, 0u8, 1u8]);
        }
    }
    assert(ipv4::header_len(d) == d[0] % 16 * 4);
    assert(ipv4::total_len(d) == packet::word(d, 2));
    assert(bytes::be16(d, 6) == packet::word(d, 6));
    assert(wanted_v4(addrs, d) && control::sound(d.take(d[0] % 16 * 4)) ==> ingress::ipv4_accepted(
        stack.net,
        iface,
        d,
    ));
    assert(ingress::ipv4_accepted(stack.net, iface, d) ==> wanted_v4(addrs, d));
}

/// Whether octets are an IPv6 packet that an interface with these addresses takes.
pub open spec fn wanted_v6(addrs: Seq<IfaceAddr>, d: Seq<u8>) -> bool {
    let src = d.subrange(8, 24);
    let dst = d.subrange(24, 40);
    &&& d.len() >= 40
    &&& d[0] / 16 == 6
    &&& 40 + packet::word(d, 4) <= d.len()
    &&& laws::number(src) != 0
    &&& src[0] != 255
    &&& {
        ||| own(addrs, dst)
        ||| laws::number(dst) == 1
        ||| dst[0] == 255 && dst[1] == 2 && laws::number(dst.subrange(2, 16)) == 1
        ||| exists|i: int| 0 <= i < addrs.len() && stands_in(#[trigger] addrs[i], dst)
    }
}

/// Whether a group is the one that neighbors ask in for an address: ff02::1:ff00:0 and the
/// last three octets of the address.
pub open spec fn stands_in(addr: IfaceAddr, group: Seq<u8>) -> bool {
    let octets = addr.cidr.address_view().octets_view();
    &&& addr.cidr is Ipv6
    &&& laws::number(octets) != 1
    &&& group.len() == 16
    &&& group[0] == 0xff && group[1] == 2
    &&& forall|k: int| 2 <= k < 11 ==> #[trigger] group[k] == 0
    &&& group[11] == 1 && group[12] == 0xff
    &&& group[13] == octets[13] && group[14] == octets[14] && group[15] == octets[15]
}

pub proof fn lemma_stands_in(addrs: Seq<IfaceAddr>, group: Ipv6Address)
    ensures
        iface_state::has_solicited_node(addrs, group) == exists|i: int|
            0 <= i < addrs.len() && stands_in(#[trigger] addrs[i], group.0@),
{
    let g = group.0@;
    let prefix = Ipv6Address::solicited_node_prefix();
    if g.take(13) == prefix {
        assert forall|k: int| 0 <= k < 13 implies #[trigger] g[k] == prefix[k] by {
            assert(g.take(13)[k] == g[k]);
        }
    }
    assert forall|i: int| 0 <= i < addrs.len() implies stands_in(#[trigger] addrs[i], g) == (g.take(13) == prefix
        && addrs[i].cidr is Ipv6 && !addrs[i].cidr->Ipv6_0.address.loopback_view()
        && addrs[i].cidr->Ipv6_0.address.0@.skip(13) == g.skip(13)) by {
        if addrs[i].cidr is Ipv6 {
            let a = addrs[i].cidr->Ipv6_0.address;
            address::law_ipv6_classes(a);
            if a.0@.skip(13) == g.skip(13) {
                assert(a.0@.skip(13)[0] == g.skip(13)[0]);
                assert(a.0@.skip(13)[1] == g.skip(13)[1]);
                assert(a.0@.skip(13)[2] == g.skip(13)[2]);
            }
            if g[13] == a.0@[13] && g[14] == a.0@[14] && g[15] == a.0@[15] {
                assert(a.0@.skip(13) =~= g.skip(13));
            }
        }
        if stands_in(addrs[i], g) {
            assert(g.take(13) =~= prefix);
        }
    }
    if iface_state::has_solicited_node(addrs, group) {
        let i = choose|i: int|
            0 <= i < addrs.len() && ((#[trigger] addrs[i]).cidr is Ipv6
                && !addrs[i].cidr->Ipv6_0.address.loopback_view() && addrs[i].cidr->Ipv6_0.address.0@.skip(13)
                == g.skip(13));
        assert(stands_in(addrs[i], g));
    }
    if exists|i: int| 0 <= i < addrs.len() && stands_in(#[trigger] addrs[i], g) {
        let i = choose|i: int| 0 <= i < addrs.len() && stands_in(#[trigger] addrs[i], g);
        assert(addrs[i].cidr matches crate::wire::cidr::IpCidr::Ipv6(c) && !c.address.loopback_view()
            && c.address.0@.skip(13) == g.skip(13));
    }
}

proof fn lemma_all_nodes(a: Ipv6Address)
    ensures
        a.0@ == Ipv6Address::all_nodes_octets() <==> a.0@[0] == 255 && a.0@[1] == 2 && laws::number(
            a.0@.subrange(2, 16),
        ) == 1,
{
    let s = a.0@;
    let t = s.subrange(2, 16);
    let all = Ipv6Address::all_nodes_octets();
    laws::lemma_number_zero(t.drop_last());
    assert(laws::number(t) == 0x100 * laws::number(t.drop_last()) + t.last());
    if s == all {
        assert forall|k: int| 0 <= k < t.drop_last().len() implies #[trigger] t.drop_last()[k] == 0 by {
            assert(t.drop_last()[k] == s[k + 2]);
        }
    }
    if s[0] == 255 && s[1] == 2 && laws::number(t) == 1 {
        assert(laws::number(t.drop_last()) == 0);
        assert forall|k: int| 0 <= k < 16 implies #[trigger] s[k] == all[k] by {
            if 2 <= k < 15 {
                assert(t.drop_last()[k - 2] == s[k]);
            }
        }
        assert(s =~= all);
    }
}

/// An IPv6 packet gets further if and only if it is wanted, cut to the length that it gives.
pub proof fn law_wanted_packets_get_in_v6(
    stack: StackModel,
    iface: IfaceHandle,
    eth_src: Option<EthernetAddress>,
    p: PacketView,
)
    ensures
        ({
            let addrs = stack.net.iface(iface).ip_addrs;
            let d = p.data;
            let after = ingress::ipv6_processed(stack, iface, eth_src, p);
            if wanted_v6(addrs, d) {
                after == ingress::ipv6_walked(
                    stack.with_net(ingress::ipv6_heard(stack.net, iface, eth_src, d)),
                    iface,
                    eth_src is Some,
                    p.truncated(40 + packet::word(d, 4)),
                )
            } else {
                after == stack
            }
        }),
{
    let addrs = stack.net.iface(iface).ip_addrs;
    let d = p.data;
    if d.len() >= 40 {
        let src = Ipv6Address::of(d.subrange(8, 24));
        let dst = Ipv6Address::of(d.subrange(24, 40));
        assert(src.0@ =~= d.subrange(8, 24));
        assert(dst.0@ =~= d.subrange(24, 40));
        address::law_ipv6_classes(src);
        address::law_ipv6_classes(dst);
        lemma_own(addrs, IpAddress::Ipv6(dst));
        lemma_stands_in(addrs, dst);
        lemma_all_nodes(dst);
    }
}

/// A frame is taken if it is for the interface's own hardware address, for a group or for all.
/// The number in its header says what it holds: 0x0806 ARP, 0x0800 IPv4, 0x86dd IPv6.
pub proof fn law_frame_gets_in(stack: StackModel, iface: IfaceHandle, frame: PacketView)
    requires
        stack.net.iface(iface).caps.medium == Medium::Ethernet,
        frame.data.len() >= 14,
    ensures
        ({
            let d = frame.data;
            let kind = packet::word(d, 12);
            let after = ingress::frame_processed(stack, iface, frame);
            let sender = EthernetAddress::of(d.subrange(6, 12));
            if d.subrange(0, 6) == stack.net.iface(iface).ethernet_addr().0@ || d[0] % 2 == 1 {
                exists|ethertype: EthernetProtocol|
                    {
                        let seen = StackModel {
                            raw: #[trigger] raw::offered(stack.raw, RawKey::Ethernet { iface, ethertype }, frame),
                            ..stack
                        };
                        &&& ethertype.number() == kind
                        &&& if kind == 0x0806 {
                            after == seen.with_net(
                                stack.net.with_link_at(
                                    iface,
                                    link::arp_processed(stack.net.link_at(iface), d.skip(14)),
                                ),
                            )
                        } else if kind == 0x0800 {
                            after == ingress::ipv4_processed(seen, iface, Some(sender), frame.pulled(14))
                        } else if kind == 0x86dd {
                            after == ingress::ipv6_processed(seen, iface, Some(sender), frame.pulled(14))
                        } else {
                            after == seen
                        }
                    }
            } else {
                after == stack
            }
        }),
{
    let d = frame.data;
    let to = EthernetAddress::of(d.subrange(0, 6));
    let mine = stack.net.iface(iface).ethernet_addr();
    assert(to.0@ =~= d.subrange(0, 6));
    assert(to == mine <==> d.subrange(0, 6) == mine.0@) by {
        if to.0@ == mine.0@ {
            assert(to.0 =~= mine.0);
        }
    }
    assert(to.broadcast_view() ==> to.multicast_view()) by {
        if to.broadcast_view() {
            assert(to.0@[0] == 0xff);
        }
    }
    let ethertype = EthernetProtocol::of_number(bytes::be16(d, 12));
    let seen = raw::offered(stack.raw, RawKey::Ethernet { iface, ethertype }, frame);
    assert(ethertype.number() == packet::word(d, 12));
    assert(frame.pulled(14).data == d.skip(14));
}

/// On a link without frames, packets are told by their first four bits.
pub proof fn law_packet_gets_in(stack: StackModel, iface: IfaceHandle, p: PacketView)
    requires
        stack.net.iface(iface).caps.medium == Medium::Ip,
        p.data.len() > 0,
    ensures
        ingress::frame_processed(stack, iface, p) == if p.data[0] / 16 == 4 {
            ingress::ipv4_processed(stack, iface, None, p)
        } else if p.data[0] / 16 == 6 {
            ingress::ipv6_processed(stack, iface, None, p)
        } else {
            stack
        },
{
}

/// The number in an IPv4 packet's header says who gets what follows the header: 1 control
/// messages, 6 segments, 17 datagrams. A packet with another number is reported back, with the
/// message of kind 3 and code 2.
pub proof fn law_packet_is_handed_on_v4(
    stack: StackModel,
    iface: IfaceHandle,
    handled: bool,
    p: PacketView,
    src: Ipv4Address,
    dst: Ipv4Address,
)
    requires
        p.data.subrange(12, 16) == src.0@,
        p.data.subrange(16, 20) == dst.0@,
    ensures
        ({
            let d = p.data;
            let n = d[0] % 16 * 4;
            let addrs = stack.net.iface(iface).ip_addrs;
            let after = ingress::ipv4_dispatched(stack, iface, handled, p);
            if d[9] == 1 {
                after == icmp_ingress::icmpv4_processed(stack, iface, src, dst, d.skip(n))
            } else if d[9] == 6 {
                after == ingress::tcp_processed(stack, iface, IpAddress::Ipv4(src), IpAddress::Ipv4(dst), p.pulled(n))
            } else if d[9] == 17 {
                after == ingress::udp_processed(
                    stack,
                    iface,
                    IpAddress::Ipv4(src),
                    IpAddress::Ipv4(dst),
                    n,
                    handled,
                    p.pulled(n),
                )
            } else if control::lone(addrs, src) && control::lone(addrs, dst) {
                exists|r: PacketView|
                    {
                        &&& control::quotes(r.data, 3, 2, 0, d, 548)
                        &&& packet::words(r.data) % 0xffff == 0
                        &&& after == stack.with_net(
                            #[trigger] network::reply_sent(
                                stack.net,
                                iface,
                                r,
                                IpAddress::Ipv4(dst),
                                IpAddress::Ipv4(src),
                                IpProtocol::Icmp,
                                64,
                            ),
                        )
                    }
            } else {
                after == stack
            }
        }),
{
    let d = p.data;
    let a = Ipv4Address::of(d.subrange(12, 16));
    let b = Ipv4Address::of(d.subrange(16, 20));
    assert(a.0 =~= src.0);
    assert(b.0 =~= dst.0);
    control::law_error_goes_back_v4(stack.net, iface, d, src, dst, 3, 2);
    assert(stack.with_net(stack.net) == stack);
}

/// The same of an IPv6 packet, whose number 58 is for control messages. One with another
/// number is reported back, with the message of kind 4 and code 1, that points at the number.
pub proof fn law_packet_is_handed_on_v6(
    stack: StackModel,
    iface: IfaceHandle,
    on_ethernet: bool,
    handled: bool,
    p: PacketView,
    number: u8,
    at: int,
    pointer: u32,
    src: Ipv6Address,
    dst: Ipv6Address,
)
    requires
        p.data.subrange(8, 24) == src.0@,
        p.data.subrange(24, 40) == dst.0@,
    ensures
        ({
            let d = p.data;
            let after = ingress::ipv6_dispatched(
                stack,
                iface,
                on_ethernet,
                handled,
                p,
                IpProtocol::of_number(number),
                at,
                pointer,
            );
            if number == 58 {
                after == icmp_ingress::icmpv6_processed(stack, iface, on_ethernet, src, dst, d[7], d.skip(at))
            } else if number == 6 {
                after == ingress::tcp_processed(
                    stack,
                    iface,
                    IpAddress::Ipv6(src),
                    IpAddress::Ipv6(dst),
                    p.pulled(at),
                )
            } else if number == 17 {
                after == ingress::udp_processed(
                    stack,
                    iface,
                    IpAddress::Ipv6(src),
                    IpAddress::Ipv6(dst),
                    at,
                    handled,
                    p.pulled(at),
                )
            } else if address::single_host(IpAddress::Ipv6(src)) && address::single_host(IpAddress::Ipv6(dst)) {
                exists|r: PacketView|
                    {
                        &&& control::quotes(r.data, 4, 1, pointer + 0, d, 1232)
                        &&& packet::covered(dst.0@, src.0@, 58, r.data) % 0xffff == 0
                        &&& after == stack.with_net(
                            #[trigger] network::reply_sent(
                                stack.net,
                                iface,
                                r,
                                IpAddress::Ipv6(dst),
                                IpAddress::Ipv6(src),
                                IpProtocol::Icmpv6,
                                64,
                            ),
                        )
                    }
            } else {
                !address::single_host(IpAddress::Ipv6(src)) || dst.0@[0] == 255 ==> after == stack
            }
        }),
{
    let d = p.data;
    let a = Ipv6Address::of(d.subrange(8, 24));
    let b = Ipv6Address::of(d.subrange(24, 40));
    assert(a.0 =~= src.0);
    assert(b.0 =~= dst.0);
    control::law_error_goes_back_v6(stack.net, iface, d, src, dst, 4, 1, pointer, false);
    address::lemma_single_host(IpAddress::Ipv6(src));
    address::lemma_single_host(IpAddress::Ipv6(dst));
    address::law_ipv6_classes(dst);
    assert(stack.with_net(stack.net) == stack);
}

/// Whether a raw socket in a mode takes the IP packets of a version and a protocol.
pub open spec fn taps(mode: RawMode, version: IpVersion, number: u8) -> bool {
    match mode {
        RawMode::Ip { version: v, protocol: p } => {
            &&& v matches Some(v) ==> v == version
            &&& p matches Some(p) ==> p.number() == number
        },
        RawMode::Ethernet { .. } => false,
    }
}

/// Whether a raw socket in a mode takes the frames of an interface with a number in the header.
pub open spec fn taps_frames(mode: RawMode, iface: IfaceHandle, number: u16) -> bool {
    match mode {
        RawMode::Ip { .. } => false,
        RawMode::Ethernet { iface: i, ethertype: e } => {
            &&& i == iface
            &&& e matches Some(e) ==> e.number() == number
        },
    }
}

/// Whether a protocol is named by its number, not by a name that the number has besides.
pub open spec fn plain(mode: RawMode) -> bool {
    match mode {
        RawMode::Ip { protocol, .. } => protocol matches Some(p) ==> IpProtocol::of_number(p.number()) == p,
        RawMode::Ethernet { ethertype, .. } => ethertype matches Some(e) ==> EthernetProtocol::of_number(e.number())
            == e,
    }
}

/// A raw socket takes what its mode says; one without a mode takes nothing.
pub proof fn law_raw_socket_takes(
    mode: RawMode,
    rx: Seq<PacketView>,
    version: IpVersion,
    number: u8,
    iface: IfaceHandle,
    kind: u16,
)
    requires
        plain(mode),
    ensures
        ({
            let packets = RawKey::Ip { version, protocol: IpProtocol::of_number(number) };
            let other = RawKey::Ethernet { iface, ethertype: EthernetProtocol::of_number(kind) };
            let bound = raw::RawModel { mode: Some(mode), rx };
            let unbound = raw::RawModel { mode: None, rx };
            &&& bound.takes(packets) == taps(mode, version, number)
            &&& bound.takes(other) == taps_frames(mode, iface, kind)
            &&& !unbound.takes(packets)
            &&& !unbound.takes(other)
        }),
{
    assert(IpProtocol::of_number(number).number() == number);
    assert(EthernetProtocol::of_number(kind).number() == kind);
}

/// What raw sockets take gets to the first of them, behind what waits there, and to no other.
pub proof fn law_first_raw_socket_gets_it(slots: RawSlots, key: RawKey, p: PacketView, i: int)
    requires
        slab::occupied(slots, i),
        slots[i]->0.takes(key),
        forall|j: int| 0 <= j < i && slab::occupied(slots, j) ==> !(#[trigger] slots[j])->0.takes(key),
    ensures
        raw::taken(slots, key),
        ({
            let after = raw::offered(slots, key, p);
            &&& after.len() == slots.len()
            &&& after[i] is Some
            &&& after[i]->0.mode == slots[i]->0.mode
            &&& after[i]->0.rx == slots[i]->0.rx.push(p)
            &&& forall|j: int| 0 <= j < slots.len() && j != i ==> #[trigger] after[j] == slots[j]
        }),
{
    raw::law_packet_goes_to_first_taker(slots, key, 0);
    assert(raw::first_taker(slots, key, 0) is Some);
    let f = raw::first_taker(slots, key, 0)->0;
    assert(f == i);
}

/// A packet that no raw socket takes is handed on as it is. One that a raw socket takes is
/// handed on besides if its number is one of 1, 6 and 17 (of IPv6, 58, 6 and 17), and is not
/// otherwise.
pub proof fn law_raw_sockets_come_first(
    stack: StackModel,
    iface: IfaceHandle,
    on_ethernet: bool,
    p: PacketView,
    number: u8,
    at: int,
    pointer: u32,
)
    ensures
        ({
            let key = RawKey::Ip { version: IpVersion::Ipv4, protocol: IpProtocol::of_number(p.data[9]) };
            let taken = raw::taken(stack.raw, key);
            let seen = StackModel { raw: raw::offered(stack.raw, key, p), ..stack };
            let after = ingress::ipv4_offered(stack, iface, p);
            &&& !taken ==> after == ingress::ipv4_dispatched(stack, iface, false, p)
            &&& taken && (p.data[9] == 1 || p.data[9] == 6 || p.data[9] == 17) ==> after == ingress::ipv4_dispatched(
                seen,
                iface,
                true,
                p,
            )
            &&& taken && p.data[9] != 1 && p.data[9] != 6 && p.data[9] != 17 ==> after == seen
        }),
        ({
            let protocol = IpProtocol::of_number(number);
            let key = RawKey::Ip { version: IpVersion::Ipv6, protocol };
            let taken = raw::taken(stack.raw, key);
            let seen = StackModel { raw: raw::offered(stack.raw, key, p), ..stack };
            let after = ingress::ipv6_offered(stack, iface, on_ethernet, p, protocol, at, pointer);
            &&& !taken ==> after == ingress::ipv6_dispatched(
                stack,
                iface,
                on_ethernet,
                false,
                p,
                protocol,
                at,
                pointer,
            )
            &&& taken && (number == 58 || number == 6 || number == 17) ==> after == ingress::ipv6_dispatched(
                seen,
                iface,
                on_ethernet,
                true,
                p,
                protocol,
                at,
                pointer,
            )
            &&& taken && number != 58 && number != 6 && number != 17 ==> after == seen
        }),
{
    let key4 = RawKey::Ip { version: IpVersion::Ipv4, protocol: IpProtocol::of_number(p.data[9]) };
    let key6 = RawKey::Ip { version: IpVersion::Ipv6, protocol: IpProtocol::of_number(number) };
    assert(StackModel { raw: stack.raw, ..stack } == stack);
    assert(!raw::taken(stack.raw, key4) ==> raw::offered(stack.raw, key4, p) == stack.raw);
    assert(!raw::taken(stack.raw, key6) ==> raw::offered(stack.raw, key6, p) == stack.raw);
}

/// The options for every hop are looked at one after the other. Those of kinds 0, 1 and 5 are
/// known; of another one the top two bits of its kind say what is to be done: 0 passes over
/// it, 1 drops the packet, 2 reports it back, and 3 does too unless it went to a group.
pub proof fn law_hop_options_in_turn(s: Seq<u8>, at: int, done: HopByHopAction)
    requires
        0 <= at < s.len() <= 0xffff,
    ensures
        ({
            let outcome = icmp::options_outcome(s, at, done);
            let kind = s[at];
            let next = at + 2 + s[at + 1];
            if kind == 0 {
                outcome == icmp::options_outcome(s, at + 1, done)
            } else if at + 1 == s.len() || next > s.len() {
                outcome is None
            } else if kind < 64 {
                outcome == icmp::options_outcome(s, next, done)
            } else if kind < 128 {
                outcome == Some(HopByHopAction::Discard)
            } else {
                &&& outcome is Some
                &&& outcome->0 is DiscardSendError
                &&& outcome->0->pointer == 42 + at
                &&& outcome->0->allow_multicast_dst == (kind < 192)
            }
        }),
{
}

/// When no option is left, the packet goes on with what follows the header of the options,
/// which is told by the first octet of that header.
pub proof fn law_hop_options_done(s: Seq<u8>, at: int, done: HopByHopAction, payload: Seq<u8>)
    requires
        payload.len() >= 2,
    ensures
        at >= s.len() ==> icmp::options_outcome(s, at, done) == Some(done),
        (payload[1] + 1) * 8 > payload.len() ==> icmp::hop_by_hop_outcome(payload) is None,
        (payload[1] + 1) * 8 <= payload.len() ==> exists|done: HopByHopAction|
            {
                &&& done is Continue
                &&& done->next_header.number() == payload[0]
                &&& done->ext_len == (payload[1] + 1) * 8
                &&& icmp::hop_by_hop_outcome(payload) == #[trigger] icmp::options_outcome(
                    payload.subrange(2, (payload[1] + 1) * 8),
                    0,
                    done,
                )
            },
{
    if (payload[1] + 1) * 8 <= payload.len() {
        let n = lemma_small((payload[1] + 1) * 8);
        let done = HopByHopAction::Continue { next_header: IpProtocol::of_number(payload[0]), ext_len: n };
        assert(icmp::hop_by_hop_outcome(payload) == icmp::options_outcome(
            payload.subrange(2, (payload[1] + 1) * 8),
            0,
            done,
        ));
    }
}

proof fn lemma_small(n: int) -> (r: usize)
    requires
        0 <= n <= 0xffff,
    ensures
        r == n,
        r == n as usize,
{
    n as usize
}

/// A packet with options for every hop goes on behind them, with their verdict. One without
/// goes on behind its header, which holds the number of what follows in octet 6.
pub proof fn law_hop_options_come_first(stack: StackModel, iface: IfaceHandle, on_ethernet: bool, p: PacketView)
    ensures
        ({
            let d = p.data;
            let after = ingress::ipv6_walked(stack, iface, on_ethernet, p);
            let outcome = icmp::hop_by_hop_outcome(d.skip(40));
            &&& d[6] != 0 ==> after == ingress::ipv6_offered(
                stack,
                iface,
                on_ethernet,
                p,
                IpProtocol::of_number(d[6]),
                40,
                6,
            )
            &&& d[6] == 0 && (outcome is None || outcome == Some(HopByHopAction::Discard)) ==> after == stack
            &&& d[6] == 0 && outcome is Some && outcome->0 is Continue ==> after == ingress::ipv6_offered(
                stack,
                iface,
                on_ethernet,
                p,
                outcome->0->next_header,
                40 + outcome->0->ext_len,
                40,
            )
            &&& d[6] == 0 && outcome is Some && outcome->0 is DiscardSendError ==> after == stack.with_net(
                icmp::icmpv6_error_sent(
                    stack.net,
                    iface,
                    d,
                    crate::wire::icmpv6::Message::of_number(4),
                    2,
                    outcome->0->pointer,
                    outcome->0->allow_multicast_dst,
                ),
            )
        }),
{
}

/// Whether octets are a datagram that is looked at: whole, and for a port.
pub open spec fn datagram(d: Seq<u8>) -> bool {
    &&& d.len() >= 8
    &&& 8 <= packet::word(d, 4) <= d.len()
    &&& packet::word(d, 2) != 0
}

/// A datagram that is not whole, is for no port, or has a checksum that is to be verified and
/// does not add up, makes no difference.
pub proof fn law_bad_datagram_is_dropped(
    net: NetModel,
    slots: UdpSlots,
    iface: IfaceHandle,
    src: IpAddress,
    dst: IpAddress,
    header_len: int,
    handled: bool,
    p: PacketView,
)
    requires
        src is Ipv4 == dst is Ipv4,
        ({
            let d = p.data;
            ||| !datagram(d)
            ||| net.iface(iface).caps.checksum.udp.rx_view() && packet::word(d, 6) != 0 && packet::covered(
                src.octets_view(),
                dst.octets_view(),
                17,
                d.take(packet::word(d, 4)),
            ) % 0xffff != 0
        }),
    ensures
        udp::ingress::delivered(net, slots, iface, src, dst, header_len, p) == slots,
        udp::ingress::answered(net, slots, iface, src, dst, header_len, handled, p) == net,
{
    let d = p.data;
    if datagram(d) {
        packet::lemma_covered(src.octets_view(), dst.octets_view(), 17, d.take(packet::word(d, 4)));
    }
}

/// A datagram between single hosts that no socket takes, and that no raw socket took, is
/// reported back: with the message of kind 3 and code 3 that quotes the packet, header and
/// all. If a raw socket took it, it is not.
pub proof fn law_datagram_for_nobody_is_reported_v4(
    net: NetModel,
    slots: UdpSlots,
    iface: IfaceHandle,
    src: Ipv4Address,
    dst: Ipv4Address,
    n: int,
    handled: bool,
    p: PacketView,
)
    requires
        datagram(p.data),
        packet::word(p.data, 6) == 0 || packet::covered(
            src.0@,
            dst.0@,
            17,
            p.data.take(packet::word(p.data, 4)),
        ) % 0xffff == 0,
        20 <= n <= p.head.len(),
        p.head.skip(p.head.len() - n).subrange(12, 16) == src.0@,
        p.head.skip(p.head.len() - n).subrange(16, 20) == dst.0@,
        control::lone(net.iface(iface).ip_addrs, src),
        control::lone(net.iface(iface).ip_addrs, dst),
        forall|i: int|
            slab::occupied(slots, i) ==> !datagrams::takes(
                (#[trigger] slots[i])->0,
                udp::ingress::flow_of(net, iface, IpAddress::Ipv4(src), IpAddress::Ipv4(dst), p.data),
            ),
    ensures
        ({
            let from = IpAddress::Ipv4(src);
            let to = IpAddress::Ipv4(dst);
            let orig = p.head.skip(p.head.len() - n) + p.data.take(packet::word(p.data, 4));
            let after = udp::ingress::answered(net, slots, iface, from, to, n, handled, p);
            &&& udp::ingress::delivered(net, slots, iface, from, to, n, p) == slots
            &&& handled ==> after == net
            &&& !handled ==> exists|r: PacketView|
                {
                    &&& control::quotes(r.data, 3, 3, 0, orig, 548)
                    &&& packet::words(r.data) % 0xffff == 0
                    &&& after == #[trigger] network::reply_sent(net, iface, r, to, from, IpProtocol::Icmp, 64)
                }
        }),
{
    let from = IpAddress::Ipv4(src);
    let to = IpAddress::Ipv4(dst);
    let d = p.data;
    let flow = udp::ingress::flow_of(net, iface, from, to, d);
    let head = p.head.skip(p.head.len() - n);
    let orig = head + d.take(packet::word(d, 4));
    packet::lemma_covered(from.octets_view(), to.octets_view(), 17, d.take(packet::word(d, 4)));
    address::law_ipv4_classes(src);
    address::law_ipv4_classes(dst);
    datagrams::law_datagram_gets_to_a_socket_that_takes_it(slots, flow);
    assert(orig.subrange(12, 16) =~= head.subrange(12, 16));
    assert(orig.subrange(16, 20) =~= head.subrange(16, 20));
    assert(udp::ingress::queued(p, n).data =~= orig);
    control::law_error_goes_back_v4(net, iface, orig, src, dst, 3, 3);
}

/// The same of IPv6, with the message of kind 1 and code 4.
pub proof fn law_datagram_for_nobody_is_reported_v6(
    net: NetModel,
    slots: UdpSlots,
    iface: IfaceHandle,
    src: Ipv6Address,
    dst: Ipv6Address,
    n: int,
    handled: bool,
    p: PacketView,
)
    requires
        datagram(p.data),
        packet::word(p.data, 6) == 0 || packet::covered(
            src.0@,
            dst.0@,
            17,
            p.data.take(packet::word(p.data, 4)),
        ) % 0xffff == 0,
        40 <= n <= p.head.len(),
        p.head.skip(p.head.len() - n).subrange(8, 24) == src.0@,
        p.head.skip(p.head.len() - n).subrange(24, 40) == dst.0@,
        address::single_host(IpAddress::Ipv6(src)),
        address::single_host(IpAddress::Ipv6(dst)),
        forall|i: int|
            slab::occupied(slots, i) ==> !datagrams::takes(
                (#[trigger] slots[i])->0,
                udp::ingress::flow_of(net, iface, IpAddress::Ipv6(src), IpAddress::Ipv6(dst), p.data),
            ),
    ensures
        ({
            let from = IpAddress::Ipv6(src);
            let to = IpAddress::Ipv6(dst);
            let orig = p.head.skip(p.head.len() - n) + p.data.take(packet::word(p.data, 4));
            let after = udp::ingress::answered(net, slots, iface, from, to, n, handled, p);
            &&& udp::ingress::delivered(net, slots, iface, from, to, n, p) == slots
            &&& handled ==> after == net
            &&& !handled ==> exists|r: PacketView|
                {
                    &&& control::quotes(r.data, 1, 4, 0, orig, 1232)
                    &&& packet::covered(dst.0@, src.0@, 58, r.data) % 0xffff == 0
                    &&& after == #[trigger] network::reply_sent(net, iface, r, to, from, IpProtocol::Icmpv6, 64)
                }
        }),
{
    let from = IpAddress::Ipv6(src);
    let to = IpAddress::Ipv6(dst);
    let d = p.data;
    let flow = udp::ingress::flow_of(net, iface, from, to, d);
    let head = p.head.skip(p.head.len() - n);
    let orig = head + d.take(packet::word(d, 4));
    packet::lemma_covered(from.octets_view(), to.octets_view(), 17, d.take(packet::word(d, 4)));
    address::law_ipv6_classes(src);
    address::law_ipv6_classes(dst);
    datagrams::law_datagram_gets_to_a_socket_that_takes_it(slots, flow);
    assert(orig.subrange(8, 24) =~= head.subrange(8, 24));
    assert(orig.subrange(24, 40) =~= head.subrange(24, 40));
    assert(udp::ingress::queued(p, n).data =~= orig);
    control::law_error_goes_back_v6(net, iface, orig, src, dst, 1, 4, 0, false);
}

/// A datagram without a checksum, or with one that adds up, is queued at the socket that takes
/// it and at no other, with its IP header and cut to the length that it gives, behind those
/// that wait; nothing is answered.
pub proof fn law_datagram_is_queued(
    net: NetModel,
    slots: UdpSlots,
    iface: IfaceHandle,
    src: IpAddress,
    dst: IpAddress,
    n: int,
    handled: bool,
    p: PacketView,
    i: int,
)
    requires
        src is Ipv4 == dst is Ipv4,
        datagram(p.data),
        packet::word(p.data, 6) == 0 || packet::covered(
            src.octets_view(),
            dst.octets_view(),
            17,
            p.data.take(packet::word(p.data, 4)),
        ) % 0xffff == 0,
        0 <= i < slots.len(),
        demux::demux(slots, udp::ingress::flow_of(net, iface, src, dst, p.data)) == Some(i),
    ensures
        ({
            let after = udp::ingress::delivered(net, slots, iface, src, dst, n, p);
            &&& after.len() == slots.len()
            &&& after[i] is Some
            &&& after[i]->0.rx.len() == slots[i]->0.rx.len() + 1
            &&& after[i]->0.rx.drop_last() == slots[i]->0.rx
            &&& after[i]->0.rx.last().data == p.head.skip(p.head.len() - n) + p.data.take(packet::word(p.data, 4))
            &&& after[i]->0.rx.last().meta == p.meta
            &&& after[i]->0.local == slots[i]->0.local
            &&& after[i]->0.remote == slots[i]->0.remote
            &&& after[i]->0.error == slots[i]->0.error
            &&& forall|j: int| 0 <= j < slots.len() && j != i ==> #[trigger] after[j] == slots[j]
        }),
        udp::ingress::answered(net, slots, iface, src, dst, n, handled, p) == net,
        ({
            let flow = udp::ingress::flow_of(net, iface, src, dst, p.data);
            &&& flow.src == src
            &&& flow.dst == dst
            &&& flow.src_port == packet::word(p.data, 0)
            &&& flow.dst_port == packet::word(p.data, 2)
        }),
{
    packet::lemma_covered(src.octets_view(), dst.octets_view(), 17, p.data.take(packet::word(p.data, 4)));
    let after = udp::ingress::delivered(net, slots, iface, src, dst, n, p);
    assert(after[i]->0.rx.drop_last() =~= slots[i]->0.rx);
}

/// A packet in a frame to a single host keeps its sender known; one to a group or to all does
/// not, and nothing else is learned from it.
pub proof fn law_senders_stay_known(
    net: NetModel,
    iface: IfaceHandle,
    sender: EthernetAddress,
    d: Seq<u8>,
    e: Seq<u8>,
)
    ensures
        ({
            let after = ingress::ipv4_heard(net, iface, Some(sender), d);
            let src = IpAddress::Ipv4(Ipv4Address::of(d.subrange(12, 16)));
            let dst = Ipv4Address::of(d.subrange(16, 20));
            &&& after.ifaces == net.ifaces
            &&& after.inner.pending == net.inner.pending
            &&& after.inner.routes == net.inner.routes
            &&& after.inner.cache == if control::lone(net.iface(iface).ip_addrs, dst) {
                crate::neighbor::refreshed(net.inner.cache, (iface, src), sender, net.inner.now)
            } else {
                net.inner.cache
            }
        }),
        ({
            let after = ingress::ipv6_heard(net, iface, Some(sender), e);
            let src = IpAddress::Ipv6(Ipv6Address::of(e.subrange(8, 24)));
            let dst = IpAddress::Ipv6(Ipv6Address::of(e.subrange(24, 40)));
            &&& after.ifaces == net.ifaces
            &&& after.inner.pending == net.inner.pending
            &&& after.inner.routes == net.inner.routes
            &&& after.inner.cache == if address::single_host(dst) {
                crate::neighbor::refreshed(net.inner.cache, (iface, src), sender, net.inner.now)
            } else {
                net.inner.cache
            }
        }),
        ingress::ipv4_heard(net, iface, None, d) == net,
        ingress::ipv6_heard(net, iface, None, e) == net,
{
    control::lemma_lone(net.iface(iface).ip_addrs, Ipv4Address::of(d.subrange(16, 20)));
    address::lemma_single_host(IpAddress::Ipv6(Ipv6Address::of(e.subrange(24, 40))));
}

} // verus!
