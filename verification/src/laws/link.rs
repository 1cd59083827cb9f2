//! Frames on an Ethernet link.

use vstd::prelude::*;

use crate::buf::PacketView;
use crate::iface::Medium;
use crate::laws;
use crate::laws::address;
use crate::neighbor;
use crate::neighbor::Answer;
use crate::stack::iface_state;
use crate::stack::iface_state::{Frame, IfaceAddr};
use crate::stack::link;
use crate::stack::link::LinkModel;
use crate::stack::source;
use crate::wire::bytes;
use crate::wire::ethernet::EthernetAddress;
use crate::wire::ip::{IpAddress, Ipv4Address};
use crate::wire::protocol::EthernetProtocol;

verus! {

/// Whether a frame is addressed to `to`, comes from `from`, and carries a packet of the
/// kind that the number `kind` stands for.
pub open spec fn carries(frame: Frame, to: Seq<u8>, from: Seq<u8>, kind: int, packet: Seq<u8>) -> bool {
    &&& frame.data.len() == 14 + packet.len()
    &&& frame.data.subrange(0, 6) == to
    &&& frame.data.subrange(6, 12) == from
    &&& frame.data[12] * 0x100 + frame.data[13] == kind
    &&& frame.data.subrange(14, frame.data.len() as int) == packet
}

/// The number that stands for the packets of an address's IP version.
pub open spec fn kind_of(addr: IpAddress) -> int {
    if addr is Ipv4 {
        0x0800
    } else {
        0x86dd
    }
}

pub proof fn lemma_framed(src: EthernetAddress, dst: Seq<u8>, ethertype: EthernetProtocol, packet: PacketView)
    requires
        dst.len() == 6,
    ensures
        carries(
            link::framed(src, dst, ethertype, packet),
            dst,
            src.0@,
            ethertype.number() as int,
            packet.data,
        ),
        link::framed(src, dst, ethertype, packet).meta == packet.meta,
{
    let data = link::framed(src, dst, ethertype, packet).data;
    let v = ethertype.number();
    assert(data.subrange(0, 6) =~= dst);
    assert(data.subrange(6, 12) =~= src.0@);
    assert(data.subrange(14, data.len() as int) =~= packet.data);
    assert(data[12] == bytes::octets16(v)[0] && data[13] == bytes::octets16(v)[1]);
}

/// Whether an address is that of a group, by the number that it spells.
pub open spec fn group(addr: IpAddress) -> bool {
    match addr {
        IpAddress::Ipv4(a) => 0xe000_0000 <= laws::number(a.0@) <= 0xefff_ffff,
        IpAddress::Ipv6(a) => a.0@[0] == 255,
    }
}

/// The hardware address of a group, as a number: 01:00:5e and the low 23 bits of an IPv4
/// group, 33:33 and the low 32 bits of an IPv6 group.
pub open spec fn group_mac(addr: IpAddress) -> int {
    match addr {
        IpAddress::Ipv4(a) => 0x0100_5e00_0000 + laws::number(a.0@) % 0x80_0000,
        IpAddress::Ipv6(a) => 0x3333_0000_0000 + laws::number(a.0@.subrange(12, 16)),
    }
}

/// The hardware address of a group, as a number.
pub proof fn law_group_mac(addr: IpAddress)
    ensures
        link::multicast_mac(addr).len() == 6,
        laws::number(link::multicast_mac(addr)) == group_mac(addr),
{
    let mac = link::multicast_mac(addr);
    laws::lemma_number_six(mac);
    match addr {
        IpAddress::Ipv4(a) => {
            laws::lemma_number_four(a.0@);
            let n = laws::number(a.0@);
            let high = a.0@[0] * 2 + a.0@[1] / 128;
            let low = (a.0@[1] % 128) * 0x1_0000 + a.0@[2] * 0x100 + a.0@[3];
            assert(n == high * 0x80_0000 + low);
            assert(n % 0x80_0000 == low) by (nonlinear_arith)
                requires
                    n == high * 0x80_0000 + low,
                    0 <= low < 0x80_0000,
            ;
        },
        IpAddress::Ipv6(a) => {
            laws::lemma_number_four(a.0@.subrange(12, 16));
        },
    }
}

proof fn lemma_top_bits(x: u8)
    by (bit_vector)
    ensures
        224u8 <= x && x <= 239u8 <==> {
            &&& (x >> 7u8) & 1u8 == 1u8
            &&& (x >> 6u8) & 1u8 == 1u8
            &&& (x >> 5u8) & 1u8 == 1u8
            &&& (x >> 4u8) & 1u8 != 1u8
        },
{
}

/// A group is no network's broadcast address.
pub proof fn lemma_group_is_no_broadcast(addrs: Seq<IfaceAddr>, addr: IpAddress)
    requires
        iface_state::addrs_ok(addrs),
        group(addr),
    ensures
        !iface_state::is_broadcast(addrs, addr),
{
    if let IpAddress::Ipv4(a) = addr {
        address::law_ipv4_classes(a);
        lemma_top_bits(a.0@[0]);
        if iface_state::is_broadcast_v4(addrs, a) {
            let i = choose|i: int|
                0 <= i < addrs.len() && ((#[trigger] addrs[i]).cidr is Ipv4
                    && addrs[i].cidr->Ipv4_0.broadcast_view() == Some(a.0@));
            let c = addrs[i].cidr->Ipv4_0;
            assert(addrs[i].wf());
            address::law_broadcast_has_all_host_bits_set(c, a);
            assert(!laws::bit(a.0@, 3));
            assert(c.prefix_len > 3);
            assert(laws::bit(c.address.0@, 0) == laws::bit(a.0@, 0));
            assert(laws::bit(c.address.0@, 1) == laws::bit(a.0@, 1));
            assert(laws::bit(c.address.0@, 2) == laws::bit(a.0@, 2));
            assert(laws::bit(c.address.0@, 3) == laws::bit(a.0@, 3));
            lemma_top_bits(c.address.0@[0]);
            assert(c.address.multicast_view());
        }
    }
}

/// A packet to a group leaves at once, in a frame to the group's hardware address.
pub proof fn law_group_frame(link: LinkModel, dst: IpAddress, next_hop: IpAddress, packet: PacketView)
    requires
        link.iface.wf(),
        link.iface.caps.medium == Medium::Ethernet,
        group(dst),
    ensures
        ({
            let after = link::ip_frame_sent(link, dst, next_hop, packet, link::ethertype_of(dst));
            let frame = after.iface.tx.last();
            &&& after.inner == link.inner
            &&& after.iface.tx == link.iface.tx.push(frame)
            &&& laws::number(frame.data.subrange(0, 6)) == group_mac(dst)
            &&& carries(
                frame,
                frame.data.subrange(0, 6),
                link.iface.ethernet_addr().0@,
                kind_of(dst),
                packet.data,
            )
            &&& frame.meta == packet.meta
        }),
{
    law_group_mac(dst);
    lemma_group_is_no_broadcast(link.iface.ip_addrs, dst);
    match dst {
        IpAddress::Ipv4(a) => address::law_ipv4_classes(a),
        IpAddress::Ipv6(a) => address::law_ipv6_classes(a),
    }
    lemma_framed(link.iface.ethernet_addr(), link::multicast_mac(dst), link::ethertype_of(dst), packet);
}

/// A packet to all hosts, or to all of an assigned address's network, leaves at once, in a
/// frame to all stations.
pub proof fn law_broadcast_frame(link: LinkModel, dst: Ipv4Address, next_hop: IpAddress, packet: PacketView, i: int)
    requires
        link.iface.caps.medium == Medium::Ethernet,
        laws::number(dst.0@) == 0xffff_ffff || {
            &&& 0 <= i < link.iface.ip_addrs.len()
            &&& link.iface.ip_addrs[i].cidr is Ipv4
            &&& link.iface.ip_addrs[i].cidr->Ipv4_0.prefix_len <= 30
            &&& address::holds(link.iface.ip_addrs[i].cidr, IpAddress::Ipv4(dst))
            &&& forall|k: int|
                link.iface.ip_addrs[i].cidr->Ipv4_0.prefix_len <= k < 32 ==> #[trigger] laws::bit(dst.0@, k)
        },
    ensures
        ({
            let to = IpAddress::Ipv4(dst);
            let after = link::ip_frame_sent(link, to, next_hop, packet, EthernetProtocol::Ipv4);
            let frame = after.iface.tx.last();
            &&& after.inner == link.inner
            &&& after.iface.tx == link.iface.tx.push(frame)
            &&& laws::number(frame.data.subrange(0, 6)) == 0xffff_ffff_ffff
            &&& carries(
                frame,
                frame.data.subrange(0, 6),
                link.iface.ethernet_addr().0@,
                0x0800,
                packet.data,
            )
        }),
{
    let all = EthernetAddress::broadcast_octets();
    laws::lemma_number_six(all);
    address::law_ipv4_classes(dst);
    if laws::number(dst.0@) != 0xffff_ffff {
        address::law_broadcast_has_all_host_bits_set(link.iface.ip_addrs[i].cidr->Ipv4_0, dst);
        assert(link.iface.ip_addrs[i].cidr matches crate::wire::cidr::IpCidr::Ipv4(c) && c.broadcast_view()
            == Some(dst.0@));
    }
    assert(iface_state::is_broadcast_v4(link.iface.ip_addrs, dst));
    lemma_framed(link.iface.ethernet_addr(), all, EthernetProtocol::Ipv4, packet);
}

/// Whether a packet to the destination has to be handed to a neighbor: it goes neither to a
/// group nor to all.
pub open spec fn goes_to_neighbor(addrs: Seq<IfaceAddr>, dst: IpAddress) -> bool {
    &&& !group(dst)
    &&& dst matches IpAddress::Ipv4(a) ==> {
        &&& laws::number(a.0@) != 0xffff_ffff
        &&& forall|i: int|
            0 <= i < addrs.len() ==> !((#[trigger] addrs[i]).cidr is Ipv4 && addrs[i].cidr->Ipv4_0.prefix_len <= 30
                && address::holds(addrs[i].cidr, dst) && forall|k: int|
                addrs[i].cidr->Ipv4_0.prefix_len <= k < 32 ==> #[trigger] laws::bit(a.0@, k))
    }
}

pub proof fn lemma_goes_to_neighbor(addrs: Seq<IfaceAddr>, dst: IpAddress)
    requires
        goes_to_neighbor(addrs, dst),
    ensures
        !iface_state::is_broadcast(addrs, dst),
        !dst.multicast_view(),
{
    match dst {
        IpAddress::Ipv4(a) => {
            address::law_ipv4_classes(a);
            if iface_state::is_broadcast_v4(addrs, a) {
                let i = choose|i: int|
                    0 <= i < addrs.len() && ((#[trigger] addrs[i]).cidr is Ipv4
                        && addrs[i].cidr->Ipv4_0.broadcast_view() == Some(a.0@));
                address::law_broadcast_has_all_host_bits_set(addrs[i].cidr->Ipv4_0, a);
            }
        },
        IpAddress::Ipv6(a) => address::law_ipv6_classes(a),
    }
}

/// A packet that goes to a known neighbor leaves at once, in a frame to the hardware address
/// of the next hop, whatever its destination.
pub proof fn law_known_neighbor_frame(
    link: LinkModel,
    dst: IpAddress,
    next_hop: IpAddress,
    packet: PacketView,
    mac: EthernetAddress,
)
    requires
        link.iface.caps.medium == Medium::Ethernet,
        goes_to_neighbor(link.iface.ip_addrs, dst),
        neighbor::answer_of(link.inner.cache, (link.iface.handle, next_hop), link.inner.now) == Answer::Found(mac),
    ensures
        ({
            let after = link::ip_frame_sent(link, dst, next_hop, packet, link::ethertype_of(dst));
            let frame = after.iface.tx.last();
            &&& after.inner == link.inner
            &&& after.iface.tx == link.iface.tx.push(frame)
            &&& carries(frame, mac.0@, link.iface.ethernet_addr().0@, kind_of(dst), packet.data)
            &&& frame.meta == packet.meta
        }),
{
    lemma_goes_to_neighbor(link.iface.ip_addrs, dst);
    lemma_framed(link.iface.ethernet_addr(), mac.0@, link::ethertype_of(dst), packet);
}

/// Whether a frame is an ARP packet from an interface, about a hardware address `to` and
/// saying that `sender` is asking or answering for `target`.
pub open spec fn arp_says(
    frame: Frame,
    to: Seq<u8>,
    own: Seq<u8>,
    operation: int,
    sender: Seq<u8>,
    target_mac: Seq<u8>,
    target: Seq<u8>,
) -> bool {
    let d = frame.data;
    &&& d.len() == 42
    &&& d.subrange(0, 6) == to
    &&& d.subrange(6, 12) == own
    &&& d[12] == 0x08 && d[13] == 0x06
    &&& d[14] == 0 && d[15] == 1
    &&& d[16] == 0x08 && d[17] == 0
    &&& d[18] == 6 && d[19] == 4
    &&& d[20] * 0x100 + d[21] == operation
    &&& d.subrange(22, 28) == own
    &&& d.subrange(28, 32) == sender
    &&& d.subrange(32, 38) == target_mac
    &&& d.subrange(38, 42) == target
}

pub proof fn lemma_arp_says(
    own: EthernetAddress,
    to: Seq<u8>,
    operation: u16,
    sender: Seq<u8>,
    target_mac: Seq<u8>,
    target: Seq<u8>,
    packet: PacketView,
)
    requires
        to.len() == 6,
        sender.len() == 4,
        target_mac.len() == 6,
        target.len() == 4,
        packet.data == crate::wire::arp::packet_octets(operation, own.0@, sender, target_mac, target),
    ensures
        arp_says(
            link::framed(own, to, EthernetProtocol::Arp, packet),
            to,
            own.0@,
            operation as int,
            sender,
            target_mac,
            target,
        ),
{
    let f = link::framed(own, to, EthernetProtocol::Arp, packet);
    let d = f.data;
    let p = packet.data;
    lemma_framed(own, to, EthernetProtocol::Arp, packet);
    assert(EthernetProtocol::Arp.number() == 0x0806);
    assert(p.len() == 28);
    assert forall|i: int| 0 <= i < 28 implies #[trigger] d[14 + i] == p[i] by {
        assert(d.subrange(14, d.len() as int)[i] == d[14 + i]);
    }
    assert(d[14int + 0] == p[0] && d[14int + 1] == p[1] && d[14int + 2] == p[2] && d[14int + 3] == p[3]);
    assert(d[14int + 4] == p[4] && d[14int + 5] == p[5] && d[14int + 6] == p[6] && d[14int + 7] == p[7]);
    assert(p[6] == bytes::octets16(operation)[0] && p[7] == bytes::octets16(operation)[1]);
    assert(d.subrange(22, 28) =~= own.0@) by {
        assert forall|i: int| 0 <= i < 6 implies #[trigger] d.subrange(22, 28)[i] == own.0@[i] by {
            assert(d[14 + (8 + i)] == p[8 + i]);
        }
    }
    assert(d.subrange(28, 32) =~= sender) by {
        assert forall|i: int| 0 <= i < 4 implies #[trigger] d.subrange(28, 32)[i] == sender[i] by {
            assert(d[14 + (14 + i)] == p[14 + i]);
        }
    }
    assert(d.subrange(32, 38) =~= target_mac) by {
        assert forall|i: int| 0 <= i < 6 implies #[trigger] d.subrange(32, 38)[i] == target_mac[i] by {
            assert(d[14 + (18 + i)] == p[18 + i]);
        }
    }
    assert(d.subrange(38, 42) =~= target) by {
        assert forall|i: int| 0 <= i < 4 implies #[trigger] d.subrange(38, 42)[i] == target[i] by {
            assert(d[14 + (24 + i)] == p[24 + i]);
        }
    }
}

/// A packet that goes to a neighbor nobody has heard of waits, and all stations are asked,
/// once, for the hardware address of the next hop: not of the destination.
pub proof fn law_unknown_neighbor_is_asked_for(
    link: LinkModel,
    dst: IpAddress,
    next_hop: Ipv4Address,
    packet: PacketView,
    own: Ipv4Address,
)
    requires
        link.inner.wf(),
        link.iface.caps.medium == Medium::Ethernet,
        goes_to_neighbor(link.iface.ip_addrs, dst),
        neighbor::answer_of(
            link.inner.cache,
            (link.iface.handle, IpAddress::Ipv4(next_hop)),
            link.inner.now,
        ) == Answer::NotFound,
        source::source_addr(link.iface.ip_addrs, IpAddress::Ipv4(next_hop)) == Some(IpAddress::Ipv4(own)),
    ensures
        ({
            let key = (link.iface.handle, IpAddress::Ipv4(next_hop));
            let after = link::ip_frame_sent(link, dst, IpAddress::Ipv4(next_hop), packet, EthernetProtocol::Ipv4);
            let frame = after.iface.tx.last();
            &&& after.iface.tx == link.iface.tx.push(frame)
            &&& arp_says(
                frame,
                frame.data.subrange(0, 6),
                link.iface.ethernet_addr().0@,
                1,
                own.0@,
                frame.data.subrange(32, 38),
                next_hop.0@,
            )
            &&& laws::number(frame.data.subrange(0, 6)) == 0xffff_ffff_ffff
            &&& after.inner.pending.len() > 0
            &&& after.inner.pending.last().key == key
            &&& after.inner.pending.last().buf == packet
            &&& neighbor::answer_of(after.inner.cache, key, link.inner.now) == Answer::Pending
        }),
{
    let key = (link.iface.handle, IpAddress::Ipv4(next_hop));
    let all = EthernetAddress::broadcast_octets();
    lemma_goes_to_neighbor(link.iface.ip_addrs, dst);
    laws::lemma_number_six(all);
    let request = PacketView::fresh(
        14,
        crate::wire::arp::packet_octets(1, link.iface.ethernet_addr().0@, own.0@, all, next_hop.0@),
    );
    lemma_arp_says(link.iface.ethernet_addr(), all, 1, own.0@, all, next_hop.0@, request);
    neighbor::law_started_resolution_is_pending(link.inner.cache, key, link.inner.now, link.inner.now);
}

/// A packet that goes to a neighbor already asked for waits, and nothing is sent.
pub proof fn law_pending_neighbor_is_not_asked_for_again(
    link: LinkModel,
    dst: IpAddress,
    next_hop: IpAddress,
    packet: PacketView,
)
    requires
        link.iface.caps.medium == Medium::Ethernet,
        goes_to_neighbor(link.iface.ip_addrs, dst),
        neighbor::answer_of(link.inner.cache, (link.iface.handle, next_hop), link.inner.now) == Answer::Pending,
    ensures
        ({
            let after = link::ip_frame_sent(link, dst, next_hop, packet, link::ethertype_of(dst));
            &&& after.iface == link.iface
            &&& after.inner.cache == link.inner.cache
            &&& after.inner.pending.len() > 0
            &&& after.inner.pending.last().key == (link.iface.handle, next_hop)
            &&& after.inner.pending.last().buf == packet
        }),
{
    lemma_goes_to_neighbor(link.iface.ip_addrs, dst);
}

/// On any other medium a packet leaves at once, as it is.
pub proof fn law_packet_leaves_as_it_is(link: LinkModel, dst: IpAddress, next_hop: IpAddress, packet: PacketView)
    requires
        link.iface.caps.medium != Medium::Ethernet,
    ensures
        ({
            let after = link::ip_frame_sent(link, dst, next_hop, packet, link::ethertype_of(dst));
            let frame = after.iface.tx.last();
            &&& after.inner == link.inner
            &&& after.iface.tx == link.iface.tx.push(frame)
            &&& frame.data == packet.data
            &&& frame.meta == packet.meta
        }),
{
}

} // verus!
