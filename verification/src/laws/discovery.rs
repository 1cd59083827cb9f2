//! Neighbors on IPv6 links: how they are asked for and how they answer.

use vstd::prelude::*;

use crate::buf::PacketView;
use crate::iface::Medium;
use crate::laws;
use crate::laws::address;
use crate::laws::control;
use crate::laws::ingress;
use crate::laws::link as frames;
use crate::laws::packet;
use crate::neighbor;
use crate::neighbor::Answer;
use crate::stack::iface_state;
use crate::stack::iface_state::{Frame, IfaceModel};
use crate::stack::link;
use crate::stack::link::LinkModel;
use crate::stack::source;
use crate::wire::ethernet::EthernetAddress;
use crate::wire::icmpv6;
use crate::wire::ip::{IpAddress, Ipv6Address};
use crate::wire::ndisc;
use crate::wire::protocol::{EthernetProtocol, IpProtocol};

verus! {

/// Whether octets are a message between neighbors about a target, with a hardware address in
/// an option of the given kind.
pub open spec fn is_about(m: Seq<u8>, kind: u8, flags: u8, target: Seq<u8>, option: u8, mac: Seq<u8>) -> bool {
    &&& m.len() == 32
    &&& m[0] == kind
    &&& m[1] == 0
    &&& m[4] == flags
    &&& m[5] == 0 && m[6] == 0 && m[7] == 0
    &&& m.subrange(8, 24) == target
    &&& m[24] == option
    &&& m[25] == 1
    &&& m.subrange(26, 32) == mac
}

proof fn lemma_message(
    iface: IfaceModel,
    message: icmpv6::Message,
    flags: u8,
    target: Ipv6Address,
    option: u8,
    src: Seq<u8>,
    dst: Seq<u8>,
)
    requires
        src.len() == 16,
        dst.len() == 16,
    ensures
        ({
            let m = link::ndisc_message(iface, message, flags, target, option, src, dst);
            &&& is_about(m.data, message.number(), flags, target.0@, option, iface.ethernet_addr().0@)
            &&& packet::covered(src, dst, 58, m.data) % 0xffff == 0
        }),
{
    let mac = iface.ethernet_addr().0@;
    let plain = ndisc::neighbor_message_octets(message.number(), flags, target.0@, option, mac);
    let m = link::ndisc_message(iface, message, flags, target, option, src, dst).data;
    assert(plain.len() == 32);
    assert(m == icmpv6::with_checksum(src, dst, plain));
    control::lemma_control_summed_v6(src, dst, plain);
    assert(m[0] == plain[0] && m[1] == plain[1] && m[4] == plain[4] && m[5] == plain[5]);
    assert(m[6] == plain[6] && m[7] == plain[7] && m[24] == plain[24] && m[25] == plain[25]);
    assert forall|i: int| 0 <= i < 16 implies #[trigger] m.subrange(8, 24)[i] == target.0@[i] by {
        assert(m[8 + i] == plain[8 + i]);
    }
    assert(m.subrange(8, 24) =~= target.0@);
    assert forall|i: int| 0 <= i < 6 implies #[trigger] m.subrange(26, 32)[i] == mac[i] by {
        assert(m[26 + i] == plain[26 + i]);
    }
    assert(m.subrange(26, 32) =~= mac);
    icmpv6::law_icmpv6_filled_checksum_verifies(src, dst, plain);
    packet::lemma_covered(src, dst, 58, m);
}

/// Whether a frame asks for the hardware address of a target: it goes to the group that stands
/// in for the target, and to that group's hardware address, with a hop limit of 255, and holds
/// the message of kind 135 with the sender's own hardware address in an option of kind 1.
pub open spec fn asks_for(frame: Frame, iface: IfaceModel, src: Seq<u8>, target: Seq<u8>) -> bool {
    exists|p: Seq<u8>, group: Seq<u8>, m: Seq<u8>|
        {
            &&& #[trigger] packet::ipv6_carries(p, src, group, 58, 255, packet::left_of(iface, IpProtocol::Icmpv6, m))
            &&& frames::carries(frame, frame.data.subrange(0, 6), iface.ethernet_addr().0@, 0x86dd, p)
            &&& laws::number(frame.data.subrange(0, 6)) == 0x3333_ff00_0000 + laws::number(target.skip(13))
            &&& is_group_of(group, target)
            &&& is_about(m, 135, 0, target, 1, iface.ethernet_addr().0@)
            &&& packet::covered(src, group, 58, m) % 0xffff == 0
        }
}

/// Whether a group is ff02::1:ff00:0 and the last three octets of an address.
pub open spec fn is_group_of(group: Seq<u8>, target: Seq<u8>) -> bool {
    &&& group.len() == 16
    &&& group[0] == 0xff && group[1] == 2
    &&& forall|k: int| 2 <= k < 11 ==> #[trigger] group[k] == 0
    &&& group[11] == 1 && group[12] == 0xff
    &&& group[13] == target[13] && group[14] == target[14] && group[15] == target[15]
}

proof fn lemma_number_three(s: Seq<u8>)
    requires
        s.len() == 3,
    ensures
        laws::number(s) == s[0] * 0x1_0000 + s[1] * 0x100 + s[2],
{
    reveal_with_fuel(laws::number, 4);
    let a = s.drop_last();
    let b = a.drop_last();
    assert(b.drop_last().len() == 0);
    assert(a.last() == s[1] && b.last() == s[0]);
}

/// A neighbor on an IPv6 link is asked for with one frame, from the address that packets to it
/// are sent from.
pub proof fn law_neighbor_is_asked_for_v6(iface: IfaceModel, target: Ipv6Address)
    ensures
        ({
            let after = link::solicited(iface, IpAddress::Ipv6(target));
            let src = source::source_ipv6(iface.ip_addrs, target).0@;
            &&& after.tx == iface.tx.push(after.tx.last())
            &&& asks_for(after.tx.last(), iface, src, target.0@)
        }),
{
    let src = source::source_ipv6(iface.ip_addrs, target).0@;
    let group = Ipv6Address::solicited_node_prefix() + target.0@.skip(13);
    let message = link::ndisc_message(iface, icmpv6::Message::NeighborSolicit, 0, target, 1, src, group);
    let addr = IpAddress::Ipv6(Ipv6Address::of(group));
    let mac = link::multicast_mac(addr);
    assert(group.len() == 16);
    lemma_message(iface, icmpv6::Message::NeighborSolicit, 0, target, 1, src, group);
    packet::law_ipv6_packet(iface, src, group, IpProtocol::Icmpv6, 255, message);
    let p = link::ipv6_packet(iface, src, group, IpProtocol::Icmpv6, 255, message);
    frames::law_group_mac(addr);
    frames::lemma_framed(iface.ethernet_addr(), mac, EthernetProtocol::Ipv6, p);
    let frame = link::framed(iface.ethernet_addr(), mac, EthernetProtocol::Ipv6, p);
    assert(group[13] == target.0@.skip(13)[0] && group[14] == target.0@.skip(13)[1] && group[15]
        == target.0@.skip(13)[2]);
    assert(laws::number(mac) == 0x3333_ff00_0000 + laws::number(target.0@.skip(13))) by {
        lemma_number_three(target.0@.skip(13));
        laws::lemma_number_six(mac);
    }
    assert(packet::ipv6_carries(
        p.data,
        src,
        group,
        58,
        255,
        packet::left_of(iface, IpProtocol::Icmpv6, message.data),
    ));
    assert(asks_for(frame, iface, src, target.0@));
}

/// A packet that goes to a neighbor nobody has heard of waits, and the neighbor is asked for.
pub proof fn law_unknown_neighbor_is_asked_for_v6(
    link: LinkModel,
    dst: IpAddress,
    next_hop: Ipv6Address,
    p: PacketView,
)
    requires
        link.inner.wf(),
        link.iface.caps.medium == Medium::Ethernet,
        frames::goes_to_neighbor(link.iface.ip_addrs, dst),
        neighbor::answer_of(
            link.inner.cache,
            (link.iface.handle, IpAddress::Ipv6(next_hop)),
            link.inner.now,
        ) == Answer::NotFound,
    ensures
        ({
            let key = (link.iface.handle, IpAddress::Ipv6(next_hop));
            let after = link::ip_frame_sent(link, dst, IpAddress::Ipv6(next_hop), p, EthernetProtocol::Ipv6);
            &&& after.iface.tx == link.iface.tx.push(after.iface.tx.last())
            &&& asks_for(
                after.iface.tx.last(),
                link.iface,
                source::source_ipv6(link.iface.ip_addrs, next_hop).0@,
                next_hop.0@,
            )
            &&& after.inner.pending.len() > 0
            &&& after.inner.pending.last().key == key
            &&& after.inner.pending.last().buf == p
            &&& neighbor::answer_of(after.inner.cache, key, link.inner.now) == Answer::Pending
        }),
{
    let key = (link.iface.handle, IpAddress::Ipv6(next_hop));
    frames::lemma_goes_to_neighbor(link.iface.ip_addrs, dst);
    law_neighbor_is_asked_for_v6(link.iface, next_hop);
    neighbor::law_started_resolution_is_pending(link.inner.cache, key, link.inner.now, link.inner.now);
}

/// The options of a message between neighbors are read one after the other, each as many
/// times eight octets long as it says. One of the kind that is looked for gives the hardware
/// address; one that says no length, or more than there is, spoils the message.
pub proof fn law_neighbor_options_in_turn(s: Seq<u8>, kind: u8, at: int, found: Option<Seq<u8>>)
    requires
        0 <= at < s.len(),
    ensures
        ({
            let outcome = ndisc::lladdr_walk(s, kind, at, found);
            let next = at + s[at + 1] * 8;
            &&& s.len() < at + 8 || s[at + 1] == 0 || next > s.len() ==> outcome is None
            &&& s.len() >= at + 8 && s[at + 1] != 0 && next <= s.len() && s[at] != 3 ==> outcome == ndisc::lladdr_walk(
                s,
                kind,
                next,
                if s[at] == kind {
                    Some(s.subrange(at + 2, at + 8))
                } else {
                    found
                },
            )
        }),
        ndisc::lladdr_walk(Seq::empty(), kind, 0, found) == Some(found),
{
}

proof fn lemma_only_option(m: Seq<u8>, kind: u8)
    requires
        m.len() == 32,
        m[24] == kind,
        kind == 1 || kind == 2,
        m[25] == 1,
    ensures
        ndisc::lladdr_option_view(m.skip(24), kind) == Some(Some(m.subrange(26, 32))),
{
    let s = m.skip(24);
    assert(s[0] == kind && s[1] == 1);
    assert(s.len() == 8);
    assert(s.subrange(2, 8) =~= m.subrange(26, 32));
    assert(ndisc::lladdr_walk(s, kind, 8, Some(s.subrange(2, 8))) == Some(Some(s.subrange(2, 8))));
    assert(ndisc::option_len(s, 0) == 8);
}

/// A neighbor that asks for an address of the interface, in the group that stands in for one,
/// becomes known and is answered: in a frame to it alone, from the address that it asked for,
/// with a hop limit of 255 and the message of kind 136 that says so.
pub proof fn law_solicitation_is_answered(
    link: LinkModel,
    src: Ipv6Address,
    dst: Ipv6Address,
    m: Seq<u8>,
    i: int,
    j: int,
)
    requires
        link.inner.wf(),
        link.iface.caps.medium == Medium::Ethernet,
        address::single_host(IpAddress::Ipv6(src)),
        m.len() == 32,
        is_about(m, m[0], m[4], m.subrange(8, 24), 1, m.subrange(26, 32)),
        m[26] % 2 == 0,
        0 <= i < link.iface.ip_addrs.len(),
        ingress::stands_in(link.iface.ip_addrs[i], dst.0@),
        0 <= j < link.iface.ip_addrs.len(),
        link.iface.ip_addrs[j].cidr is Ipv6,
        link.iface.ip_addrs[j].cidr->Ipv6_0.address.0@ == m.subrange(8, 24),
        address::single_host(IpAddress::Ipv6(link.iface.ip_addrs[j].cidr->Ipv6_0.address)),
    ensures
        ({
            let after = link::solicit_processed(link, src, dst, m);
            let key = (link.iface.handle, IpAddress::Ipv6(src));
            let frame = after.iface.tx.last();
            &&& neighbor::answer_of(after.inner.cache, key, link.inner.now) is Found
            &&& neighbor::answer_of(after.inner.cache, key, link.inner.now)->Found_0.0@ == m.subrange(26, 32)
            &&& answers_for(frame, link.iface, m.subrange(26, 32), m.subrange(8, 24), src.0@)
        }),
{
    let mac = EthernetAddress::of(m.subrange(26, 32));
    let target = Ipv6Address::of(m.subrange(8, 24));
    let from = IpAddress::Ipv6(src);
    let key = (link.iface.handle, from);
    let own = link.iface.ip_addrs[j].cidr->Ipv6_0.address;
    lemma_only_option(m, 1);
    assert(mac.0@ =~= m.subrange(26, 32));
    assert(target.0@ =~= m.subrange(8, 24));
    assert(target.0 =~= own.0);
    assert(mac.unicast_view()) by {
        assert(mac.0@[0] == m[26]);
        if mac.broadcast_view() {
            assert(mac.0@[0] == 0xff);
        }
    }
    address::lemma_single_host(IpAddress::Ipv6(target));
    address::lemma_single_host(from);
    address::law_ipv6_classes(src);
    ingress::lemma_stands_in(link.iface.ip_addrs, dst);
    assert(iface_state::has_solicited_node(link.iface.ip_addrs, dst));
    assert(link.iface.ip_addrs[j].cidr.address_view() == IpAddress::Ipv6(target));
    assert(iface_state::has_addr(link.iface.ip_addrs, IpAddress::Ipv6(target)));
    let learned = link::neighbor_filled(link, from, mac);
    neighbor::law_filled_neighbor_is_found(link.inner.cache, key, mac, link.inner.now, link.inner.now);
    let reply = link::ndisc_message(
        learned.iface,
        icmpv6::Message::NeighborAdvert,
        0x40,
        target,
        2,
        target.0@,
        src.0@,
    );
    lemma_message(learned.iface, icmpv6::Message::NeighborAdvert, 0x40, target, 2, target.0@, src.0@);
    packet::law_ipv6_packet(learned.iface, target.0@, src.0@, IpProtocol::Icmpv6, 255, reply);
    let p = link::ipv6_packet(learned.iface, target.0@, src.0@, IpProtocol::Icmpv6, 255, reply);
    frames::lemma_framed(link.iface.ethernet_addr(), mac.0@, EthernetProtocol::Ipv6, p);
    let frame = link::framed(link.iface.ethernet_addr(), mac.0@, EthernetProtocol::Ipv6, p);
    let after = link::solicit_processed(link, src, dst, m);
    assert(after == link::ndisc_sent(learned, reply, target, src));
    assert(link::resolved(learned, from, from) == Some(mac.0@));
    assert(after.iface.tx.last() == frame);
    assert(packet::left_of(learned.iface, IpProtocol::Icmpv6, reply.data) == packet::left_of(
        link.iface,
        IpProtocol::Icmpv6,
        reply.data,
    ));
    assert(packet::ipv6_carries(
        p.data,
        target.0@,
        src.0@,
        58,
        255,
        packet::left_of(link.iface, IpProtocol::Icmpv6, reply.data),
    ));
    assert(answers_for(frame, link.iface, mac.0@, target.0@, src.0@));
}

/// A neighbor that asks for an address that is not the interface's, or not in a group that
/// stands in for one of its addresses, becomes known but is not answered.
pub proof fn law_other_solicitation_is_not_answered(link: LinkModel, src: Ipv6Address, dst: Ipv6Address, m: Seq<u8>)
    requires
        m.len() == 32,
        is_about(m, m[0], m[4], m.subrange(8, 24), 1, m.subrange(26, 32)),
        m[26] % 2 == 0,
        address::single_host(IpAddress::Ipv6(Ipv6Address::of(m.subrange(8, 24)))),
        !ingress::own(link.iface.ip_addrs, m.subrange(8, 24)) || forall|i: int|
            0 <= i < link.iface.ip_addrs.len() ==> !ingress::stands_in(#[trigger] link.iface.ip_addrs[i], dst.0@),
    ensures
        link::solicit_processed(link, src, dst, m) == link::neighbor_filled(
            link,
            IpAddress::Ipv6(src),
            EthernetAddress::of(m.subrange(26, 32)),
        ),
{
    let mac = EthernetAddress::of(m.subrange(26, 32));
    let target = Ipv6Address::of(m.subrange(8, 24));
    lemma_only_option(m, 1);
    assert(mac.0@ =~= m.subrange(26, 32));
    assert(target.0@ =~= m.subrange(8, 24));
    assert(mac.unicast_view()) by {
        assert(mac.0@[0] == m[26]);
        if mac.broadcast_view() {
            assert(mac.0@[0] == 0xff);
        }
    }
    address::lemma_single_host(IpAddress::Ipv6(target));
    ingress::lemma_stands_in(link.iface.ip_addrs, dst);
    ingress::lemma_own(link.iface.ip_addrs, IpAddress::Ipv6(target));
}

/// Messages between neighbors that have a code, a hardware address of a group, or a target
/// that is no single host, change nothing.
pub proof fn law_bad_neighbor_messages_are_ignored(link: LinkModel, src: Ipv6Address, dst: Ipv6Address, m: Seq<u8>)
    requires
        m.len() == 32,
        m[25] == 1,
        m[1] != 0 || m[26] % 2 == 1 || !address::single_host(
            IpAddress::Ipv6(Ipv6Address::of(m.subrange(8, 24))),
        ),
    ensures
        m[24] == 1 ==> link::solicit_processed(link, src, dst, m) == link,
        m[24] == 2 ==> link::advert_processed(link, src, m) == link,
{
    let mac = EthernetAddress::of(m.subrange(26, 32));
    let target = Ipv6Address::of(m.subrange(8, 24));
    assert(mac.0@[0] == m[26]);
    address::lemma_single_host(IpAddress::Ipv6(target));
    if m[24] == 1 {
        lemma_only_option(m, 1);
    }
    if m[24] == 2 {
        lemma_only_option(m, 2);
    }
}

/// Whether a frame to a hardware address tells that a target is the interface's own.
pub open spec fn answers_for(frame: Frame, iface: IfaceModel, to: Seq<u8>, target: Seq<u8>, dst: Seq<u8>) -> bool {
    exists|p: Seq<u8>, m: Seq<u8>|
        {
            &&& #[trigger] packet::ipv6_carries(p, target, dst, 58, 255, packet::left_of(iface, IpProtocol::Icmpv6, m))
            &&& frames::carries(frame, to, iface.ethernet_addr().0@, 0x86dd, p)
            &&& is_about(m, 136, 0x40, target, 2, iface.ethernet_addr().0@)
            &&& packet::covered(target, dst, 58, m) % 0xffff == 0
        }
}

/// A neighbor that tells its hardware address becomes known by it, unless another one is known
/// and the message does not say, with the bit of 32, that it counts for more.
pub proof fn law_advertisement_is_learned(link: LinkModel, src: Ipv6Address, m: Seq<u8>)
    requires
        link.inner.wf(),
        m.len() == 32,
        is_about(m, m[0], m[4], m.subrange(8, 24), 2, m.subrange(26, 32)),
        m[26] % 2 == 0,
        address::single_host(IpAddress::Ipv6(Ipv6Address::of(m.subrange(8, 24)))),
    ensures
        ({
            let key = (link.iface.handle, IpAddress::Ipv6(src));
            let before = neighbor::answer_of(link.inner.cache, key, link.inner.now);
            let after = link::advert_processed(link, src, m);
            if before is Found && m[4] / 32 % 2 == 0 {
                after == link
            } else {
                &&& neighbor::answer_of(after.inner.cache, key, link.inner.now) is Found
                &&& neighbor::answer_of(after.inner.cache, key, link.inner.now)->Found_0.0@ == m.subrange(26, 32)
                &&& after == link::neighbor_filled(
                    link,
                    IpAddress::Ipv6(src),
                    EthernetAddress::of(m.subrange(26, 32)),
                )
            }
        }),
{
    let mac = EthernetAddress::of(m.subrange(26, 32));
    let target = Ipv6Address::of(m.subrange(8, 24));
    let key = (link.iface.handle, IpAddress::Ipv6(src));
    lemma_only_option(m, 2);
    assert(mac.0@ =~= m.subrange(26, 32));
    assert(mac.unicast_view()) by {
        assert(mac.0@[0] == m[26]);
        if mac.broadcast_view() {
            assert(mac.0@[0] == 0xff);
        }
    }
    address::lemma_single_host(IpAddress::Ipv6(target));
    neighbor::law_filled_neighbor_is_found(link.inner.cache, key, mac, link.inner.now, link.inner.now);
}

/// Messages between neighbors count only if they come with a hop limit of 255, on a link with
/// frames: they have not been forwarded.
pub proof fn law_forwarded_messages_are_ignored(
    stack: crate::stack::state::StackModel,
    iface: crate::iface::IfaceHandle,
    on_ethernet: bool,
    src: Ipv6Address,
    dst: Ipv6Address,
    hop_limit: u8,
    m: Seq<u8>,
)
    requires
        24 <= m.len() <= 0xffff,
        m[0] == 135 || m[0] == 136,
        packet::covered(src.0@, dst.0@, 58, m) % 0xffff == 0,
    ensures
        ({
            let after = crate::stack::icmp_ingress::icmpv6_processed(
                stack,
                iface,
                on_ethernet,
                src,
                dst,
                hop_limit,
                m,
            );
            let before = stack.net.link_at(iface);
            if hop_limit != 255 || !on_ethernet {
                after == stack
            } else if m[0] == 135 {
                after == stack.with_net(
                    stack.net.with_link_at(iface, link::solicit_processed(before, src, dst, m)),
                )
            } else {
                after == stack.with_net(stack.net.with_link_at(iface, link::advert_processed(before, src, m)))
            }
        }),
{
    packet::lemma_covered(src.0@, dst.0@, 58, m);
}

} // verus!
