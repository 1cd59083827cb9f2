//! What neighbor resolution comes to: two hosts that speak the same protocol find each
//! other, and what waited for a neighbor is sent to it.

use vstd::prelude::*;

use crate::buf::PacketView;
use crate::iface::Medium;
use crate::neighbor;
use crate::neighbor::State;
use crate::pending;
use crate::stack::iface_state;
use crate::stack::link;
use crate::stack::link::LinkModel;
use crate::wire::arp;
use crate::wire::arp::{ArpOperation, ArpRepr};
use crate::wire::cidr::IpCidr;
use crate::wire::ethernet;
use crate::wire::ethernet::EthernetAddress;
use crate::wire::icmpv6;
use crate::wire::ip::{IpAddress, Ipv4Address, Ipv6Address};
use crate::wire::ndisc;
use crate::wire::protocol::{EthernetProtocol, IpProtocol};

verus! {

/// A packet whose next hop is not resolved yet goes out, last of those that waited for
/// that neighbor, as soon as the neighbor's hardware address is learned. Nothing waits
/// for the neighbor any more, and the next packet to it is sent at once.
pub proof fn law_parked_packet_is_sent_once_resolved(
    link: LinkModel,
    dst: IpAddress,
    next_hop: IpAddress,
    packet: PacketView,
    hardware_addr: EthernetAddress,
)
    requires
        link.inner.wf(),
        link.iface.caps.medium == Medium::Ethernet,
        link::resolved(link, dst, next_hop) is None,
    ensures
        ({
            let parked = link::ip_frame_sent(link, dst, next_hop, packet, link::ethertype_of(next_hop));
            let after = link::neighbor_filled(parked, next_hop, hardware_addr);
            let key = (link.iface.handle, next_hop);
            &&& after.iface.tx.len() > parked.iface.tx.len()
            &&& after.iface.tx.last() == link::framed(
                link.iface.ethernet_addr(),
                hardware_addr.0@,
                link::ethertype_of(next_hop),
                packet,
            )
            &&& forall|i: int| 0 <= i < after.inner.pending.len() ==> (#[trigger] after.inner.pending[i]).key != key
            &&& link::resolved(after, dst, next_hop) == Some(hardware_addr.0@)
        }),
{
    let ethertype = link::ethertype_of(next_hop);
    let key = (link.iface.handle, next_hop);
    let looked = link::looked_up(link, dst, next_hop);
    let parked = link::ip_frame_sent(link, dst, next_hop, packet, ethertype);
    let after = link::neighbor_filled(parked, next_hop, hardware_addr);
    assert(parked.iface.ethernet_addr() == link.iface.ethernet_addr());
    assert(parked.iface.handle == link.iface.handle);
    let queue = parked.inner.pending;
    let waits = pending::waits_for(key);
    assert(queue.last().key == key && queue.last().buf == packet && queue.len() > 0);
    let waiting = queue.filter(waits);
    assert(waiting == queue.drop_last().filter(waits).push(queue.last())) by {
        reveal(Seq::filter);
    }
    let frames = link::flushed_frames(link.iface.ethernet_addr(), hardware_addr, waiting);
    assert(after.iface.tx == parked.iface.tx + frames);
    assert(after.iface.tx.last() == frames.last());
    neighbor::lemma_filter_subset(queue, pending::waits_elsewhere(key));
    assert forall|i: int| 0 <= i < after.inner.pending.len() implies (#[trigger] after.inner.pending[i]).key != key by {
        assert(pending::waits_elsewhere(key)(after.inner.pending[i]));
    }
    neighbor::law_insert_keeps_cache_ok(
        link.inner.cache,
        key,
        State::Incomplete {
            probes_sent: 1,
            retrans_at: neighbor::after_micros(link.inner.now, neighbor::RETRANS_TIMER_MICROS),
        },
    );
    neighbor::law_filled_neighbor_is_found(
        parked.inner.cache,
        key,
        hardware_addr,
        link.inner.now,
        link.inner.now,
    );
}

/// Two hosts on one network find each other: the ARP request one of them sends makes the
/// other send a reply, and from the reply the first learns the address it asked for. The
/// other learns the address of the one that asked.
pub proof fn law_arp_exchange_resolves(
    asker: LinkModel,
    answerer: LinkModel,
    target: Ipv4Address,
    asker_addr: Ipv4Address,
)
    requires
        iface_state::source_ipv4(asker.iface.ip_addrs, target) == Some(asker_addr),
        iface_state::on_link(asker.iface.ip_addrs, IpAddress::Ipv4(target)),
        iface_state::has_addr(answerer.iface.ip_addrs, IpAddress::Ipv4(target)),
        iface_state::on_link(answerer.iface.ip_addrs, IpAddress::Ipv4(asker_addr)),
        asker_addr.unicast_view(),
        target.unicast_view(),
        asker.iface.ethernet_addr().unicast_view(),
        answerer.iface.ethernet_addr().unicast_view(),
    ensures
        ({
            let request = link::arp_requested(asker.iface, target).tx.last().data;
            let answered = link::arp_processed(answerer, request.skip(14));
            let reply = answered.iface.tx.last().data;
            let learned = link::neighbor_filled(
                answerer,
                IpAddress::Ipv4(asker_addr),
                asker.iface.ethernet_addr(),
            );
            &&& answered.inner == learned.inner
            &&& answered.iface.tx.drop_last() == learned.iface.tx
            &&& reply.take(6) == asker.iface.ethernet_addr().0@
            &&& link::arp_processed(asker, reply.skip(14)) == link::neighbor_filled(
                asker,
                IpAddress::Ipv4(target),
                answerer.iface.ethernet_addr(),
            )
        }),
{
    iface_state::law_ipv4_source_is_own(asker.iface.ip_addrs, target);
    let asker_mac = asker.iface.ethernet_addr();
    let answerer_mac = answerer.iface.ethernet_addr();
    let asked = ArpRepr {
        operation: ArpOperation::Request,
        source_hardware_addr: asker_mac,
        source_protocol_addr: asker_addr,
        target_hardware_addr: EthernetAddress([0xff, 0xff, 0xff, 0xff, 0xff, 0xff]),
        target_protocol_addr: target,
    };
    assert(asked.target_hardware_addr.0@ =~= EthernetAddress::broadcast_octets());
    lemma_arp_frame(asked.target_hardware_addr, asker_mac, asked);
    let answered = link::arp_processed(answerer, asked.octets());
    let told = ArpRepr {
        operation: ArpOperation::Reply,
        source_hardware_addr: answerer_mac,
        source_protocol_addr: target,
        target_hardware_addr: asker_mac,
        target_protocol_addr: asker_addr,
    };
    lemma_arp_frame(asker_mac, answerer_mac, told);
    let learned = link::neighbor_filled(answerer, IpAddress::Ipv4(asker_addr), asker_mac);
    assert(answered.iface.tx == learned.iface.tx.push(
        link::framed(answerer_mac, asker_mac.0@, EthernetProtocol::Arp, PacketView::fresh(14, told.octets())),
    )) by {
        lemma_arp_fields(asked);
    }
    assert(answered.inner == learned.inner) by {
        lemma_arp_fields(asked);
    }
    assert(answered.iface.tx.drop_last() =~= learned.iface.tx);
    assert(link::arp_processed(asker, told.octets()) == link::neighbor_filled(
        asker,
        IpAddress::Ipv4(target),
        answerer_mac,
    )) by {
        lemma_arp_fields(told);
    }
}

/// A frame holds its destination and, behind its header, the packet.
proof fn lemma_arp_frame(dst: EthernetAddress, src: EthernetAddress, repr: ArpRepr)
    ensures
        ({
            let frame = ethernet::header_octets(dst.0@, src.0@, EthernetProtocol::Arp) + repr.octets();
            &&& frame.take(6) == dst.0@
            &&& frame.skip(14) == repr.octets()
        }),
{
    let frame = ethernet::header_octets(dst.0@, src.0@, EthernetProtocol::Arp) + repr.octets();
    assert(frame.take(6) =~= dst.0@);
    assert(frame.skip(14) =~= repr.octets());
}

/// What is read out of an emitted packet.
proof fn lemma_arp_fields(repr: ArpRepr)
    requires
        repr.operation == ArpOperation::of_number(repr.operation.number()),
    ensures
        ({
            let data = repr.octets();
            &&& arp::well_formed(data)
            &&& arp::ipv4_over_ethernet(data)
            &&& repr.describes(data)
            &&& EthernetAddress::of(data.subrange(8, 14)) == repr.source_hardware_addr
            &&& Ipv4Address::of(data.subrange(14, 18)) == repr.source_protocol_addr
            &&& Ipv4Address::of(data.subrange(24, 28)) == repr.target_protocol_addr
        }),
{
    arp::law_arp_round_trip(repr);
    repr.source_hardware_addr.lemma_of();
    repr.source_protocol_addr.lemma_of();
    repr.target_protocol_addr.lemma_of();
}

/// Two hosts on one network find each other: the neighbor solicitation one of them sends
/// makes the other send an advertisement, straight to the one that asked, and from it the
/// first learns the address it asked for. The other learns the address of the one that
/// asked.
pub proof fn law_ndisc_exchange_resolves(
    asker: LinkModel,
    answerer: LinkModel,
    target: Ipv6Address,
    asker_addr: Ipv6Address,
)
    requires
        answerer.inner.wf(),
        answerer.iface.caps.medium == Medium::Ethernet,
        iface_state::has_addr(answerer.iface.ip_addrs, IpAddress::Ipv6(target)),
        asker_addr.unicast_view(),
        target.unicast_view(),
        !target.loopback_view(),
        asker.iface.ethernet_addr().unicast_view(),
        answerer.iface.ethernet_addr().unicast_view(),
        !(neighbor::answer_of(
            asker.inner.cache,
            (asker.iface.handle, IpAddress::Ipv6(target)),
            asker.inner.now,
        ) is Found),
    ensures
        ({
            let group = Ipv6Address::of(Ipv6Address::solicited_node_prefix() + target.0@.skip(13));
            let solicit = link::ndisc_message(
                asker.iface,
                icmpv6::Message::NeighborSolicit,
                0,
                target,
                ndisc::SOURCE_LINK_LAYER_ADDR,
                asker_addr.0@,
                group.0@,
            );
            let advert = link::ndisc_message(
                answerer.iface,
                icmpv6::Message::NeighborAdvert,
                ndisc::FLAG_SOLICITED,
                target,
                ndisc::TARGET_LINK_LAYER_ADDR,
                target.0@,
                asker_addr.0@,
            );
            let learned = link::neighbor_filled(
                answerer,
                IpAddress::Ipv6(asker_addr),
                asker.iface.ethernet_addr(),
            );
            &&& link::solicit_processed(answerer, asker_addr, group, solicit.data) == (LinkModel {
                iface: link::ethernet_sent(
                    learned.iface,
                    asker.iface.ethernet_addr().0@,
                    EthernetProtocol::Ipv6,
                    link::ipv6_packet(
                        answerer.iface,
                        target.0@,
                        asker_addr.0@,
                        IpProtocol::Icmpv6,
                        0xff,
                        advert,
                    ),
                ),
                ..learned
            })
            &&& link::advert_processed(asker, target, advert.data) == link::neighbor_filled(
                asker,
                IpAddress::Ipv6(target),
                answerer.iface.ethernet_addr(),
            )
        }),
{
    let octets = Ipv6Address::solicited_node_prefix() + target.0@.skip(13);
    let group = Ipv6Address::of(octets);
    assert(group.0@ =~= octets);
    let mac = asker.iface.ethernet_addr();
    let key = (answerer.iface.handle, IpAddress::Ipv6(asker_addr));
    lemma_neighbor_message(icmpv6::Message::NeighborSolicit, 0, target, 1, mac, asker_addr.0@, group.0@);
    lemma_neighbor_message(
        icmpv6::Message::NeighborAdvert,
        0x40,
        target,
        2,
        answerer.iface.ethernet_addr(),
        target.0@,
        asker_addr.0@,
    );
    let i = choose|i: int|
        0 <= i < answerer.iface.ip_addrs.len() && (#[trigger] answerer.iface.ip_addrs[i]).cidr.address_view()
            == IpAddress::Ipv6(target);
    assert(answerer.iface.ip_addrs[i].cidr matches IpCidr::Ipv6(c) && c.address == target);
    assert(group.0@.take(13) =~= Ipv6Address::solicited_node_prefix());
    assert(group.0@.skip(13) =~= target.0@.skip(13));
    assert(iface_state::has_solicited_node(answerer.iface.ip_addrs, group));
    let learned = link::neighbor_filled(answerer, IpAddress::Ipv6(asker_addr), mac);
    neighbor::law_filled_neighbor_is_found(answerer.inner.cache, key, mac, answerer.inner.now, answerer.inner.now);
    assert(link::resolved(learned, IpAddress::Ipv6(asker_addr), IpAddress::Ipv6(asker_addr)) == Some(mac.0@));
}

/// What is read out of a solicitation or advertisement.
proof fn lemma_neighbor_message(
    message: icmpv6::Message,
    flags: u8,
    target: Ipv6Address,
    option: u8,
    lladdr: EthernetAddress,
    src: Seq<u8>,
    dst: Seq<u8>,
)
    requires
        option == 1 || option == 2,
    ensures
        ({
            let data = icmpv6::with_checksum(
                src,
                dst,
                ndisc::neighbor_message_octets(message.number(), flags, target.0@, option, lladdr.0@),
            );
            &&& data[1] == 0
            &&& data[4] == flags
            &&& Ipv6Address::of(data.subrange(8, 24)) == target
            &&& ndisc::lladdr_option_view(data.skip(24), option) == Some(Some(lladdr.0@))
            &&& EthernetAddress::of(lladdr.0@) == lladdr
        }),
{
    let unsummed = ndisc::neighbor_message_octets(message.number(), flags, target.0@, option, lladdr.0@);
    let data = icmpv6::with_checksum(src, dst, unsummed);
    ndisc::law_lladdr_round_trip(message.number(), flags, target.0@, option, lladdr.0@);
    assert(data.subrange(8, 24) =~= unsummed.subrange(8, 24));
    assert(data.skip(24) =~= unsummed.skip(24));
    target.lemma_of();
    lladdr.lemma_of();
}

} // verus!
