//! The link-level machinery: ARP and neighbor discovery, the neighbor cache, and
//! frame transmission.
//!
//! These are [`StackInner`] methods operating on one interface, because they serve
//! both ingress and socket egress.

use vstd::prelude::*;

use crate::buf::{PacketBuf, PacketView};
use crate::iface::{IfaceHandle, Medium};
use crate::neighbor;
use crate::neighbor::{Answer, Cache, Entries};
use crate::pending;
use crate::pending::{PendingQueue, PendingView};
use crate::rand::Rand;
use crate::route;
use crate::route::{Route, Routes};
use crate::stack::iface_state;
use crate::stack::iface_state::{Frame, IfaceModel, IfaceState};
use crate::stack::offload;
use crate::stack::source;
use crate::time::Instant;
use crate::wire::arp;
use crate::wire::arp::{ArpOperation, ArpRepr};
use crate::wire::bytes;
use crate::wire::ethernet;
use crate::wire::ethernet::{EthernetAddress, EthernetHeader, ETHERNET_HEADER_LEN};
use crate::wire::icmpv6;
use crate::wire::ip::{IpAddress, Ipv4Address, Ipv6Address};
use crate::wire::ipv4;
use crate::wire::ipv4::IPV4_HEADER_LEN;
use crate::wire::ipv6;
use crate::wire::ipv6::IPV6_HEADER_LEN;
use crate::wire::ndisc;
use crate::wire::protocol::{EthernetProtocol, IpProtocol};
use crate::wire::LINK_HEADER_LEN;

verus! {

/// What the device-independent part of the stack holds.
#[verifier::ext_equal]
pub struct InnerModel {
    /// The current time, as last set by polling.
    pub now: Instant,
    pub rand: Rand,
    /// The neighbors known or being resolved.
    pub cache: Entries,
    /// The packets waiting for a neighbor, oldest first.
    pub pending: Seq<PendingView>,
    pub routes: Seq<Route>,
}

/// Whether the data starts with an IP header that is there in full, options and
/// extensions aside, or with no known IP version at all.
pub open spec fn ip_packet(data: Seq<u8>) -> bool {
    &&& data.len() > 0
    &&& data[0] / 16 == 4 ==> data.len() >= IPV4_HEADER_LEN
    &&& data[0] / 16 == 6 ==> data.len() >= IPV6_HEADER_LEN
}

/// Whether every waiting packet is an IP packet that a link-layer header can be
/// put in front of.
pub open spec fn pending_ok(pending: Seq<PendingView>) -> bool {
    forall|i: int|
        0 <= i < pending.len() ==> (#[trigger] pending[i]).buf.head.len() >= LINK_HEADER_LEN && ip_packet(
            pending[i].buf.data,
        )
}

/// Whether every neighbor is a single host.
pub open spec fn neighbors_ok(cache: Entries) -> bool {
    forall|i: int| 0 <= i < cache.len() ==> (#[trigger] cache[i]).0.1.unicast_view()
}

impl InnerModel {
    /// What every operation keeps.
    pub open spec fn wf(self) -> bool {
        &&& neighbor::time_ok(self.now)
        &&& neighbor::entries_ok(self.cache)
        &&& neighbors_ok(self.cache)
        &&& pending_ok(self.pending)
        &&& route::routes_ok(self.routes)
    }
}

/// The device-independent part of the stack.
///
/// Separate from the interfaces so that its methods can borrow an interface while
/// taking `&mut self`.
pub struct StackInner {
    pub now: Instant,
    pub rand: Rand,
    pub neighbor_cache: Cache,
    pub pending: PendingQueue,
    pub routes: Routes,
}

impl View for StackInner {
    type V = InnerModel;

    open spec fn view(&self) -> InnerModel {
        InnerModel {
            now: self.now,
            rand: self.rand,
            cache: self.neighbor_cache@,
            pending: self.pending@,
            routes: self.routes@,
        }
    }
}

/// The device-independent part of the stack together with one interface.
#[verifier::ext_equal]
pub struct LinkModel {
    pub inner: InnerModel,
    pub iface: IfaceModel,
}

/// The frame an Ethernet interface sends a packet in.
pub open spec fn framed(src: EthernetAddress, dst: Seq<u8>, ethertype: EthernetProtocol, packet: PacketView) -> Frame {
    Frame { data: ethernet::header_octets(dst, src.0@, ethertype) + packet.data, meta: packet.meta }
}

/// The interface with a packet sent in an Ethernet frame to `dst`.
pub open spec fn ethernet_sent(
    iface: IfaceModel,
    dst: Seq<u8>,
    ethertype: EthernetProtocol,
    packet: PacketView,
) -> IfaceModel {
    iface.sent(framed(iface.ethernet_addr(), dst, ethertype, packet))
}

/// The EtherType of packets to an address.
pub open spec fn ethertype_of(addr: IpAddress) -> EthernetProtocol {
    match addr {
        IpAddress::Ipv4(_) => EthernetProtocol::Ipv4,
        IpAddress::Ipv6(_) => EthernetProtocol::Ipv6,
    }
}

/// The octets of the Ethernet group that frames to an IP group are sent to
/// (RFC 1112 §6.4, RFC 2464 §7).
pub open spec fn multicast_mac(addr: IpAddress) -> Seq<u8> {
    match addr {
        IpAddress::Ipv4(a) => seq![0x01u8, 0x00u8, 0x5eu8, (a.0@[1] % 128) as u8, a.0@[2], a.0@[3]],
        IpAddress::Ipv6(a) => seq![0x33u8, 0x33u8, a.0@[12], a.0@[13], a.0@[14], a.0@[15]],
    }
}

/// A message behind an IPv6 header, as an interface with the given checksum
/// behavior sends it.
pub open spec fn ipv6_packet(
    iface: IfaceModel,
    src: Seq<u8>,
    dst: Seq<u8>,
    protocol: IpProtocol,
    hop_limit: u8,
    message: PacketView,
) -> PacketView {
    let data = offload::emitted(iface.caps.checksum, protocol, message.data);
    PacketView { data, ..message }.prepended(ipv6::header_octets(src, dst, protocol, hop_limit, data.len()))
}

/// A message behind an IPv4 header, as an interface with the given checksum
/// behavior sends it.
pub open spec fn ipv4_packet(
    iface: IfaceModel,
    src: Seq<u8>,
    dst: Seq<u8>,
    protocol: IpProtocol,
    hop_limit: u8,
    message: PacketView,
) -> PacketView {
    let data = offload::emitted(iface.caps.checksum, protocol, message.data);
    PacketView { data, ..message }.prepended(
        ipv4::header_octets(src, dst, protocol, hop_limit, data.len(), iface.caps.checksum.ipv4.tx_view()),
    )
}

/// The interface after asking for an IPv4 neighbor with a broadcast ARP request.
/// Nothing is asked on an interface without an IPv4 address.
pub open spec fn arp_requested(iface: IfaceModel, target: Ipv4Address) -> IfaceModel {
    match iface_state::source_ipv4(iface.ip_addrs, target) {
        Some(src) => ethernet_sent(
            iface,
            EthernetAddress::broadcast_octets(),
            EthernetProtocol::Arp,
            PacketView::fresh(
                ETHERNET_HEADER_LEN as int,
                arp::packet_octets(
                    ArpOperation::Request.number(),
                    iface.ethernet_addr().0@,
                    src.0@,
                    EthernetAddress::broadcast_octets(),
                    target.0@,
                ),
            ),
        ),
        None => iface,
    }
}

/// A neighbor solicitation or advertisement an interface sends, with its own
/// link-layer address, without the IPv6 header.
pub open spec fn ndisc_message(
    iface: IfaceModel,
    message: icmpv6::Message,
    flags: u8,
    target: Ipv6Address,
    option: u8,
    src: Seq<u8>,
    dst: Seq<u8>,
) -> PacketView {
    PacketView::fresh(
        ETHERNET_HEADER_LEN + IPV6_HEADER_LEN,
        icmpv6::with_checksum(
            src,
            dst,
            ndisc::neighbor_message_octets(message.number(), flags, target.0@, option, iface.ethernet_addr().0@),
        ),
    )
}

/// The interface after asking for an IPv6 neighbor with a solicitation sent to
/// its solicited-node group.
pub open spec fn ndisc_solicited(iface: IfaceModel, target: Ipv6Address) -> IfaceModel {
    let src = source::source_ipv6(iface.ip_addrs, target).0@;
    let dst = Ipv6Address::solicited_node_prefix() + target.0@.skip(13);
    let message = ndisc_message(
        iface,
        icmpv6::Message::NeighborSolicit,
        0,
        target,
        ndisc::SOURCE_LINK_LAYER_ADDR,
        src,
        dst,
    );
    ethernet_sent(
        iface,
        multicast_mac(IpAddress::Ipv6(Ipv6Address::of(dst))),
        EthernetProtocol::Ipv6,
        ipv6_packet(iface, src, dst, IpProtocol::Icmpv6, 0xff, message),
    )
}

/// The interface after asking for a neighbor.
pub open spec fn solicited(iface: IfaceModel, addr: IpAddress) -> IfaceModel {
    match addr {
        IpAddress::Ipv4(a) => arp_requested(iface, a),
        IpAddress::Ipv6(a) => ndisc_solicited(iface, a),
    }
}

/// The frames that packets waiting for one neighbor are sent in once it is
/// resolved.
pub open spec fn flushed_frames(src: EthernetAddress, dst: EthernetAddress, packets: Seq<PendingView>) -> Seq<Frame> {
    packets.map_values(|p: PendingView| framed(src, dst.0@, ethertype_of(p.key.1), p.buf))
}

/// The state after learning a neighbor's hardware address: it is cached, and the
/// packets waiting for it are sent, oldest first.
pub open spec fn neighbor_filled(link: LinkModel, addr: IpAddress, hardware_addr: EthernetAddress) -> LinkModel {
    let key = (link.iface.handle, addr);
    LinkModel {
        inner: InnerModel {
            cache: neighbor::filled(link.inner.cache, key, hardware_addr, link.inner.now),
            pending: link.inner.pending.filter(pending::waits_elsewhere(key)),
            ..link.inner
        },
        iface: IfaceModel {
            tx: link.iface.tx + flushed_frames(
                link.iface.ethernet_addr(),
                hardware_addr,
                link.inner.pending.filter(pending::waits_for(key)),
            ),
            ..link.iface
        },
    }
}

/// The octets of the hardware address to send to, if it is known: a broadcast or
/// multicast destination has a fixed one, any other that of its next hop.
pub open spec fn resolved(link: LinkModel, dst: IpAddress, next_hop: IpAddress) -> Option<Seq<u8>> {
    if iface_state::is_broadcast(link.iface.ip_addrs, dst) {
        Some(EthernetAddress::broadcast_octets())
    } else if dst.multicast_view() {
        Some(multicast_mac(dst))
    } else {
        match neighbor::answer_of(link.inner.cache, (link.iface.handle, next_hop), link.inner.now) {
            Answer::Found(hardware_addr) => Some(hardware_addr.0@),
            _ => None,
        }
    }
}

/// The state after looking for the next hop's hardware address: a neighbor that
/// is neither known nor being resolved is asked for.
pub open spec fn looked_up(link: LinkModel, dst: IpAddress, next_hop: IpAddress) -> LinkModel {
    let key = (link.iface.handle, next_hop);
    if resolved(link, dst, next_hop) is None && neighbor::answer_of(link.inner.cache, key, link.inner.now)
        is NotFound {
        LinkModel {
            inner: InnerModel {
                cache: neighbor::resolution_started(link.inner.cache, key, link.inner.now),
                ..link.inner
            },
            iface: solicited(link.iface, next_hop),
        }
    } else {
        link
    }
}

/// The state after transmitting a whole IP packet: at once on an IP medium or to
/// a known hardware address, else when its next hop is resolved.
pub open spec fn ip_frame_sent(
    link: LinkModel,
    dst: IpAddress,
    next_hop: IpAddress,
    packet: PacketView,
    ethertype: EthernetProtocol,
) -> LinkModel {
    if link.iface.caps.medium != Medium::Ethernet {
        LinkModel { iface: link.iface.sent(packet.frame()), ..link }
    } else {
        let after = looked_up(link, dst, next_hop);
        match resolved(link, dst, next_hop) {
            Some(mac) => LinkModel { iface: ethernet_sent(after.iface, mac, ethertype, packet), ..after },
            None => LinkModel {
                inner: InnerModel {
                    pending: pending::queued(
                        after.inner.pending,
                        (after.iface.handle, next_hop),
                        packet,
                        after.inner.now,
                    ),
                    ..after.inner
                },
                ..after
            },
        }
    }
}

/// The state after transmitting a UDP packet on the interface without routing it. A
/// single host that is not on the interface's network is reached through the gateway the
/// routing table has for it, if any.
pub open spec fn ipv4_sent_on(link: LinkModel, src: Ipv4Address, dst: Ipv4Address, message: PacketView) -> LinkModel {
    let to = IpAddress::Ipv4(dst);
    let next_hop = if !dst.unicast_view() || iface_state::on_link(link.iface.ip_addrs, to) {
        to
    } else {
        match route::lookup_view(link.inner.routes, to, link.inner.now) {
            Some(route) => route.via_router,
            None => to,
        }
    };
    ip_frame_sent(
        link,
        to,
        next_hop,
        ipv4_packet(link.iface, src.0@, dst.0@, IpProtocol::Udp, 64, message),
        EthernetProtocol::Ipv4,
    )
}

/// Whether a destination can be resolved on the interface: a group, a broadcast
/// address, or one whose next hop is a single host.
pub open spec fn resolvable(iface: IfaceModel, dst: IpAddress, next_hop: IpAddress) -> bool {
    iface_state::is_broadcast(iface.ip_addrs, dst) || dst.multicast_view() || next_hop.unicast_view()
}

/// The state after an ARP packet was received.
///
/// Only requests and replies for one of the interface's addresses, from a host on
/// its network, count. The sender's address is learned, and a request answered.
pub open spec fn arp_processed(link: LinkModel, data: Seq<u8>) -> LinkModel {
    let operation = ArpOperation::of_number(bytes::be16(data, 6));
    let source_hardware = EthernetAddress::of(data.subrange(8, 14));
    let source = Ipv4Address::of(data.subrange(14, 18));
    let target = Ipv4Address::of(data.subrange(24, 28));
    if !arp::well_formed(data) || !arp::ipv4_over_ethernet(data) || !iface_state::has_addr(
        link.iface.ip_addrs,
        IpAddress::Ipv4(target),
    ) || operation is Unknown || !source.unicast_view() || !source_hardware.unicast_view()
        || !iface_state::on_link(link.iface.ip_addrs, IpAddress::Ipv4(source)) {
        link
    } else {
        let after = neighbor_filled(link, IpAddress::Ipv4(source), source_hardware);
        if operation == ArpOperation::Request {
            LinkModel {
                iface: ethernet_sent(
                    after.iface,
                    source_hardware.0@,
                    EthernetProtocol::Arp,
                    PacketView::fresh(
                        ETHERNET_HEADER_LEN as int,
                        arp::packet_octets(
                            ArpOperation::Reply.number(),
                            after.iface.ethernet_addr().0@,
                            target.0@,
                            source_hardware.0@,
                            source.0@,
                        ),
                    ),
                ),
                ..after
            }
        } else {
            after
        }
    }
}

/// The state after sending a neighbor discovery message, which is never routed.
pub open spec fn ndisc_sent(link: LinkModel, message: PacketView, src: Ipv6Address, dst: Ipv6Address) -> LinkModel {
    ip_frame_sent(
        link,
        IpAddress::Ipv6(dst),
        IpAddress::Ipv6(dst),
        ipv6_packet(link.iface, src.0@, dst.0@, IpProtocol::Icmpv6, 0xff, message),
        EthernetProtocol::Ipv6,
    )
}

/// The state after a neighbor solicitation was received.
///
/// The sender's link-layer address is learned if it was given, and a solicitation
/// of one of the interface's addresses, sent to its solicited-node group, is
/// answered with an advertisement.
pub open spec fn solicit_processed(link: LinkModel, src: Ipv6Address, dst: Ipv6Address, data: Seq<u8>) -> LinkModel {
    let target = Ipv6Address::of(data.subrange(8, 24));
    match ndisc::lladdr_option_view(data.skip(24), ndisc::SOURCE_LINK_LAYER_ADDR) {
        Some(option) => {
            let usable = match option {
                Some(octets) => EthernetAddress::of(octets).unicast_view() && target.unicast_view(),
                None => true,
            };
            if data[1] != 0 || !usable {
                link
            } else {
                let after = match option {
                    Some(octets) => neighbor_filled(link, IpAddress::Ipv6(src), EthernetAddress::of(octets)),
                    None => link,
                };
                if iface_state::has_solicited_node(link.iface.ip_addrs, dst) && iface_state::has_addr(
                    link.iface.ip_addrs,
                    IpAddress::Ipv6(target),
                ) {
                    ndisc_sent(
                        after,
                        ndisc_message(
                            after.iface,
                            icmpv6::Message::NeighborAdvert,
                            ndisc::FLAG_SOLICITED,
                            target,
                            ndisc::TARGET_LINK_LAYER_ADDR,
                            target.0@,
                            src.0@,
                        ),
                        target,
                        src,
                    )
                } else {
                    after
                }
            }
        },
        None => link,
    }
}

/// Whether the override flag of a neighbor advertisement is set.
pub open spec fn advert_overrides(data: Seq<u8>) -> bool {
    (data[4] / ndisc::FLAG_OVERRIDE) % 2 == 1
}

/// The state after a neighbor advertisement was received: the sender's link-layer
/// address is learned if it was given, and if it is not known yet or the
/// advertisement says to override what is known.
pub open spec fn advert_processed(link: LinkModel, src: Ipv6Address, data: Seq<u8>) -> LinkModel {
    let target = Ipv6Address::of(data.subrange(8, 24));
    match ndisc::lladdr_option_view(data.skip(24), ndisc::TARGET_LINK_LAYER_ADDR) {
        Some(Some(octets)) => {
            let known = neighbor::answer_of(
                link.inner.cache,
                (link.iface.handle, IpAddress::Ipv6(src)),
                link.inner.now,
            ) is Found;
            if data[1] == 0 && EthernetAddress::of(octets).unicast_view() && target.unicast_view() && (
            advert_overrides(data) || !known) {
                neighbor_filled(link, IpAddress::Ipv6(src), EthernetAddress::of(octets))
            } else {
                link
            }
        },
        _ => link,
    }
}

/// The stack after forgetting what the link layer learned about an interface.
pub open spec fn link_state_purged(inner: InnerModel, handle: IfaceHandle) -> InnerModel {
    InnerModel {
        cache: neighbor::without_iface(inner.cache, handle),
        pending: inner.pending.filter(pending::off_iface(handle)),
        ..inner
    }
}

/// Whether one state follows from another by what the link layer does on the
/// interface: frames are transmitted, neighbors learned or looked for on it, and
/// packets parked and flushed. Nothing else changes, and no frame is taken back.
pub open spec fn link_kept(before: LinkModel, after: LinkModel) -> bool {
    &&& after.iface == (IfaceModel { tx: after.iface.tx, ..before.iface })
    &&& before.iface.tx.len() <= after.iface.tx.len()
    &&& after.iface.tx.take(before.iface.tx.len() as int) == before.iface.tx
    &&& after.inner == (InnerModel { cache: after.inner.cache, pending: after.inner.pending, ..before.inner })
    &&& before.iface.caps.medium != Medium::Ethernet ==> after.inner == before.inner
    &&& cache_from(before.inner.cache, after.inner.cache, before.iface.handle)
}

/// Whether every neighbor on another interface was known before.
pub open spec fn cache_from(before: Entries, after: Entries, iface: IfaceHandle) -> bool {
    forall|i: int|
        0 <= i < after.len() ==> (#[trigger] after[i]).0.0 == iface || exists|j: int|
            0 <= j < before.len() && (#[trigger] before[j]).0 == after[i].0
}

proof fn lemma_cache_from_inserted(before: Entries, now: Entries, key: neighbor::Key, state: neighbor::State)
    requires
        cache_from(before, now, key.0),
    ensures
        cache_from(before, neighbor::inserted(now, key, state), key.0),
{
    let pred = |k: neighbor::Key|
        k.0 == key.0 || exists|j: int| 0 <= j < before.len() && (#[trigger] before[j]).0 == k;
    assert forall|i: int| 0 <= i < now.len() implies pred((#[trigger] now[i]).0) by {}
    neighbor::lemma_inserted_all(now, key, state, pred);
    let after = neighbor::inserted(now, key, state);
    assert forall|i: int| 0 <= i < after.len() implies (#[trigger] after[i]).0.0 == key.0 || exists|j: int|
        0 <= j < before.len() && (#[trigger] before[j]).0 == after[i].0 by {
        assert(pred(after[i].0));
    }
}

/// Link-layer changes add up.
pub proof fn lemma_link_kept_trans(a: LinkModel, b: LinkModel, c: LinkModel)
    requires
        link_kept(a, b),
        link_kept(b, c),
    ensures
        link_kept(a, c),
{
    assert(c.iface.tx.take(a.iface.tx.len() as int) =~= c.iface.tx.take(b.iface.tx.len() as int).take(
        a.iface.tx.len() as int,
    ));
    assert forall|i: int| 0 <= i < c.inner.cache.len() implies (#[trigger] c.inner.cache[i]).0.0 == a.iface.handle
        || exists|j: int| 0 <= j < a.inner.cache.len() && (#[trigger] a.inner.cache[j]).0 == c.inner.cache[i].0 by {
        if c.inner.cache[i].0.0 != a.iface.handle {
            let j = choose|j: int|
                0 <= j < b.inner.cache.len() && (#[trigger] b.inner.cache[j]).0 == c.inner.cache[i].0;
            assert(b.inner.cache[j].0 == c.inner.cache[i].0);
        }
    }
}

/// Transmitting a frame is a link-layer change.
pub proof fn lemma_sent_kept(link: LinkModel, frame: Frame)
    ensures
        link_kept(link, LinkModel { iface: link.iface.sent(frame), ..link }),
{
    let after = link.iface.sent(frame);
    assert(after.tx.take(link.iface.tx.len() as int) =~= link.iface.tx);
    assert forall|i: int| 0 <= i < link.inner.cache.len() implies (#[trigger] link.inner.cache[i]).0.0
        == link.iface.handle || exists|j: int|
        0 <= j < link.inner.cache.len() && (#[trigger] link.inner.cache[j]).0 == link.inner.cache[i].0 by {
        assert(link.inner.cache[i].0 == link.inner.cache[i].0);
    }
}

/// Doing nothing is a link-layer change.
pub proof fn lemma_link_kept_refl(link: LinkModel)
    ensures
        link_kept(link, link),
{
    assert(link.iface.tx.take(link.iface.tx.len() as int) =~= link.iface.tx);
    assert forall|i: int| 0 <= i < link.inner.cache.len() implies (#[trigger] link.inner.cache[i]).0.0
        == link.iface.handle || exists|j: int|
        0 <= j < link.inner.cache.len() && (#[trigger] link.inner.cache[j]).0 == link.inner.cache[i].0 by {
        assert(link.inner.cache[i].0 == link.inner.cache[i].0);
    }
}

/// Transmitting an IP packet is a link-layer change.
pub proof fn lemma_ip_frame_sent_kept(
    link: LinkModel,
    dst: IpAddress,
    next_hop: IpAddress,
    packet: PacketView,
    ethertype: EthernetProtocol,
)
    ensures
        link_kept(link, ip_frame_sent(link, dst, next_hop, packet, ethertype)),
{
    lemma_link_kept_refl(link);
    lemma_sent_kept(link, packet.frame());
    if link.iface.caps.medium == Medium::Ethernet {
        let after = looked_up(link, dst, next_hop);
        if resolved(link, dst, next_hop) is Some {
            lemma_sent_kept(
                link,
                framed(link.iface.ethernet_addr(), resolved(link, dst, next_hop)->0, ethertype, packet),
            );
        } else if neighbor::answer_of(link.inner.cache, (link.iface.handle, next_hop), link.inner.now) is NotFound {
            lemma_cache_from_inserted(
                link.inner.cache,
                link.inner.cache,
                (link.iface.handle, next_hop),
                neighbor::State::Incomplete {
                    probes_sent: 1,
                    retrans_at: neighbor::after_micros(link.inner.now, neighbor::RETRANS_TIMER_MICROS),
                },
            );
            assert(after.iface.tx.take(link.iface.tx.len() as int) =~= link.iface.tx);
        }
    }
}

/// Learning a neighbor is a link-layer change.
pub proof fn lemma_neighbor_filled_kept(link: LinkModel, addr: IpAddress, hardware_addr: EthernetAddress)
    requires
        link.iface.caps.medium == Medium::Ethernet,
    ensures
        link_kept(link, neighbor_filled(link, addr, hardware_addr)),
{
    let after = neighbor_filled(link, addr, hardware_addr);
    lemma_link_kept_refl(link);
    lemma_cache_from_inserted(
        link.inner.cache,
        link.inner.cache,
        (link.iface.handle, addr),
        neighbor::State::Reachable {
            hardware_addr,
            expires_at: neighbor::after_micros(link.inner.now, neighbor::ENTRY_LIFETIME_MICROS),
        },
    );
    assert(after.iface.tx.take(link.iface.tx.len() as int) =~= link.iface.tx);
}

/// Processing an ARP packet is a link-layer change.
pub proof fn lemma_arp_processed_kept(link: LinkModel, data: Seq<u8>)
    requires
        link.iface.caps.medium == Medium::Ethernet,
    ensures
        link_kept(link, arp_processed(link, data)),
{
    let after = arp_processed(link, data);
    let filled = neighbor_filled(
        link,
        IpAddress::Ipv4(Ipv4Address::of(data.subrange(14, 18))),
        EthernetAddress::of(data.subrange(8, 14)),
    );
    lemma_link_kept_refl(link);
    lemma_neighbor_filled_kept(
        link,
        IpAddress::Ipv4(Ipv4Address::of(data.subrange(14, 18))),
        EthernetAddress::of(data.subrange(8, 14)),
    );
    if after != link && after != filled {
        lemma_sent_kept(filled, after.iface.tx.last());
        lemma_link_kept_trans(link, filled, after);
    }
}

/// Processing a neighbor solicitation is a link-layer change.
pub proof fn lemma_solicit_processed_kept(link: LinkModel, src: Ipv6Address, dst: Ipv6Address, data: Seq<u8>)
    requires
        link.iface.caps.medium == Medium::Ethernet,
    ensures
        link_kept(link, solicit_processed(link, src, dst, data)),
{
    let after = solicit_processed(link, src, dst, data);
    lemma_link_kept_refl(link);
    match ndisc::lladdr_option_view(data.skip(24), ndisc::SOURCE_LINK_LAYER_ADDR) {
        Some(option) => {
            let filled = match option {
                Some(octets) => neighbor_filled(link, IpAddress::Ipv6(src), EthernetAddress::of(octets)),
                None => link,
            };
            if option is Some {
                lemma_neighbor_filled_kept(link, IpAddress::Ipv6(src), EthernetAddress::of(option->0));
            }
            let target = Ipv6Address::of(data.subrange(8, 24));
            let message = ndisc_message(
                filled.iface,
                icmpv6::Message::NeighborAdvert,
                ndisc::FLAG_SOLICITED,
                target,
                ndisc::TARGET_LINK_LAYER_ADDR,
                target.0@,
                src.0@,
            );
            lemma_ip_frame_sent_kept(
                filled,
                IpAddress::Ipv6(src),
                IpAddress::Ipv6(src),
                ipv6_packet(filled.iface, target.0@, src.0@, IpProtocol::Icmpv6, 0xff, message),
                EthernetProtocol::Ipv6,
            );
            lemma_link_kept_trans(link, filled, ndisc_sent(filled, message, target, src));
        },
        None => {},
    }
}

/// Processing a neighbor advertisement is a link-layer change.
pub proof fn lemma_advert_processed_kept(link: LinkModel, src: Ipv6Address, data: Seq<u8>)
    requires
        link.iface.caps.medium == Medium::Ethernet,
    ensures
        link_kept(link, advert_processed(link, src, data)),
{
    lemma_link_kept_refl(link);
    match ndisc::lladdr_option_view(data.skip(24), ndisc::TARGET_LINK_LAYER_ADDR) {
        Some(Some(octets)) => {
            lemma_neighbor_filled_kept(link, IpAddress::Ipv6(src), EthernetAddress::of(octets));
        },
        _ => {},
    }
}

/// A single host's address.
pub open spec fn unicast_key() -> spec_fn(neighbor::Key) -> bool {
    |key: neighbor::Key| key.1.unicast_view()
}

/// Filtering keeps the waiting packets usable.
pub proof fn lemma_pending_filter(packets: Seq<PendingView>, pred: spec_fn(PendingView) -> bool)
    requires
        pending_ok(packets),
    ensures
        pending_ok(packets.filter(pred)),
{
    neighbor::lemma_filter_subset(packets, pred);
    let kept = packets.filter(pred);
    assert forall|i: int| 0 <= i < kept.len() implies (#[trigger] kept[i]).buf.head.len() >= LINK_HEADER_LEN
        && ip_packet(kept[i].buf.data) by {
        assert(packets.contains(kept[i]));
        let k = choose|k: int| 0 <= k < packets.len() && packets[k] == kept[i];
        assert(packets[k].buf.head.len() >= LINK_HEADER_LEN);
    }
}

/// Storing a state for a single host keeps every neighbor one.
pub proof fn lemma_neighbors_inserted(entries: Entries, key: neighbor::Key, state: neighbor::State)
    requires
        neighbors_ok(entries),
        key.1.unicast_view(),
    ensures
        neighbors_ok(neighbor::inserted(entries, key, state)),
{
    let pred = unicast_key();
    assert forall|i: int| 0 <= i < entries.len() implies pred((#[trigger] entries[i]).0) by {}
    neighbor::lemma_inserted_all(entries, key, state, pred);
    let after = neighbor::inserted(entries, key, state);
    assert forall|i: int| 0 <= i < after.len() implies (#[trigger] after[i]).0.1.unicast_view() by {
        assert(pred(after[i].0));
    }
}

/// Prepend an IPv4 header to a fully-built L4 payload.
pub fn push_ipv4_header(
    buf: &mut PacketBuf,
    src_addr: Ipv4Address,
    dst_addr: Ipv4Address,
    next_header: IpProtocol,
    hop_limit: u8,
    sum: bool,
)
    requires
        old(buf).wf(),
        old(buf)@.head.len() >= IPV4_HEADER_LEN,
    ensures
        final(buf).wf(),
        final(buf)@ == old(buf)@.prepended(
            ipv4::header_octets(src_addr.0@, dst_addr.0@, next_header, hop_limit, old(buf)@.data.len(), sum),
        ),
{
    proof {
        buf.lemma_fits();
    }
    let header = ipv4::emit_header(src_addr, dst_addr, next_header, hop_limit, buf.len(), sum);
    buf.prepend(header.as_slice());
}

/// Prepend an IPv6 header to a fully-built L4 payload.
pub fn push_ipv6_header(
    buf: &mut PacketBuf,
    src_addr: Ipv6Address,
    dst_addr: Ipv6Address,
    next_header: IpProtocol,
    hop_limit: u8,
)
    requires
        old(buf).wf(),
        old(buf)@.head.len() >= IPV6_HEADER_LEN,
    ensures
        final(buf).wf(),
        final(buf)@ == old(buf)@.prepended(
            ipv6::header_octets(src_addr.0@, dst_addr.0@, next_header, hop_limit, old(buf)@.data.len()),
        ),
{
    proof {
        buf.lemma_fits();
    }
    let header = ipv6::emit_header(src_addr, dst_addr, next_header, hop_limit, buf.len());
    buf.prepend(header.as_slice());
}

/// The EtherType of packets to an address.
pub fn ethertype_for(addr: &IpAddress) -> (r: EthernetProtocol)
    ensures
        r == ethertype_of(*addr),
{
    match addr {
        IpAddress::Ipv4(_) => EthernetProtocol::Ipv4,
        IpAddress::Ipv6(_) => EthernetProtocol::Ipv6,
    }
}

/// The Ethernet group that frames to an IP group are sent to.
pub fn multicast_hardware_addr(addr: &IpAddress) -> (r: EthernetAddress)
    ensures
        r.0@ == multicast_mac(*addr),
{
    let r = match addr {
        IpAddress::Ipv4(a) => EthernetAddress([0x01, 0x00, 0x5e, a.0[1] % 128, a.0[2], a.0[3]]),
        IpAddress::Ipv6(a) => EthernetAddress([0x33, 0x33, a.0[12], a.0[13], a.0[14], a.0[15]]),
    };
    assert(r.0@ =~= multicast_mac(*addr));
    r
}

/// The result of a neighbor lookup.
pub enum NeighborLookup {
    /// The destination hardware address.
    Found(EthernetAddress),
    /// The neighbor is being resolved; the packet should be queued as pending.
    Pending { next_hop: IpAddress },
}

impl StackInner {
    /// What every operation keeps.
    pub open spec fn wf(&self) -> bool {
        self@.wf() && self.pending.wf()
    }

    /// Forget everything the link layer learned about an interface: its neighbor
    /// cache entries and the packets parked on them.
    pub fn purge_iface_link_state(&mut self, handle: IfaceHandle)
        requires
            old(self).wf(),
        ensures
            final(self).wf(),
            final(self)@ == link_state_purged(old(self)@, handle),
    {
        self.neighbor_cache.purge_iface(handle);
        self.pending.purge_iface(handle);
        proof {
            lemma_pending_filter(old(self)@.pending, pending::off_iface(handle));
            neighbor::lemma_filter_subset(old(self)@.cache, neighbor::off_iface(handle));
            let kept = self@.cache;
            assert forall|i: int| 0 <= i < kept.len() implies (#[trigger] kept[i]).0.1.unicast_view() by {
                assert(old(self)@.cache.contains(kept[i]));
            }
        }
    }

    /// Hand a frame to an interface's device.
    pub fn transmit_raw(&mut self, iface: &mut IfaceState, buf: PacketBuf)
        requires
            old(iface).wf(),
            buf.wf(),
        ensures
            *final(self) == *old(self),
            final(iface).wf(),
            final(iface)@ == old(iface)@.sent(buf@.frame()),
    {
        iface.transmit(buf);
    }

    /// Transmit a packet in an Ethernet frame.
    pub fn transmit_ethernet(
        &mut self,
        iface: &mut IfaceState,
        dst_hw: EthernetAddress,
        mut buf: PacketBuf,
        ethertype: EthernetProtocol,
    )
        requires
            old(iface).wf(),
            old(iface)@.caps.medium == Medium::Ethernet,
            buf.wf(),
            buf@.head.len() >= ETHERNET_HEADER_LEN,
        ensures
            *final(self) == *old(self),
            final(iface).wf(),
            final(iface)@ == ethernet_sent(old(iface)@, dst_hw.0@, ethertype, buf@),
    {
        let header = EthernetHeader { dst_addr: dst_hw, src_addr: iface.ethernet_addr(), ethertype };
        let octets = header.emit();
        buf.prepend(octets.as_slice());
        self.transmit_raw(iface, buf);
    }

    fn transmit_arp_request(&mut self, iface: &mut IfaceState, target_addr: Ipv4Address)
        requires
            old(iface).wf(),
            old(iface)@.caps.medium == Medium::Ethernet,
        ensures
            *final(self) == *old(self),
            final(iface).wf(),
            final(iface)@ == arp_requested(old(iface)@, target_addr),
    {
        let source_protocol_addr = match iface.get_source_address_ipv4(&target_addr) {
            Some(addr) => addr,
            None => return,
        };
        let repr = ArpRepr {
            operation: ArpOperation::Request,
            source_hardware_addr: iface.ethernet_addr(),
            source_protocol_addr,
            target_hardware_addr: EthernetAddress::broadcast(),
            target_protocol_addr: target_addr,
        };
        let octets = repr.emit();
        let buf = PacketBuf::with_data(ETHERNET_HEADER_LEN, octets.as_slice());
        self.transmit_ethernet(iface, EthernetAddress::broadcast(), buf, EthernetProtocol::Arp);
    }

    /// A neighbor solicitation or advertisement with the interface's own
    /// link-layer address.
    fn build_ndisc(
        iface: &IfaceState,
        message: icmpv6::Message,
        flags: u8,
        target: Ipv6Address,
        option: u8,
        src: &Ipv6Address,
        dst: &Ipv6Address,
    ) -> (r: PacketBuf)
        requires
            iface.wf(),
            iface@.caps.medium == Medium::Ethernet,
        ensures
            r.wf(),
            r@ == ndisc_message(iface@, message, flags, target, option, src.0@, dst.0@),
            r@.data.len() == 32,
    {
        let mut octets = ndisc::neighbor_message(u8::from(message), flags, target, option, iface.ethernet_addr());
        icmpv6::fill_checksum(octets.as_mut_slice(), src, dst);
        PacketBuf::with_data(ETHERNET_HEADER_LEN + IPV6_HEADER_LEN, octets.as_slice())
    }

    fn transmit_ndisc_solicit(&mut self, iface: &mut IfaceState, target_addr: Ipv6Address)
        requires
            old(iface).wf(),
            old(iface)@.caps.medium == Medium::Ethernet,
            !target_addr.unspecified_view(),
        ensures
            *final(self) == *old(self),
            final(iface).wf(),
            final(iface)@ == ndisc_solicited(old(iface)@, target_addr),
    {
        let src_addr = iface.get_source_address_ipv6(&target_addr);
        let dst_addr = target_addr.solicited_node();
        let mut buf = Self::build_ndisc(
            iface,
            icmpv6::Message::NeighborSolicit,
            0,
            target_addr,
            ndisc::SOURCE_LINK_LAYER_ADDR,
            &src_addr,
            &dst_addr,
        );
        offload::blank_checksum(&mut buf, &iface.caps.checksum, IpProtocol::Icmpv6);
        proof {
            ipv6::lemma_header_shape(src_addr.0@, dst_addr.0@, IpProtocol::Icmpv6, 0xff, buf@.data.len());
        }
        push_ipv6_header(&mut buf, src_addr, dst_addr, IpProtocol::Icmpv6, 0xff);
        // The solicited-node destination is multicast, so its hardware address
        // needs no resolution.
        let dst_hw = multicast_hardware_addr(&IpAddress::Ipv6(dst_addr));
        proof {
            dst_addr.lemma_of();
        }
        self.transmit_ethernet(iface, dst_hw, buf, EthernetProtocol::Ipv6);
    }

    /// Send a solicitation (ARP request / NDISC neighbor solicit) for the given address.
    pub fn solicit_neighbor(&mut self, iface: &mut IfaceState, addr: IpAddress)
        requires
            old(iface).wf(),
            old(iface)@.caps.medium == Medium::Ethernet,
            addr.unicast_view(),
        ensures
            *final(self) == *old(self),
            final(iface).wf(),
            final(iface)@ == solicited(old(iface)@, addr),
    {
        match addr {
            IpAddress::Ipv4(addr) => self.transmit_arp_request(iface, addr),
            IpAddress::Ipv6(addr) => self.transmit_ndisc_solicit(iface, addr),
        }
    }

    /// Fill the neighbor cache, and flush any packets that were queued waiting for
    /// this neighbor to resolve.
    pub fn fill_neighbor(&mut self, iface: &mut IfaceState, addr: IpAddress, hardware_addr: EthernetAddress)
        requires
            old(self).wf(),
            old(iface).wf(),
            old(iface)@.caps.medium == Medium::Ethernet,
            addr.unicast_view(),
            hardware_addr.unicast_view(),
        ensures
            final(self).wf(),
            final(iface).wf(),
            (LinkModel { inner: final(self)@, iface: final(iface)@ }) == neighbor_filled(
                LinkModel { inner: old(self)@, iface: old(iface)@ },
                addr,
                hardware_addr,
            ),
    {
        let key = (iface.handle, addr);
        self.neighbor_cache.fill(key, hardware_addr, self.now);
        let mut waiting = self.pending.take_matching(&key);
        let ghost all = waiting@;
        let ghost before = iface@;
        let ghost flushed = old(self)@.pending.filter(pending::waits_for(key));
        proof {
            lemma_pending_filter(old(self)@.pending, pending::waits_for(key));
            lemma_pending_filter(old(self)@.pending, pending::waits_elsewhere(key));
            lemma_neighbors_inserted(
                old(self)@.cache,
                key,
                neighbor::State::Reachable {
                    hardware_addr,
                    expires_at: neighbor::after_micros(self.now, neighbor::ENTRY_LIFETIME_MICROS),
                },
            );
            assert(all.skip(0) =~= all);
            assert(flushed_frames(before.ethernet_addr(), hardware_addr, flushed.take(0)) =~= Seq::<Frame>::empty());
            assert(before.tx + Seq::<Frame>::empty() =~= before.tx);
        }
        let ghost mut done: int = 0;
        let ghost inner = *self;
        while waiting.len() > 0
            invariant
                0 <= done <= all.len(),
                waiting@ == all.skip(done),
                *self == inner,
                pending::bufs_ok(all),
                pending::views(all) == flushed,
                pending_ok(flushed),
                iface.wf(),
                iface@.caps.medium == Medium::Ethernet,
                iface@ == (IfaceModel {
                    tx: before.tx + flushed_frames(before.ethernet_addr(), hardware_addr, flushed.take(done)),
                    ..before
                }),
            decreases waiting@.len(),
        {
            let packet = waiting.remove(0);
            proof {
                assert(packet == all[done]);
                assert(packet@ == flushed[done]);
                assert(flushed[done].buf.head.len() >= LINK_HEADER_LEN);
                assert(all.skip(done).remove(0) =~= all.skip(done + 1));
                assert(flushed.take(done + 1) =~= flushed.take(done).push(flushed[done]));
            }
            let ethertype = ethertype_for(&packet.key.1);
            self.transmit_ethernet(iface, hardware_addr, packet.buf, ethertype);
            proof {
                assert(iface@.tx =~= before.tx + flushed_frames(
                    before.ethernet_addr(),
                    hardware_addr,
                    flushed.take(done + 1),
                ));
                done = done + 1;
            }
        }
        proof {
            assert(flushed.take(done) =~= flushed);
        }
    }

    /// Look up the destination hardware address for an egress packet, sending a
    /// solicitation (ARP request / NDISC neighbor solicit) if it is not resolved yet.
    ///
    /// `next_hop` is the pre-routed address to resolve on the link.
    pub fn lookup_hardware_addr(&mut self, iface: &mut IfaceState, dst_addr: &IpAddress, next_hop: IpAddress) -> (r:
        NeighborLookup)
        requires
            old(self).wf(),
            old(iface).wf(),
            old(iface)@.caps.medium == Medium::Ethernet,
            resolvable(old(iface)@, *dst_addr, next_hop),
        ensures
            final(self).wf(),
            final(iface).wf(),
            ({
                let before = LinkModel { inner: old(self)@, iface: old(iface)@ };
                &&& (LinkModel { inner: final(self)@, iface: final(iface)@ }) == looked_up(
                    before,
                    *dst_addr,
                    next_hop,
                )
                &&& match resolved(before, *dst_addr, next_hop) {
                    Some(mac) => r matches NeighborLookup::Found(addr) && addr.0@ == mac,
                    None => r == (NeighborLookup::Pending { next_hop }),
                }
            }),
            resolved(LinkModel { inner: old(self)@, iface: old(iface)@ }, *dst_addr, next_hop) is None
                ==> next_hop.unicast_view(),
    {
        if iface.is_broadcast(dst_addr) {
            return NeighborLookup::Found(EthernetAddress::broadcast());
        }
        if dst_addr.is_multicast() {
            return NeighborLookup::Found(multicast_hardware_addr(dst_addr));
        }
        match self.neighbor_cache.lookup(&(iface.handle, next_hop), self.now) {
            Answer::Found(hardware_addr) => return NeighborLookup::Found(hardware_addr),
            // Resolution is already in progress; the retransmission timer owns
            // any further solicitations.
            Answer::Pending => return NeighborLookup::Pending { next_hop },
            Answer::NotFound => {},
        }
        // Start resolving: create the INCOMPLETE entry and send the first solicitation.
        proof {
            lemma_neighbors_inserted(
                self@.cache,
                (iface.handle, next_hop),
                neighbor::State::Incomplete {
                    probes_sent: 1,
                    retrans_at: neighbor::after_micros(self.now, neighbor::RETRANS_TIMER_MICROS),
                },
            );
        }
        self.neighbor_cache.start_resolution((iface.handle, next_hop), self.now);
        self.solicit_neighbor(iface, next_hop);
        NeighborLookup::Pending { next_hop }
    }

    /// Transmit a fully-built IP packet, resolving the destination hardware address
    /// on Ethernet mediums.
    ///
    /// `next_hop` is the pre-routed address to resolve on the link. If the neighbor is
    /// not resolved yet, the packet is queued and flushed when resolution completes.
    pub fn transmit_ip_frame(
        &mut self,
        iface: &mut IfaceState,
        dst_addr: IpAddress,
        next_hop: IpAddress,
        buf: PacketBuf,
        ethertype: EthernetProtocol,
    )
        requires
            old(self).wf(),
            old(iface).wf(),
            buf.wf(),
            buf@.head.len() >= LINK_HEADER_LEN,
            ip_packet(buf@.data),
            old(iface)@.caps.medium == Medium::Ethernet ==> resolvable(old(iface)@, dst_addr, next_hop),
        ensures
            final(self).wf(),
            final(iface).wf(),
            (LinkModel { inner: final(self)@, iface: final(iface)@ }) == ip_frame_sent(
                LinkModel { inner: old(self)@, iface: old(iface)@ },
                dst_addr,
                next_hop,
                buf@,
                ethertype,
            ),
    {
        match iface.medium() {
            Medium::Ethernet => match self.lookup_hardware_addr(iface, &dst_addr, next_hop) {
                NeighborLookup::Found(hardware_addr) => {
                    self.transmit_ethernet(iface, hardware_addr, buf, ethertype);
                },
                NeighborLookup::Pending { next_hop } => {
                    let ghost waiting = self@.pending;
                    self.pending.push((iface.handle, next_hop), buf, self.now);
                    proof {
                        assert(pending_ok(self@.pending)) by {
                            let after = self@.pending;
                            assert forall|i: int| 0 <= i < after.len() implies (#[trigger] after[i]).buf.head.len()
                                >= LINK_HEADER_LEN && ip_packet(after[i].buf.data) by {
                                if i < after.len() - 1 {
                                    assert(waiting.contains(after[i])) by {
                                        pending::lemma_with_room(waiting, iface.handle);
                                    }
                                }
                            }
                        }
                    }
                },
            },
            _ => self.transmit_raw(iface, buf),
        }
    }

    /// Transmit a fully-built UDP packet on a given interface as an IPv4 packet from
    /// `src_addr` to `dst_addr`, bypassing routing and source address checks.
    ///
    /// This is how to send from `0.0.0.0` to broadcast on an interface that has no
    /// address yet. A unicast destination that is not on-link is sent via the routing
    /// table's gateway, if any, else directly.
    pub fn transmit_ipv4_on(
        &mut self,
        iface: &mut IfaceState,
        src_addr: Ipv4Address,
        dst_addr: Ipv4Address,
        mut buf: PacketBuf,
    )
        requires
            old(self).wf(),
            old(iface).wf(),
            buf.wf(),
            buf@.head.len() >= LINK_HEADER_LEN + IPV4_HEADER_LEN,
            !dst_addr.unspecified_view(),
        ensures
            final(self).wf(),
            final(iface).wf(),
            (LinkModel { inner: final(self)@, iface: final(iface)@ }) == ipv4_sent_on(
                LinkModel { inner: old(self)@, iface: old(iface)@ },
                src_addr,
                dst_addr,
                buf@,
            ),
    {
        offload::blank_checksum(&mut buf, &iface.caps.checksum, IpProtocol::Udp);
        let sum = iface.caps.checksum.ipv4.tx();
        proof {
            ipv4::lemma_header_shape(src_addr.0@, dst_addr.0@, IpProtocol::Udp, 64, buf@.data.len(), sum);
        }
        push_ipv4_header(&mut buf, src_addr, dst_addr, IpProtocol::Udp, 64, sum);
        let dst = IpAddress::Ipv4(dst_addr);
        let next_hop = if !dst.is_unicast() || iface.in_same_network(&dst) {
            dst
        } else {
            match self.routes.lookup(&dst, self.now) {
                Some(route) => {
                    proof {
                        let k = choose|k: int| 0 <= k < self@.routes.len() && self@.routes[k] == route;
                        assert(self@.routes[k].wf());
                    }
                    route.via_router
                },
                None => dst,
            }
        };
        self.transmit_ip_frame(iface, dst, next_hop, buf, EthernetProtocol::Ipv4);
    }

    /// Transmit an NDISC message on the given interface.
    ///
    /// NDISC is link-scoped: the packet is never routed, and the next hop is the
    /// destination itself (an on-link neighbor or a multicast group).
    pub fn transmit_ndisc(
        &mut self,
        iface: &mut IfaceState,
        mut buf: PacketBuf,
        src_addr: Ipv6Address,
        dst_addr: Ipv6Address,
    )
        requires
            old(self).wf(),
            old(iface).wf(),
            buf.wf(),
            buf@.head.len() >= LINK_HEADER_LEN + IPV6_HEADER_LEN,
            !dst_addr.unspecified_view(),
        ensures
            final(self).wf(),
            final(iface).wf(),
            (LinkModel { inner: final(self)@, iface: final(iface)@ }) == ndisc_sent(
                LinkModel { inner: old(self)@, iface: old(iface)@ },
                buf@,
                src_addr,
                dst_addr,
            ),
    {
        offload::blank_checksum(&mut buf, &iface.caps.checksum, IpProtocol::Icmpv6);
        proof {
            ipv6::lemma_header_shape(src_addr.0@, dst_addr.0@, IpProtocol::Icmpv6, 0xff, buf@.data.len());
        }
        push_ipv6_header(&mut buf, src_addr, dst_addr, IpProtocol::Icmpv6, 0xff);
        self.transmit_ip_frame(
            iface,
            IpAddress::Ipv6(dst_addr),
            IpAddress::Ipv6(dst_addr),
            buf,
            EthernetProtocol::Ipv6,
        );
    }

    /// Process an ARP packet.
    pub fn process_arp(&mut self, iface: &mut IfaceState, buf: &PacketBuf)
        requires
            old(self).wf(),
            old(iface).wf(),
            old(iface)@.caps.medium == Medium::Ethernet,
            buf.wf(),
        ensures
            final(self).wf(),
            final(iface).wf(),
            (LinkModel { inner: final(self)@, iface: final(iface)@ }) == arp_processed(
                LinkModel { inner: old(self)@, iface: old(iface)@ },
                buf@.data,
            ),
    {
        let repr = match ArpRepr::parse(buf.as_slice()) {
            Ok(repr) => repr,
            Err(_) => return,
        };
        let source_hardware_addr = repr.source_hardware_addr;
        let source_protocol_addr = repr.source_protocol_addr;
        let target_protocol_addr = repr.target_protocol_addr;
        proof {
            source_hardware_addr.lemma_of();
            source_protocol_addr.lemma_of();
            target_protocol_addr.lemma_of();
        }
        // Only process ARP packets for us.
        if !iface.has_ip_addr(&IpAddress::Ipv4(target_protocol_addr)) {
            return;
        }
        // Only process REQUEST and RESPONSE.
        match repr.operation {
            ArpOperation::Unknown(_) => return,
            _ => {},
        }
        // Discard packets with non-unicast source addresses.
        if !source_protocol_addr.is_unicast() || !source_hardware_addr.is_unicast() {
            return;
        }
        if !iface.in_same_network(&IpAddress::Ipv4(source_protocol_addr)) {
            return;
        }
        // Fill the ARP cache from any ARP packet aimed at us (both request or response).
        // We fill from requests too because if someone is requesting our address they
        // are probably going to talk to us, so we avoid having to request their address
        // when we later reply to them.
        self.fill_neighbor(iface, IpAddress::Ipv4(source_protocol_addr), source_hardware_addr);

        if repr.operation == ArpOperation::Request {
            let reply = ArpRepr {
                operation: ArpOperation::Reply,
                source_hardware_addr: iface.ethernet_addr(),
                source_protocol_addr: target_protocol_addr,
                target_hardware_addr: source_hardware_addr,
                target_protocol_addr: source_protocol_addr,
            };
            let octets = reply.emit();
            let reply = PacketBuf::with_data(ETHERNET_HEADER_LEN, octets.as_slice());
            self.transmit_ethernet(iface, source_hardware_addr, reply, EthernetProtocol::Arp);
        }
    }

    /// Process a neighbor solicitation, without its IPv6 header.
    pub fn process_ndisc_solicit(
        &mut self,
        iface: &mut IfaceState,
        src_addr: Ipv6Address,
        dst_addr: Ipv6Address,
        message: &[u8],
    )
        requires
            old(self).wf(),
            old(iface).wf(),
            old(iface)@.caps.medium == Medium::Ethernet,
            src_addr.unicast_view(),
            message@.len() >= icmpv6::NEIGHBOR_HEADER_LEN,
        ensures
            final(self).wf(),
            final(iface).wf(),
            (LinkModel { inner: final(self)@, iface: final(iface)@ }) == solicit_processed(
                LinkModel { inner: old(self)@, iface: old(iface)@ },
                src_addr,
                dst_addr,
                message@,
            ),
    {
        if message[1] != 0 {
            return;
        }
        let target_addr = Ipv6Address::from_bytes(&message[8..24]);
        let n: usize = message.len();
        let options = &message[24..n];
        assert(options@ =~= message@.skip(24));
        let lladdr = match ndisc::lladdr_option(options, ndisc::SOURCE_LINK_LAYER_ADDR) {
            Ok(lladdr) => lladdr,
            Err(_) => return,
        };
        if let Some(lladdr) = lladdr {
            let lladdr = match lladdr.parse_ethernet() {
                Ok(lladdr) => lladdr,
                Err(_) => return,
            };
            proof {
                lladdr.lemma_of();
            }
            if !lladdr.is_unicast() || !target_addr.is_unicast() {
                return;
            }
            self.fill_neighbor(iface, IpAddress::Ipv6(src_addr), lladdr);
        }
        if iface.has_solicited_node(dst_addr) && iface.has_ip_addr(&IpAddress::Ipv6(target_addr)) {
            let reply = Self::build_ndisc(
                iface,
                icmpv6::Message::NeighborAdvert,
                ndisc::FLAG_SOLICITED,
                target_addr,
                ndisc::TARGET_LINK_LAYER_ADDR,
                &target_addr,
                &src_addr,
            );
            self.transmit_ndisc(iface, reply, target_addr, src_addr);
        }
    }

    /// Process a neighbor advertisement, without its IPv6 header.
    pub fn process_ndisc_advert(&mut self, iface: &mut IfaceState, src_addr: Ipv6Address, message: &[u8])
        requires
            old(self).wf(),
            old(iface).wf(),
            old(iface)@.caps.medium == Medium::Ethernet,
            src_addr.unicast_view(),
            message@.len() >= icmpv6::NEIGHBOR_HEADER_LEN,
        ensures
            final(self).wf(),
            final(iface).wf(),
            (LinkModel { inner: final(self)@, iface: final(iface)@ }) == advert_processed(
                LinkModel { inner: old(self)@, iface: old(iface)@ },
                src_addr,
                message@,
            ),
    {
        if message[1] != 0 {
            return;
        }
        let overrides = (message[4] / ndisc::FLAG_OVERRIDE) % 2 == 1;
        let target_addr = Ipv6Address::from_bytes(&message[8..24]);
        let n: usize = message.len();
        let options = &message[24..n];
        assert(options@ =~= message@.skip(24));
        let lladdr = match ndisc::lladdr_option(options, ndisc::TARGET_LINK_LAYER_ADDR) {
            Ok(lladdr) => lladdr,
            Err(_) => return,
        };
        let ip_addr = IpAddress::Ipv6(src_addr);
        if let Some(lladdr) = lladdr {
            let lladdr = match lladdr.parse_ethernet() {
                Ok(lladdr) => lladdr,
                Err(_) => return,
            };
            proof {
                lladdr.lemma_of();
            }
            if !lladdr.is_unicast() || !target_addr.is_unicast() {
                return;
            }
            if overrides || !self.neighbor_cache.lookup(&(iface.handle, ip_addr), self.now).found() {
                self.fill_neighbor(iface, ip_addr, lladdr);
            }
        }
    }
}

} // verus!
