//! What raw sockets send.

use vstd::prelude::*;

use crate::buf::PacketView;
use crate::iface::IfaceHandle;
use crate::laws::udp as datagrams;
use crate::raw;
use crate::raw::{RawMode, RawModel, SendError};
use crate::stack::link;
use crate::stack::network;
use crate::stack::network::{EgressRoute, NetModel};
use crate::wire::ip::{IpAddress, IpVersion, Ipv4Address, Ipv6Address};
use crate::wire::protocol::{EthernetProtocol, IpProtocol};

verus! {

/// Whether octets are those of a packet to an address, by where its header has it.
pub open spec fn is_to(d: Seq<u8>, dst: IpAddress) -> bool {
    match dst {
        IpAddress::Ipv4(a) => d.len() >= 20 && d[0] / 16 == 4 && d.subrange(16, 20) == a.0@,
        IpAddress::Ipv6(a) => d.len() >= 40 && d[0] / 16 == 6 && d.subrange(24, 40) == a.0@,
    }
}

proof fn lemma_is_to(d: Seq<u8>, dst: IpAddress)
    requires
        is_to(d, dst),
    ensures
        crate::udp::datagram::packet_dst(d) == dst,
        IpVersion::of_packet_view(d) == Some(dst.version_view()),
{
    match dst {
        IpAddress::Ipv4(a) => {
            assert(Ipv4Address::of(d.subrange(16, 20)).0 =~= a.0);
        },
        IpAddress::Ipv6(a) => {
            assert(Ipv6Address::of(d.subrange(24, 40)).0 =~= a.0);
        },
    }
}

/// A packet given to a raw socket leaves octet for octet, by the way to the address in its
/// header. It is refused if it is longer than 1522 octets.
pub proof fn law_raw_packet_is_sent(
    net: NetModel,
    version: Option<IpVersion>,
    protocol: Option<IpProtocol>,
    rx: Seq<PacketView>,
    d: Seq<u8>,
    dst: IpAddress,
    route: EgressRoute,
)
    requires
        is_to(d, dst),
        !datagrams::blank(dst),
        version matches Some(v) ==> v == dst.version_view(),
        network::route_of(net, dst) == Some(route),
    ensures
        ({
            let socket = RawModel { mode: Some(RawMode::Ip { version, protocol }), rx };
            &&& raw::send_refusal(net, socket, d) == if d.len() > 1522 {
                Some(SendError::BufferFull)
            } else {
                None
            }
            &&& exists|p: PacketView|
                {
                    &&& p.data == d
                    &&& raw::packet_sent(net, socket, d) == net.with_link_at(
                        route.iface,
                        #[trigger] link::ip_frame_sent(
                            net.link_at(route.iface),
                            dst,
                            route.next_hop,
                            p,
                            link::ethertype_of(dst),
                        ),
                    )
                }
        }),
{
    let socket = RawModel { mode: Some(RawMode::Ip { version, protocol }), rx };
    lemma_is_to(d, dst);
    datagrams::lemma_blank(dst);
    let p = PacketView::fresh(14, d);
    let sent = link::ip_frame_sent(net.link_at(route.iface), dst, route.next_hop, p, link::ethertype_of(dst));
    assert(raw::packet_sent(net, socket, d) == net.with_link_at(route.iface, sent));
}

/// A packet with no way out, to no address, of another version than the socket's, or too short
/// for its header, is refused; so is everything on a socket that is not bound.
pub proof fn law_raw_packet_is_refused(
    net: NetModel,
    version: Option<IpVersion>,
    protocol: Option<IpProtocol>,
    rx: Seq<PacketView>,
    d: Seq<u8>,
    dst: IpAddress,
)
    ensures
        raw::send_refusal(net, RawModel { mode: None, rx }, d) == Some(SendError::Unaddressable),
        ({
            let socket = RawModel { mode: Some(RawMode::Ip { version, protocol }), rx };
            &&& d.len() == 0 || (d[0] / 16 == 4 && d.len() < 20) || (d[0] / 16 == 6 && d.len() < 40) || (d[0] / 16 != 4
                && d[0] / 16 != 6) ==> raw::send_refusal(net, socket, d) == Some(SendError::Unaddressable)
            &&& is_to(d, dst) && (datagrams::blank(dst) || (version is Some && version->0 != dst.version_view()) || (
            d.len() <= 1522 && network::route_of(net, dst) is None)) ==> raw::send_refusal(net, socket, d) == Some(
                SendError::Unaddressable,
            )
        }),
{
    if is_to(d, dst) {
        lemma_is_to(d, dst);
        datagrams::lemma_blank(dst);
    }
}

/// A frame given to a raw socket leaves octet for octet by the socket's interface. It is
/// refused if it is too short for a frame's header, or longer than 1536 octets.
pub proof fn law_raw_frame_is_sent(
    net: NetModel,
    iface: IfaceHandle,
    ethertype: Option<EthernetProtocol>,
    rx: Seq<PacketView>,
    d: Seq<u8>,
)
    requires
        net.has_iface(iface),
    ensures
        ({
            let socket = RawModel { mode: Some(RawMode::Ethernet { iface, ethertype }), rx };
            let after = raw::packet_sent(net, socket, d);
            &&& raw::send_refusal(net, socket, d) == if d.len() < 14 {
                Some(SendError::Unaddressable)
            } else if d.len() > 1536 {
                Some(SendError::BufferFull)
            } else {
                None
            }
            &&& after.inner == net.inner
            &&& after.iface(iface).tx.len() == net.iface(iface).tx.len() + 1
            &&& after.iface(iface).tx.drop_last() == net.iface(iface).tx
            &&& after.iface(iface).tx.last().data == d
            &&& forall|j: int|
                0 <= j < net.ifaces.len() && j != iface.0 ==> #[trigger] after.ifaces[j] == net.ifaces[j]
        }),
{
    let socket = RawModel { mode: Some(RawMode::Ethernet { iface, ethertype }), rx };
    assert(raw::packet_sent(net, socket, d).iface(iface).tx.drop_last() =~= net.iface(iface).tx);
}

} // verus!
