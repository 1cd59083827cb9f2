//! Segments that arrive: which connection or listener gets them, and what is answered
//! if none does.

use vstd::prelude::*;

use crate::buf::{PacketBuf, PacketView};
use crate::config::{TCP_LISTENER_COUNT, TCP_SOCKET_COUNT};
use crate::iface::IfaceHandle;
use crate::stack::network;
use crate::stack::network::{NetModel, Network};
use crate::storage::slab;
use crate::storage::slab::Slab;
use crate::tcp::listener;
use crate::tcp::listener::{process_listeners, ListenerSlots, TcpListenerState};
use crate::tcp::repr;
use crate::tcp::repr::{SegmentView, TcpRepr};
use crate::tcp::socket;
use crate::tcp::socket::{find_connection, TcpModel, TcpSlots, TcpSocketState};
use crate::wire::bytes;
use crate::wire::endpoint::IpEndpoint;
use crate::wire::ip::IpAddress;
use crate::wire::ipv4::IPV4_HEADER_LEN;
use crate::wire::ipv6::IPV6_HEADER_LEN;
use crate::wire::protocol::IpProtocol;
use crate::wire::tcp;
use crate::wire::tcp::{TcpControl, TcpSeqNumber};
use crate::wire::LINK_HEADER_LEN;

verus! {

/// Whether a segment that arrived is taken up: it is between specified addresses, its
/// checksum is right unless the device checked that, and it parses.
pub open spec fn accepted(net: NetModel, iface: IfaceHandle, src: IpAddress, dst: IpAddress, data: Seq<u8>) -> bool {
    &&& !src.unspecified_view()
    &&& !dst.unspecified_view()
    &&& tcp::well_formed(data)
    &&& net.iface(iface).caps.checksum.tcp.rx_view() ==> tcp::checksum_ok(src.octets_view(), dst.octets_view(), data)
    &&& repr::parses(data)
}

/// The socket of the connection a segment belongs to.
pub open spec fn connection(slots: TcpSlots, src: IpAddress, dst: IpAddress, segment: SegmentView) -> Option<int> {
    socket::connection_between(
        slots,
        IpEndpoint { addr: dst, port: segment.dst_port },
        IpEndpoint { addr: src, port: segment.src_port },
        0,
    )
}

/// The sockets after a segment arrived.
pub open spec fn delivered(
    net: NetModel,
    slots: TcpSlots,
    iface: IfaceHandle,
    src: IpAddress,
    dst: IpAddress,
    packet: PacketView,
) -> TcpSlots {
    if accepted(net, iface, src, dst, packet.data) {
        match connection(slots, src, dst, repr::segment_of(packet.data)) {
            Some(i) => slots.update(
                i,
                Some(TcpModel { inbox: slots[i]->0.inbox.push(packet), ..slots[i]->0 }),
            ),
            None => slots,
        }
    } else {
        slots
    }
}

/// The listeners after a segment arrived: they are offered what belongs to no
/// connection.
pub open spec fn listened(
    net: NetModel,
    slots: TcpSlots,
    listeners: ListenerSlots,
    iface: IfaceHandle,
    src: IpAddress,
    dst: IpAddress,
    data: Seq<u8>,
) -> ListenerSlots {
    let segment = repr::segment_of(data);
    if accepted(net, iface, src, dst, data) && connection(slots, src, dst, segment) is None {
        listener::offered(listeners, src, dst, segment)
    } else {
        listeners
    }
}

/// The octets of the reset that answers a segment (RFC 9293 §3.10.7.1): with the
/// sequence number the segment acknowledges, or, if it acknowledges none, acknowledging
/// all of it.
pub open spec fn reset_octets(src: Seq<u8>, dst: Seq<u8>, segment: SegmentView) -> Seq<u8> {
    let (seq, ack, flags) = match segment.ack_number {
        Some(n) => (n.0, 0u32, 0x04u8),
        None => (0u32, segment.seq_number.plus(segment.len()).0, 0x14u8),
    };
    tcp::with_checksum(
        src,
        dst,
        bytes::octets16(segment.dst_port) + bytes::octets16(segment.src_port) + bytes::octets32(seq)
            + bytes::octets32(ack) + seq![0x50u8, flags] + bytes::octets16(0) + seq![0u8, 0u8, 0u8, 0u8],
    )
}

/// The headroom a segment to an address reserves for its headers.
pub open spec fn segment_headroom(dst: IpAddress) -> int {
    LINK_HEADER_LEN + if dst is Ipv4 {
        IPV4_HEADER_LEN
    } else {
        IPV6_HEADER_LEN
    }
}

/// The network side after a segment arrived: one that neither a connection nor a
/// listener takes is answered with a reset, unless it is one.
pub open spec fn answered(
    net: NetModel,
    slots: TcpSlots,
    listeners: ListenerSlots,
    iface: IfaceHandle,
    src: IpAddress,
    dst: IpAddress,
    data: Seq<u8>,
) -> NetModel {
    let segment = repr::segment_of(data);
    if accepted(net, iface, src, dst, data) && connection(slots, src, dst, segment) is None && listener::consumer(
        listeners,
        src,
        dst,
        segment,
    ) is None && segment.control != TcpControl::Rst {
        network::reply_sent(
            net,
            iface,
            PacketView::fresh(segment_headroom(src), reset_octets(dst.octets_view(), src.octets_view(), segment)),
            dst,
            src,
            IpProtocol::Tcp,
            64,
        )
    } else {
        net
    }
}

/// A reset is never answered.
pub proof fn law_reset_is_not_answered(
    net: NetModel,
    slots: TcpSlots,
    listeners: ListenerSlots,
    iface: IfaceHandle,
    src: IpAddress,
    dst: IpAddress,
    data: Seq<u8>,
)
    requires
        tcp::control_of(data) == Some(TcpControl::Rst),
    ensures
        answered(net, slots, listeners, iface, src, dst, data) == net,
{
}

/// A SYN that a listener takes is not answered until it is accepted.
pub proof fn law_listened_syn_is_not_answered(
    net: NetModel,
    slots: TcpSlots,
    listeners: ListenerSlots,
    iface: IfaceHandle,
    src: IpAddress,
    dst: IpAddress,
    data: Seq<u8>,
    i: int,
)
    requires
        repr::segment_of(data).control == TcpControl::Syn,
        repr::segment_of(data).ack_number is None,
        slab::occupied(listeners, i),
        listeners[i]->0.listens_on(dst, repr::segment_of(data).dst_port) is Some,
    ensures
        answered(net, slots, listeners, iface, src, dst, data) == net,
{
    let port = repr::segment_of(data).dst_port;
    listener::law_syn_goes_to_most_specific_listener(listeners, dst, port, listeners.len() as int);
    assert(listener::slot_score(listeners, dst, port, i) is Some);
}

impl TcpSocketState {
    /// The reset that answers a segment.
    pub fn rst_reply<'a>(segment: &TcpRepr<'a>) -> (r: TcpRepr<'static>)
        requires
            segment.payload@.len() < 0xffff_fff0,
        ensures
            r.header_len_view() == 20,
            r.payload@.len() == 0,
            forall|src: Seq<u8>, dst: Seq<u8>|
                #[trigger] r.segment_octets(src, dst) == reset_octets(src, dst, segment.segment()),
    {
        let empty: &'static [u8] = &[];
        let (seq_number, ack_number) = match segment.ack_number {
            Some(n) => (n, None),
            None => {
                let len: usize = segment.segment_len();
                (TcpSeqNumber(0), Some(segment.seq_number.advance(len as u32)))
            },
        };
        let r = TcpRepr {
            src_port: segment.dst_port,
            dst_port: segment.src_port,
            control: TcpControl::Rst,
            seq_number,
            ack_number,
            window_len: 0,
            window_scale: None,
            max_seg_size: None,
            sack_permitted: false,
            sack_ranges: [None, None, None],
            timestamp: None,
            payload: empty,
        };
        assert(r.options_octets() =~= Seq::<u8>::empty());
        assert(r.padded_options() =~= Seq::<u8>::empty());
        assert(r.unsummed_octets() =~= r.fixed_octets());
        r
    }
}

/// Build a packet holding a segment, ready for an IP header to be put in front of it.
pub fn build_tcp_packet(segment: &TcpRepr<'_>, src_addr: &IpAddress, dst_addr: &IpAddress) -> (r: PacketBuf)
    requires
        segment.header_fits(),
        segment.payload@.len() + segment.header_len_view() + segment_headroom(*dst_addr) <= crate::buf::PACKET_BUF_SIZE,
    ensures
        r.wf(),
        r@ == PacketView::fresh(
            segment_headroom(*dst_addr),
            segment.segment_octets(src_addr.octets_view(), dst_addr.octets_view()),
        ),
{
    let octets = segment.emit_octets(src_addr, dst_addr);
    let headroom: usize = match dst_addr {
        IpAddress::Ipv4(_) => LINK_HEADER_LEN + IPV4_HEADER_LEN,
        IpAddress::Ipv6(_) => LINK_HEADER_LEN + IPV6_HEADER_LEN,
    };
    PacketBuf::with_data(headroom, octets.as_slice())
}

/// Deliver a segment to the socket in slot `index`.
fn deliver(sockets: &mut Slab<TcpSocketState, TCP_SOCKET_COUNT>, index: usize, buf: PacketBuf)
    requires
        old(sockets).wf(),
        socket::slots_ok(old(sockets)@),
        socket::has_socket(old(sockets)@, index),
        buf.wf(),
    ensures
        final(sockets).wf(),
        socket::slots_ok(final(sockets)@),
        slab::views(final(sockets)@) == socket::replaced(
            slab::views(old(sockets)@),
            index,
            TcpModel {
                inbox: socket::socket_at(slab::views(old(sockets)@), index).inbox.push(buf@),
                ..socket::socket_at(slab::views(old(sockets)@), index)
            },
        ),
{
    let ghost slots = sockets@;
    proof {
        socket::lemma_slot_ok(slots, index);
    }
    let state = sockets.get_mut(index);
    state.deliver(buf);
    proof {
        socket::lemma_changed(slots, sockets@, index);
    }
}

/// Process an ingress TCP segment: validate it and hand it to the matching
/// socket. Connected sockets match first, by full 4-tuple, then the listeners, which
/// record SYNs to a listened endpoint in their accept queues and transmit nothing.
/// Unmatched segments are answered with an RST.
///
/// `buf` starts at the TCP header.
pub fn process_tcp(
    net: &mut Network,
    sockets: &mut Slab<TcpSocketState, TCP_SOCKET_COUNT>,
    listeners: &mut Slab<TcpListenerState, TCP_LISTENER_COUNT>,
    iface: IfaceHandle,
    src_addr: IpAddress,
    dst_addr: IpAddress,
    buf: PacketBuf,
)
    requires
        old(net).wf(),
        old(net)@.routes_attached(),
        old(net)@.has_iface(iface),
        old(sockets).wf(),
        socket::slots_ok(old(sockets)@),
        old(listeners).wf(),
        listener::slots_ok(old(listeners)@),
        src_addr.version_view() == dst_addr.version_view(),
        buf.wf(),
    ensures
        final(net).wf(),
        network::net_kept(old(net)@, final(net)@),
        final(net)@.routes_attached(),
        final(sockets).wf(),
        socket::slots_ok(final(sockets)@),
        final(listeners).wf(),
        listener::slots_ok(final(listeners)@),
        final(net)@ == answered(
            old(net)@,
            slab::views(old(sockets)@),
            slab::views(old(listeners)@),
            iface,
            src_addr,
            dst_addr,
            buf@.data,
        ),
        slab::views(final(sockets)@) == delivered(
            old(net)@,
            slab::views(old(sockets)@),
            iface,
            src_addr,
            dst_addr,
            buf@,
        ),
        slab::views(final(listeners)@) == listened(
            old(net)@,
            slab::views(old(sockets)@),
            slab::views(old(listeners)@),
            iface,
            src_addr,
            dst_addr,
            buf@.data,
        ),
{
    proof {
        network::lemma_net_kept_refl(net@);
    }
    // Per RFC 1122 §3.2.1.3, the unspecified address must never appear as a source
    // or destination in any IP datagram. Drop such TCP segments early to avoid
    // creating sockets with unspecified peers.
    if src_addr.is_unspecified() || dst_addr.is_unspecified() {
        return;
    }
    proof {
        buf.lemma_fits();
    }
    let data = buf.as_slice();
    if tcp::check(data).is_err() {
        return;
    }
    let state = net.iface_state(iface);
    if state.caps.checksum.tcp.rx() && !tcp::verify_checksum(data, &src_addr, &dst_addr) {
        return;
    }
    let segment = match TcpRepr::parse_octets(data) {
        Ok(segment) => segment,
        Err(_) => return,
    };
    assert(segment.segment() == repr::segment_of(data@));
    // Connected sockets: exact 4-tuple match.
    let local = IpEndpoint::new(dst_addr, segment.dst_port);
    let remote = IpEndpoint::new(src_addr, segment.src_port);
    if let Some(index) = find_connection(&*sockets, &local, &remote) {
        deliver(sockets, index, buf);
        return;
    }
    // Listeners: a SYN to a listened endpoint is recorded in the accept
    // queue of the most specific matching listener (exact local address
    // beats wildcard), and an RST aimed at a recorded SYN cancels it.
    // Nothing is replied, the handshake starts when the connection is
    // accepted.
    if process_listeners(listeners, &src_addr, &dst_addr, &segment) {
        return;
    }
    // The packet wasn't handled by a socket: send a TCP RST packet.
    // Never reply to a TCP RST packet with another TCP RST packet.
    if segment.control != TcpControl::Rst {
        let reply = TcpSocketState::rst_reply(&segment);
        let packet = build_tcp_packet(&reply, &dst_addr, &src_addr);
        net.transmit_reply(iface, packet, dst_addr, src_addr, IpProtocol::Tcp, 64);
    }
}

} // verus!
