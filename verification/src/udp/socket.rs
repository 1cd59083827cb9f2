//! The socket itself: binding, sending and receiving.

use std::collections::VecDeque;

use vstd::prelude::*;

use crate::buf::{PacketBuf, PacketView, PACKET_BUF_SIZE};
use crate::config::UDP_SOCKET_COUNT;
use crate::icmp_error::IcmpError;
use crate::stack::iface_state;
use crate::stack::link::InnerModel;
use crate::stack::network;
use crate::stack::network::{NetModel, Network};
use crate::stack::ports;
use crate::stack::ports::{addr_score, alloc_ephemeral_port};
use crate::stack::Stack;
use crate::storage::slab;
use crate::storage::slab::Slab;
use crate::text;
use crate::udp::datagram;
use crate::udp::datagram::{parse_datagram, RecvPacket, UdpMetadata};
use crate::udp::demux;
use crate::udp::demux::{UdpModel, UdpSlots};
use crate::wire::bytes;
use crate::wire::endpoint::{IpEndpoint, IpListenEndpoint};
use crate::wire::ethernet::ETHERNET_HEADER_LEN;
use crate::wire::ip::IpAddress;
use crate::wire::ipv4::IPV4_HEADER_LEN;
use crate::wire::ipv6::IPV6_HEADER_LEN;
use crate::wire::protocol::IpProtocol;
use crate::wire::udp;
use crate::wire::udp::UDP_HEADER_LEN;

verus! {

/// A handle to a UDP socket added to a stack.
#[derive(Debug, Clone, Copy, PartialEq, Eq, Structural, PartialOrd, Ord, Hash)]
pub struct UdpHandle(pub usize);

impl UdpHandle {
    /// The handle of slot `index`.
    pub fn new(index: usize) -> (r: Self)
        ensures
            r.0 == index,
    {
        UdpHandle(index)
    }

    /// The slot the handle stands for.
    pub fn index(self) -> (r: usize)
        ensures
            r == self.0,
    {
        self.0
    }
}

/// Error returned by [`UdpSocket::bind`].
#[derive(Debug, PartialEq, Eq, Structural, Clone, Copy)]
pub enum BindError {
    /// The socket is already bound.
    InvalidState,
    /// Another UDP socket holds an identical 4-tuple.
    InUse,
    /// No free port in the ephemeral range (only possible with tens of thousands
    /// of bound sockets).
    NoFreePorts,
    /// The local and remote addresses belong to different address families, or no
    /// local address is available for the given remote.
    Unaddressable,
}

/// Error returned by [`UdpSocket::send_slice`] and [`UdpSocket::send_with`].
#[derive(Debug, PartialEq, Eq, Structural, Clone, Copy)]
pub enum SendError {
    /// The socket is not bound, the destination address or port is unspecified, or
    /// no matching source address is available.
    Unaddressable,
    /// The payload does not fit in a packet buffer, or no buffer is available.
    BufferFull,
}

/// Error returned by [`UdpSocket::recv`] and the peek methods.
#[derive(Debug, PartialEq, Eq, Clone, Copy)]
pub enum RecvError {
    /// The RX queue is empty.
    Exhausted,
    /// The provided slice is smaller than the payload. (The packet is dropped by
    /// `recv_slice`, but not by `peek_slice`.)
    Truncated,
    /// An ICMP error was reported about a datagram sent to `remote`.
    IcmpError { error: IcmpError, remote: IpEndpoint },
}

impl BindError {
    /// The error in words.
    pub open spec fn text_view(self) -> Seq<char> {
        match self {
            BindError::InvalidState => "invalid state"@,
            BindError::InUse => "port in use"@,
            BindError::NoFreePorts => "no free ports"@,
            BindError::Unaddressable => "unaddressable"@,
        }
    }

    /// The error in words.
    pub fn text(&self) -> (r: String)
        ensures
            r@ == self.text_view(),
    {
        match self {
            BindError::InvalidState => text::owned("invalid state"),
            BindError::InUse => text::owned("port in use"),
            BindError::NoFreePorts => text::owned("no free ports"),
            BindError::Unaddressable => text::owned("unaddressable"),
        }
    }
}

impl SendError {
    /// The error in words.
    pub open spec fn text_view(self) -> Seq<char> {
        match self {
            SendError::Unaddressable => "unaddressable"@,
            SendError::BufferFull => "buffer full"@,
        }
    }

    /// The error in words.
    pub fn text(&self) -> (r: String)
        ensures
            r@ == self.text_view(),
    {
        match self {
            SendError::Unaddressable => text::owned("unaddressable"),
            SendError::BufferFull => text::owned("buffer full"),
        }
    }
}

impl RecvError {
    /// The error in words.
    pub open spec fn text_view(self) -> Seq<char> {
        match self {
            RecvError::Exhausted => "exhausted"@,
            RecvError::Truncated => "truncated"@,
            RecvError::IcmpError { .. } => "icmp error"@,
        }
    }

    /// The error in words.
    pub fn text(&self) -> (r: String)
        ensures
            r@ == self.text_view(),
    {
        match self {
            RecvError::Exhausted => text::owned("exhausted"),
            RecvError::Truncated => text::owned("truncated"),
            RecvError::IcmpError { .. } => text::owned("icmp error"),
        }
    }
}

/// UDP socket state, stored inside the stack.
#[derive(Debug)]
pub struct UdpSocketState {
    local: IpListenEndpoint,
    remote: IpListenEndpoint,
    rx_queue: VecDeque<PacketBuf>,
    hop_limit: Option<u8>,
    error: Option<(IcmpError, IpEndpoint)>,
}

impl View for UdpSocketState {
    type V = UdpModel;

    closed spec fn view(&self) -> UdpModel {
        UdpModel {
            local: self.local,
            remote: self.remote,
            rx: iface_state::packet_views(self.rx_queue@),
            hop_limit: self.hop_limit,
            error: self.error,
        }
    }
}

impl UdpSocketState {
    /// Queued datagrams are in well-formed buffers and were validated, and the 4-tuple is
    /// one that binding settles on.
    pub closed spec fn wf(&self) -> bool {
        &&& iface_state::packets_ok(self.rx_queue@)
        &&& demux::queue_ok(self@.rx)
        &&& demux::tuple_settled(self.local, self.remote)
    }

    /// The 4-tuple of a socket is one that binding settles on.
    pub proof fn lemma_settled(&self)
        requires
            self.wf(),
        ensures
            demux::tuple_settled(self@.local, self@.remote),
    {
    }

    /// Create an unbound UDP socket.
    pub fn new() -> (r: Self)
        ensures
            r.wf(),
            r@ == UdpModel::unbound(),
    {
        let r = UdpSocketState {
            local: IpListenEndpoint::unspecified(),
            remote: IpListenEndpoint::unspecified(),
            rx_queue: VecDeque::new(),
            hop_limit: None,
            error: None,
        };
        assert(r@ =~= UdpModel::unbound());
        r
    }

    /// Queue an ingress datagram. `buf` must be a full IP packet (IP header
    /// included), truncated to the UDP length.
    pub fn rx_enqueue(&mut self, buf: PacketBuf)
        requires
            old(self).wf(),
            buf.wf(),
            datagram::datagram_ok(buf@.data),
        ensures
            final(self).wf(),
            final(self)@ == (UdpModel { rx: old(self)@.rx.push(buf@), ..old(self)@ }),
    {
        self.rx_queue.push_back(buf);
        assert(self@.rx =~= old(self)@.rx.push(buf@));
    }

    /// Record an error reported about a datagram this socket sent to `remote`. It
    /// replaces one that was not taken yet.
    pub fn report_error(&mut self, error: IcmpError, remote: IpEndpoint)
        requires
            old(self).wf(),
        ensures
            final(self).wf(),
            final(self)@ == (UdpModel { error: Some((error, remote)), ..old(self)@ }),
    {
        self.error = Some((error, remote));
    }

    /// Score this socket against an ingress datagram.
    ///
    /// `None` if the socket does not match (a specified tuple part differs),
    /// else how specific the match is, so that the most specific socket wins the
    /// datagram. Connected sockets outscore bound-only ones, and exact addresses
    /// outscore wildcards (see [`addr_score`]).
    ///
    /// `dst_is_bcast` relaxes the local-address filter: sockets bound to a
    /// specific address also accept broadcast/multicast traffic on their port.
    /// It never relaxes the IP version.
    pub fn match_score(
        &self,
        src_addr: &IpAddress,
        src_port: u16,
        dst_addr: &IpAddress,
        dst_port: u16,
        dst_is_bcast: bool,
    ) -> (r: Option<u8>)
        ensures
            (match r {
                Some(score) => Some(score as int),
                None => None,
            }) == self@.score(*src_addr, src_port, *dst_addr, dst_port, dst_is_bcast),
    {
        // The local port is always concrete on a bound socket, and must match.
        if self.local.port != dst_port {
            return None;
        }
        let mut score: u8 = match addr_score(&self.local, dst_addr) {
            Some(score) => score,
            // Bound to one address, and this is broadcast/multicast traffic on
            // its port: it gets it anyway, as long as the version is its own.
            None => {
                let same_version = match self.local.version() {
                    Some(version) => version == dst_addr.version(),
                    None => false,
                };
                if dst_is_bcast && same_version {
                    2
                } else {
                    return None;
                }
            },
        };
        match addr_score(&self.remote, src_addr) {
            Some(remote) => {
                score += remote;
            },
            None => return None,
        }
        if self.remote.port != 0 {
            if self.remote.port != src_port {
                return None;
            }
            score += 1;
        }
        Some(score)
    }
}

/// Whether every socket is well-formed, and no two bound ones hold the same 4-tuple.
pub open spec fn slots_ok(slots: Seq<Option<UdpSocketState>>) -> bool {
    &&& forall|i: int| slab::occupied(slots, i) ==> (#[trigger] slots[i])->0.wf()
    &&& demux::tuples_distinct(slab::views(slots))
}

/// The sockets after one of them changed.
pub open spec fn replaced(slots: UdpSlots, index: usize, socket: UdpModel) -> UdpSlots {
    slots.update(index as int, Some(socket))
}

/// Whether the slot holds a socket.
pub open spec fn has_socket(slots: Seq<Option<UdpSocketState>>, index: usize) -> bool {
    slab::occupied(slots, index as int)
}

/// The socket in a slot.
pub open spec fn socket_at(slots: UdpSlots, index: usize) -> UdpModel {
    slots[index as int]->0
}

/// Changing one socket keeps the others. Unless another socket holds it, the 4-tuple may
/// change too.
pub proof fn lemma_changed(before: Seq<Option<UdpSocketState>>, after: Seq<Option<UdpSocketState>>, index: usize)
    requires
        has_socket(before, index),
        slots_ok(before),
        after == before.update(index as int, after[index as int]),
        after[index as int] is Some,
        after[index as int]->0.wf(),
        ({
            let was = before[index as int]->0@;
            let is = after[index as int]->0@;
            ||| is.local == was.local && is.remote == was.remote
            ||| is.local.port == 0
            ||| !demux::tuple_taken(slab::views(before), index as int, is.local, is.remote)
        }),
    ensures
        slots_ok(after),
        slab::views(after) == replaced(slab::views(before), index, after[index as int]->0@),
{
    slab::lemma_views_update(before, index as int, after[index as int]->0);
    let views = slab::views(before);
    assert(views[index as int] == Some(before[index as int]->0@));
    demux::lemma_own_tuple(views, index as int);
    demux::lemma_distinct_changed(views, index as int, after[index as int]->0@);
    assert forall|i: int| slab::occupied(after, i) implies (#[trigger] after[i])->0.wf() by {
        if i != index {
            assert(before[i]->0.wf());
        }
    }
}

/// The local half a bind ends up with, its port aside: a fully-specified remote
/// resolves a wildcard local address to the source address for it.
pub open spec fn bind_local(net: NetModel, local: IpListenEndpoint, remote: IpListenEndpoint) -> Result<
    IpListenEndpoint,
    BindError,
> {
    if local.version_view() is Some && remote.version_view() is Some && local.version_view()
        != remote.version_view() {
        Err(BindError::Unaddressable)
    } else {
        match remote.concrete() {
            Some(addr) => if remote.port != 0 && local.concrete() is None {
                match network::source_for(net, addr) {
                    Some(source) => Ok(IpListenEndpoint { addr: Some(source), port: local.port }),
                    None => Err(BindError::Unaddressable),
                }
            } else {
                Ok(local)
            },
            None => Ok(local),
        }
    }
}

/// Whether a bind gets as far as allocating an ephemeral port.
pub open spec fn bind_allocates(
    net: NetModel,
    socket: UdpModel,
    local: IpListenEndpoint,
    remote: IpListenEndpoint,
) -> bool {
    socket.local.port == 0 && local.port == 0 && bind_local(net, local, remote) is Ok
}

/// The local half a bind of the socket in slot `index` gives it, or why it fails.
pub open spec fn bind_outcome(
    net: NetModel,
    slots: UdpSlots,
    index: int,
    local: IpListenEndpoint,
    remote: IpListenEndpoint,
) -> Result<IpListenEndpoint, BindError> {
    if slots[index]->0.local.port != 0 {
        Err(BindError::InvalidState)
    } else {
        match bind_local(net, local, remote) {
            Ok(bound) => if bound.port == 0 {
                match ports::first_free_port(
                    net.inner.rand.value(),
                    demux::port_taken(slots, index, bound.addr, remote),
                    0,
                ) {
                    Some(port) => Ok(IpListenEndpoint { addr: bound.addr, port }),
                    None => Err(BindError::NoFreePorts),
                }
            } else if demux::tuple_taken(slots, index, bound, remote) {
                Err(BindError::InUse)
            } else {
                Ok(bound)
            },
            Err(error) => Err(error),
        }
    }
}

/// The sockets after one of them was closed: it is as new, but for its hop limit.
pub open spec fn socket_closed(slots: UdpSlots, index: usize) -> UdpSlots {
    replaced(
        slots,
        index,
        UdpModel { hop_limit: socket_at(slots, index).hop_limit, ..UdpModel::unbound() },
    )
}

/// A closed socket is not open and has nothing to receive, no other socket changes, and
/// the 4-tuple it held can be bound again, by it or by any other socket that is not open.
pub proof fn law_closed_tuple_can_be_bound_again(stack: Stack, handle: UdpHandle, by: UdpHandle)
    requires
        stack.wf(),
        slab::occupied(stack@.udp, handle.0 as int),
        socket_at(stack@.udp, handle.0).local.port != 0,
        slab::occupied(stack@.udp, by.0 as int),
        by == handle || socket_at(stack@.udp, by.0).local.port == 0,
    ensures
        ({
            let slots = stack@.udp;
            let index = handle.0;
            let local = socket_at(slots, index).local;
            let remote = socket_at(slots, index).remote;
            let after = socket_closed(slots, index);
            &&& socket_at(after, index).local == IpListenEndpoint::wildcard()
            &&& socket_at(after, index).remote == IpListenEndpoint::wildcard()
            &&& socket_at(after, index).rx == Seq::<PacketView>::empty()
            &&& socket_at(after, index).hop_limit == socket_at(slots, index).hop_limit
            &&& forall|i: int| 0 <= i < slots.len() && i != index ==> #[trigger] after[i] == slots[i]
            &&& demux::tuples_distinct(after)
            &&& bind_outcome(stack@.net, after, by.0 as int, local, remote) == Ok::<IpListenEndpoint, BindError>(
                local,
            )
        }),
{
    let slots = stack@.udp;
    let index = handle.0;
    let local = socket_at(slots, index).local;
    let remote = socket_at(slots, index).remote;
    let after = socket_closed(slots, index);
    let state = stack.sockets.udp@[index as int]->0;
    assert(slots[index as int] == Some(state@));
    state.lemma_settled();
    assert(forall|i: int| 0 <= i < slots.len() && i != index ==> #[trigger] after[i] == slots[i]);
    demux::lemma_distinct_changed(slots, index as int, socket_at(after, index));
    demux::lemma_own_tuple(slots, index as int);
    assert(!demux::tuple_taken(after, by.0 as int, local, remote)) by {
        if demux::tuple_taken(after, by.0 as int, local, remote) {
            let i = choose|i: int|
                i != by.0 && slab::occupied(after, i) && (#[trigger] after[i])->0.local == local && after[i]->0.remote
                    == remote;
            assert(i != index);
            assert(slots[i] == after[i]);
        }
    }
    assert(bind_local(stack@.net, local, remote) == Ok::<IpListenEndpoint, BindError>(local));
}

/// No two bound sockets of a stack hold the same 4-tuple.
pub proof fn law_tuples_are_distinct(stack: Stack, a: UdpHandle, b: UdpHandle)
    requires
        stack.wf(),
        slab::occupied(stack@.udp, a.0 as int),
        slab::occupied(stack@.udp, b.0 as int),
        a != b,
        socket_at(stack@.udp, a.0).local.port != 0,
    ensures
        socket_at(stack@.udp, a.0).local != socket_at(stack@.udp, b.0).local || socket_at(stack@.udp, a.0).remote
            != socket_at(stack@.udp, b.0).remote,
{
    demux::lemma_own_tuple(stack@.udp, a.0 as int);
}

/// Binding settles the 4-tuple: bound again as it is, it does not change.
pub proof fn law_bound_tuple_is_settled(
    net: NetModel,
    slots: UdpSlots,
    index: int,
    local: IpListenEndpoint,
    remote: IpListenEndpoint,
)
    requires
        net.wf(),
        net.routes_attached(),
        bind_outcome(net, slots, index, local, remote) is Ok,
    ensures
        demux::tuple_settled(bind_outcome(net, slots, index, local, remote)->Ok_0, remote),
{
    if remote.concrete() is Some {
        network::lemma_source_for(net, remote.concrete()->0);
    }
}

/// Binding keeps the 4-tuples of bound sockets distinct.
pub proof fn law_bind_keeps_tuples_distinct(
    net: NetModel,
    slots: UdpSlots,
    index: int,
    local: IpListenEndpoint,
    remote: IpListenEndpoint,
)
    requires
        demux::tuples_distinct(slots),
        slab::occupied(slots, index),
        bind_outcome(net, slots, index, local, remote) is Ok,
    ensures
        demux::tuples_distinct(
            slots.update(
                index,
                Some(
                    UdpModel {
                        local: bind_outcome(net, slots, index, local, remote)->Ok_0,
                        remote,
                        ..slots[index]->0
                    },
                ),
            ),
        ),
        bind_outcome(net, slots, index, local, remote)->Ok_0.port != 0,
{
    let bound = bind_outcome(net, slots, index, local, remote)->Ok_0;
    let resolved = bind_local(net, local, remote)->Ok_0;
    if resolved.port == 0 {
        ports::law_allocated_port_is_free(
            net.inner.rand.value(),
            demux::port_taken(slots, index, resolved.addr, remote),
            0,
        );
    }
    assert(!demux::tuple_taken(slots, index, bound, remote));
    demux::lemma_distinct_changed(slots, index, UdpModel { local: bound, remote, ..slots[index]->0 });
}

/// Where a datagram goes: unspecified parts of the destination default to the bound
/// remote. Only a concrete remote address is a destination.
pub open spec fn destination(socket: UdpModel, meta: UdpMetadata) -> IpEndpoint {
    IpEndpoint {
        addr: if meta.endpoint.addr.unspecified_view() && socket.remote.concrete() is Some {
            socket.remote.concrete()->0
        } else {
            meta.endpoint.addr
        },
        port: if meta.endpoint.port == 0 {
            socket.remote.port
        } else {
            meta.endpoint.port
        },
    }
}

/// The address a datagram is sent from: explicit in the metadata, else the socket's
/// bound address, else one chosen from the destination.
pub open spec fn send_source(net: NetModel, socket: UdpModel, meta: UdpMetadata) -> Option<IpAddress> {
    match meta.local_address {
        Some(addr) => Some(addr),
        None => match socket.local.concrete() {
            Some(addr) => Some(addr),
            None => network::source_for(net, destination(socket, meta).addr),
        },
    }
}

/// The headroom a datagram to an address reserves for its headers.
pub open spec fn datagram_headroom(dst: IpAddress) -> int {
    ETHERNET_HEADER_LEN + UDP_HEADER_LEN + if dst is Ipv4 {
        IPV4_HEADER_LEN
    } else {
        IPV6_HEADER_LEN
    }
}

/// Why a datagram of up to `max_size` octets cannot be sent, if it cannot.
pub open spec fn send_refusal(net: NetModel, socket: UdpModel, meta: UdpMetadata, max_size: nat) -> Option<SendError> {
    let dst = destination(socket, meta);
    if socket.local.port == 0 || !dst.specified() || (socket.local.version_view() is Some
        && socket.local.version_view() != Some(dst.addr.version_view())) {
        Some(SendError::Unaddressable)
    } else {
        match send_source(net, socket, meta) {
            Some(src) => if src.version_view() != dst.addr.version_view() {
                Some(SendError::Unaddressable)
            } else if max_size > PACKET_BUF_SIZE - datagram_headroom(dst.addr) {
                Some(SendError::BufferFull)
            } else {
                None
            },
            None => Some(SendError::Unaddressable),
        }
    }
}

/// A datagram, ready for an IP header to be put in front of it.
pub open spec fn datagram_packet(
    socket: UdpModel,
    src: IpAddress,
    dst: IpEndpoint,
    meta: UdpMetadata,
    payload: Seq<u8>,
) -> PacketView {
    PacketView { meta: meta.meta, ..PacketView::fresh(datagram_headroom(dst.addr), payload) }.prepended(
        udp::header_octets(src.octets_view(), socket.local.port, dst.addr.octets_view(), dst.port, payload),
    )
}

/// The state after a socket sent a datagram.
pub open spec fn datagram_sent(net: NetModel, socket: UdpModel, meta: UdpMetadata, payload: Seq<u8>) -> NetModel {
    let dst = destination(socket, meta);
    let src = send_source(net, socket, meta)->0;
    network::sent(
        net,
        datagram_packet(socket, src, dst, meta, payload),
        src,
        dst.addr,
        IpProtocol::Udp,
        match socket.hop_limit {
            Some(hop_limit) => hop_limit,
            None => 64,
        },
    )
}

/// Whether another socket than the one in slot `index` holds the 4-tuple.
fn tuple_in_use(
    sockets: &Slab<UdpSocketState, UDP_SOCKET_COUNT>,
    index: usize,
    local: IpListenEndpoint,
    remote: IpListenEndpoint,
) -> (r: bool)
    ensures
        r == demux::tuple_taken(slab::views(sockets@), index as int, local, remote),
{
    let ghost slots = slab::views(sockets@);
    let mut i: usize = 0;
    while i < sockets.slot_count()
        invariant
            i <= sockets@.len(),
            slots == slab::views(sockets@),
            forall|k: int|
                0 <= k < i && k != index && slab::occupied(slots, k) ==> !((#[trigger] slots[k])->0.local == local
                    && slots[k]->0.remote == remote),
        decreases sockets@.len() - i,
    {
        if i != index && sockets.is_occupied(i) {
            let socket = sockets.get(i);
            assert(slots[i as int] == Some(socket@));
            if socket.local == local && socket.remote == remote {
                assert(slab::occupied(slots, i as int));
                return true;
            }
        }
        i += 1;
    }
    false
}

/// A UDP socket borrowed from a stack.
pub struct UdpSocket<'a> {
    pub sockets: &'a mut Slab<UdpSocketState, UDP_SOCKET_COUNT>,
    pub index: usize,
    pub tx: &'a mut Network,
}

impl<'a> UdpSocket<'a> {
    /// The sockets of the stack.
    pub open spec fn slots(&self) -> UdpSlots {
        slab::views(self.sockets@)
    }

    /// This socket.
    pub open spec fn state(&self) -> UdpModel {
        self.slots()[self.index as int]->0
    }

    /// The network side of the stack.
    pub open spec fn net(&self) -> NetModel {
        self.tx@
    }

    /// What every operation keeps.
    pub open spec fn wf(&self) -> bool {
        &&& slab::occupied(self.sockets@, self.index as int)
        &&& self.sockets.wf()
        &&& slots_ok(self.sockets@)
        &&& self.tx.wf()
    }

    /// This socket's state in the slab.
    fn inner(&self) -> (r: &UdpSocketState)
        requires
            self.wf(),
        ensures
            r@ == self.state(),
            r.wf(),
    {
        let r = self.sockets.get(self.index);
        assert(self.slots()[self.index as int] == Some(r@));
        assert(r.wf());
        r
    }

    /// Replace this socket's state in the slab.
    fn update(&mut self, state: UdpSocketState)
        requires
            old(self).wf(),
            state.wf(),
            state@.local.port == 0 || !demux::tuple_taken(
                old(self).slots(),
                old(self).index as int,
                state@.local,
                state@.remote,
            ),
        ensures
            final(self).wf(),
            final(self).index == old(self).index,
            final(self).slots() == replaced(old(self).slots(), old(self).index, state@),
            final(self).state() == state@,
            *final(self).tx == *old(self).tx,
            *final(final(self).sockets) == *final(old(self).sockets),
            *final(final(self).tx) == *final(old(self).tx),
    {
        let ghost slots = self.sockets@;
        let slot = self.sockets.get_mut(self.index);
        *slot = state;
        proof {
            lemma_changed(slots, self.sockets@, self.index);
        }
    }

    /// Take this socket's state out of the slab, leaving an unbound one.
    fn take(&mut self) -> (r: UdpSocketState)
        requires
            old(self).wf(),
        ensures
            final(self).wf(),
            final(self).index == old(self).index,
            final(self).slots() == replaced(old(self).slots(), old(self).index, UdpModel::unbound()),
            r@ == old(self).state(),
            r.wf(),
            r@.local.port == 0 || !demux::tuple_taken(
                final(self).slots(),
                final(self).index as int,
                r@.local,
                r@.remote,
            ),
            *final(self).tx == *old(self).tx,
            *final(final(self).sockets) == *final(old(self).sockets),
            *final(final(self).tx) == *final(old(self).tx),
    {
        let ghost slots = self.sockets@;
        let mut state = UdpSocketState::new();
        let slot = self.sockets.get_mut(self.index);
        core::mem::swap(slot, &mut state);
        proof {
            assert(slots[self.index as int]->0.wf());
            lemma_changed(slots, self.sockets@, self.index);
            let index = self.index as int;
            let views = slab::views(slots);
            assert(views[index] == Some(state@));
            demux::lemma_own_tuple(views, index);
            demux::lemma_taken_by_others(views, index, UdpModel::unbound(), state@.local, state@.remote);
        }
        state
    }

    /// Return the bound local endpoint. The address is the filter the bind
    /// scoped the socket to. A zero port means the socket is not bound.
    pub fn local_endpoint(&self) -> (r: IpListenEndpoint)
        requires
            self.wf(),
        ensures
            r == self.state().local,
    {
        self.inner().local
    }

    /// Return the bound remote endpoint. Unspecified parts match any remote:
    /// a fully unspecified endpoint means an ordinary unconnected socket.
    pub fn remote_endpoint(&self) -> (r: IpListenEndpoint)
        requires
            self.wf(),
        ensures
            r == self.state().remote,
    {
        self.inner().remote
    }

    /// Return the time-to-live (IPv4) or hop limit (IPv6) value used in outgoing packets.
    pub fn hop_limit(&self) -> (r: Option<u8>)
        requires
            self.wf(),
        ensures
            r == self.state().hop_limit,
    {
        self.inner().hop_limit
    }

    /// Set the time-to-live (IPv4) or hop limit (IPv6) value used in outgoing packets.
    ///
    /// A socket without an explicitly set hop limit value uses the default IANA
    /// recommended value (64). A hop limit of zero makes no sense (RFC 1122
    /// §3.2.1.7).
    pub fn set_hop_limit(&mut self, hop_limit: Option<u8>)
        requires
            old(self).wf(),
            hop_limit != Some(0u8),
        ensures
            final(self).wf(),
            final(self).index == old(self).index,
            final(self).slots() == replaced(
                old(self).slots(),
                old(self).index,
                UdpModel { hop_limit, ..old(self).state() },
            ),
            *final(self).tx == *old(self).tx,
            *final(final(self).sockets) == *final(old(self).sockets),
            *final(final(self).tx) == *final(old(self).tx),
    {
        let zero = match hop_limit {
            Some(n) => n == 0,
            None => false,
        };
        vstd::pervasive::runtime_assert(!zero);
        let mut state = self.take();
        state.hop_limit = hop_limit;
        self.update(state);
        assert(self.slots() =~= replaced(
            old(self).slots(),
            old(self).index,
            UdpModel { hop_limit, ..old(self).state() },
        ));
    }

    /// Check whether the socket is open (bound to a port).
    pub fn is_open(&self) -> (r: bool)
        requires
            self.wf(),
        ensures
            r == (self.state().local.port != 0),
    {
        self.inner().local.port != 0
    }

    /// Check whether the RX queue is not empty.
    pub fn can_recv(&self) -> (r: bool)
        requires
            self.wf(),
        ensures
            r == (self.state().rx.len() > 0),
    {
        self.inner().rx_queue.len() > 0
    }

    /// Bind the socket, fixing (parts of) its 4-tuple.
    ///
    /// Every UDP socket is identified by the (local address, local port, remote
    /// address, remote port) tuple, and binding pins parts of it down: each part
    /// of `local` and `remote` is either exact or a wildcard (absent or
    /// unspecified address / zero port):
    ///
    /// - `bind(port, ANY)`: server on all addresses of both IP versions.
    /// - `bind((Ipv4Address::unspecified(), port), ANY)`: server on all IPv4
    ///   addresses, and no IPv6 one.
    /// - `bind((addr, port), ANY)`: server on one address.
    /// - `bind(0, ANY)`: unconnected sender. A free port in the 49152..=65535
    ///   range is allocated, picked at a random starting point.
    /// - `bind((addr, 0), ANY)`: pin the source address, allocate the port.
    /// - `bind(0, remote)`: ordinary connected client. The local address is
    ///   resolved from the routing tables (a connected socket always has a
    ///   concrete local address), and an ephemeral local port is allocated.
    ///
    /// (`ANY` above is [`IpListenEndpoint::unspecified`], the fully wildcard
    /// remote.)
    ///
    /// Specified parts of `remote` filter ingress, so only datagrams matching them
    /// are delivered, and are the default destination for sends. The remote half is
    /// not all-or-nothing: e.g. a remote with only the address specified accepts
    /// any port of that one peer.
    ///
    /// A bind is rejected only if another UDP socket holds the *identical*
    /// 4-tuple. Sharing a local port is fine as long as the tuples differ.
    /// Distinct overlapping tuples are never ambiguous, since each datagram is
    /// handed to the most specific match. Ephemeral allocation applies the same
    /// rule, so connected sockets can reuse ports held by sockets with a different
    /// remote.
    ///
    /// Returns `Err(BindError::InvalidState)` if the socket is already bound,
    /// `Err(BindError::InUse)` on an identical bind, `Err(BindError::NoFreePorts)`
    /// if the ephemeral range is exhausted, and `Err(BindError::Unaddressable)` on
    /// an address family mismatch or if no local address is available for the given
    /// remote.
    pub fn bind<L: Into<IpListenEndpoint>, R: Into<IpListenEndpoint>>(&mut self, local: L, remote: R) -> (r: Result<
        (),
        BindError,
    >)
        requires
            old(self).wf(),
            old(self).net().routes_attached(),
        ensures
            final(self).wf(),
            final(self).index == old(self).index,
            exists|l: IpListenEndpoint, m: IpListenEndpoint|
                {
                    &&& #[trigger] call_ensures(L::into, (local,), l)
                    &&& #[trigger] call_ensures(R::into, (remote,), m)
                    &&& match bind_outcome(old(self).net(), old(self).slots(), old(self).index as int, l, m) {
                        Ok(bound) => {
                            &&& r == Ok::<(), BindError>(())
                            &&& final(self).slots() == replaced(
                                old(self).slots(),
                                old(self).index,
                                UdpModel { local: bound, remote: m, ..old(self).state() },
                            )
                        },
                        Err(error) => r == Err::<(), BindError>(error) && final(self).slots() == old(self).slots(),
                    }
                    &&& final(self).net() == after_bind(old(self).net(), old(self).state(), l, m)
                },
            *final(final(self).sockets) == *final(old(self).sockets),
            *final(final(self).tx) == *final(old(self).tx),
    {
        self.bind_endpoints(local.into(), remote.into())
    }

    /// [`bind`](Self::bind), with the two halves given as endpoints.
    pub fn bind_endpoints(&mut self, local: IpListenEndpoint, remote: IpListenEndpoint) -> (r: Result<(), BindError>)
        requires
            old(self).wf(),
            old(self).net().routes_attached(),
        ensures
            final(self).wf(),
            final(self).index == old(self).index,
            match bind_outcome(old(self).net(), old(self).slots(), old(self).index as int, local, remote) {
                Ok(bound) => {
                    &&& r == Ok::<(), BindError>(())
                    &&& final(self).slots() == replaced(
                        old(self).slots(),
                        old(self).index,
                        UdpModel { local: bound, remote, ..old(self).state() },
                    )
                },
                Err(error) => r == Err::<(), BindError>(error) && final(self).slots() == old(self).slots(),
            },
            final(self).net() == after_bind(old(self).net(), old(self).state(), local, remote),
            *final(final(self).sockets) == *final(old(self).sockets),
            *final(final(self).tx) == *final(old(self).tx),
    {
        if self.is_open() {
            return Err(BindError::InvalidState);
        }
        // Neither half may restrict the socket to a family the other excludes.
        // That includes the per-version wildcards, which restrict without naming
        // an address.
        if let (Some(local_version), Some(remote_version)) = (local.version(), remote.version()) {
            if local_version != remote_version {
                return Err(BindError::Unaddressable);
            }
        }
        // A fully-specified remote resolves a wildcard local address via a route
        // lookup. A connected socket always has a concrete local address.
        let mut bound = local;
        if let Some(remote_addr) = remote.concrete_addr() {
            if remote.port != 0 && local.concrete_addr().is_none() {
                match self.tx.get_source_address(&remote_addr) {
                    Some(addr) => {
                        bound.addr = Some(addr);
                    },
                    None => return Err(BindError::Unaddressable),
                }
            }
        }
        // Only an *identical* 4-tuple conflicts: any difference (a wildcard vs.
        // an exact part included) is resolved by demux picking the most
        // specific match, so nothing is shadowed.
        if bound.port == 0 {
            match self.alloc_port(bound.addr, remote) {
                Some(port) => {
                    bound.port = port;
                },
                None => return Err(BindError::NoFreePorts),
            }
        } else if tuple_in_use(&*self.sockets, self.index, bound, remote) {
            return Err(BindError::InUse);
        }
        proof {
            if remote.concrete() is Some && remote.port != 0 && local.concrete() is None {
                network::lemma_source_for(old(self).net(), remote.concrete()->0);
            }
            let seed = old(self).net().inner.rand.value();
            let taken = demux::port_taken(self.slots(), self.index as int, bound.addr, remote);
            if bind_local(old(self).net(), local, remote)->Ok_0.port == 0 {
                ports::law_allocated_port_is_free(seed, taken, 0);
            }
            assert(!demux::tuple_taken(self.slots(), self.index as int, bound, remote));
            demux::lemma_taken_by_others(self.slots(), self.index as int, UdpModel::unbound(), bound, remote);
        }
        let mut state = self.take();
        state.local = bound;
        state.remote = remote;
        self.update(state);
        assert(self.slots() =~= replaced(
            old(self).slots(),
            old(self).index,
            UdpModel { local: bound, remote, ..old(self).state() },
        ));
        Ok(())
    }

    /// Allocate an ephemeral port that makes no other socket's 4-tuple.
    fn alloc_port(&mut self, addr: Option<IpAddress>, remote: IpListenEndpoint) -> (r: Option<u16>)
        requires
            old(self).wf(),
        ensures
            final(self).wf(),
            final(self).index == old(self).index,
            *final(self).sockets == *old(self).sockets,
            r == ports::first_free_port(
                old(self).net().inner.rand.value(),
                demux::port_taken(old(self).slots(), old(self).index as int, addr, remote),
                0,
            ),
            final(self).net() == (NetModel {
                inner: InnerModel { rand: old(self).net().inner.rand.next(), ..old(self).net().inner },
                ..old(self).net()
            }),
            *final(final(self).sockets) == *final(old(self).sockets),
            *final(final(self).tx) == *final(old(self).tx),
    {
        let index: usize = self.index;
        let sockets = &*self.sockets;
        let ghost taken = demux::port_taken(slab::views(sockets@), index as int, addr, remote);
        let in_use = |port: u16| -> (b: bool)
            ensures
                b == taken(port),
            { tuple_in_use(sockets, index, IpListenEndpoint { addr, port }, remote) };
        let ghost seed = self.tx.inner.rand.value();
        assert(forall|port: u16, b: bool| #[trigger] call_ensures(in_use, (port,), b) ==> b == taken(port));
        let r = alloc_ephemeral_port(&mut self.tx.inner.rand, in_use);
        assert(r == ports::first_free_port(seed, taken, 0));
        r
    }

    /// Close the socket, unbinding it and dropping any queued packets.
    pub fn close(&mut self)
        requires
            old(self).wf(),
        ensures
            final(self).wf(),
            final(self).index == old(self).index,
            final(self).slots() == socket_closed(old(self).slots(), old(self).index),
            *final(self).tx == *old(self).tx,
            *final(final(self).sockets) == *final(old(self).sockets),
            *final(final(self).tx) == *final(old(self).tx),
    {
        let state = self.take();
        let mut closed = UdpSocketState::new();
        closed.hop_limit = state.hop_limit;
        self.update(closed);
        assert(self.slots() =~= socket_closed(old(self).slots(), old(self).index));
    }

    /// Take the error reported about a datagram this socket sent, if any, along with
    /// where that was sent to. It is reported once.
    pub fn take_icmp_error(&mut self) -> (r: Option<(IcmpError, IpEndpoint)>)
        requires
            old(self).wf(),
        ensures
            final(self).wf(),
            final(self).index == old(self).index,
            r == old(self).state().error,
            final(self).slots() == replaced(
                old(self).slots(),
                old(self).index,
                UdpModel { error: None, ..old(self).state() },
            ),
            *final(self).tx == *old(self).tx,
            *final(final(self).sockets) == *final(old(self).sockets),
            *final(final(self).tx) == *final(old(self).tx),
    {
        let mut state = self.take();
        let r = state.error;
        state.error = None;
        self.update(state);
        assert(self.slots() =~= replaced(
            old(self).slots(),
            old(self).index,
            UdpModel { error: None, ..old(self).state() },
        ));
        r
    }

    /// Dequeue a received datagram, as an owned packet ([`RecvPacket`]).
    ///
    /// This is zero-copy: the returned value is the buffer the datagram arrived in.
    ///
    /// Returns `Err(RecvError::IcmpError)` if an error was reported about a datagram
    /// sent, which clears it, and `Err(RecvError::Exhausted)` if the RX queue is
    /// empty.
    pub fn recv(&mut self) -> (r: Result<RecvPacket, RecvError>)
        requires
            old(self).wf(),
        ensures
            final(self).wf(),
            final(self).index == old(self).index,
            match old(self).state().error {
                Some((error, remote)) => {
                    &&& r == Err::<RecvPacket, RecvError>(RecvError::IcmpError { error, remote })
                    &&& final(self).slots() == replaced(
                        old(self).slots(),
                        old(self).index,
                        UdpModel { error: None, ..old(self).state() },
                    )
                },
                None => if old(self).state().rx.len() == 0 {
                    &&& r == Err::<RecvPacket, RecvError>(RecvError::Exhausted)
                    &&& final(self).slots() == old(self).slots()
                } else {
                    &&& r is Ok
                    &&& r->Ok_0.meta_view() == datagram::received_meta(old(self).state().rx[0])
                    &&& r->Ok_0.payload_view() == datagram::received_payload(old(self).state().rx[0].data)
                    &&& final(self).slots() == replaced(
                        old(self).slots(),
                        old(self).index,
                        UdpModel { rx: old(self).state().rx.drop_first(), ..old(self).state() },
                    )
                },
            },
            *final(self).tx == *old(self).tx,
            *final(final(self).sockets) == *final(old(self).sockets),
            *final(final(self).tx) == *final(old(self).tx),
    {
        if let Some((error, remote)) = self.inner().error {
            let _ = self.take_icmp_error();
            return Err(RecvError::IcmpError { error, remote });
        }
        match self.pop() {
            Some(buf) => Ok(RecvPacket::new(buf)),
            None => Err(RecvError::Exhausted),
        }
    }

    /// Take the oldest queued datagram.
    fn pop(&mut self) -> (r: Option<PacketBuf>)
        requires
            old(self).wf(),
        ensures
            final(self).wf(),
            final(self).index == old(self).index,
            match r {
                Some(buf) => {
                    &&& old(self).state().rx.len() > 0
                    &&& buf@ == old(self).state().rx[0]
                    &&& buf.wf()
                    &&& datagram::datagram_ok(buf@.data)
                    &&& final(self).slots() == replaced(
                        old(self).slots(),
                        old(self).index,
                        UdpModel { rx: old(self).state().rx.drop_first(), ..old(self).state() },
                    )
                },
                None => old(self).state().rx.len() == 0 && final(self).slots() == old(self).slots(),
            },
            *final(self).tx == *old(self).tx,
            *final(final(self).sockets) == *final(old(self).sockets),
            *final(final(self).tx) == *final(old(self).tx),
    {
        if !self.can_recv() {
            return None;
        }
        let mut state = self.take();
        let ghost before = state;
        let r = state.rx_queue.pop_front();
        proof {
            let buf = r->0;
            assert(before@.rx[0] == buf@);
            assert(state@.rx =~= before@.rx.drop_first());
            assert(iface_state::packets_ok(state.rx_queue@));
            assert(demux::queue_ok(state@.rx)) by {
                assert forall|i: int| 0 <= i < state@.rx.len() implies datagram::datagram_ok(
                    (#[trigger] state@.rx[i]).data,
                ) by {
                    assert(state@.rx[i] == before@.rx[i + 1]);
                }
            }
        }
        self.update(state);
        assert(self.slots() =~= replaced(
            old(self).slots(),
            old(self).index,
            UdpModel { rx: old(self).state().rx.drop_first(), ..old(self).state() },
        ));
        r
    }

    /// Dequeue a received datagram, copying the payload into the given slice, and
    /// return the number of octets copied along with its metadata.
    ///
    /// **Note**: when the size of the provided buffer is smaller than the size of the
    /// payload, the packet is dropped and `Err(RecvError::Truncated)` is returned.
    pub fn recv_slice(&mut self, data: &mut [u8]) -> (r: Result<(usize, UdpMetadata), RecvError>)
        requires
            old(self).wf(),
        ensures
            final(self).wf(),
            final(self).index == old(self).index,
            match old(self).state().error {
                Some((error, remote)) => {
                    &&& r == Err::<(usize, UdpMetadata), RecvError>(RecvError::IcmpError { error, remote })
                    &&& final(data)@ == old(data)@
                    &&& final(self).slots() == replaced(
                        old(self).slots(),
                        old(self).index,
                        UdpModel { error: None, ..old(self).state() },
                    )
                },
                None => if old(self).state().rx.len() == 0 {
                    &&& r == Err::<(usize, UdpMetadata), RecvError>(RecvError::Exhausted)
                    &&& final(data)@ == old(data)@
                    &&& final(self).slots() == old(self).slots()
                } else {
                    let packet = old(self).state().rx[0];
                    let payload = datagram::received_payload(packet.data);
                    &&& final(self).slots() == replaced(
                        old(self).slots(),
                        old(self).index,
                        UdpModel { rx: old(self).state().rx.drop_first(), ..old(self).state() },
                    )
                    &&& if old(data)@.len() < payload.len() {
                        r == Err::<(usize, UdpMetadata), RecvError>(RecvError::Truncated) && final(data)@ == old(
                            data,
                        )@
                    } else {
                        &&& r is Ok
                        &&& r->Ok_0.0 == payload.len()
                        &&& r->Ok_0.1 == datagram::received_meta(packet)
                        &&& final(data)@ == bytes::overwrite(old(data)@, 0, payload)
                    }
                },
            },
            *final(self).tx == *old(self).tx,
            *final(final(self).sockets) == *final(old(self).sockets),
            *final(final(self).tx) == *final(old(self).tx),
    {
        match self.recv() {
            Ok(packet) => {
                let payload = packet.payload();
                if data.len() < payload.len() {
                    return Err(RecvError::Truncated);
                }
                bytes::put_bytes(data, 0, payload);
                Ok((payload.len(), packet.meta()))
            },
            Err(error) => Err(error),
        }
    }

    /// Peek at the next received datagram without dequeueing it, returning its
    /// payload and its metadata.
    ///
    /// Returns `Err(RecvError::Exhausted)` if the RX queue is empty.
    pub fn peek(&self) -> (r: Result<(&[u8], UdpMetadata), RecvError>)
        requires
            self.wf(),
        ensures
            if self.state().rx.len() == 0 {
                r matches Err(RecvError::Exhausted)
            } else {
                let packet = self.state().rx[0];
                &&& r is Ok
                &&& r->Ok_0.0@ == datagram::received_payload(packet.data)
                &&& r->Ok_0.1 == datagram::received_meta(packet)
            },
    {
        let state = self.inner();
        if state.rx_queue.len() == 0 {
            return Err(RecvError::Exhausted);
        }
        let buf = &state.rx_queue[0];
        assert(state@.rx[0] == buf@);
        let (meta, start, end) = parse_datagram(buf);
        let data = buf.as_slice();
        Ok((&data[start..end], meta))
    }

    /// Peek at the next received datagram without dequeueing it, copying the payload
    /// into the given slice.
    ///
    /// **Note**: when the size of the provided buffer is smaller than the size of the
    /// payload, no data is copied and `Err(RecvError::Truncated)` is returned. The
    /// packet stays in the queue.
    pub fn peek_slice(&self, data: &mut [u8]) -> (r: Result<(usize, UdpMetadata), RecvError>)
        requires
            self.wf(),
        ensures
            if self.state().rx.len() == 0 {
                r matches Err(RecvError::Exhausted) && final(data)@ == old(data)@
            } else {
                let packet = self.state().rx[0];
                let payload = datagram::received_payload(packet.data);
                if old(data)@.len() < payload.len() {
                    r matches Err(RecvError::Truncated) && final(data)@ == old(data)@
                } else {
                    &&& r is Ok
                    &&& r->Ok_0.0 == payload.len()
                    &&& r->Ok_0.1 == datagram::received_meta(packet)
                    &&& final(data)@ == bytes::overwrite(old(data)@, 0, payload)
                }
            },
    {
        match self.peek() {
            Ok((payload, meta)) => {
                if data.len() < payload.len() {
                    return Err(RecvError::Truncated);
                }
                bytes::put_bytes(data, 0, payload);
                Ok((payload.len(), meta))
            },
            Err(error) => Err(error),
        }
    }
}

impl<'a> UdpSocket<'a> {
    /// Send a datagram to the given destination, copying the payload into it.
    ///
    /// Returns `Err(SendError::Unaddressable)` if the socket is not bound, the
    /// destination is unspecified, or no source address is available for it, and
    /// `Err(SendError::BufferFull)` if the payload does not fit in a packet buffer.
    ///
    /// Without a route to the destination the packet is dropped, like on the wire.
    pub fn send_slice<M: Into<UdpMetadata>>(&mut self, data: &[u8], meta: M) -> (r: Result<(), SendError>)
        requires
            old(self).wf(),
            old(self).net().routes_attached(),
        ensures
            final(self).wf(),
            final(self).index == old(self).index,
            *final(self).sockets == *old(self).sockets,
            final(self).net().routes_attached(),
            exists|m: UdpMetadata|
                {
                    &&& #[trigger] call_ensures(M::into, (meta,), m)
                    &&& match send_refusal(old(self).net(), old(self).state(), m, data@.len()) {
                        Some(error) => r == Err::<(), SendError>(error) && *final(self).tx == *old(self).tx,
                        None => r == Ok::<(), SendError>(()) && final(self).net() == datagram_sent(
                            old(self).net(),
                            old(self).state(),
                            m,
                            data@,
                        ),
                    }
                },
            *final(final(self).sockets) == *final(old(self).sockets),
            *final(final(self).tx) == *final(old(self).tx),
    {
        self.send_payload(data, meta.into())
    }

    /// [`send_slice`](Self::send_slice), with the destination given as metadata.
    pub fn send_payload(&mut self, data: &[u8], meta: UdpMetadata) -> (r: Result<(), SendError>)
        requires
            old(self).wf(),
            old(self).net().routes_attached(),
        ensures
            final(self).wf(),
            final(self).index == old(self).index,
            *final(self).sockets == *old(self).sockets,
            final(self).net().routes_attached(),
            match send_refusal(old(self).net(), old(self).state(), meta, data@.len()) {
                Some(error) => r == Err::<(), SendError>(error) && *final(self).tx == *old(self).tx,
                None => r == Ok::<(), SendError>(()) && final(self).net() == datagram_sent(
                    old(self).net(),
                    old(self).state(),
                    meta,
                    data@,
                ),
            },
            *final(final(self).sockets) == *final(old(self).sockets),
            *final(final(self).tx) == *final(old(self).tx),
    {
        let n: usize = data.len();
        let f = |space: &mut [u8]| -> (k: usize)
            requires
                space@.len() == data@.len(),
            ensures
                final(space)@ == data@,
                k == data@.len(),
            {
                bytes::put_bytes(space, 0, data);
                assert(space@ =~= data@);
                data.len()
            };
        let r = self.send_datagram(n, meta, f);
        assert(data@.take(n as int) =~= data@);
        r
    }

    /// Send a datagram of at most `max_size` octets to the given destination, letting
    /// `f` write the payload in place and return its actual size.
    ///
    /// Returns what [`send_slice`](Self::send_slice) does. `f` is called only if the
    /// datagram is sent.
    pub fn send_with<M: Into<UdpMetadata>, F: FnOnce(&mut [u8]) -> usize>(
        &mut self,
        max_size: usize,
        meta: M,
        f: F,
    ) -> (r: Result<(), SendError>)
        requires
            old(self).wf(),
            old(self).net().routes_attached(),
            forall|space: &mut [u8]| space@.len() == max_size ==> call_requires(f, (space,)),
            forall|space: &mut [u8], k: usize|
                space@.len() == max_size && #[trigger] call_ensures(f, (space,), k) ==> k <= max_size
                    && final(space)@.len() == max_size,
        ensures
            final(self).wf(),
            final(self).index == old(self).index,
            *final(self).sockets == *old(self).sockets,
            final(self).net().routes_attached(),
            exists|m: UdpMetadata|
                {
                    &&& #[trigger] call_ensures(M::into, (meta,), m)
                    &&& match send_refusal(old(self).net(), old(self).state(), m, max_size as nat) {
                        Some(error) => r == Err::<(), SendError>(error) && *final(self).tx == *old(self).tx,
                        None => {
                            &&& r == Ok::<(), SendError>(())
                            &&& exists|space: &mut [u8], k: usize|
                                {
                                    &&& space@ == Seq::new(max_size as nat, |i: int| 0u8)
                                    &&& #[trigger] call_ensures(f, (space,), k)
                                    &&& final(self).net() == datagram_sent(
                                        old(self).net(),
                                        old(self).state(),
                                        m,
                                        final(space)@.take(k as int),
                                    )
                                }
                        },
                    }
                },
            *final(final(self).sockets) == *final(old(self).sockets),
            *final(final(self).tx) == *final(old(self).tx),
    {
        self.send_datagram(max_size, meta.into(), f)
    }

    /// [`send_with`](Self::send_with), with the destination given as metadata.
    pub fn send_datagram<F: FnOnce(&mut [u8]) -> usize>(&mut self, max_size: usize, meta: UdpMetadata, f: F) -> (r:
        Result<(), SendError>)
        requires
            old(self).wf(),
            old(self).net().routes_attached(),
            forall|space: &mut [u8]| space@.len() == max_size ==> call_requires(f, (space,)),
            forall|space: &mut [u8], k: usize|
                space@.len() == max_size && #[trigger] call_ensures(f, (space,), k) ==> k <= max_size
                    && final(space)@.len() == max_size,
        ensures
            final(self).wf(),
            final(self).index == old(self).index,
            *final(self).sockets == *old(self).sockets,
            final(self).net().routes_attached(),
            match send_refusal(old(self).net(), old(self).state(), meta, max_size as nat) {
                Some(error) => r == Err::<(), SendError>(error) && *final(self).tx == *old(self).tx,
                None => {
                    &&& r == Ok::<(), SendError>(())
                    &&& exists|space: &mut [u8], k: usize|
                        {
                            &&& space@ == Seq::new(max_size as nat, |i: int| 0u8)
                            &&& #[trigger] call_ensures(f, (space,), k)
                            &&& final(self).net() == datagram_sent(
                                old(self).net(),
                                old(self).state(),
                                meta,
                                final(space)@.take(k as int),
                            )
                        }
                },
            },
            *final(final(self).sockets) == *final(old(self).sockets),
            *final(final(self).tx) == *final(old(self).tx),
    {
        let ghost socket = self.state();
        let state = self.inner();
        let local = state.local;
        let remote = state.remote;
        let hop_limit: u8 = match state.hop_limit {
            Some(hop_limit) => hop_limit,
            None => 64,
        };
        if local.port == 0 {
            return Err(SendError::Unaddressable);
        }
        // Default unspecified parts of the destination from the bound remote. Only a
        // concrete remote address is a destination. The per-version wildcards are
        // filters, and leave the destination unspecified.
        let mut dst = meta.endpoint;
        if dst.addr.is_unspecified() {
            if let Some(addr) = remote.concrete_addr() {
                dst.addr = addr;
            }
        }
        if dst.port == 0 {
            dst.port = remote.port;
        }
        assert(dst == destination(socket, meta));
        if !dst.is_specified() {
            return Err(SendError::Unaddressable);
        }
        // A bind scoped to one IP version cannot send over the other: the replies
        // would arrive on a version its own ingress filter drops.
        if let Some(version) = local.version() {
            if version != dst.addr.version() {
                return Err(SendError::Unaddressable);
            }
        }
        // Pick the source address: explicit in the metadata, else the socket's bound
        // address (only a concrete one is an address, the wildcards are filters),
        // else one chosen from the destination.
        let src_addr = match meta.local_address {
            Some(addr) => addr,
            None => match local.concrete_addr() {
                Some(addr) => addr,
                None => match self.tx.get_source_address(&dst.addr) {
                    Some(addr) => addr,
                    None => return Err(SendError::Unaddressable),
                },
            },
        };
        assert(send_source(self.net(), socket, meta) == Some(src_addr));
        if src_addr.version() != dst.addr.version() {
            return Err(SendError::Unaddressable);
        }
        // Build the datagram: reserve headroom for the headers below, write the
        // payload, prepend the UDP header.
        let ip_header_len: usize = match dst.addr {
            IpAddress::Ipv4(_) => IPV4_HEADER_LEN,
            IpAddress::Ipv6(_) => IPV6_HEADER_LEN,
        };
        let headroom: usize = ETHERNET_HEADER_LEN + ip_header_len + UDP_HEADER_LEN;
        let mut buf = PacketBuf::new();
        if max_size > buf.capacity() - headroom {
            return Err(SendError::BufferFull);
        }
        buf.reserve(headroom);
        buf.set_len(max_size);
        let ghost zeros = Seq::new(max_size as nat, |i: int| 0u8);
        assert(buf@.data =~= zeros);
        let size: usize = f(buf.as_mut_slice());
        let ghost filled = buf@;
        assert(exists|space: &mut [u8], k: usize|
            space@ == zeros && #[trigger] call_ensures(f, (space,), k) && k == size && final(space)@ == filled.data);
        let ghost payload = filled.data.take(size as int);
        buf.set_len(size);
        assert(buf@.data == payload);
        buf.set_meta(meta.meta);
        assert(buf@ =~= PacketView { meta: meta.meta, ..PacketView::fresh(headroom as int, payload) });
        let header = udp::emit_header(&src_addr, local.port, &dst.addr, dst.port, buf.as_slice());
        buf.prepend(header.as_slice());
        assert(buf@ == datagram_packet(socket, src_addr, dst, meta, payload));
        self.tx.transmit_ip(buf, src_addr, dst.addr, IpProtocol::Udp, hop_limit);
        proof {
            assert(self.net() == datagram_sent(old(self).net(), socket, meta, payload));
            let (space, k) = choose|space: &mut [u8], k: usize|
                space@ == zeros && #[trigger] call_ensures(f, (space,), k) && k == size && final(space)@
                    == filled.data;
            assert(call_ensures(f, (space,), k));
        }
        Ok(())
    }
}

/// The network side after a bind: allocating a port takes one random number.
pub open spec fn after_bind(
    net: NetModel,
    socket: UdpModel,
    local: IpListenEndpoint,
    remote: IpListenEndpoint,
) -> NetModel {
    if bind_allocates(net, socket, local, remote) {
        NetModel { inner: InnerModel { rand: net.inner.rand.next(), ..net.inner }, ..net }
    } else {
        net
    }
}

} // verus!
