//! Raw sockets: whole IP packets or Ethernet frames, as they are on the wire.
//!
//! A raw socket gets the packets its mode describes. Those the stack processes
//! itself are copied to the socket; all others are taken by it.

use std::collections::VecDeque;

use vstd::prelude::*;

use crate::buf::{PacketBuf, PacketView, PACKET_BUF_SIZE};
use crate::config::RAW_SOCKET_COUNT;
use crate::iface::IfaceHandle;
use crate::stack::iface_state;
use crate::stack::link;
use crate::stack::network;
use crate::stack::network::{NetModel, Network};
use crate::storage::slab;
use crate::storage::slab::Slab;
use crate::udp::datagram;
use crate::wire::ip::{IpAddress, IpVersion};
use crate::wire::ipv4::{Ipv4Header, IPV4_HEADER_LEN};
use crate::wire::ipv6::{Ipv6Header, IPV6_HEADER_LEN};
use crate::wire::protocol::{EthernetProtocol, IpProtocol};
use crate::wire::ethernet::ETHERNET_HEADER_LEN;
use crate::wire::LINK_HEADER_LEN;

verus! {

/// A handle to a raw socket added to a stack.
#[derive(Debug, Clone, Copy, PartialEq, Eq, Structural, PartialOrd, Ord, Hash)]
pub struct RawHandle(pub usize);

impl RawHandle {
    /// The handle of slot `index`.
    pub fn new(index: usize) -> (r: Self)
        ensures
            r.0 == index,
    {
        RawHandle(index)
    }

    /// The slot the handle stands for.
    pub fn index(self) -> (r: usize)
        ensures
            r == self.0,
    {
        self.0
    }
}

/// Which packets a raw socket gets.
#[derive(Debug, Clone, Copy)]
pub enum RawMode {
    /// Whole IP packets, of one version and one protocol if given.
    Ip { version: Option<IpVersion>, protocol: Option<IpProtocol> },
    /// Whole Ethernet frames of one interface, of one EtherType if given.
    Ethernet { iface: IfaceHandle, ethertype: Option<EthernetProtocol> },
}

/// What is known of a packet when it is offered to raw sockets.
#[derive(Debug, Clone, Copy)]
pub enum RawKey {
    Ip { version: IpVersion, protocol: IpProtocol },
    Ethernet { iface: IfaceHandle, ethertype: EthernetProtocol },
}

impl RawMode {
    /// Whether a socket in this mode gets a packet.
    pub open spec fn takes(self, key: RawKey) -> bool {
        match (self, key) {
            (RawMode::Ip { version, protocol }, RawKey::Ip { version: v, protocol: p }) => {
                &&& version is None || version == Some(v)
                &&& protocol is None || protocol == Some(p)
            },
            (RawMode::Ethernet { iface, ethertype }, RawKey::Ethernet { iface: i, ethertype: e }) => {
                &&& iface == i
                &&& ethertype is None || ethertype == Some(e)
            },
            _ => false,
        }
    }

    /// Whether a socket in this mode gets a packet.
    pub fn matches(&self, key: &RawKey) -> (r: bool)
        ensures
            r == self.takes(*key),
    {
        match (self, key) {
            (RawMode::Ip { version, protocol }, RawKey::Ip { version: v, protocol: p }) => {
                let version_ok = match version {
                    Some(version) => *version == *v,
                    None => true,
                };
                let protocol_ok = match protocol {
                    Some(protocol) => *protocol == *p,
                    None => true,
                };
                version_ok && protocol_ok
            },
            (RawMode::Ethernet { iface, ethertype }, RawKey::Ethernet { iface: i, ethertype: e }) => {
                let ethertype_ok = match ethertype {
                    Some(ethertype) => *ethertype == *e,
                    None => true,
                };
                *iface == *i && ethertype_ok
            },
            _ => false,
        }
    }
}

/// Error returned by [`RawSocket::bind`].
#[derive(Debug, Clone, Copy, PartialEq, Eq, Structural)]
pub enum BindError {
    /// The socket is already bound.
    InvalidState,
}

/// Error returned by [`RawSocket::recv`].
#[derive(Debug, Clone, Copy, PartialEq, Eq, Structural)]
pub enum RecvError {
    /// The RX queue is empty.
    Exhausted,
}

/// Error returned by [`RawSocket::send_slice`].
#[derive(Debug, Clone, Copy, PartialEq, Eq, Structural)]
pub enum SendError {
    /// The socket is not bound, the packet is not of the kind the socket is bound to,
    /// or there is no route to its destination.
    Unaddressable,
    /// The packet does not fit in a packet buffer.
    BufferFull,
}

/// What a raw socket holds.
#[verifier::ext_equal]
pub struct RawModel {
    /// Which packets the socket gets. `None` if it is not bound.
    pub mode: Option<RawMode>,
    /// The packets received and not yet taken, oldest first.
    pub rx: Seq<PacketView>,
}

/// The sockets of a stack, by slot.
pub type RawSlots = Seq<Option<RawModel>>;

impl RawModel {
    /// An unbound socket.
    pub open spec fn unbound() -> RawModel {
        RawModel { mode: None, rx: Seq::empty() }
    }

    /// Whether the socket gets a packet.
    pub open spec fn takes(self, key: RawKey) -> bool {
        self.mode matches Some(mode) && mode.takes(key)
    }
}

/// The first socket at or after slot `from` that gets a packet.
pub open spec fn first_taker(slots: RawSlots, key: RawKey, from: int) -> Option<int>
    decreases slots.len() - from,
{
    if from < 0 || from >= slots.len() {
        None
    } else if slots[from] is Some && slots[from]->0.takes(key) {
        Some(from)
    } else {
        first_taker(slots, key, from + 1)
    }
}

/// The sockets after a packet was offered to them.
pub open spec fn offered(slots: RawSlots, key: RawKey, packet: PacketView) -> RawSlots {
    match first_taker(slots, key, 0) {
        Some(i) => slots.update(i, Some(RawModel { rx: slots[i]->0.rx.push(packet), ..slots[i]->0 })),
        None => slots,
    }
}

/// Whether some socket gets a packet.
pub open spec fn taken(slots: RawSlots, key: RawKey) -> bool {
    first_taker(slots, key, 0) is Some
}

/// A packet goes to the first socket whose mode describes it, and to one whenever
/// there is one.
pub proof fn law_packet_goes_to_first_taker(slots: RawSlots, key: RawKey, from: int)
    requires
        0 <= from,
    ensures
        match first_taker(slots, key, from) {
            Some(i) => {
                &&& from <= i
                &&& slab::occupied(slots, i)
                &&& slots[i]->0.takes(key)
                &&& forall|k: int| from <= k < i && slab::occupied(slots, k) ==> !(#[trigger] slots[k])->0.takes(key)
            },
            None => forall|k: int| from <= k && slab::occupied(slots, k) ==> !(#[trigger] slots[k])->0.takes(key),
        },
    decreases slots.len() - from,
{
    if from < slots.len() && !(slots[from] is Some && slots[from]->0.takes(key)) {
        law_packet_goes_to_first_taker(slots, key, from + 1);
    }
}

/// Raw socket state, stored inside the stack.
#[derive(Debug)]
pub struct RawSocketState {
    mode: Option<RawMode>,
    rx_queue: VecDeque<PacketBuf>,
}

impl View for RawSocketState {
    type V = RawModel;

    closed spec fn view(&self) -> RawModel {
        RawModel { mode: self.mode, rx: iface_state::packet_views(self.rx_queue@) }
    }
}

impl RawSocketState {
    /// Queued packets are in well-formed buffers.
    pub closed spec fn wf(&self) -> bool {
        iface_state::packets_ok(self.rx_queue@)
    }

    /// Create an unbound raw socket.
    pub fn new() -> (r: Self)
        ensures
            r.wf(),
            r@ == RawModel::unbound(),
    {
        let r = RawSocketState { mode: None, rx_queue: VecDeque::new() };
        assert(r@ =~= RawModel::unbound());
        r
    }

    /// Whether the socket gets a packet.
    pub fn matches(&self, key: &RawKey) -> (r: bool)
        ensures
            r == self@.takes(*key),
    {
        match &self.mode {
            Some(mode) => mode.matches(key),
            None => false,
        }
    }

    /// Queue a packet.
    pub fn rx_enqueue(&mut self, buf: PacketBuf)
        requires
            old(self).wf(),
            buf.wf(),
        ensures
            final(self).wf(),
            final(self)@ == (RawModel { rx: old(self)@.rx.push(buf@), ..old(self)@ }),
    {
        self.rx_queue.push_back(buf);
        assert(self@.rx =~= old(self)@.rx.push(buf@));
    }
}

/// Whether every socket is well-formed.
pub open spec fn slots_ok(slots: Seq<Option<RawSocketState>>) -> bool {
    forall|i: int| slab::occupied(slots, i) ==> (#[trigger] slots[i])->0.wf()
}

/// Why a packet cannot be sent by a socket, if it cannot.
pub open spec fn send_refusal(net: NetModel, socket: RawModel, data: Seq<u8>) -> Option<SendError> {
    match socket.mode {
        Some(RawMode::Ip { version, .. }) => if !(whole_ip_packet(data) && (version is None || version
            == IpVersion::of_packet_view(data)) && !datagram::packet_dst(data).unspecified_view()) {
            Some(SendError::Unaddressable)
        } else if data.len() > PACKET_BUF_SIZE - LINK_HEADER_LEN {
            Some(SendError::BufferFull)
        } else if network::route_of(net, datagram::packet_dst(data)) is None {
            Some(SendError::Unaddressable)
        } else {
            None
        },
        Some(RawMode::Ethernet { .. }) => if data.len() < ETHERNET_HEADER_LEN {
            Some(SendError::Unaddressable)
        } else if data.len() > PACKET_BUF_SIZE {
            Some(SendError::BufferFull)
        } else {
            None
        },
        None => Some(SendError::Unaddressable),
    }
}

/// Whether the data starts with an IP header that is there in full, options and
/// extensions aside.
pub open spec fn whole_ip_packet(data: Seq<u8>) -> bool {
    &&& data.len() > 0
    &&& match IpVersion::of_packet_view(data) {
        Some(IpVersion::Ipv4) => data.len() >= IPV4_HEADER_LEN,
        Some(IpVersion::Ipv6) => data.len() >= IPV6_HEADER_LEN,
        None => false,
    }
}

/// The network side after a socket sent a packet.
pub open spec fn packet_sent(net: NetModel, socket: RawModel, data: Seq<u8>) -> NetModel {
    match socket.mode->0 {
        RawMode::Ip { .. } => {
            let dst = datagram::packet_dst(data);
            let route = network::route_of(net, dst)->0;
            let i = route.iface.0 as int;
            net.with_link(
                i,
                link::ip_frame_sent(
                    net.link(i),
                    dst,
                    route.next_hop,
                    PacketView::fresh(LINK_HEADER_LEN as int, data),
                    link::ethertype_of(dst),
                ),
            )
        },
        RawMode::Ethernet { iface, .. } => NetModel {
            ifaces: net.ifaces.update(
                iface.0 as int,
                Some(net.iface(iface).sent(PacketView::fresh(0, data).frame())),
            ),
            ..net
        },
    }
}

/// A raw socket borrowed from a stack.
pub struct RawSocket<'a> {
    pub state: &'a mut RawSocketState,
    pub tx: &'a mut Network,
}

impl<'a> RawSocket<'a> {
    /// This socket.
    pub open spec fn model(&self) -> RawModel {
        self.state@
    }

    /// The network side of the stack.
    pub open spec fn net(&self) -> NetModel {
        self.tx@
    }

    /// What every operation keeps.
    pub open spec fn wf(&self) -> bool {
        self.state.wf() && self.tx.wf()
    }

    /// Bind the socket, so that it gets the packets `mode` describes.
    ///
    /// Returns `Err(BindError::InvalidState)` if the socket is already bound.
    pub fn bind(&mut self, mode: RawMode) -> (r: Result<(), BindError>)
        requires
            old(self).wf(),
        ensures
            final(self).wf(),
            if old(self).model().mode is Some {
                r == Err::<(), BindError>(BindError::InvalidState) && final(self).model() == old(self).model()
            } else {
                r == Ok::<(), BindError>(()) && final(self).model() == (RawModel {
                    mode: Some(mode),
                    ..old(self).model()
                })
            },
            *final(self).tx == *old(self).tx,
            *final(final(self).state) == *final(old(self).state),
            *final(final(self).tx) == *final(old(self).tx),
    {
        if self.state.mode.is_some() {
            return Err(BindError::InvalidState);
        }
        self.state.mode = Some(mode);
        Ok(())
    }

    /// Close the socket, unbinding it and dropping any queued packets.
    pub fn close(&mut self)
        requires
            old(self).wf(),
        ensures
            final(self).wf(),
            final(self).model() == RawModel::unbound(),
            *final(self).tx == *old(self).tx,
            *final(final(self).state) == *final(old(self).state),
            *final(final(self).tx) == *final(old(self).tx),
    {
        self.state.mode = None;
        self.state.rx_queue.clear();
        assert(self.model() =~= RawModel::unbound());
    }

    /// Check whether the socket is open (bound).
    pub fn is_open(&self) -> (r: bool)
        ensures
            r == (self.model().mode is Some),
    {
        self.state.mode.is_some()
    }

    /// Check whether the RX queue is not empty.
    pub fn can_recv(&self) -> (r: bool)
        ensures
            r == (self.model().rx.len() > 0),
    {
        self.state.rx_queue.len() > 0
    }

    /// Dequeue a received packet.
    ///
    /// Returns `Err(RecvError::Exhausted)` if the RX queue is empty.
    pub fn recv(&mut self) -> (r: Result<PacketBuf, RecvError>)
        requires
            old(self).wf(),
        ensures
            final(self).wf(),
            if old(self).model().rx.len() == 0 {
                r == Err::<PacketBuf, RecvError>(RecvError::Exhausted) && final(self).model() == old(self).model()
            } else {
                &&& r is Ok
                &&& r->Ok_0.wf()
                &&& r->Ok_0@ == old(self).model().rx[0]
                &&& final(self).model() == (RawModel {
                    rx: old(self).model().rx.drop_first(),
                    ..old(self).model()
                })
            },
            *final(self).tx == *old(self).tx,
            *final(final(self).state) == *final(old(self).state),
            *final(final(self).tx) == *final(old(self).tx),
    {
        match self.state.rx_queue.pop_front() {
            Some(buf) => {
                assert(old(self).model().rx[0] == buf@);
                assert(self.model().rx =~= old(self).model().rx.drop_first());
                Ok(buf)
            },
            None => Err(RecvError::Exhausted),
        }
    }

    /// Send a whole packet, as it is: an IP packet to the destination it names, or an
    /// Ethernet frame out of the interface the socket is bound to.
    ///
    /// Returns `Err(SendError::Unaddressable)` if the socket is not bound, the packet
    /// is not of the kind it is bound to, or there is no route to its destination, and
    /// `Err(SendError::BufferFull)` if it does not fit in a packet buffer.
    pub fn send_slice(&mut self, data: &[u8]) -> (r: Result<(), SendError>)
        requires
            old(self).wf(),
            old(self).net().routes_attached(),
            old(self).model().mode matches Some(RawMode::Ethernet { iface, .. }) ==> old(self).net().has_iface(iface),
        ensures
            final(self).wf(),
            *final(self).state == *old(self).state,
            match send_refusal(old(self).net(), old(self).model(), data@) {
                Some(error) => r == Err::<(), SendError>(error) && final(self).net() == old(self).net(),
                None => r == Ok::<(), SendError>(()) && final(self).net() == packet_sent(
                    old(self).net(),
                    old(self).model(),
                    data@,
                ),
            },
            *final(final(self).state) == *final(old(self).state),
            *final(final(self).tx) == *final(old(self).tx),
    {
        let mode = match &self.state.mode {
            Some(mode) => *mode,
            None => return Err(SendError::Unaddressable),
        };
        match mode {
            RawMode::Ip { version, .. } => {
                let dst = match ip_destination(data) {
                    Some(dst) => dst,
                    None => return Err(SendError::Unaddressable),
                };
                if let Some(version) = version {
                    if version != dst.version() {
                        return Err(SendError::Unaddressable);
                    }
                }
                if dst.is_unspecified() {
                    return Err(SendError::Unaddressable);
                }
                if data.len() > PACKET_BUF_SIZE - LINK_HEADER_LEN {
                    return Err(SendError::BufferFull);
                }
                let buf = PacketBuf::with_data(LINK_HEADER_LEN, data);
                if self.tx.transmit_raw_ip(buf, dst) {
                    Ok(())
                } else {
                    Err(SendError::Unaddressable)
                }
            },
            RawMode::Ethernet { iface, .. } => {
                if data.len() < ETHERNET_HEADER_LEN {
                    return Err(SendError::Unaddressable);
                }
                if data.len() > PACKET_BUF_SIZE {
                    return Err(SendError::BufferFull);
                }
                let buf = PacketBuf::with_data(0, data);
                self.tx.transmit_ethernet_frame(iface, buf);
                Ok(())
            },
        }
    }
}

/// The destination an IP packet names. `None` if its header is not there in full.
fn ip_destination(data: &[u8]) -> (r: Option<IpAddress>)
    ensures
        r is Some <==> whole_ip_packet(data@),
        r matches Some(dst) ==> {
            &&& dst == datagram::packet_dst(data@)
            &&& IpVersion::of_packet_view(data@) == Some(dst.version_view())
        },
{
    if data.len() == 0 {
        return None;
    }
    match IpVersion::of_packet(data) {
        Ok(IpVersion::Ipv4) => {
            if data.len() < IPV4_HEADER_LEN {
                return None;
            }
            let header = Ipv4Header::read(data);
            proof {
                header.dst_addr.lemma_of();
            }
            Some(IpAddress::Ipv4(header.dst_addr))
        },
        Ok(IpVersion::Ipv6) => {
            if data.len() < IPV6_HEADER_LEN {
                return None;
            }
            let header = Ipv6Header::read(data);
            proof {
                header.dst_addr.lemma_of();
            }
            Some(IpAddress::Ipv6(header.dst_addr))
        },
        Err(_) => None,
    }
}

/// The first socket that gets a packet.
fn find_taker(sockets: &Slab<RawSocketState, RAW_SOCKET_COUNT>, key: &RawKey) -> (r: Option<usize>)
    ensures
        (match r {
            Some(i) => Some(i as int),
            None => None,
        }) == first_taker(slab::views(sockets@), *key, 0),
        r matches Some(i) ==> slab::occupied(sockets@, i as int),
{
    let ghost slots = slab::views(sockets@);
    let mut i: usize = 0;
    while i < sockets.slot_count()
        invariant
            i <= sockets@.len(),
            slots == slab::views(sockets@),
            first_taker(slots, *key, i as int) == first_taker(slots, *key, 0),
        decreases sockets@.len() - i,
    {
        if sockets.is_occupied(i) {
            let socket = sockets.get(i);
            assert(slots[i as int] == Some(socket@));
            if socket.matches(key) {
                return Some(i);
            }
        }
        i += 1;
    }
    None
}

/// Offer a packet to the sockets. A packet the stack wants is copied to the first
/// socket that gets it; any other is taken by it.
///
/// Returns the packet if it is still to be processed, and whether a socket got it.
fn process_raw(
    sockets: &mut Slab<RawSocketState, RAW_SOCKET_COUNT>,
    key: RawKey,
    stack_wants: bool,
    buf: PacketBuf,
) -> (r: Option<(PacketBuf, bool)>)
    requires
        old(sockets).wf(),
        slots_ok(old(sockets)@),
        buf.wf(),
    ensures
        final(sockets).wf(),
        slots_ok(final(sockets)@),
        slab::views(final(sockets)@) == offered(slab::views(old(sockets)@), key, buf@),
        r is None <==> taken(slab::views(old(sockets)@), key) && !stack_wants,
        r matches Some((kept, handled)) ==> {
            &&& kept.wf()
            &&& kept@ == buf@
            &&& handled == taken(slab::views(old(sockets)@), key)
        },
{
    let index = match find_taker(&*sockets, &key) {
        Some(index) => index,
        None => return Some((buf, false)),
    };
    let ghost slots = sockets@;
    assert(slots[index as int]->0.wf());
    let state = sockets.get_mut(index);
    let kept = if stack_wants {
        state.rx_enqueue(buf.duplicate());
        Some((buf, true))
    } else {
        state.rx_enqueue(buf);
        None
    };
    proof {
        slab::lemma_views_update(slots, index as int, sockets@[index as int]->0);
        assert forall|i: int| slab::occupied(sockets@, i) implies (#[trigger] sockets@[i])->0.wf() by {
            if i != index {
                assert(slots[i]->0.wf());
            }
        }
    }
    kept
}

/// Offer a whole IP packet to the sockets in IP mode.
///
/// Returns the packet if it is still to be processed, and whether a socket got it.
pub fn process_raw_ip(
    sockets: &mut Slab<RawSocketState, RAW_SOCKET_COUNT>,
    version: IpVersion,
    protocol: IpProtocol,
    stack_wants: bool,
    buf: PacketBuf,
) -> (r: Option<(PacketBuf, bool)>)
    requires
        old(sockets).wf(),
        slots_ok(old(sockets)@),
        buf.wf(),
    ensures
        final(sockets).wf(),
        slots_ok(final(sockets)@),
        slab::views(final(sockets)@) == offered(
            slab::views(old(sockets)@),
            (RawKey::Ip { version, protocol }),
            buf@,
        ),
        r is None <==> taken(slab::views(old(sockets)@), (RawKey::Ip { version, protocol })) && !stack_wants,
        r matches Some((kept, handled)) ==> {
            &&& kept.wf()
            &&& kept@ == buf@
            &&& handled == taken(slab::views(old(sockets)@), (RawKey::Ip { version, protocol }))
        },
{
    process_raw(sockets, RawKey::Ip { version, protocol }, stack_wants, buf)
}

/// Offer a whole Ethernet frame to the sockets in Ethernet mode.
///
/// Returns the frame if it is still to be processed.
pub fn process_raw_ethernet(
    sockets: &mut Slab<RawSocketState, RAW_SOCKET_COUNT>,
    iface: IfaceHandle,
    ethertype: EthernetProtocol,
    stack_wants: bool,
    buf: PacketBuf,
) -> (r: Option<PacketBuf>)
    requires
        old(sockets).wf(),
        slots_ok(old(sockets)@),
        buf.wf(),
    ensures
        final(sockets).wf(),
        slots_ok(final(sockets)@),
        slab::views(final(sockets)@) == offered(
            slab::views(old(sockets)@),
            (RawKey::Ethernet { iface, ethertype }),
            buf@,
        ),
        r is None <==> taken(slab::views(old(sockets)@), (RawKey::Ethernet { iface, ethertype })) && !stack_wants,
        r matches Some(kept) ==> kept.wf() && kept@ == buf@,
{
    match process_raw(sockets, RawKey::Ethernet { iface, ethertype }, stack_wants, buf) {
        Some((buf, _)) => Some(buf),
        None => None,
    }
}

} // verus!
