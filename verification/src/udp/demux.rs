//! What a UDP socket holds, and which socket a datagram goes to.

use vstd::prelude::*;

use crate::buf::PacketView;
use crate::icmp_error::IcmpError;
use crate::stack::ports;
use crate::storage::slab;
use crate::udp::datagram;
use crate::wire::endpoint::{IpEndpoint, IpListenEndpoint};
use crate::wire::ip::IpAddress;

verus! {

/// What a UDP socket holds.
#[verifier::ext_equal]
pub struct UdpModel {
    /// The local half of the socket's 4-tuple. A zero port means the socket is not
    /// bound.
    pub local: IpListenEndpoint,
    /// The remote half of the socket's 4-tuple.
    pub remote: IpListenEndpoint,
    /// The datagrams received and not yet taken, oldest first.
    pub rx: Seq<PacketView>,
    pub hop_limit: Option<u8>,
    /// The error reported about a datagram sent, and where that was sent to.
    pub error: Option<(IcmpError, IpEndpoint)>,
}

/// The sockets of a stack, by slot.
pub type UdpSlots = Seq<Option<UdpModel>>;

/// Whether every queued datagram was validated.
pub open spec fn queue_ok(rx: Seq<PacketView>) -> bool {
    forall|i: int| 0 <= i < rx.len() ==> datagram::datagram_ok((#[trigger] rx[i]).data)
}

impl UdpModel {
    /// An unbound socket.
    pub open spec fn unbound() -> UdpModel {
        UdpModel {
            local: IpListenEndpoint::wildcard(),
            remote: IpListenEndpoint::wildcard(),
            rx: Seq::empty(),
            hop_limit: None,
            error: None,
        }
    }

    /// How specifically the socket matches a flow: `None` if a specified part of its
    /// 4-tuple differs, else the higher the more specific.
    ///
    /// A broadcast or multicast destination matches a socket bound to one address
    /// too, as long as the IP version is its own.
    pub open spec fn score(
        self,
        src: IpAddress,
        src_port: u16,
        dst: IpAddress,
        dst_port: u16,
        dst_is_bcast: bool,
    ) -> Option<int> {
        let local = match ports::filter_score(self.local, dst) {
            Some(score) => Some(score as int),
            None => if dst_is_bcast && self.local.version_view() == Some(dst.version_view()) {
                Some(2)
            } else {
                None
            },
        };
        if self.local.port != dst_port || local is None || ports::filter_score(self.remote, src) is None || (
        self.remote.port != 0 && self.remote.port != src_port) {
            None
        } else {
            Some(
                local->0 + ports::filter_score(self.remote, src)->0 + if self.remote.port != 0 {
                    1int
                } else {
                    0int
                },
            )
        }
    }
}

/// A flow, as ingress sees it.
pub struct Flow {
    pub src: IpAddress,
    pub src_port: u16,
    pub dst: IpAddress,
    pub dst_port: u16,
    /// Whether the destination is broadcast or multicast.
    pub dst_is_bcast: bool,
}

/// How specifically the socket in slot `i` matches a flow.
pub open spec fn slot_score(slots: UdpSlots, flow: Flow, i: int) -> Option<int> {
    match slots[i] {
        Some(socket) => socket.score(flow.src, flow.src_port, flow.dst, flow.dst_port, flow.dst_is_bcast),
        None => None,
    }
}

/// The socket among the first `n` slots a flow goes to: the most specific match,
/// the earliest among equals.
pub open spec fn best_socket(slots: UdpSlots, flow: Flow, n: int) -> Option<int>
    decreases n,
{
    if n <= 0 {
        None
    } else {
        let best = best_socket(slots, flow, n - 1);
        match slot_score(slots, flow, n - 1) {
            None => best,
            Some(score) => match best {
                Some(b) => if score > slot_score(slots, flow, b)->0 {
                    Some(n - 1)
                } else {
                    Some(b)
                },
                None => Some(n - 1),
            },
        }
    }
}

/// The socket a flow goes to.
pub open spec fn demux(slots: UdpSlots, flow: Flow) -> Option<int> {
    best_socket(slots, flow, slots.len() as int)
}

/// A flow goes to a socket whenever one matches, to one that matches, to none less
/// specific than another, and to the earliest of equals.
pub proof fn law_demux_picks_most_specific(slots: UdpSlots, flow: Flow, n: int)
    requires
        0 <= n <= slots.len(),
    ensures
        match best_socket(slots, flow, n) {
            Some(b) => {
                &&& 0 <= b < n
                &&& slab::occupied(slots, b)
                &&& slot_score(slots, flow, b) is Some
                &&& forall|i: int|
                    0 <= i < n && #[trigger] slot_score(slots, flow, i) is Some ==> slot_score(slots, flow, i)->0
                        <= slot_score(slots, flow, b)->0
                &&& forall|i: int|
                    0 <= i < b && #[trigger] slot_score(slots, flow, i) is Some ==> slot_score(slots, flow, i)->0
                        < slot_score(slots, flow, b)->0
            },
            None => forall|i: int| 0 <= i < n ==> #[trigger] slot_score(slots, flow, i) is None,
        },
    decreases n,
{
    if n > 0 {
        law_demux_picks_most_specific(slots, flow, n - 1);
    }
}

/// Whether another socket than the one in slot `index` holds the 4-tuple.
pub open spec fn tuple_taken(slots: UdpSlots, index: int, local: IpListenEndpoint, remote: IpListenEndpoint) -> bool {
    exists|i: int|
        i != index && slab::occupied(slots, i) && (#[trigger] slots[i])->0.local == local && slots[i]->0.remote
            == remote
}

/// Whether a local port would make another socket's 4-tuple.
pub open spec fn port_taken(
    slots: UdpSlots,
    index: int,
    addr: Option<IpAddress>,
    remote: IpListenEndpoint,
) -> spec_fn(u16) -> bool {
    |port: u16| tuple_taken(slots, index, IpListenEndpoint { addr, port }, remote)
}

/// Whether binding a 4-tuple leaves it as it is: its halves do not exclude each other, and
/// a connected one names a single local address.
pub open spec fn tuple_settled(local: IpListenEndpoint, remote: IpListenEndpoint) -> bool {
    &&& local.version_view() is Some && remote.version_view() is Some ==> local.version_view() == remote.version_view()
    &&& remote.concrete() is Some && remote.port != 0 ==> local.concrete() is Some
}

/// Whether no two bound sockets hold the same 4-tuple.
#[verifier::opaque]
pub open spec fn tuples_distinct(slots: UdpSlots) -> bool {
    forall|i: int, j: int|
        #![trigger slots[i], slots[j]]
        i != j && slab::occupied(slots, i) && slab::occupied(slots, j) && slots[i]->0.local.port != 0 ==> !(
        slots[i]->0.local == slots[j]->0.local && slots[i]->0.remote == slots[j]->0.remote)
}

/// The 4-tuple of a bound socket is its own.
pub proof fn lemma_own_tuple(slots: UdpSlots, index: int)
    requires
        tuples_distinct(slots),
        slab::occupied(slots, index),
    ensures
        slots[index]->0.local.port == 0 || !tuple_taken(slots, index, slots[index]->0.local, slots[index]->0.remote),
{
    reveal(tuples_distinct);
}

/// What a socket holds makes no difference to the 4-tuples that others hold.
pub proof fn lemma_taken_by_others(
    slots: UdpSlots,
    index: int,
    socket: UdpModel,
    local: IpListenEndpoint,
    remote: IpListenEndpoint,
)
    requires
        0 <= index < slots.len(),
    ensures
        tuple_taken(slots.update(index, Some(socket)), index, local, remote) == tuple_taken(
            slots,
            index,
            local,
            remote,
        ),
{
    let after = slots.update(index, Some(socket));
    if tuple_taken(slots, index, local, remote) {
        let i = choose|i: int|
            i != index && slab::occupied(slots, i) && (#[trigger] slots[i])->0.local == local && slots[i]->0.remote
                == remote;
        assert(after[i] == slots[i]);
    }
    if tuple_taken(after, index, local, remote) {
        let i = choose|i: int|
            i != index && slab::occupied(after, i) && (#[trigger] after[i])->0.local == local && after[i]->0.remote
                == remote;
        assert(after[i] == slots[i]);
    }
}

/// A socket that is not bound, or whose 4-tuple no other socket holds, keeps the 4-tuples
/// distinct.
pub proof fn lemma_distinct_changed(slots: UdpSlots, index: int, socket: UdpModel)
    requires
        tuples_distinct(slots),
        0 <= index < slots.len(),
        socket.local.port == 0 || !tuple_taken(slots, index, socket.local, socket.remote),
    ensures
        tuples_distinct(slots.update(index, Some(socket))),
{
    reveal(tuples_distinct);
    let after = slots.update(index, Some(socket));
    assert forall|i: int, j: int|
        #![trigger after[i], after[j]]
        i != j && slab::occupied(after, i) && slab::occupied(after, j) && after[i]->0.local.port != 0 implies !(
    after[i]->0.local == after[j]->0.local && after[i]->0.remote == after[j]->0.remote) by {
        if i != index {
            assert(slots[i] == after[i]);
        }
        if j != index {
            assert(slots[j] == after[j]);
        }
    }
}

/// A new socket is not bound, so the 4-tuples stay distinct.
pub proof fn lemma_distinct_added(slots: UdpSlots, index: int, socket: UdpModel)
    requires
        tuples_distinct(slots),
        0 <= index <= slots.len(),
        socket.local.port == 0,
    ensures
        tuples_distinct(slab::with_item(slots, index, socket)),
{
    if index < slots.len() {
        lemma_distinct_changed(slots, index, socket);
    } else {
        reveal(tuples_distinct);
    }
}

/// Without one of the sockets, the 4-tuples stay distinct.
pub proof fn lemma_distinct_removed(slots: UdpSlots, index: int)
    requires
        tuples_distinct(slots),
        0 <= index < slots.len(),
    ensures
        tuples_distinct(slots.update(index, None)),
{
    reveal(tuples_distinct);
}

} // verus!
