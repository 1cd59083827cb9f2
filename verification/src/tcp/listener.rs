//! TCP listeners.

use vstd::prelude::*;

use crate::config::{TCP_LISTENER_COUNT, TCP_SOCKET_COUNT};
use crate::rand::Rand;
use crate::stack::ports;
use crate::stack::ports::addr_score;
use crate::storage::slab;
use crate::storage::slab::Slab;
use crate::tcp::repr::{SegmentView, TcpRepr, TcpTimestampRepr};
use crate::tcp::socket;
use crate::tcp::socket::{
    State, TcpHandle, TcpModel, TcpSlots, TcpSocketState, Tuple, DEFAULT_MSS, MAX_RX_CAPACITY, MIN_REMOTE_MSS,
};
use crate::wire::endpoint::{IpEndpoint, IpListenEndpoint};
use crate::wire::ip::IpAddress;
use crate::wire::tcp::{TcpControl, TcpSeqNumber};

verus! {

/// A handle to a TCP listener added to a stack.
#[derive(Debug, Clone, Copy, PartialEq, Eq, Structural, PartialOrd, Ord, Hash)]
pub struct TcpListenerHandle(pub usize);

impl TcpListenerHandle {
    /// The handle of slot `index`.
    pub fn new(index: usize) -> (r: Self)
        ensures
            r.0 == index,
    {
        TcpListenerHandle(index)
    }

    /// The slot the handle stands for.
    pub fn index(self) -> (r: usize)
        ensures
            r == self.0,
    {
        self.0
    }
}

/// Error returned by [`TcpListener::listen`].
#[derive(Debug, Clone, Copy, PartialEq, Eq, Structural)]
pub enum ListenError {
    /// The listener is already listening on another endpoint.
    InvalidState,
    /// Another listener is bound to an identical endpoint.
    InUse,
    /// The port is zero.
    Unaddressable,
}

/// A SYN recorded in a listener's accept queue: the parsed handshake state
/// needed to create the connection socket at accept time.
#[derive(Debug, Clone, Copy)]
pub struct PendingSyn {
    pub tuple: Tuple,
    /// The remote's initial sequence number plus one.
    pub remote_seq_no: TcpSeqNumber,
    /// The remote window advertised in the SYN (never scaled).
    pub remote_win_len: usize,
    /// The window scale the remote offered, if any.
    pub remote_win_scale: Option<u8>,
    /// Whether the remote supports selective ACK.
    pub remote_has_sack: bool,
    /// The MSS the remote advertised (clamped), or the default.
    pub remote_mss: usize,
    /// The timestamp option of the SYN, if present.
    pub timestamp: Option<TcpTimestampRepr>,
}

/// The two ends of the connection a segment belongs to, as its receiver sees them.
pub open spec fn tuple_of(src: IpAddress, dst: IpAddress, segment: SegmentView) -> Tuple {
    Tuple {
        local: IpEndpoint { addr: dst, port: segment.dst_port },
        remote: IpEndpoint { addr: src, port: segment.src_port },
    }
}

/// The maximum segment size a SYN announces: a zero one counts as none, a tiny one is
/// clamped.
pub open spec fn announced_mss(mss: Option<u16>) -> usize {
    match mss {
        Some(n) => if n == 0 {
            DEFAULT_MSS
        } else if n < MIN_REMOTE_MSS {
            MIN_REMOTE_MSS
        } else {
            n as usize
        },
        None => DEFAULT_MSS,
    }
}

/// What is recorded of a SYN.
pub open spec fn syn_of(src: IpAddress, dst: IpAddress, segment: SegmentView) -> PendingSyn {
    PendingSyn {
        tuple: tuple_of(src, dst, segment),
        remote_seq_no: segment.seq_number.plus(1),
        remote_win_len: segment.window_len as usize,
        remote_win_scale: segment.options.window_scale,
        remote_has_sack: segment.options.sack_permitted,
        remote_mss: announced_mss(segment.options.max_seg_size),
        timestamp: segment.options.timestamp,
    }
}

/// What a listener holds.
#[verifier::ext_equal]
pub struct ListenerModel {
    /// The listened endpoint. A zero port means the listener is closed.
    pub local: IpListenEndpoint,
    /// The SYNs waiting to be accepted, oldest first.
    pub queue: Seq<PendingSyn>,
}

/// The listeners of a stack, by slot.
pub type ListenerSlots = Seq<Option<ListenerModel>>;

/// The first recorded SYN at or after position `from` of the given connection.
pub open spec fn syn_index(queue: Seq<PendingSyn>, tuple: Tuple, from: int) -> Option<int>
    decreases queue.len() - from,
{
    if from < 0 || from >= queue.len() {
        None
    } else if queue[from].tuple == tuple {
        Some(from)
    } else {
        syn_index(queue, tuple, from + 1)
    }
}

/// Whether no connection is recorded twice.
pub open spec fn deduplicated(queue: Seq<PendingSyn>) -> bool {
    forall|i: int, j: int|
        #![trigger queue[i], queue[j]]
        0 <= i < queue.len() && 0 <= j < queue.len() && i != j ==> queue[i].tuple != queue[j].tuple
}

/// A recorded SYN is found where it is, and the first of a connection is found.
pub proof fn lemma_syn_index(queue: Seq<PendingSyn>, tuple: Tuple, from: int)
    requires
        0 <= from,
    ensures
        match syn_index(queue, tuple, from) {
            Some(i) => from <= i < queue.len() && queue[i].tuple == tuple,
            None => forall|i: int| from <= i < queue.len() ==> (#[trigger] queue[i]).tuple != tuple,
        },
    decreases queue.len() - from,
{
    if from < queue.len() && queue[from].tuple != tuple {
        lemma_syn_index(queue, tuple, from + 1);
    }
}

impl ListenerModel {
    /// A closed listener.
    pub open spec fn closed() -> ListenerModel {
        ListenerModel { local: IpListenEndpoint::wildcard(), queue: Seq::empty() }
    }

    /// How specifically a listener listens on an address and port. `None` if it does
    /// not.
    pub open spec fn listens_on(self, dst: IpAddress, port: u16) -> Option<u8> {
        if self.local.port != 0 && port == self.local.port {
            ports::filter_score(self.local, dst)
        } else {
            None
        }
    }

    /// Whether a reset is aimed at a recorded SYN. The only acceptable sequence number
    /// for a connection with nothing received past the SYN is exactly the next one.
    pub open spec fn resets(self, tuple: Tuple, seq: TcpSeqNumber) -> bool {
        syn_index(self.queue, tuple, 0) matches Some(i) && self.queue[i].remote_seq_no == seq
    }

    /// Whether a listener takes a segment: a SYN to the listened endpoint, or a reset
    /// of a recorded one.
    pub open spec fn consumes(self, src: IpAddress, dst: IpAddress, segment: SegmentView) -> bool {
        if segment.control == TcpControl::Syn && segment.ack_number is None {
            self.listens_on(dst, segment.dst_port) is Some
        } else if segment.control == TcpControl::Rst {
            self.resets(tuple_of(src, dst, segment), segment.seq_number)
        } else {
            false
        }
    }

    /// The listener after a segment was offered to it. The newest SYN of a connection
    /// replaces an older one.
    pub open spec fn after(self, src: IpAddress, dst: IpAddress, segment: SegmentView) -> ListenerModel {
        let tuple = tuple_of(src, dst, segment);
        if !self.consumes(src, dst, segment) {
            self
        } else if segment.control == TcpControl::Syn {
            ListenerModel {
                queue: match syn_index(self.queue, tuple, 0) {
                    Some(i) => self.queue.update(i, syn_of(src, dst, segment)),
                    None => self.queue.push(syn_of(src, dst, segment)),
                },
                ..self
            }
        } else {
            ListenerModel { queue: self.queue.remove(syn_index(self.queue, tuple, 0)->0), ..self }
        }
    }
}

/// A listener never records a connection twice: a segment keeps its queue
/// deduplicated.
pub proof fn law_queue_stays_deduplicated(
    listener: ListenerModel,
    src: IpAddress,
    dst: IpAddress,
    segment: SegmentView,
)
    requires
        deduplicated(listener.queue),
    ensures
        deduplicated(listener.after(src, dst, segment).queue),
{
    let tuple = tuple_of(src, dst, segment);
    lemma_syn_index(listener.queue, tuple, 0);
    let after = listener.after(src, dst, segment).queue;
    if listener.consumes(src, dst, segment) && segment.control != TcpControl::Syn {
        let k = syn_index(listener.queue, tuple, 0)->0;
        assert forall|i: int, j: int|
            #![trigger after[i], after[j]]
            0 <= i < after.len() && 0 <= j < after.len() && i != j implies after[i].tuple != after[j].tuple by {
            let a = if i < k {
                i
            } else {
                i + 1
            };
            let b = if j < k {
                j
            } else {
                j + 1
            };
            assert(after[i] == listener.queue[a]);
            assert(after[j] == listener.queue[b]);
        }
    }
}

/// The best match among the first `n` listeners for an address and port: the most
/// specific, the earliest among equals.
pub open spec fn best_listener(slots: ListenerSlots, dst: IpAddress, port: u16, n: int) -> Option<int>
    decreases n,
{
    if n <= 0 {
        None
    } else {
        let best = best_listener(slots, dst, port, n - 1);
        match slot_score(slots, dst, port, n - 1) {
            None => best,
            Some(score) => match best {
                Some(b) => if score > slot_score(slots, dst, port, b)->0 {
                    Some(n - 1)
                } else {
                    Some(b)
                },
                None => Some(n - 1),
            },
        }
    }
}

/// How specifically the listener in slot `i` listens on an address and port.
pub open spec fn slot_score(slots: ListenerSlots, dst: IpAddress, port: u16, i: int) -> Option<u8> {
    match slots[i] {
        Some(listener) => listener.listens_on(dst, port),
        None => None,
    }
}

/// The first listener at or after slot `from` that recorded a SYN a reset is aimed at.
pub open spec fn reset_listener(slots: ListenerSlots, tuple: Tuple, seq: TcpSeqNumber, from: int) -> Option<int>
    decreases slots.len() - from,
{
    if from < 0 || from >= slots.len() {
        None
    } else if slots[from] is Some && slots[from]->0.resets(tuple, seq) {
        Some(from)
    } else {
        reset_listener(slots, tuple, seq, from + 1)
    }
}

/// The listener that takes a segment, if one does.
pub open spec fn consumer(slots: ListenerSlots, src: IpAddress, dst: IpAddress, segment: SegmentView) -> Option<int> {
    if segment.control == TcpControl::Syn && segment.ack_number is None {
        best_listener(slots, dst, segment.dst_port, slots.len() as int)
    } else if segment.control == TcpControl::Rst {
        reset_listener(slots, tuple_of(src, dst, segment), segment.seq_number, 0)
    } else {
        None
    }
}

/// The listeners after a segment was offered to them.
pub open spec fn offered(slots: ListenerSlots, src: IpAddress, dst: IpAddress, segment: SegmentView) -> ListenerSlots {
    match consumer(slots, src, dst, segment) {
        Some(i) => slots.update(i, Some(slots[i]->0.after(src, dst, segment))),
        None => slots,
    }
}

/// A SYN goes to the most specific of the listeners that listen on its destination.
pub proof fn law_syn_goes_to_most_specific_listener(slots: ListenerSlots, dst: IpAddress, port: u16, n: int)
    requires
        0 <= n <= slots.len(),
    ensures
        match best_listener(slots, dst, port, n) {
            Some(b) => {
                &&& 0 <= b < n
                &&& slab::occupied(slots, b)
                &&& slot_score(slots, dst, port, b) is Some
                &&& forall|i: int|
                    0 <= i < n && #[trigger] slot_score(slots, dst, port, i) is Some ==> slot_score(
                        slots,
                        dst,
                        port,
                        i,
                    )->0 <= slot_score(slots, dst, port, b)->0
            },
            None => forall|i: int| 0 <= i < n ==> #[trigger] slot_score(slots, dst, port, i) is None,
        },
    decreases n,
{
    if n > 0 {
        law_syn_goes_to_most_specific_listener(slots, dst, port, n - 1);
    }
}

/// TCP listener state, stored inside the stack.
#[derive(Debug)]
pub struct TcpListenerState {
    local: IpListenEndpoint,
    queue: Vec<PendingSyn>,
}

impl View for TcpListenerState {
    type V = ListenerModel;

    closed spec fn view(&self) -> ListenerModel {
        ListenerModel { local: self.local, queue: self.queue@ }
    }
}

impl TcpListenerState {
    /// The accept queue is deduplicated.
    pub open spec fn wf(&self) -> bool {
        deduplicated(self@.queue)
    }

    /// Create a closed listener.
    pub fn new() -> (r: TcpListenerState)
        ensures
            r.wf(),
            r@ == ListenerModel::closed(),
    {
        TcpListenerState { local: IpListenEndpoint::unspecified(), queue: Vec::new() }
    }

    /// How specifically a segment to (`dst_addr`, `dst_port`) is aimed at this
    /// listener. `None` if it is not.
    pub fn matches(&self, dst_addr: &IpAddress, dst_port: u16) -> (r: Option<u8>)
        ensures
            r == self@.listens_on(*dst_addr, dst_port),
    {
        if self.local.port != 0 && dst_port == self.local.port {
            addr_score(&self.local, dst_addr)
        } else {
            None
        }
    }

    /// Where a connection is recorded.
    fn find(&self, tuple: &Tuple) -> (r: Option<usize>)
        ensures
            (match r {
                Some(i) => Some(i as int),
                None => None,
            }) == syn_index(self@.queue, *tuple, 0),
            r matches Some(i) ==> i < self@.queue.len(),
    {
        let mut i: usize = 0;
        while i < self.queue.len()
            invariant
                i <= self@.queue.len(),
                self@.queue == self.queue@,
                syn_index(self@.queue, *tuple, i as int) == syn_index(self@.queue, *tuple, 0),
            decreases self@.queue.len() - i,
        {
            if self.queue[i].tuple == *tuple {
                return Some(i);
            }
            i += 1;
        }
        None
    }

    /// Whether a reset is aimed at a recorded SYN.
    pub fn resets(&self, tuple: &Tuple, seq: TcpSeqNumber) -> (r: bool)
        ensures
            r == self@.resets(*tuple, seq),
    {
        match self.find(tuple) {
            Some(i) => self.queue[i].remote_seq_no == seq,
            None => false,
        }
    }

    /// Offer an ingress segment to this listener, returning whether it was
    /// consumed.
    ///
    /// The listener consumes exactly two things, and never replies to either.
    /// A SYN to the listened endpoint is recorded in the accept queue,
    /// deduplicated by 4-tuple with the newest SYN winning, so retransmissions
    /// (or a client aborting and reconnecting from the same port) update the
    /// entry in place. An RST aimed at a recorded SYN removes it. Everything
    /// else is left to the caller's RST fallback.
    pub fn process(&mut self, src_addr: &IpAddress, dst_addr: &IpAddress, repr: &TcpRepr<'_>) -> (r: bool)
        requires
            old(self).wf(),
        ensures
            final(self).wf(),
            r == old(self)@.consumes(*src_addr, *dst_addr, repr.segment()),
            final(self)@ == old(self)@.after(*src_addr, *dst_addr, repr.segment()),
    {
        proof {
            law_queue_stays_deduplicated(self@, *src_addr, *dst_addr, repr.segment());
        }
        let tuple = Tuple {
            local: IpEndpoint::new(*dst_addr, repr.dst_port),
            remote: IpEndpoint::new(*src_addr, repr.src_port),
        };
        match repr.control {
            TcpControl::Syn => {
                if repr.ack_number.is_some() || self.matches(dst_addr, repr.dst_port).is_none() {
                    return false;
                }
                let remote_mss: usize = match repr.max_seg_size {
                    // A zero MSS is treated as if the option were absent,
                    // a tiny one is clamped.
                    Some(mss) => if mss == 0 {
                        DEFAULT_MSS
                    } else if (mss as usize) < MIN_REMOTE_MSS {
                        MIN_REMOTE_MSS
                    } else {
                        mss as usize
                    },
                    None => DEFAULT_MSS,
                };
                let syn = PendingSyn {
                    tuple,
                    remote_seq_no: repr.seq_number.advance(1),
                    // The window field of a SYN is never scaled.
                    remote_win_len: repr.window_len as usize,
                    remote_win_scale: repr.window_scale,
                    remote_has_sack: repr.sack_permitted,
                    remote_mss,
                    timestamp: repr.timestamp,
                };
                assert(syn == syn_of(*src_addr, *dst_addr, repr.segment()));
                match self.find(&tuple) {
                    // A retransmission of a queued SYN, or a new connection
                    // attempt reusing the same ports. The newest SYN wins.
                    Some(i) => {
                        self.queue.set(i, syn);
                    },
                    None => {
                        self.queue.push(syn);
                    },
                }
                true
            },
            TcpControl::Rst => {
                // The client gave up before we accepted.
                match self.find(&tuple) {
                    Some(i) => {
                        if self.queue[i].remote_seq_no == repr.seq_number {
                            let _ = self.queue.remove(i);
                            true
                        } else {
                            false
                        }
                    },
                    None => false,
                }
            },
            _ => false,
        }
    }
}

/// Whether every listener is well-formed.
pub open spec fn slots_ok(slots: Seq<Option<TcpListenerState>>) -> bool {
    forall|i: int| slab::occupied(slots, i) ==> (#[trigger] slots[i])->0.wf()
}

/// The listeners after one of them changed.
pub open spec fn replaced(slots: ListenerSlots, index: usize, listener: ListenerModel) -> ListenerSlots {
    slots.update(index as int, Some(listener))
}

/// Changing one listener keeps the others.
pub proof fn lemma_changed(before: Seq<Option<TcpListenerState>>, after: Seq<Option<TcpListenerState>>, index: usize)
    requires
        slab::occupied(before, index as int),
        slots_ok(before),
        after == before.update(index as int, after[index as int]),
        after[index as int] is Some,
        after[index as int]->0.wf(),
    ensures
        slots_ok(after),
        slab::views(after) == replaced(slab::views(before), index, after[index as int]->0@),
{
    slab::lemma_views_update(before, index as int, after[index as int]->0);
    assert forall|i: int| slab::occupied(after, i) implies (#[trigger] after[i])->0.wf() by {
        if i != index {
            assert(before[i]->0.wf());
        }
    }
}

/// The most specific of the listeners that listen on an address and port.
fn find_listener(listeners: &Slab<TcpListenerState, TCP_LISTENER_COUNT>, dst_addr: &IpAddress, dst_port: u16) -> (r:
    Option<usize>)
    ensures
        (match r {
            Some(i) => Some(i as int),
            None => None,
        }) == best_listener(slab::views(listeners@), *dst_addr, dst_port, listeners@.len() as int),
        r matches Some(i) ==> slab::occupied(listeners@, i as int),
{
    let ghost slots = slab::views(listeners@);
    let mut best: Option<(usize, u8)> = None;
    let mut i: usize = 0;
    while i < listeners.slot_count()
        invariant
            i <= listeners@.len(),
            slots == slab::views(listeners@),
            match best {
                Some((b, score)) => {
                    &&& best_listener(slots, *dst_addr, dst_port, i as int) == Some(b as int)
                    &&& slot_score(slots, *dst_addr, dst_port, b as int) == Some(score)
                    &&& slab::occupied(listeners@, b as int)
                },
                None => best_listener(slots, *dst_addr, dst_port, i as int) is None,
            },
        decreases listeners@.len() - i,
    {
        if listeners.is_occupied(i) {
            let listener = listeners.get(i);
            assert(slots[i as int] == Some(listener@));
            if let Some(score) = listener.matches(dst_addr, dst_port) {
                let better = match best {
                    Some((_, best_score)) => score > best_score,
                    None => true,
                };
                if better {
                    best = Some((i, score));
                }
            }
        } else {
            assert(slots[i as int] is None);
        }
        i += 1;
    }
    match best {
        Some((b, _)) => Some(b),
        None => None,
    }
}

/// The first listener that recorded a SYN a reset is aimed at.
fn find_reset(listeners: &Slab<TcpListenerState, TCP_LISTENER_COUNT>, tuple: &Tuple, seq: TcpSeqNumber) -> (r: Option<
    usize,
>)
    ensures
        (match r {
            Some(i) => Some(i as int),
            None => None,
        }) == reset_listener(slab::views(listeners@), *tuple, seq, 0),
        r matches Some(i) ==> slab::occupied(listeners@, i as int),
{
    let ghost slots = slab::views(listeners@);
    let mut i: usize = 0;
    while i < listeners.slot_count()
        invariant
            i <= listeners@.len(),
            slots == slab::views(listeners@),
            reset_listener(slots, *tuple, seq, i as int) == reset_listener(slots, *tuple, seq, 0),
        decreases listeners@.len() - i,
    {
        if listeners.is_occupied(i) {
            let listener = listeners.get(i);
            assert(slots[i as int] == Some(listener@));
            if listener.resets(tuple, seq) {
                return Some(i);
            }
        }
        i += 1;
    }
    None
}

/// Offer an ingress segment to the listeners, returning whether one consumed it.
///
/// A SYN goes to the most specific matching listener (exact local address beats
/// wildcard), and an RST to the one that recorded the SYN it is aimed at.
pub fn process_listeners(
    listeners: &mut Slab<TcpListenerState, TCP_LISTENER_COUNT>,
    src_addr: &IpAddress,
    dst_addr: &IpAddress,
    repr: &TcpRepr<'_>,
) -> (r: bool)
    requires
        old(listeners).wf(),
        slots_ok(old(listeners)@),
    ensures
        final(listeners).wf(),
        slots_ok(final(listeners)@),
        r == (consumer(slab::views(old(listeners)@), *src_addr, *dst_addr, repr.segment()) is Some),
        slab::views(final(listeners)@) == offered(slab::views(old(listeners)@), *src_addr, *dst_addr, repr.segment()),
{
    let found = match repr.control {
        TcpControl::Syn => if repr.ack_number.is_none() {
            find_listener(&*listeners, dst_addr, repr.dst_port)
        } else {
            None
        },
        TcpControl::Rst => {
            let tuple = Tuple {
                local: IpEndpoint::new(*dst_addr, repr.dst_port),
                remote: IpEndpoint::new(*src_addr, repr.src_port),
            };
            find_reset(&*listeners, &tuple, repr.seq_number)
        },
        _ => None,
    };
    match found {
        Some(index) => {
            let ghost slots = listeners@;
            assert(slots[index as int]->0.wf());
            let listener = listeners.get_mut(index);
            let _ = listener.process(src_addr, dst_addr, repr);
            proof {
                lemma_changed(slots, listeners@, index);
            }
            true
        },
        None => false,
    }
}

/// The connection socket that continues a recorded SYN.
pub open spec fn accepted_socket(syn: PendingSyn, seq_no: u32, rx_capacity: usize, tx_capacity: usize) -> TcpModel {
    let fresh = TcpModel::closed(rx_capacity, tx_capacity);
    TcpModel {
        state: State::SynReceived,
        tuple: Some(syn.tuple),
        local_seq_no: TcpSeqNumber(seq_no),
        remote_seq_no: syn.remote_seq_no,
        remote_last_seq: TcpSeqNumber(seq_no),
        remote_has_sack: syn.remote_has_sack,
        remote_win_scale: syn.remote_win_scale,
        remote_win_shift: if syn.remote_win_scale is None {
            0
        } else {
            fresh.remote_win_shift
        },
        remote_win_len: syn.remote_win_len,
        remote_mss: syn.remote_mss,
        last_remote_tsval: match syn.timestamp {
            Some(ts) => ts.tsval,
            None => fresh.last_remote_tsval,
        },
        ..fresh
    }
}

/// Whether another listener than the one in slot `index` listens on the endpoint.
pub open spec fn endpoint_taken(slots: ListenerSlots, index: int, local: IpListenEndpoint) -> bool {
    exists|i: int| i != index && slab::occupied(slots, i) && (#[trigger] slots[i])->0.local == local
}

/// What listening on an endpoint returns.
pub open spec fn listen_outcome(slots: ListenerSlots, index: int, local: IpListenEndpoint) -> Result<(), ListenError> {
    let listener = slots[index]->0;
    if local.port == 0 {
        Err(ListenError::Unaddressable)
    } else if listener.local.port != 0 {
        if listener.local == local {
            Ok(())
        } else {
            Err(ListenError::InvalidState)
        }
    } else if endpoint_taken(slots, index, local) {
        Err(ListenError::InUse)
    } else {
        Ok(())
    }
}

/// A TCP listener borrowed from a stack.
///
/// Use a [`TcpListener`] to accept incoming TCP connections.
///
/// A listener can be bound to a port and optionally an address.
/// It receives all incoming connection attempts and queues them.
/// Calling [`accept`](TcpListener::accept) pops a connection from the queue
/// and constructs a full socket for it.
///
/// Connection attempts (SYN packets) are not answered (with a SYN|ACK packet) until you accept them.
pub struct TcpListener<'a> {
    pub listeners: &'a mut Slab<TcpListenerState, TCP_LISTENER_COUNT>,
    pub index: usize,
    pub tcp: &'a mut Slab<TcpSocketState, TCP_SOCKET_COUNT>,
    pub rand: &'a mut Rand,
}

impl<'a> TcpListener<'a> {
    /// The listeners of the stack.
    pub open spec fn slots(&self) -> ListenerSlots {
        slab::views(self.listeners@)
    }

    /// This listener.
    pub open spec fn model(&self) -> ListenerModel {
        self.slots()[self.index as int]->0
    }

    /// The TCP sockets of the stack.
    pub open spec fn sockets(&self) -> TcpSlots {
        slab::views(self.tcp@)
    }

    /// What every operation keeps.
    pub open spec fn wf(&self) -> bool {
        &&& slab::occupied(self.listeners@, self.index as int)
        &&& self.listeners.wf()
        &&& slots_ok(self.listeners@)
        &&& self.tcp.wf()
        &&& socket::slots_ok(self.tcp@)
    }

    /// This listener's state in the slab.
    fn inner(&self) -> (r: &TcpListenerState)
        requires
            self.wf(),
        ensures
            r@ == self.model(),
            r.wf(),
    {
        let r = self.listeners.get(self.index);
        assert(self.slots()[self.index as int] == Some(r@));
        assert(r.wf());
        r
    }

    /// Start listening on the given endpoint.
    ///
    /// Returns:
    /// - `Err(ListenError::Unaddressable)` if the port is zero.
    /// - `Err(ListenError::InvalidState)` if the listener is already listening
    ///   (unless it is listening on this same endpoint, which is a no-op).
    /// - `Err(ListenError::InUse)` if another listener is bound to an identical
    ///   endpoint. Listeners on the same port with *different* specificity (one
    ///   wildcard, one per-version, one per-address) may coexist.
    pub fn listen<E: Into<IpListenEndpoint>>(&mut self, local_endpoint: E) -> (r: Result<(), ListenError>)
        requires
            old(self).wf(),
        ensures
            final(self).wf(),
            final(self).index == old(self).index,
            exists|local: IpListenEndpoint|
                {
                    &&& #[trigger] call_ensures(E::into, (local_endpoint,), local)
                    &&& r == listen_outcome(old(self).slots(), old(self).index as int, local)
                    &&& final(self).slots() == (if r is Ok {
                        replaced(old(self).slots(), old(self).index, ListenerModel { local, ..old(self).model() })
                    } else {
                        old(self).slots()
                    })
                },
            *final(self).tcp == *old(self).tcp,
            *final(self).rand == *old(self).rand,
            *final(final(self).listeners) == *final(old(self).listeners),
            *final(final(self).tcp) == *final(old(self).tcp),
            *final(final(self).rand) == *final(old(self).rand),
    {
        self.listen_on(local_endpoint.into())
    }

    /// [`listen`](Self::listen), with the endpoint given as such.
    pub fn listen_on(&mut self, local: IpListenEndpoint) -> (r: Result<(), ListenError>)
        requires
            old(self).wf(),
        ensures
            final(self).wf(),
            final(self).index == old(self).index,
            r == listen_outcome(old(self).slots(), old(self).index as int, local),
            final(self).slots() == (if r is Ok {
                replaced(old(self).slots(), old(self).index, ListenerModel { local, ..old(self).model() })
            } else {
                old(self).slots()
            }),
            *final(self).tcp == *old(self).tcp,
            *final(self).rand == *old(self).rand,
            *final(final(self).listeners) == *final(old(self).listeners),
            *final(final(self).tcp) == *final(old(self).tcp),
            *final(final(self).rand) == *final(old(self).rand),
    {
        if local.port == 0 {
            return Err(ListenError::Unaddressable);
        }
        let current = self.local_endpoint();
        if current.port != 0 {
            if current == local {
                assert(self.slots() =~= replaced(
                    old(self).slots(),
                    old(self).index,
                    ListenerModel { local, ..old(self).model() },
                ));
                return Ok(());
            }
            return Err(ListenError::InvalidState);
        }
        if self.endpoint_in_use(&local) {
            return Err(ListenError::InUse);
        }
        let ghost slots = self.listeners@;
        assert(slots[self.index as int]->0.wf());
        let listener = self.listeners.get_mut(self.index);
        listener.local = local;
        proof {
            lemma_changed(slots, self.listeners@, self.index);
        }
        Ok(())
    }

    /// Whether another listener listens on the endpoint.
    fn endpoint_in_use(&self, local: &IpListenEndpoint) -> (r: bool)
        requires
            self.wf(),
        ensures
            r == endpoint_taken(self.slots(), self.index as int, *local),
    {
        let ghost slots = self.slots();
        let mut i: usize = 0;
        while i < self.listeners.slot_count()
            invariant
                i <= self.listeners@.len(),
                slots == self.slots(),
                forall|k: int|
                    0 <= k < i && k != self.index && slab::occupied(slots, k) ==> (#[trigger] slots[k])->0.local
                        != *local,
            decreases self.listeners@.len() - i,
        {
            if i != self.index && self.listeners.is_occupied(i) {
                let listener = self.listeners.get(i);
                assert(slots[i as int] == Some(listener@));
                if listener.local == *local {
                    assert(slab::occupied(slots, i as int));
                    return true;
                }
            }
            i += 1;
        }
        false
    }

    /// Stop listening, dropping all queued SYNs.
    ///
    /// The dropped SYNs are not reset. The clients' retransmissions are
    /// answered with an RST once the listener is gone.
    pub fn close(&mut self)
        requires
            old(self).wf(),
        ensures
            final(self).wf(),
            final(self).index == old(self).index,
            final(self).slots() == replaced(old(self).slots(), old(self).index, ListenerModel::closed()),
            *final(self).tcp == *old(self).tcp,
            *final(self).rand == *old(self).rand,
            *final(final(self).listeners) == *final(old(self).listeners),
            *final(final(self).tcp) == *final(old(self).tcp),
            *final(final(self).rand) == *final(old(self).rand),
    {
        let ghost slots = self.listeners@;
        let listener = self.listeners.get_mut(self.index);
        listener.local = IpListenEndpoint::unspecified();
        listener.queue.clear();
        proof {
            lemma_changed(slots, self.listeners@, self.index);
            assert(self.model() =~= ListenerModel::closed());
        }
    }

    /// Whether the listener is listening.
    pub fn is_open(&self) -> (r: bool)
        requires
            self.wf(),
        ensures
            r == (self.model().local.port != 0),
    {
        self.inner().local.port != 0
    }

    /// Return the listened endpoint. The address is the filter the listen scoped
    /// the listener to. A zero port means the listener is closed.
    pub fn local_endpoint(&self) -> (r: IpListenEndpoint)
        requires
            self.wf(),
        ensures
            r == self.model().local,
    {
        self.inner().local
    }

    /// Whether a connection attempt is waiting to be [`accept`](Self::accept)ed.
    pub fn can_accept(&self) -> (r: bool)
        requires
            self.wf(),
        ensures
            r == (self.model().queue.len() > 0),
    {
        self.inner().queue.len() > 0
    }

    /// Accept a queued connection attempt, allocating the actual socket for it,
    /// with receive and transmit buffers of the given capacities.
    ///
    /// The new socket starts in the SYN-RECEIVED state and is added to the stack.
    ///
    /// Returns `None` if no connection attempt is queued, or if the stack has no room
    /// for another TCP socket, in which case the attempt stays queued.
    pub fn accept(&mut self, rx_capacity: usize, tx_capacity: usize) -> (r: Option<TcpHandle>)
        requires
            old(self).wf(),
            rx_capacity <= MAX_RX_CAPACITY,
        ensures
            final(self).wf(),
            final(self).index == old(self).index,
            r is None <==> old(self).model().queue.len() == 0 || slab::no_room(
                old(self).sockets(),
                TCP_SOCKET_COUNT as int,
            ),
            match r {
                Some(handle) => {
                    let syn = old(self).model().queue[0];
                    &&& slab::is_next_slot(old(self).sockets(), handle.0 as int)
                    &&& final(self).sockets() == slab::with_item(
                        old(self).sockets(),
                        handle.0 as int,
                        accepted_socket(syn, old(self).rand.value(), rx_capacity, tx_capacity),
                    )
                    &&& ({
                        let socket = final(self).sockets()[handle.0 as int]->0;
                        &&& socket.state == State::SynReceived
                        &&& socket.tuple == Some(syn.tuple)
                        &&& socket.remote_seq_no == syn.remote_seq_no
                        &&& socket.remote_win_len == syn.remote_win_len
                        &&& socket.remote_win_scale == syn.remote_win_scale
                        &&& socket.remote_mss == syn.remote_mss
                        &&& socket.remote_has_sack == syn.remote_has_sack
                        &&& socket.local_seq_no.0 == old(self).rand.value()
                        &&& socket.remote_last_seq.0 == old(self).rand.value()
                    })
                    &&& final(self).slots() == replaced(
                        old(self).slots(),
                        old(self).index,
                        ListenerModel { queue: old(self).model().queue.drop_first(), ..old(self).model() },
                    )
                    &&& *final(self).rand == old(self).rand.next()
                },
                None => {
                    &&& *final(self).tcp == *old(self).tcp
                    &&& *final(self).listeners == *old(self).listeners
                    &&& *final(self).rand == *old(self).rand
                },
            },
            *final(final(self).listeners) == *final(old(self).listeners),
            *final(final(self).tcp) == *final(old(self).tcp),
            *final(final(self).rand) == *final(old(self).rand),
    {
        proof {
            slab::lemma_views_room(self.tcp@, TCP_SOCKET_COUNT as int);
        }
        if !self.can_accept() || self.tcp.is_full() {
            return None;
        }
        let ghost slots = self.listeners@;
        assert(slots[self.index as int]->0.wf());
        let listener = self.listeners.get_mut(self.index);
        let syn = listener.queue.remove(0);
        proof {
            let before = slots[self.index as int]->0@.queue;
            assert(listener@.queue =~= before.drop_first());
            assert(deduplicated(listener@.queue)) by {
                assert forall|i: int, j: int|
                    #![trigger listener@.queue[i], listener@.queue[j]]
                    0 <= i < listener@.queue.len() && 0 <= j < listener@.queue.len() && i
                        != j implies listener@.queue[i].tuple != listener@.queue[j].tuple by {
                    assert(listener@.queue[i] == before[i + 1]);
                    assert(listener@.queue[j] == before[j + 1]);
                }
            }
            lemma_changed(slots, self.listeners@, self.index);
        }
        // The SYN-RECEIVED socket continuing the recorded SYN. This mirrors
        // what the SYN would have set up in a LISTEN-state socket: the SYN|ACK
        // itself is built by the socket's dispatch from this state.
        let seq_no: u32 = self.rand.rand_u32();
        let mut s = TcpSocketState::new(rx_capacity, tx_capacity);
        s.state = State::SynReceived;
        s.tuple = Some(syn.tuple);
        s.local_seq_no = TcpSeqNumber(seq_no);
        s.remote_seq_no = syn.remote_seq_no;
        s.remote_last_seq = s.local_seq_no;
        s.remote_has_sack = syn.remote_has_sack;
        s.remote_win_scale = syn.remote_win_scale;
        // Remote doesn't support window scaling, don't do it.
        if syn.remote_win_scale.is_none() {
            s.remote_win_shift = 0;
        }
        s.remote_win_len = syn.remote_win_len;
        s.remote_mss = syn.remote_mss;
        // Remote doesn't support timestamps, don't do it.
        if let Some(ts) = syn.timestamp {
            s.last_remote_tsval = ts.tsval;
        }
        let ghost socket = s;
        let ghost before = self.tcp@;
        let f = |i: usize| -> (item: TcpSocketState)
            ensures
                item == s,
            { s };
        let r = self.tcp.add_with(f);
        match r {
            Ok(index) => {
                proof {
                    assert(self.tcp@[index as int]->0 == socket);
                    slab::lemma_views_with_item(before, index as int, socket);
                    assert forall|i: int| slab::occupied(self.tcp@, i) implies (#[trigger] self.tcp@[i])->0.wf()
                        && self.tcp@[i]->0.rx_capacity <= MAX_RX_CAPACITY by {
                        if i != index {
                            assert(before[i]->0.wf());
                        }
                    }
                }
                Some(TcpHandle(index))
            },
            Err(_) => None,
        }
    }
}

} // verus!
