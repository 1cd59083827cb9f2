//! TCP sockets: the connections segments and errors are delivered to.

use std::collections::VecDeque;

use vstd::prelude::*;
use vstd::std_specs::cmp::PartialEqSpecImpl;

use crate::buf::{PacketBuf, PacketView};
use crate::config::TCP_SOCKET_COUNT;
use crate::icmp_error::IcmpError;
use crate::stack::iface_state;
use crate::stack::network::{NetModel, Network};
use crate::storage::slab;
use crate::storage::slab::Slab;
use crate::wire::endpoint::IpEndpoint;
use crate::wire::tcp::TcpSeqNumber;

verus! {

/// A handle to a TCP socket added to a stack.
#[derive(Debug, Clone, Copy, PartialEq, Eq, Structural, PartialOrd, Ord, Hash)]
pub struct TcpHandle(pub usize);

impl TcpHandle {
    /// The handle of slot `index`.
    pub fn new(index: usize) -> (r: Self)
        ensures
            r.0 == index,
    {
        TcpHandle(index)
    }

    /// The slot the handle stands for.
    pub fn index(self) -> (r: usize)
        ensures
            r == self.0,
    {
        self.0
    }
}

/// The state of a connection (RFC 9293 §3.3.2).
#[derive(Debug, Clone, Copy, PartialEq, Eq, Structural)]
pub enum State {
    Closed,
    SynSent,
    SynReceived,
    Established,
    FinWait1,
    FinWait2,
    CloseWait,
    Closing,
    LastAck,
    TimeWait,
}

/// The two ends of a connection.
#[derive(Debug, Clone, Copy, Eq)]
pub struct Tuple {
    pub local: IpEndpoint,
    pub remote: IpEndpoint,
}

impl PartialEq for Tuple {
    fn eq(&self, other: &Self) -> (r: bool) {
        self.local == other.local && self.remote == other.remote
    }
}

impl PartialEqSpecImpl for Tuple {
    open spec fn obeys_eq_spec() -> bool {
        true
    }

    open spec fn eq_spec(&self, other: &Self) -> bool {
        *self == *other
    }
}

/// The maximum segment size of a remote that announces none (RFC 9293 §3.7.1).
pub const DEFAULT_MSS: usize = 536;

/// The smallest maximum segment size a remote is believed to have.
pub const MIN_REMOTE_MSS: usize = 48;

/// The largest receive buffer a window can describe: 1 GiB.
pub const MAX_RX_CAPACITY: usize = 0x4000_0000;

/// The largest window scale (RFC 7323 §2.3).
pub const MAX_WIN_SHIFT: u8 = 14;

/// What a TCP socket holds.
#[verifier::ext_equal]
pub struct TcpModel {
    pub state: State,
    pub tuple: Option<Tuple>,
    /// The first sequence number that is not acknowledged yet.
    pub local_seq_no: TcpSeqNumber,
    /// The next sequence number expected from the remote.
    pub remote_seq_no: TcpSeqNumber,
    /// The sequence number behind the last one sent.
    pub remote_last_seq: TcpSeqNumber,
    pub remote_has_sack: bool,
    pub remote_win_scale: Option<u8>,
    pub remote_win_shift: u8,
    pub remote_win_len: usize,
    pub remote_mss: usize,
    pub last_remote_tsval: u32,
    pub rx_capacity: usize,
    pub tx_capacity: usize,
    /// The segments delivered to the connection and not yet taken, oldest first.
    pub inbox: Seq<PacketView>,
    /// The error reported about a segment sent, if any.
    pub error: Option<IcmpError>,
}

/// The sockets of a stack, by slot.
pub type TcpSlots = Seq<Option<TcpModel>>;

/// How far a window of the given size must be shifted to fit its 16-bit field.
pub open spec fn window_shift(capacity: int) -> int
    decreases capacity,
{
    if capacity <= 0xffff {
        0
    } else {
        1 + window_shift(capacity / 2)
    }
}

/// The window scale of a socket with a receive buffer of the given size.
pub open spec fn win_shift_of(capacity: usize) -> u8 {
    let shift = window_shift(capacity as int);
    if shift > MAX_WIN_SHIFT {
        MAX_WIN_SHIFT
    } else {
        shift as u8
    }
}

impl TcpModel {
    /// A closed socket with buffers of the given sizes.
    pub open spec fn closed(rx_capacity: usize, tx_capacity: usize) -> TcpModel {
        TcpModel {
            state: State::Closed,
            tuple: None,
            local_seq_no: TcpSeqNumber(0),
            remote_seq_no: TcpSeqNumber(0),
            remote_last_seq: TcpSeqNumber(0),
            remote_has_sack: false,
            remote_win_scale: None,
            remote_win_shift: win_shift_of(rx_capacity),
            remote_win_len: 0,
            remote_mss: DEFAULT_MSS,
            last_remote_tsval: 0,
            rx_capacity,
            tx_capacity,
            inbox: Seq::empty(),
            error: None,
        }
    }

    /// Whether the socket's connection is between the two ends.
    pub open spec fn is_between(self, local: IpEndpoint, remote: IpEndpoint) -> bool {
        self.state != State::Closed && self.tuple == Some(Tuple { local, remote })
    }

    /// Whether a sequence number was sent and is not acknowledged yet.
    pub open spec fn in_flight(self, seq: TcpSeqNumber) -> bool {
        (seq.0 - self.local_seq_no.0) % 0x1_0000_0000 < (self.remote_last_seq.0 - self.local_seq_no.0) % 0x1_0000_0000
    }

    /// The socket after an error about a segment it sent. An error aborts a
    /// connection that is not established yet, and is only recorded on others. One
    /// that names no segment in flight is ignored (RFC 5927 §4.1).
    pub open spec fn after_error(self, error: IcmpError, seq: TcpSeqNumber) -> TcpModel {
        if !self.in_flight(seq) {
            self
        } else if self.state == State::SynSent || self.state == State::SynReceived {
            TcpModel { error: Some(error), ..TcpModel::closed(self.rx_capacity, self.tx_capacity) }
        } else {
            TcpModel { error: Some(error), ..self }
        }
    }
}

/// The first socket at or after slot `from` whose connection is between the two ends.
pub open spec fn connection_between(slots: TcpSlots, local: IpEndpoint, remote: IpEndpoint, from: int) -> Option<int>
    decreases slots.len() - from,
{
    if from < 0 || from >= slots.len() {
        None
    } else if slots[from] is Some && slots[from]->0.is_between(local, remote) {
        Some(from)
    } else {
        connection_between(slots, local, remote, from + 1)
    }
}

/// The sockets after an error about a segment sent from `local` to `remote`.
pub open spec fn error_delivered(
    slots: TcpSlots,
    error: IcmpError,
    local: IpEndpoint,
    remote: IpEndpoint,
    seq: TcpSeqNumber,
) -> TcpSlots {
    match connection_between(slots, local, remote, 0) {
        Some(i) => slots.update(i, Some(slots[i]->0.after_error(error, seq))),
        None => slots,
    }
}

/// An error that names no segment in flight changes no socket: errors cannot be
/// forged blindly.
pub proof fn law_blind_error_is_ignored(
    slots: TcpSlots,
    error: IcmpError,
    local: IpEndpoint,
    remote: IpEndpoint,
    seq: TcpSeqNumber,
)
    requires
        forall|i: int|
            slab::occupied(slots, i) ==> !(#[trigger] slots[i])->0.in_flight(seq),
    ensures
        error_delivered(slots, error, local, remote, seq) == slots,
{
    lemma_connection_occupied(slots, local, remote, 0);
    assert(error_delivered(slots, error, local, remote, seq) =~= slots);
}

/// A connection that is found is there, and is between the two ends.
pub proof fn lemma_connection_occupied(slots: TcpSlots, local: IpEndpoint, remote: IpEndpoint, from: int)
    requires
        0 <= from,
    ensures
        connection_between(slots, local, remote, from) matches Some(i) ==> {
            &&& from <= i
            &&& slab::occupied(slots, i)
            &&& slots[i]->0.is_between(local, remote)
        },
    decreases slots.len() - from,
{
    if from < slots.len() && !(slots[from] is Some && slots[from]->0.is_between(local, remote)) {
        lemma_connection_occupied(slots, local, remote, from + 1);
    }
}

/// TCP socket state, stored inside the stack.
#[derive(Debug)]
pub struct TcpSocketState {
    pub state: State,
    pub tuple: Option<Tuple>,
    pub local_seq_no: TcpSeqNumber,
    pub remote_seq_no: TcpSeqNumber,
    pub remote_last_seq: TcpSeqNumber,
    pub remote_has_sack: bool,
    pub remote_win_scale: Option<u8>,
    pub remote_win_shift: u8,
    pub remote_win_len: usize,
    pub remote_mss: usize,
    pub last_remote_tsval: u32,
    pub rx_capacity: usize,
    pub tx_capacity: usize,
    pub inbox: VecDeque<PacketBuf>,
    pub error: Option<IcmpError>,
}

impl View for TcpSocketState {
    type V = TcpModel;

    open spec fn view(&self) -> TcpModel {
        TcpModel {
            state: self.state,
            tuple: self.tuple,
            local_seq_no: self.local_seq_no,
            remote_seq_no: self.remote_seq_no,
            remote_last_seq: self.remote_last_seq,
            remote_has_sack: self.remote_has_sack,
            remote_win_scale: self.remote_win_scale,
            remote_win_shift: self.remote_win_shift,
            remote_win_len: self.remote_win_len,
            remote_mss: self.remote_mss,
            last_remote_tsval: self.last_remote_tsval,
            rx_capacity: self.rx_capacity,
            tx_capacity: self.tx_capacity,
            inbox: iface_state::packet_views(self.inbox@),
            error: self.error,
        }
    }
}

/// The window scale for a receive buffer of the given size.
fn win_shift(capacity: usize) -> (r: u8)
    ensures
        r == win_shift_of(capacity),
{
    let mut shift: u8 = 0;
    let mut rest: usize = capacity;
    while rest > 0xffff && shift < MAX_WIN_SHIFT
        invariant
            shift <= MAX_WIN_SHIFT,
            window_shift(capacity as int) == shift + window_shift(rest as int),
        decreases rest,
    {
        rest = rest / 2;
        shift += 1;
    }
    assert(window_shift(rest as int) >= 0) by {
        lemma_shift_nonnegative(rest as int);
    }
    shift
}

proof fn lemma_shift_nonnegative(capacity: int)
    ensures
        window_shift(capacity) >= 0,
        capacity > 0xffff ==> window_shift(capacity) >= 1,
    decreases capacity,
{
    if capacity > 0xffff {
        lemma_shift_nonnegative(capacity / 2);
    }
}

impl TcpSocketState {
    /// Delivered segments are in well-formed buffers.
    pub open spec fn wf(&self) -> bool {
        iface_state::packets_ok(self.inbox@)
    }

    /// Create a closed socket with buffers of the given sizes.
    pub fn new(rx_capacity: usize, tx_capacity: usize) -> (r: Self)
        requires
            rx_capacity <= MAX_RX_CAPACITY,
        ensures
            r.wf(),
            r@ == TcpModel::closed(rx_capacity, tx_capacity),
    {
        vstd::pervasive::runtime_assert(rx_capacity <= MAX_RX_CAPACITY);
        let r = TcpSocketState {
            state: State::Closed,
            tuple: None,
            local_seq_no: TcpSeqNumber(0),
            remote_seq_no: TcpSeqNumber(0),
            remote_last_seq: TcpSeqNumber(0),
            remote_has_sack: false,
            remote_win_scale: None,
            remote_win_shift: win_shift(rx_capacity),
            remote_win_len: 0,
            remote_mss: DEFAULT_MSS,
            last_remote_tsval: 0,
            rx_capacity,
            tx_capacity,
            inbox: VecDeque::new(),
            error: None,
        };
        assert(r@ =~= TcpModel::closed(rx_capacity, tx_capacity));
        r
    }

    /// Whether the socket's connection is between the two ends.
    pub fn accepts(&self, local: &IpEndpoint, remote: &IpEndpoint) -> (r: bool)
        ensures
            r == self@.is_between(*local, *remote),
    {
        match &self.tuple {
            Some(tuple) => self.state != State::Closed && tuple.local == *local && tuple.remote == *remote,
            None => false,
        }
    }

    /// Whether a sequence number was sent and is not acknowledged yet.
    pub fn in_flight(&self, seq: TcpSeqNumber) -> (r: bool)
        ensures
            r == self@.in_flight(seq),
    {
        let sent: u32 = seq_distance(self.local_seq_no.0, seq.0);
        let outstanding: u32 = seq_distance(self.local_seq_no.0, self.remote_last_seq.0);
        sent < outstanding
    }

    /// Take note of an error about a segment this socket sent.
    ///
    /// An error aborts a connection that is not established yet, and is only recorded
    /// on others. One that names no segment in flight is ignored (RFC 5927 §4.1).
    pub fn report_error(&mut self, error: IcmpError, seq: TcpSeqNumber)
        requires
            old(self).wf(),
            old(self).rx_capacity <= MAX_RX_CAPACITY,
        ensures
            final(self).wf(),
            final(self)@ == old(self)@.after_error(error, seq),
            final(self).rx_capacity == old(self).rx_capacity,
    {
        if !self.in_flight(seq) {
            return;
        }
        if self.state == State::SynSent || self.state == State::SynReceived {
            *self = TcpSocketState::new(self.rx_capacity, self.tx_capacity);
        }
        self.error = Some(error);
    }

    /// Deliver a segment to the connection.
    pub fn deliver(&mut self, buf: PacketBuf)
        requires
            old(self).wf(),
            buf.wf(),
        ensures
            final(self).wf(),
            final(self)@ == (TcpModel { inbox: old(self)@.inbox.push(buf@), ..old(self)@ }),
            final(self).rx_capacity == old(self).rx_capacity,
    {
        self.inbox.push_back(buf);
        assert(self@.inbox =~= old(self)@.inbox.push(buf@));
    }
}

/// How far `to` is behind `from` in sequence space.
fn seq_distance(from: u32, to: u32) -> (r: u32)
    ensures
        r == (to - from) % 0x1_0000_0000,
{
    to.wrapping_sub(from)
}

/// Whether every socket is well-formed.
pub open spec fn slots_ok(slots: Seq<Option<TcpSocketState>>) -> bool {
    forall|i: int|
        slab::occupied(slots, i) ==> (#[trigger] slots[i])->0.wf() && slots[i]->0.rx_capacity <= MAX_RX_CAPACITY
}

/// The socket in a slot.
pub open spec fn socket_at(slots: TcpSlots, index: usize) -> TcpModel {
    slots[index as int]->0
}

/// The sockets after one of them changed.
pub open spec fn replaced(slots: TcpSlots, index: usize, socket: TcpModel) -> TcpSlots {
    slots.update(index as int, Some(socket))
}

/// Whether the slot holds a socket.
pub open spec fn has_socket(slots: Seq<Option<TcpSocketState>>, index: usize) -> bool {
    slab::occupied(slots, index as int)
}

/// The socket found in a slot, if one was.
pub open spec fn found(index: Option<usize>) -> Option<int> {
    match index {
        Some(i) => Some(i as int),
        None => None,
    }
}

/// Changing one socket keeps the others.
pub proof fn lemma_changed(before: Seq<Option<TcpSocketState>>, after: Seq<Option<TcpSocketState>>, index: usize)
    requires
        has_socket(before, index),
        slots_ok(before),
        after == before.update(index as int, after[index as int]),
        after[index as int] is Some,
        after[index as int]->0.wf(),
        after[index as int]->0.rx_capacity <= MAX_RX_CAPACITY,
    ensures
        slots_ok(after),
        slab::views(after) == replaced(slab::views(before), index, after[index as int]->0@),
{
    slab::lemma_views_update(before, index as int, after[index as int]->0);
    assert forall|i: int| slab::occupied(after, i) implies (#[trigger] after[i])->0.wf() && after[i]->0.rx_capacity
        <= MAX_RX_CAPACITY by {
        if i != index {
            assert(before[i]->0.wf());
        }
    }
}

/// A socket in a slot is well-formed.
pub proof fn lemma_slot_ok(slots: Seq<Option<TcpSocketState>>, index: usize)
    requires
        slots_ok(slots),
        has_socket(slots, index),
    ensures
        slots[index as int]->0.wf(),
        slots[index as int]->0.rx_capacity <= MAX_RX_CAPACITY,
        slab::views(slots)[index as int] == Some(slots[index as int]->0@),
{
}

/// The first socket whose connection is between the two ends.
pub fn find_connection(sockets: &Slab<TcpSocketState, TCP_SOCKET_COUNT>, local: &IpEndpoint, remote: &IpEndpoint) -> (r:
    Option<usize>)
    ensures
        found(r) == connection_between(slab::views(sockets@), *local, *remote, 0),
        r matches Some(i) ==> has_socket(sockets@, i),
{
    let ghost slots = slab::views(sockets@);
    let mut i: usize = 0;
    while i < sockets.slot_count()
        invariant
            i <= sockets@.len(),
            slots == slab::views(sockets@),
            connection_between(slots, *local, *remote, i as int) == connection_between(slots, *local, *remote, 0),
        decreases sockets@.len() - i,
    {
        if sockets.is_occupied(i) {
            let socket = sockets.get(i);
            assert(slots[i as int] == Some(socket@));
            if socket.accepts(local, remote) {
                return Some(i);
            }
        }
        i += 1;
    }
    None
}

/// Deliver an ICMP error about a segment sent from `local` to `remote` to the socket
/// of that connection. `seq` is the sequence number the error quotes.
pub fn process_icmp_error(
    sockets: &mut Slab<TcpSocketState, TCP_SOCKET_COUNT>,
    error: IcmpError,
    local: IpEndpoint,
    remote: IpEndpoint,
    seq: TcpSeqNumber,
)
    requires
        old(sockets).wf(),
        slots_ok(old(sockets)@),
    ensures
        final(sockets).wf(),
        slots_ok(final(sockets)@),
        slab::views(final(sockets)@) == error_delivered(slab::views(old(sockets)@), error, local, remote, seq),
{
    if let Some(index) = find_connection(&*sockets, &local, &remote) {
        let ghost slots = sockets@;
        proof {
            lemma_slot_ok(slots, index);
        }
        let socket = sockets.get_mut(index);
        socket.report_error(error, seq);
        proof {
            lemma_changed(slots, sockets@, index);
        }
    }
}

/// A TCP socket borrowed from a stack.
pub struct TcpSocket<'a> {
    pub sockets: &'a mut Slab<TcpSocketState, TCP_SOCKET_COUNT>,
    pub index: usize,
    pub tx: &'a mut Network,
}

impl<'a> TcpSocket<'a> {
    /// The sockets of the stack.
    pub open spec fn slots(&self) -> TcpSlots {
        slab::views(self.sockets@)
    }

    /// This socket.
    pub open spec fn model(&self) -> TcpModel {
        socket_at(self.slots(), self.index)
    }

    /// The network side of the stack.
    pub open spec fn net(&self) -> NetModel {
        self.tx@
    }

    /// What every operation keeps.
    pub open spec fn wf(&self) -> bool {
        &&& has_socket(self.sockets@, self.index)
        &&& self.sockets.wf()
        &&& slots_ok(self.sockets@)
        &&& self.tx.wf()
    }

    /// This socket's state in the slab.
    fn inner(&self) -> (r: &TcpSocketState)
        requires
            self.wf(),
        ensures
            r@ == self.model(),
            r.wf(),
    {
        let r = self.sockets.get(self.index);
        proof {
            lemma_slot_ok(self.sockets@, self.index);
        }
        r
    }

    /// The state of the connection.
    pub fn state(&self) -> (r: State)
        requires
            self.wf(),
        ensures
            r == self.model().state,
    {
        self.inner().state
    }

    /// Return the local endpoint, or `None` if not connected.
    pub fn local_endpoint(&self) -> (r: Option<IpEndpoint>)
        requires
            self.wf(),
        ensures
            r == (match self.model().tuple {
                Some(tuple) => Some(tuple.local),
                None => None,
            }),
    {
        match &self.inner().tuple {
            Some(tuple) => Some(tuple.local),
            None => None,
        }
    }

    /// Return the remote endpoint, or `None` if not connected.
    pub fn remote_endpoint(&self) -> (r: Option<IpEndpoint>)
        requires
            self.wf(),
        ensures
            r == (match self.model().tuple {
                Some(tuple) => Some(tuple.remote),
                None => None,
            }),
    {
        match &self.inner().tuple {
            Some(tuple) => Some(tuple.remote),
            None => None,
        }
    }

    /// Take the error reported about a segment this socket sent, if any. It is
    /// reported once.
    pub fn take_icmp_error(&mut self) -> (r: Option<IcmpError>)
        requires
            old(self).wf(),
        ensures
            final(self).wf(),
            final(self).index == old(self).index,
            r == old(self).model().error,
            final(self).slots() == replaced(
                old(self).slots(),
                old(self).index,
                TcpModel { error: None, ..old(self).model() },
            ),
            *final(self).tx == *old(self).tx,
            *final(final(self).sockets) == *final(old(self).sockets),
            *final(final(self).tx) == *final(old(self).tx),
    {
        let ghost slots = self.sockets@;
        proof {
            lemma_slot_ok(slots, self.index);
        }
        let socket = self.sockets.get_mut(self.index);
        let r = socket.error;
        socket.error = None;
        proof {
            lemma_changed(slots, self.sockets@, self.index);
        }
        r
    }

    /// Take the oldest segment delivered to the connection.
    pub fn next_segment(&mut self) -> (r: Option<PacketBuf>)
        requires
            old(self).wf(),
        ensures
            final(self).wf(),
            final(self).index == old(self).index,
            match r {
                Some(buf) => {
                    &&& old(self).model().inbox.len() > 0
                    &&& buf.wf()
                    &&& buf@ == old(self).model().inbox[0]
                    &&& final(self).slots() == replaced(
                        old(self).slots(),
                        old(self).index,
                        TcpModel { inbox: old(self).model().inbox.drop_first(), ..old(self).model() },
                    )
                },
                None => old(self).model().inbox.len() == 0 && final(self).slots() == old(self).slots(),
            },
            *final(self).tx == *old(self).tx,
            *final(final(self).sockets) == *final(old(self).sockets),
            *final(final(self).tx) == *final(old(self).tx),
    {
        let ghost slots = self.sockets@;
        proof {
            lemma_slot_ok(slots, self.index);
        }
        if self.inner().inbox.len() == 0 {
            return None;
        }
        let socket = self.sockets.get_mut(self.index);
        let ghost before = socket@.inbox;
        let r = socket.inbox.pop_front();
        proof {
            assert(before[0] == r->0@);
            assert(socket@.inbox =~= before.drop_first());
            lemma_changed(slots, self.sockets@, self.index);
        }
        r
    }
}

} // verus!
