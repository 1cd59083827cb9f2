//! Segments, connections and listeners.

use vstd::arithmetic::power2::pow2;
use vstd::prelude::*;

use crate::buf::PacketView;
use crate::icmp_error::IcmpError;
use crate::laws::packet;
use crate::laws::udp;
use crate::iface::IfaceHandle;
use crate::stack::network;
use crate::stack::network::NetModel;
use crate::storage::slab;
use crate::tcp::ingress;
use crate::tcp::listener;
use crate::tcp::listener::{ListenError, ListenerModel, ListenerSlots, PendingSyn};
use crate::tcp::repr;
use crate::tcp::repr::{TcpOptionsView, TcpRepr};
use crate::tcp::socket;
use crate::tcp::socket::{State, TcpModel, TcpSlots, Tuple};
use crate::wire::bytes;
use crate::wire::endpoint::{IpEndpoint, IpListenEndpoint};
use crate::wire::ip::IpAddress;
use crate::wire::protocol::IpProtocol;
use crate::wire::tcp;
use crate::wire::tcp::{TcpControl, TcpSeqNumber};

verus! {

/// Whether a segment asks for a connection: SYN is set, and ACK, FIN and RST are not.
pub open spec fn opens(d: Seq<u8>) -> bool {
    &&& d[13] / 2 % 2 == 1
    &&& d[13] / 16 % 2 == 0
    &&& d[13] % 2 == 0
    &&& d[13] / 4 % 2 == 0
}

/// Whether a segment resets a connection: RST is set, and SYN and FIN are not.
pub open spec fn resets(d: Seq<u8>) -> bool {
    &&& d[13] / 4 % 2 == 1
    &&& d[13] % 2 == 0
    &&& d[13] / 2 % 2 == 0
}

/// Whether two ends are those of the connection that a segment belongs to, for its receiver.
pub open spec fn ends(tuple: Tuple, src: IpAddress, dst: IpAddress, d: Seq<u8>) -> bool {
    &&& tuple.local.addr == dst
    &&& tuple.local.port == packet::word(d, 2)
    &&& tuple.remote.addr == src
    &&& tuple.remote.port == packet::word(d, 0)
}

/// Whether what a listener recorded is what a segment announced: the number that follows the
/// segment's, how much may be sent, and in what pieces.
pub open spec fn recorded(syn: PendingSyn, src: IpAddress, dst: IpAddress, d: Seq<u8>) -> bool {
    let options = repr::segment_of(d).options;
    &&& ends(syn.tuple, src, dst, d)
    &&& syn.remote_seq_no.0 == (packet::long(d, 4) + 1) % 0x1_0000_0000
    &&& syn.remote_win_len == packet::word(d, 14)
    &&& syn.remote_win_scale == options.window_scale
    &&& syn.remote_has_sack == options.sack_permitted
    &&& syn.remote_mss == believed_mss(options.max_seg_size)
    &&& syn.timestamp == options.timestamp
}

/// The largest segment that a peer is sent if it announces the given one. One of 0 is none;
/// one under 48 counts as 48; a peer that announces none gets 536.
pub open spec fn believed_mss(announced: Option<u16>) -> int {
    match announced {
        None => 536,
        Some(n) => if n == 0 {
            536
        } else if n < 48 {
            48
        } else {
            n as int
        },
    }
}

/// Whether a socket takes up the connection that a segment asks for: it expects the number
/// that follows the segment's, it may send as much as the segment says, and its own numbers
/// start at `seq_no`.
pub open spec fn takes_up(socket: TcpModel, src: IpAddress, dst: IpAddress, d: Seq<u8>, seq_no: u32) -> bool {
    &&& socket.state == State::SynReceived
    &&& socket.tuple is Some
    &&& ends(socket.tuple->0, src, dst, d)
    &&& socket.remote_seq_no.0 == (packet::long(d, 4) + 1) % 0x1_0000_0000
    &&& socket.remote_win_len == packet::word(d, 14)
    &&& socket.local_seq_no.0 == seq_no
    &&& socket.remote_last_seq.0 == seq_no
    &&& socket.inbox.len() == 0
    &&& socket.error is None
}

/// Whether a socket goes by the options of the segment that asked for its connection.
pub open spec fn goes_by(socket: TcpModel, options: TcpOptionsView) -> bool {
    &&& socket.remote_win_scale == options.window_scale
    &&& socket.remote_has_sack == options.sack_permitted
    &&& socket.remote_mss == believed_mss(options.max_seg_size)
    &&& options.window_scale is None ==> socket.remote_win_shift == 0
    &&& options.timestamp matches Some(ts) ==> socket.last_remote_tsval == ts.tsval
}

proof fn lemma_fields(d: Seq<u8>)
    ensures
        repr::segment_of(d).src_port == packet::word(d, 0),
        repr::segment_of(d).dst_port == packet::word(d, 2),
        repr::segment_of(d).seq_number.0 == packet::long(d, 4),
        repr::segment_of(d).ack_number is Some == (d[13] / 16 % 2 == 1),
        repr::segment_of(d).ack_number matches Some(n) ==> n.0 == packet::long(d, 8),
        repr::segment_of(d).window_len == packet::word(d, 14),
        repr::parses(d) ==> (opens(d) <==> repr::segment_of(d).control == TcpControl::Syn && repr::segment_of(
            d,
        ).ack_number is None),
        repr::parses(d) ==> (resets(d) <==> repr::segment_of(d).control == TcpControl::Rst),
{
}

/// A segment that asks for a connection is recorded by a listener for its destination, behind
/// those that wait. Whenever it is accepted, the new socket takes the connection up.
pub proof fn law_accepted_socket_takes_up_connection(
    listener: ListenerModel,
    src: IpAddress,
    dst: IpAddress,
    d: Seq<u8>,
    seq_no: u32,
    rx_capacity: usize,
    tx_capacity: usize,
)
    requires
        repr::parses(d),
        opens(d),
        !udp::blank(dst),
        listener.local.port == packet::word(d, 2),
        udp::lets_through(listener.local, dst),
        forall|i: int| 0 <= i < listener.queue.len() ==> !ends((#[trigger] listener.queue[i]).tuple, src, dst, d),
    ensures
        ({
            let n = listener.queue.len() as int;
            let after = listener.after(src, dst, repr::segment_of(d));
            let socket = listener::accepted_socket(after.queue[n], seq_no, rx_capacity, tx_capacity);
            &&& after.local == listener.local
            &&& after.queue.len() == n + 1
            &&& after.queue.take(n) == listener.queue
            &&& recorded(after.queue[n], src, dst, d)
            &&& takes_up(socket, src, dst, d, seq_no)
            &&& goes_by(socket, repr::segment_of(d).options)
            &&& socket.rx_capacity == rx_capacity
            &&& socket.tx_capacity == tx_capacity
        }),
{
    let segment = repr::segment_of(d);
    let tuple = listener::tuple_of(src, dst, segment);
    lemma_fields(d);
    udp::lemma_filter(listener.local, dst);
    listener::lemma_syn_index(listener.queue, tuple, 0);
    assert(ends(tuple, src, dst, d));
    let after = listener.after(src, dst, segment);
    assert(after.queue.take(listener.queue.len() as int) =~= listener.queue);
}

/// Whether a socket has of a recorded segment what one that is accepted has: its ends, the
/// number that it expects next, and how much it may send.
pub open spec fn continues(socket: TcpModel, syn: PendingSyn) -> bool {
    &&& socket.tuple == Some(syn.tuple)
    &&& socket.remote_seq_no == syn.remote_seq_no
    &&& socket.remote_win_len == syn.remote_win_len
    &&& socket.remote_win_scale == syn.remote_win_scale
    &&& socket.remote_mss == syn.remote_mss
    &&& socket.remote_has_sack == syn.remote_has_sack
}

/// From the segment to the socket: any socket that continues what a listener recorded of a
/// segment expects the number that follows the segment's, whatever its own numbers are, and
/// sends by the window and the options that the segment announced.
pub proof fn law_socket_continues_segment(
    listener: ListenerModel,
    src: IpAddress,
    dst: IpAddress,
    d: Seq<u8>,
    socket: TcpModel,
)
    requires
        repr::parses(d),
        opens(d),
        !udp::blank(dst),
        listener.local.port == packet::word(d, 2),
        udp::lets_through(listener.local, dst),
        listener.queue.len() == 0,
        continues(socket, listener.after(src, dst, repr::segment_of(d)).queue[0]),
    ensures
        socket.tuple is Some,
        ends(socket.tuple->0, src, dst, d),
        socket.remote_seq_no.0 == (packet::long(d, 4) + 1) % 0x1_0000_0000,
        socket.remote_win_len == packet::word(d, 14),
        socket.remote_win_scale == repr::segment_of(d).options.window_scale,
        socket.remote_has_sack == repr::segment_of(d).options.sack_permitted,
        socket.remote_mss == believed_mss(repr::segment_of(d).options.max_seg_size),
{
    law_accepted_socket_takes_up_connection(listener, src, dst, d, 0, 0, 0);
}

/// A segment that asks for the same connection once more stands where the earlier one stood,
/// and in its place: the socket takes up the connection that the later one asks for.
pub proof fn law_repeated_request_replaces_the_first(
    listener: ListenerModel,
    src: IpAddress,
    dst: IpAddress,
    d: Seq<u8>,
    k: int,
    seq_no: u32,
    rx_capacity: usize,
    tx_capacity: usize,
)
    requires
        repr::parses(d),
        opens(d),
        !udp::blank(dst),
        listener.local.port == packet::word(d, 2),
        udp::lets_through(listener.local, dst),
        listener::deduplicated(listener.queue),
        0 <= k < listener.queue.len(),
        ends(listener.queue[k].tuple, src, dst, d),
    ensures
        ({
            let after = listener.after(src, dst, repr::segment_of(d));
            let socket = listener::accepted_socket(after.queue[k], seq_no, rx_capacity, tx_capacity);
            &&& after.queue.len() == listener.queue.len()
            &&& forall|i: int|
                0 <= i < listener.queue.len() && i != k ==> #[trigger] after.queue[i] == listener.queue[i]
            &&& recorded(after.queue[k], src, dst, d)
            &&& takes_up(socket, src, dst, d, seq_no)
            &&& goes_by(socket, repr::segment_of(d).options)
        }),
{
    let segment = repr::segment_of(d);
    let tuple = listener::tuple_of(src, dst, segment);
    lemma_fields(d);
    udp::lemma_filter(listener.local, dst);
    listener::lemma_syn_index(listener.queue, tuple, 0);
    assert(listener.queue[k].tuple == tuple);
}

/// A connection asked for with the segment that a peer's header describes is taken up with
/// the window scale, the largest segment and the selective acknowledgements of that header.
pub proof fn law_accepted_socket_goes_by_header<'a>(
    listener: ListenerModel,
    src: IpAddress,
    dst: IpAddress,
    header: TcpRepr<'a>,
    seq_no: u32,
    rx_capacity: usize,
    tx_capacity: usize,
)
    requires
        header.representable(),
        header.control == TcpControl::Syn,
        header.ack_number is None,
        !udp::blank(dst),
        src is Ipv4 == dst is Ipv4,
        listener.queue.len() == 0,
        listener.local.port == header.dst_port,
        udp::lets_through(listener.local, dst),
    ensures
        ({
            let d = header.segment_octets(src.octets_view(), dst.octets_view());
            let after = listener.after(src, dst, repr::segment_of(d));
            let socket = listener::accepted_socket(after.queue[0], seq_no, rx_capacity, tx_capacity);
            &&& after.queue.len() == 1
            &&& socket.tuple == Some(
                Tuple {
                    local: IpEndpoint { addr: dst, port: header.dst_port },
                    remote: IpEndpoint { addr: src, port: header.src_port },
                },
            )
            &&& socket.remote_seq_no.0 == (header.seq_number.0 + 1) % 0x1_0000_0000
            &&& socket.local_seq_no.0 == seq_no
            &&& socket.remote_win_len == header.window_len
            &&& goes_by(
                socket,
                TcpOptionsView {
                    window_scale: header.window_scale,
                    max_seg_size: header.max_seg_size,
                    sack_permitted: header.sack_permitted,
                    sack_ranges: header.sack_ranges@,
                    timestamp: header.timestamp,
                },
            )
        }),
{
    let d = header.segment_octets(src.octets_view(), dst.octets_view());
    repr::law_tcp_round_trip(header, src.octets_view(), dst.octets_view());
    lemma_fields(d);
    law_accepted_socket_takes_up_connection(listener, src, dst, d, seq_no, rx_capacity, tx_capacity);
}

/// A reset with the number that follows the one of a segment that waits withdraws it: the
/// listener is as it was before. Resets with other numbers withdraw nothing.
pub proof fn law_reset_withdraws_request(
    listener: ListenerModel,
    src: IpAddress,
    dst: IpAddress,
    d: Seq<u8>,
    reset: Seq<u8>,
)
    requires
        repr::parses(d),
        opens(d),
        repr::parses(reset),
        resets(reset),
        packet::word(reset, 0) == packet::word(d, 0),
        packet::word(reset, 2) == packet::word(d, 2),
        !udp::blank(dst),
        listener.local.port == packet::word(d, 2),
        udp::lets_through(listener.local, dst),
        forall|i: int| 0 <= i < listener.queue.len() ==> !ends((#[trigger] listener.queue[i]).tuple, src, dst, d),
    ensures
        ({
            let waiting = listener.after(src, dst, repr::segment_of(d));
            let after = waiting.after(src, dst, repr::segment_of(reset));
            if packet::long(reset, 4) == (packet::long(d, 4) + 1) % 0x1_0000_0000 {
                after == listener
            } else {
                after == waiting
            }
        }),
{
    let segment = repr::segment_of(d);
    let tuple = listener::tuple_of(src, dst, segment);
    let n = listener.queue.len() as int;
    let waiting = listener.after(src, dst, segment);
    lemma_fields(d);
    lemma_fields(reset);
    law_accepted_socket_takes_up_connection(listener, src, dst, d, 0, 0, 0);
    assert(listener::tuple_of(src, dst, repr::segment_of(reset)) == tuple);
    assert(ends(tuple, src, dst, d));
    assert forall|i: int| 0 <= i < n implies (#[trigger] waiting.queue[i]).tuple != tuple by {
        assert(waiting.queue.take(n)[i] == listener.queue[i]);
    }
    listener::lemma_syn_index(listener.queue, tuple, 0);
    listener::lemma_syn_index(waiting.queue, tuple, 0);
    assert(waiting.queue[n].tuple == tuple);
    assert(listener::syn_index(waiting.queue, tuple, 0) is Some);
    assert(listener::syn_index(waiting.queue, tuple, 0)->0 == n);
    assert(waiting.queue.remove(n) =~= listener.queue);
}

proof fn lemma_first_of_equals(slots: ListenerSlots, dst: IpAddress, port: u16, n: int, i: int)
    requires
        0 <= i < n <= slots.len(),
        listener::slot_score(slots, dst, port, i) is Some,
    ensures
        listener::best_listener(slots, dst, port, n) is Some,
        i < listener::best_listener(slots, dst, port, n)->0 ==> listener::slot_score(slots, dst, port, i)->0
            < listener::slot_score(slots, dst, port, listener::best_listener(slots, dst, port, n)->0)->0,
        listener::slot_score(slots, dst, port, i)->0 <= listener::slot_score(
            slots,
            dst,
            port,
            listener::best_listener(slots, dst, port, n)->0,
        )->0,
    decreases n,
{
    listener::law_syn_goes_to_most_specific_listener(slots, dst, port, n - 1);
    if i < n - 1 {
        lemma_first_of_equals(slots, dst, port, n - 1, i);
    }
}

/// A segment that asks for a connection gets to a listener for its destination if there is
/// one, and never to one whose address names it less closely than that of another one, or
/// just as closely as that of one before it.
pub proof fn law_request_gets_to_the_most_specific_listener(
    slots: ListenerSlots,
    src: IpAddress,
    dst: IpAddress,
    d: Seq<u8>,
    i: int,
)
    requires
        repr::parses(d),
        opens(d),
        !udp::blank(dst),
        slab::occupied(slots, i),
        slots[i]->0.local.port == packet::word(d, 2),
        udp::lets_through(slots[i]->0.local, dst),
    ensures
        ({
            let after = listener::offered(slots, src, dst, repr::segment_of(d));
            let best = listener::consumer(slots, src, dst, repr::segment_of(d));
            &&& best is Some
            &&& slab::occupied(slots, best->0)
            &&& slots[best->0]->0.local.port == packet::word(d, 2)
            &&& udp::lets_through(slots[best->0]->0.local, dst)
            &&& !udp::closer(slots[i]->0.local, slots[best->0]->0.local, dst)
            &&& i < best->0 ==> udp::closer(slots[best->0]->0.local, slots[i]->0.local, dst)
            &&& after[best->0] == Some(slots[best->0]->0.after(src, dst, repr::segment_of(d)))
            &&& after.len() == slots.len()
            &&& forall|j: int| 0 <= j < slots.len() && j != best->0 ==> #[trigger] after[j] == slots[j]
        }),
{
    let segment = repr::segment_of(d);
    lemma_fields(d);
    listener::law_syn_goes_to_most_specific_listener(slots, dst, segment.dst_port, slots.len() as int);
    udp::lemma_filter(slots[i]->0.local, dst);
    assert(segment.dst_port != 0);
    assert(listener::slot_score(slots, dst, segment.dst_port, i) is Some);
    let best = listener::best_listener(slots, dst, segment.dst_port, slots.len() as int);
    assert(best is Some);
    udp::lemma_filter(slots[best->0]->0.local, dst);
    lemma_first_of_equals(slots, dst, segment.dst_port, slots.len() as int, i);
}

/// A listener that does not listen yet listens on any endpoint that has a port and that no
/// other listener has. One that listens stays with its endpoint.
pub proof fn law_listening(slots: ListenerSlots, index: int, local: IpListenEndpoint)
    requires
        slab::occupied(slots, index),
    ensures
        ({
            let outcome = listener::listen_outcome(slots, index, local);
            let taken = exists|i: int|
                i != index && slab::occupied(slots, i) && (#[trigger] slots[i])->0.local == local;
            &&& outcome == Err::<(), ListenError>(ListenError::Unaddressable) <==> local.port == 0
            &&& outcome == Err::<(), ListenError>(ListenError::InvalidState) <==> local.port != 0
                && slots[index]->0.local.port != 0 && slots[index]->0.local != local
            &&& outcome == Err::<(), ListenError>(ListenError::InUse) <==> local.port != 0
                && slots[index]->0.local.port == 0 && taken
        }),
{
}

/// Whether ranges are those of an option of selective acknowledgements: as many as the option
/// has eight octets for, each from one number to another.
pub open spec fn acknowledges(ranges: Seq<Option<(u32, u32)>>, s: Seq<u8>, at: int) -> bool {
    &&& ranges.len() == 3
    &&& forall|i: int|
        0 <= i < 3 && 8 * i + 10 <= s[at + 1] ==> {
            &&& #[trigger] ranges[i] is Some
            &&& (ranges[i]->0).0 == packet::long(s, at + 2 + 8 * i)
            &&& (ranges[i]->0).1 == packet::long(s, at + 6 + 8 * i)
        }
    &&& forall|i: int| 0 <= i < 3 && 8 * i + 10 > s[at + 1] ==> #[trigger] ranges[i] is None
}

/// The options of a segment are read one after the other, up to an end. Each one is told by
/// its kind, and one of a kind that is not known is passed over.
pub proof fn law_options_are_read_in_turn(s: Seq<u8>, at: int, acc: TcpOptionsView)
    requires
        0 <= at < s.len(),
    ensures
        s[at] == 0 ==> repr::walk_options(s, at, acc) == Some(acc),
        s[at] == 1 ==> repr::walk_options(s, at, acc) == repr::walk_options(s, at + 1, acc),
        s[at] > 1 && (at + 1 == s.len() || s[at + 1] < 2 || at + s[at + 1] > s.len()) ==> repr::walk_options(
            s,
            at,
            acc,
        ) is None,
        s[at] == 2 && at + 4 <= s.len() && s[at + 1] == 4 ==> exists|v: u16|
            v == packet::word(s, at + 2) && repr::walk_options(s, at, acc) == #[trigger] repr::walk_options(
                s,
                at + 4,
                TcpOptionsView { max_seg_size: Some(v), ..acc },
            ),
        s[at] == 3 && at + 3 <= s.len() && s[at + 1] == 3 ==> exists|v: u8|
            v == (if s[at + 2] > 14 {
                14
            } else {
                s[at + 2]
            }) && repr::walk_options(s, at, acc) == #[trigger] repr::walk_options(
                s,
                at + 3,
                TcpOptionsView { window_scale: Some(v), ..acc },
            ),
        s[at] == 4 && at + 2 <= s.len() && s[at + 1] == 2 ==> repr::walk_options(s, at, acc) == repr::walk_options(
            s,
            at + 2,
            TcpOptionsView { sack_permitted: true, ..acc },
        ),
        s[at] == 5 && at + 2 < s.len() && at + s[at + 1] <= s.len() && (s[at + 1] == 10 || s[at + 1] == 18 || s[at + 1]
            == 26) ==> exists|ranges: Seq<Option<(u32, u32)>>|
            acknowledges(ranges, s, at) && repr::walk_options(s, at, acc) == #[trigger] repr::walk_options(
                s,
                at + s[at + 1],
                TcpOptionsView { sack_ranges: ranges, ..acc },
            ),
        s[at] == 8 && at + 10 <= s.len() && s[at + 1] == 10 ==> exists|tsval: u32, tsecr: u32|
            tsval == packet::long(s, at + 2) && tsecr == packet::long(s, at + 6) && repr::walk_options(s, at, acc)
                == #[trigger] repr::walk_options(
                s,
                at + 10,
                TcpOptionsView {
                    timestamp: Some(crate::tcp::repr::TcpTimestampRepr { tsval, tsecr }),
                    ..acc
                },
            ),
        s[at] > 8 && at + 1 < s.len() && 2 <= s[at + 1] && at + s[at + 1] <= s.len() ==> repr::walk_options(s, at, acc)
            == repr::walk_options(s, at + s[at + 1], acc),
{
    if s[at] == 2 && at + 4 <= s.len() && s[at + 1] == 4 {
        let v = bytes::be16(s, at + 2);
        assert(repr::walk_options(s, at, acc) == repr::walk_options(
            s,
            at + 4,
            TcpOptionsView { max_seg_size: Some(v), ..acc },
        ));
    }
    if s[at] == 3 && at + 3 <= s.len() && s[at + 1] == 3 {
        let v = if s[at + 2] > 14 {
            14u8
        } else {
            s[at + 2]
        };
        assert(repr::walk_options(s, at, acc) == repr::walk_options(
            s,
            at + 3,
            TcpOptionsView { window_scale: Some(v), ..acc },
        ));
    }
    if s[at] == 5 && at + 2 < s.len() && at + s[at + 1] <= s.len() && (s[at + 1] == 10 || s[at + 1] == 18 || s[at + 1]
        == 26) {
        let ranges = Seq::new(3, |i: int| tcp::sack_range_at(s, at, s[at + 1] as int, i));
        assert(acknowledges(ranges, s, at)) by {
            assert forall|i: int| 0 <= i < 3 && 8 * i + 10 <= s[at + 1] implies {
                &&& #[trigger] ranges[i] is Some
                &&& (ranges[i]->0).0 == packet::long(s, at + 2 + 8 * i)
                &&& (ranges[i]->0).1 == packet::long(s, at + 6 + 8 * i)
            } by {}
        }
        assert(repr::walk_options(s, at, acc) == repr::walk_options(
            s,
            at + s[at + 1],
            TcpOptionsView { sack_ranges: ranges, ..acc },
        ));
    }
    if s[at] == 8 && at + 10 <= s.len() && s[at + 1] == 10 {
        let tsval = bytes::be32(s, at + 2);
        let tsecr = bytes::be32(s, at + 6);
        assert(repr::walk_options(s, at, acc) == repr::walk_options(
            s,
            at + 10,
            TcpOptionsView { timestamp: Some(crate::tcp::repr::TcpTimestampRepr { tsval, tsecr }), ..acc },
        ));
    }
}

/// Whether octets are the reset that answers a segment to no socket. It gives back the number
/// that the segment acknowledges; if it acknowledges none, it acknowledges all of the segment,
/// in which SYN and FIN count for one octet each.
pub open spec fn answers(r: Seq<u8>, d: Seq<u8>) -> bool {
    let len = d.len() - d[12] / 16 * 4 + (d[13] / 2 % 2) + (d[13] % 2);
    &&& r.len() == 20
    &&& packet::word(r, 0) == packet::word(d, 2)
    &&& packet::word(r, 2) == packet::word(d, 0)
    &&& r[12] == 0x50
    &&& packet::word(r, 14) == 0
    &&& packet::word(r, 18) == 0
    &&& if d[13] / 16 % 2 == 1 {
        &&& r[13] == 4
        &&& packet::long(r, 4) == packet::long(d, 8)
        &&& packet::long(r, 8) == 0
    } else {
        &&& r[13] == 0x14
        &&& packet::long(r, 4) == 0
        &&& packet::long(r, 8) == (packet::long(d, 4) + len) % 0x1_0000_0000
    }
}

proof fn lemma_summed(src: Seq<u8>, dst: Seq<u8>, plain: Seq<u8>)
    requires
        plain.len() >= 20,
    ensures
        ({
            let r = tcp::with_checksum(src, dst, plain);
            &&& r.len() == plain.len()
            &&& forall|i: int| 0 <= i < plain.len() && i != 16 && i != 17 ==> #[trigger] r[i] == plain[i]
        }),
{
    let zeroed = bytes::overwrite(plain, 16, bytes::octets16(0));
    let sum = crate::wire::checksum::checksum_of(
        crate::wire::checksum::pseudo_header(src, dst, tcp::TCP_PROTOCOL, plain.len()) + zeroed,
    );
    assert(bytes::octets16(0).len() == 2);
    assert(bytes::octets16(sum).len() == 2);
    assert(tcp::with_checksum(src, dst, plain) == bytes::overwrite(zeroed, 16, bytes::octets16(sum)));
}

proof fn lemma_reset_fields(r: Seq<u8>, a: u16, b: u16, seq: u32, ack: u32, flags: u8)
    requires
        r.len() == 20,
        ({
            let plain = bytes::octets16(a) + bytes::octets16(b) + bytes::octets32(seq) + bytes::octets32(ack)
                + seq![0x50u8, flags] + bytes::octets16(0) + seq![0u8, 0u8, 0u8, 0u8];
            forall|i: int| 0 <= i < 20 && i != 16 && i != 17 ==> #[trigger] r[i] == plain[i]
        }),
    ensures
        packet::word(r, 0) == a,
        packet::word(r, 2) == b,
        packet::long(r, 4) == seq,
        packet::long(r, 8) == ack,
        r[12] == 0x50,
        r[13] == flags,
        packet::word(r, 14) == 0,
        packet::word(r, 18) == 0,
{
    assert(r[0] == bytes::octets16(a)[0] && r[1] == bytes::octets16(a)[1]);
    assert(r[2] == bytes::octets16(b)[0] && r[3] == bytes::octets16(b)[1]);
    assert(r[4] == bytes::octets32(seq)[0] && r[5] == bytes::octets32(seq)[1]);
    assert(r[6] == bytes::octets32(seq)[2] && r[7] == bytes::octets32(seq)[3]);
    assert(r[8] == bytes::octets32(ack)[0] && r[9] == bytes::octets32(ack)[1]);
    assert(r[10] == bytes::octets32(ack)[2] && r[11] == bytes::octets32(ack)[3]);
    assert(r[14] == bytes::octets16(0)[0] && r[15] == bytes::octets16(0)[1]);
    lemma_back16(r, 0, a);
    lemma_back16(r, 2, b);
    lemma_back32(r, 4, seq);
    lemma_back32(r, 8, ack);
    lemma_back16(r, 14, 0);
}

/// A number put down is the number found.
pub proof fn lemma_back16(s: Seq<u8>, at: int, v: u16)
    requires
        s[at] == bytes::octets16(v)[0],
        s[at + 1] == bytes::octets16(v)[1],
    ensures
        packet::word(s, at) == v,
{
}

/// A number put down is the number found.
#[verifier::spinoff_prover]
pub proof fn lemma_back32(s: Seq<u8>, at: int, v: u32)
    requires
        s[at] == bytes::octets32(v)[0],
        s[at + 1] == bytes::octets32(v)[1],
        s[at + 2] == bytes::octets32(v)[2],
        s[at + 3] == bytes::octets32(v)[3],
    ensures
        packet::long(s, at) == v,
{
    lemma_digits(v as int);
    let o = bytes::octets32(v);
    assert(o[0] == v / 0x100_0000);
    assert(o[1] == v / 0x1_0000 % 0x100);
    assert(o[2] == v / 0x100 % 0x100);
    assert(o[3] == v % 0x100);
}

#[verifier::spinoff_prover]
proof fn lemma_digits(n: int)
    requires
        0 <= n < 0x1_0000_0000,
    ensures
        n == (n / 0x100_0000) * 0x100_0000 + (n / 0x1_0000 % 0x100) * 0x1_0000 + (n / 0x100 % 0x100) * 0x100 + n
            % 0x100,
        0 <= n / 0x100_0000 < 0x100,
{
    let a = n / 0x100;
    let b = a / 0x100;
    assert(n == a * 0x100 + n % 0x100);
    assert(a == b * 0x100 + a % 0x100);
    assert(n / 0x1_0000 == b);
    assert(b == b / 0x100 * 0x100 + b % 0x100);
    assert(n / 0x100_0000 == b / 0x100);
}

/// The reset that answers a segment, and its checksum.
pub proof fn law_reset_answers(src: IpAddress, dst: IpAddress, d: Seq<u8>)
    requires
        repr::parses(d),
        src is Ipv4 == dst is Ipv4,
    ensures
        ({
            let r = ingress::reset_octets(dst.octets_view(), src.octets_view(), repr::segment_of(d));
            &&& answers(r, d)
            &&& packet::covered(dst.octets_view(), src.octets_view(), 6, r) % 0xffff == 0
        }),
{
    let segment = repr::segment_of(d);
    let (seq, ack, flags) = match segment.ack_number {
        Some(n) => (n.0, 0u32, 0x04u8),
        None => (0u32, segment.seq_number.plus(segment.len()).0, 0x14u8),
    };
    let plain = bytes::octets16(segment.dst_port) + bytes::octets16(segment.src_port) + bytes::octets32(seq)
        + bytes::octets32(ack) + seq![0x50u8, flags] + bytes::octets16(0) + seq![0u8, 0u8, 0u8, 0u8];
    let r = ingress::reset_octets(dst.octets_view(), src.octets_view(), segment);
    assert(r == tcp::with_checksum(dst.octets_view(), src.octets_view(), plain));
    assert(plain.len() == 20);
    lemma_summed(dst.octets_view(), src.octets_view(), plain);
    lemma_reset_fields(r, segment.dst_port, segment.src_port, seq, ack, flags);
    assert(answers(r, d)) by {
        lemma_fields(d);
    }
    assert(packet::covered(dst.octets_view(), src.octets_view(), 6, r) % 0xffff == 0) by {
        tcp::law_tcp_filled_checksum_verifies(dst.octets_view(), src.octets_view(), plain);
        packet::lemma_covered(dst.octets_view(), src.octets_view(), 6, r);
    }
}

proof fn lemma_fixed<'a>(header: TcpRepr<'a>, src: Seq<u8>, dst: Seq<u8>)
    requires
        header.representable(),
    ensures
        header.segment_octets(src, dst)[12] == header.header_len_view() / 4 * 16,
        header.segment_octets(src, dst)[13] == header.control.bit() + (if header.ack_number is Some {
            16int
        } else {
            0
        }),
        packet::word(header.segment_octets(src, dst), 18) == 0,
        20 <= header.header_len_view() <= 60,
{
    let d = header.segment_octets(src, dst);
    let fixed = header.fixed_octets();
    let plain = header.unsummed_octets();
    assert(fixed.len() == 20);
    assert(plain == fixed + header.padded_options() + header.payload@);
    assert(plain.take(20) =~= fixed);
    lemma_summed(src, dst, plain);
    assert(d[12] == plain.take(20)[12]);
    assert(d[13] == plain.take(20)[13]);
    assert(d[18] == plain.take(20)[18]);
    assert(d[19] == plain.take(20)[19]);
}

proof fn lemma_mss<'a>(header: TcpRepr<'a>, src: Seq<u8>, dst: Seq<u8>)
    requires
        header.representable(),
    ensures
        header.max_seg_size matches Some(n) ==> {
            let d = header.segment_octets(src, dst);
            &&& d[20] == 2
            &&& d[21] == 4
            &&& packet::word(d, 22) == n
        },
{
    if let Some(n) = header.max_seg_size {
        let d = header.segment_octets(src, dst);
        let plain = header.unsummed_octets();
        let mss = header.mss_octets();
        let options = header.padded_options();
        assert(mss.len() == 4);
        assert(header.options_octets().take(4) =~= mss);
        assert(options.take(4) =~= mss);
        assert(header.fixed_octets().len() == 20);
        assert(plain.subrange(20, 24) =~= mss);
        lemma_summed(src, dst, plain);
        assert(d[20] == plain.subrange(20, 24)[0]);
        assert(d[21] == plain.subrange(20, 24)[1]);
        assert(d[22] == plain.subrange(20, 24)[2]);
        assert(d[23] == plain.subrange(20, 24)[3]);
        assert(mss[2] == bytes::octets16(n)[0] && mss[3] == bytes::octets16(n)[1]);
        lemma_back16(d, 22, n);
    }
}

/// The octets of a segment that a header describes. SYN, FIN, RST, PSH and ACK are the bits
/// of 2, 1, 4, 8 and 16; the octets before the payload are a multiple of four; the checksum
/// makes everything that it covers add up.
pub proof fn law_segment_on_the_wire<'a>(header: TcpRepr<'a>, src: IpAddress, dst: IpAddress)
    requires
        header.representable(),
        src is Ipv4 == dst is Ipv4,
    ensures
        ({
            let d = header.segment_octets(src.octets_view(), dst.octets_view());
            let len = d[12] / 16 * 4;
            &&& packet::word(d, 0) == header.src_port
            &&& packet::word(d, 2) == header.dst_port
            &&& packet::long(d, 4) == header.seq_number.0
            &&& header.ack_number matches Some(n) ==> packet::long(d, 8) == n.0
            &&& d[12] % 16 == 0
            &&& d[13] == (match header.control {
                TcpControl::NoFlag => 0int,
                TcpControl::Psh => 8,
                TcpControl::Syn => 2,
                TcpControl::Fin => 1,
                TcpControl::Rst => 4,
            }) + (if header.ack_number is Some {
                16int
            } else {
                0
            })
            &&& packet::word(d, 14) == header.window_len
            &&& packet::word(d, 18) == 0
            &&& 20 <= len <= d.len()
            &&& d.skip(len as int) == header.payload@
            &&& header.max_seg_size matches Some(n) ==> d[20] == 2 && d[21] == 4 && packet::word(d, 22) == n
            &&& d.len() <= 0xffff ==> packet::covered(src.octets_view(), dst.octets_view(), 6, d) % 0xffff == 0
        }),
{
    let s = src.octets_view();
    let t = dst.octets_view();
    let d = header.segment_octets(s, t);
    repr::law_tcp_round_trip(header, s, t);
    lemma_fields(d);
    lemma_fixed(header, s, t);
    lemma_mss(header, s, t);
    if d.len() <= 0xffff {
        packet::lemma_covered(s, t, 6, d);
    }
}

/// A segment whose checksum is to be verified and does not add up, and one with an address of
/// zeros, make no difference.
pub proof fn law_bad_segment_is_dropped(
    net: NetModel,
    slots: TcpSlots,
    listeners: ListenerSlots,
    iface: IfaceHandle,
    src: IpAddress,
    dst: IpAddress,
    p: PacketView,
)
    requires
        src is Ipv4 == dst is Ipv4,
        p.data.len() <= 0xffff,
        ({
            ||| udp::blank(src)
            ||| udp::blank(dst)
            ||| net.iface(iface).caps.checksum.tcp.rx_view() && packet::covered(
                src.octets_view(),
                dst.octets_view(),
                6,
                p.data,
            ) % 0xffff != 0
        }),
    ensures
        ingress::delivered(net, slots, iface, src, dst, p) == slots,
        ingress::listened(net, slots, listeners, iface, src, dst, p.data) == listeners,
        ingress::answered(net, slots, listeners, iface, src, dst, p.data) == net,
{
    udp::lemma_blank(src);
    udp::lemma_blank(dst);
    packet::lemma_covered(src.octets_view(), dst.octets_view(), 6, p.data);
}

proof fn lemma_first_connection(slots: TcpSlots, local: IpEndpoint, remote: IpEndpoint, from: int, i: int)
    requires
        0 <= from <= i,
        slab::occupied(slots, i),
        slots[i]->0.state != State::Closed,
        slots[i]->0.tuple == Some(Tuple { local, remote }),
    ensures
        socket::connection_between(slots, local, remote, from) is Some,
        socket::connection_between(slots, local, remote, from)->0 <= i,
    decreases i - from,
{
    if from < i && !(slots[from] is Some && slots[from]->0.is_between(local, remote)) {
        lemma_first_connection(slots, local, remote, from + 1, i);
    }
}

/// Whether a socket's connection is the one that a segment belongs to.
pub open spec fn belongs(socket: TcpModel, src: IpAddress, dst: IpAddress, d: Seq<u8>) -> bool {
    &&& socket.state != State::Closed
    &&& socket.tuple is Some
    &&& ends(socket.tuple->0, src, dst, d)
}

/// A segment of a connection gets to its socket alone, behind those that wait there, and no
/// listener gets it and nothing is answered.
pub proof fn law_segment_gets_to_its_connection(
    net: NetModel,
    slots: TcpSlots,
    listeners: ListenerSlots,
    iface: IfaceHandle,
    src: IpAddress,
    dst: IpAddress,
    p: PacketView,
    i: int,
)
    requires
        ingress::accepted(net, iface, src, dst, p.data),
        slab::occupied(slots, i),
        belongs(slots[i]->0, src, dst, p.data),
        forall|j: int|
            slab::occupied(slots, j) && j != i ==> !belongs((#[trigger] slots[j])->0, src, dst, p.data),
    ensures
        ({
            let after = ingress::delivered(net, slots, iface, src, dst, p);
            &&& after.len() == slots.len()
            &&& after[i] == Some(TcpModel { inbox: slots[i]->0.inbox.push(p), ..slots[i]->0 })
            &&& forall|j: int| 0 <= j < slots.len() && j != i ==> #[trigger] after[j] == slots[j]
        }),
        ingress::listened(net, slots, listeners, iface, src, dst, p.data) == listeners,
        ingress::answered(net, slots, listeners, iface, src, dst, p.data) == net,
{
    let segment = repr::segment_of(p.data);
    let local = IpEndpoint { addr: dst, port: segment.dst_port };
    let remote = IpEndpoint { addr: src, port: segment.src_port };
    lemma_fields(p.data);
    assert(slots[i]->0.tuple == Some(Tuple { local, remote }));
    lemma_first_connection(slots, local, remote, 0, i);
    socket::lemma_connection_occupied(slots, local, remote, 0);
    let found = socket::connection_between(slots, local, remote, 0)->0;
    assert(belongs(slots[found]->0, src, dst, p.data));
    assert(found == i);
}

/// A segment that belongs to no connection and that no listener takes is answered with a
/// reset, from where it went to where it came from, unless it is a reset itself.
pub proof fn law_segment_to_no_socket_is_answered(
    net: NetModel,
    slots: TcpSlots,
    listeners: ListenerSlots,
    iface: IfaceHandle,
    src: IpAddress,
    dst: IpAddress,
    p: PacketView,
)
    requires
        ingress::accepted(net, iface, src, dst, p.data),
        src is Ipv4 == dst is Ipv4,
        forall|j: int| slab::occupied(slots, j) ==> !belongs((#[trigger] slots[j])->0, src, dst, p.data),
        !opens(p.data) || forall|j: int|
            slab::occupied(listeners, j) ==> {
                ||| (#[trigger] listeners[j])->0.local.port != packet::word(p.data, 2)
                ||| !udp::lets_through(listeners[j]->0.local, dst)
            },
    ensures
        ingress::delivered(net, slots, iface, src, dst, p) == slots,
        !resets(p.data) ==> exists|r: PacketView|
            {
                &&& answers(r.data, p.data)
                &&& packet::covered(dst.octets_view(), src.octets_view(), 6, r.data) % 0xffff == 0
                &&& ingress::answered(net, slots, listeners, iface, src, dst, p.data)
                    == #[trigger] network::reply_sent(net, iface, r, dst, src, IpProtocol::Tcp, 64)
            },
        resets(p.data) ==> ingress::answered(net, slots, listeners, iface, src, dst, p.data) == net,
{
    let d = p.data;
    let segment = repr::segment_of(d);
    let local = IpEndpoint { addr: dst, port: segment.dst_port };
    let remote = IpEndpoint { addr: src, port: segment.src_port };
    lemma_fields(d);
    socket::lemma_connection_occupied(slots, local, remote, 0);
    if let Some(i) = socket::connection_between(slots, local, remote, 0) {
        assert(belongs(slots[i]->0, src, dst, d));
    }
    if !resets(d) {
        if opens(d) {
            udp::lemma_blank(dst);
            listener::law_syn_goes_to_most_specific_listener(listeners, dst, segment.dst_port, listeners.len() as int);
            if let Some(b) = listener::best_listener(listeners, dst, segment.dst_port, listeners.len() as int) {
                udp::lemma_filter(listeners[b]->0.local, dst);
            }
        }
        assert(listener::consumer(listeners, src, dst, segment) is None);
        let r = PacketView::fresh(
            ingress::segment_headroom(src),
            ingress::reset_octets(dst.octets_view(), src.octets_view(), segment),
        );
        law_reset_answers(src, dst, d);
        assert(ingress::answered(net, slots, listeners, iface, src, dst, d) == network::reply_sent(
            net,
            iface,
            r,
            dst,
            src,
            IpProtocol::Tcp,
            64,
        ));
    }
}

/// With `m` numbers sent and not acknowledged, an error about the number `k` behind the first
/// of them counts only if `k < m`. It ends a connection that is not established yet, and
/// otherwise leaves all but the error as it is.
pub proof fn law_error_about_sent_segment(socket: TcpModel, error: IcmpError, seq: TcpSeqNumber, k: int, m: int)
    requires
        0 <= k < 0x1_0000_0000,
        0 <= m < 0x1_0000_0000,
        seq.0 == (socket.local_seq_no.0 + k) % 0x1_0000_0000,
        socket.remote_last_seq.0 == (socket.local_seq_no.0 + m) % 0x1_0000_0000,
    ensures
        k >= m ==> socket.after_error(error, seq) == socket,
        k < m ==> {
            let after = socket.after_error(error, seq);
            &&& after.error == Some(error)
            &&& after.rx_capacity == socket.rx_capacity
            &&& after.tx_capacity == socket.tx_capacity
            &&& if socket.state == State::SynSent || socket.state == State::SynReceived {
                &&& after.state == State::Closed
                &&& after.tuple is None
                &&& after.inbox.len() == 0
            } else {
                TcpModel { error: socket.error, ..after } == socket
            }
        },
{
}

/// An error about a segment gets to the socket of its connection and to no other.
pub proof fn law_error_gets_to_its_connection(
    slots: TcpSlots,
    error: IcmpError,
    local: IpEndpoint,
    remote: IpEndpoint,
    seq: TcpSeqNumber,
    i: int,
)
    requires
        slab::occupied(slots, i),
        slots[i]->0.state != State::Closed,
        slots[i]->0.tuple == Some(Tuple { local, remote }),
        forall|j: int|
            slab::occupied(slots, j) && j != i ==> {
                ||| (#[trigger] slots[j])->0.state == State::Closed
                ||| slots[j]->0.tuple != Some(Tuple { local, remote })
            },
    ensures
        ({
            let after = socket::error_delivered(slots, error, local, remote, seq);
            &&& after.len() == slots.len()
            &&& after[i] == Some(slots[i]->0.after_error(error, seq))
            &&& forall|j: int| 0 <= j < slots.len() && j != i ==> #[trigger] after[j] == slots[j]
        }),
{
    lemma_first_connection(slots, local, remote, 0, i);
    socket::lemma_connection_occupied(slots, local, remote, 0);
}

proof fn lemma_shift(capacity: int)
    requires
        0 <= capacity,
    ensures
        socket::window_shift(capacity) >= 0,
        capacity / (pow2(socket::window_shift(capacity) as nat) as int) <= 0xffff,
        socket::window_shift(capacity) > 0 ==> capacity / (pow2((socket::window_shift(capacity) - 1) as nat) as int)
            > 0xffff,
    decreases capacity,
{
    vstd::arithmetic::power2::lemma2_to64();
    if capacity > 0xffff {
        let half = capacity / 2;
        let s = socket::window_shift(half);
        lemma_shift(half);
        vstd::arithmetic::power2::lemma_pow2_unfold((s + 1) as nat);
        vstd::arithmetic::power2::lemma_pow2_pos(s as nat);
        vstd::arithmetic::div_mod::lemma_div_denominator(capacity, 2, pow2(s as nat) as int);
        if s > 0 {
            vstd::arithmetic::power2::lemma_pow2_unfold(s as nat);
            vstd::arithmetic::power2::lemma_pow2_pos((s - 1) as nat);
            vstd::arithmetic::div_mod::lemma_div_denominator(capacity, 2, pow2((s - 1) as nat) as int);
        } else {
            assert(capacity / 1 == capacity);
        }
    } else {
        assert(capacity / 1 == capacity);
    }
}

/// The window scale that a socket offers is the least by which its whole buffer fits into 16
/// bits, and 14 at most.
pub proof fn law_window_scale_is_least(rx_capacity: usize, tx_capacity: usize)
    ensures
        ({
            let shift = TcpModel::closed(rx_capacity, tx_capacity).remote_win_shift;
            &&& shift <= 14
            &&& shift < 14 ==> rx_capacity as int / (pow2(shift as nat) as int) <= 0xffff
            &&& shift > 0 ==> rx_capacity as int / (pow2((shift - 1) as nat) as int) > 0xffff
        }),
{
    let s = socket::window_shift(rx_capacity as int);
    lemma_shift(rx_capacity as int);
    if s > 14 {
        let lo = pow2(13);
        let hi = pow2((s - 1) as nat);
        vstd::arithmetic::power2::lemma_pow2_pos(13);
        vstd::arithmetic::power2::lemma_pow2_strictly_increases(13, (s - 1) as nat);
        vstd::arithmetic::div_mod::lemma_div_is_ordered_by_denominator(rx_capacity as int, lo as int, hi as int);
    }
}

} // verus!
