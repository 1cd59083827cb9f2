//! Egress packets waiting for a neighbor to be resolved.

use vstd::prelude::*;

use crate::buf::{PacketBuf, PacketView};
use crate::iface::IfaceHandle;
use crate::neighbor;
use crate::neighbor::{pending_queue_lifetime, same_key, Key, PENDING_QUEUE_COUNT};
use crate::time::Instant;

verus! {

/// A packet waiting for neighbor resolution.
#[derive(Debug)]
pub struct PendingPacket {
    pub key: Key,
    pub buf: PacketBuf,
    pub expires_at: Instant,
}

/// What a waiting packet holds.
#[verifier::ext_equal]
pub struct PendingView {
    pub key: Key,
    pub buf: PacketView,
    pub expires_at: Instant,
}

impl View for PendingPacket {
    type V = PendingView;

    open spec fn view(&self) -> PendingView {
        PendingView { key: self.key, buf: self.buf@, expires_at: self.expires_at }
    }
}

/// The views of a list of waiting packets.
pub open spec fn views(packets: Seq<PendingPacket>) -> Seq<PendingView> {
    packets.map_values(|p: PendingPacket| p@)
}

/// Whether every packet's buffer is well-formed.
pub open spec fn bufs_ok(packets: Seq<PendingPacket>) -> bool {
    forall|i: int| 0 <= i < packets.len() ==> (#[trigger] packets[i]).buf.wf()
}

/// Whether a packet waits on an interface.
pub open spec fn on_iface(iface: IfaceHandle) -> spec_fn(PendingView) -> bool {
    |p: PendingView| p.key.0 == iface
}

/// The packets that wait on an interface, oldest first.
pub open spec fn waiting_on(queue: Seq<PendingView>, iface: IfaceHandle) -> Seq<PendingView> {
    queue.filter(on_iface(iface))
}

/// Whether no interface has more packets waiting than it may have.
pub open spec fn bounded(queue: Seq<PendingView>) -> bool {
    forall|iface: IfaceHandle| (#[trigger] waiting_on(queue, iface)).len() <= PENDING_QUEUE_COUNT
}

/// The position of the first packet waiting on an interface, at or after `from`.
pub open spec fn first_on(queue: Seq<PendingView>, iface: IfaceHandle, from: int) -> Option<int>
    decreases queue.len() - from,
{
    if from < 0 || from >= queue.len() {
        None
    } else if queue[from].key.0 == iface {
        Some(from)
    } else {
        first_on(queue, iface, from + 1)
    }
}

/// The queue after making room for a packet on an interface: the oldest packet waiting
/// on that interface is dropped if the interface has as many as it may have.
pub open spec fn with_room(queue: Seq<PendingView>, iface: IfaceHandle) -> Seq<PendingView> {
    match first_on(queue, iface, 0) {
        Some(i) => if waiting_on(queue, iface).len() >= PENDING_QUEUE_COUNT {
            queue.remove(i)
        } else {
            queue
        },
        None => queue,
    }
}

/// A packet that starts to wait for `key`.
pub open spec fn waiter(key: Key, buf: PacketView, now: Instant) -> PendingView {
    PendingView {
        key,
        buf,
        expires_at: neighbor::after_micros(now, neighbor::PENDING_QUEUE_LIFETIME_MICROS),
    }
}

/// The queue after a packet joins it: at the end, the oldest one of its interface
/// dropped if that interface's share of the queue was full.
pub open spec fn queued(queue: Seq<PendingView>, key: Key, buf: PacketView, now: Instant) -> Seq<PendingView> {
    with_room(queue, key.0).push(waiter(key, buf, now))
}

/// Whether a packet waits for `key`.
pub open spec fn waits_for(key: Key) -> spec_fn(PendingView) -> bool {
    |p: PendingView| p.key == key
}

/// Whether a packet waits for another neighbor than `key`.
pub open spec fn waits_elsewhere(key: Key) -> spec_fn(PendingView) -> bool {
    |p: PendingView| p.key != key
}

/// Whether a packet may still wait at time `now`.
pub open spec fn still_waits(now: Instant) -> spec_fn(PendingView) -> bool {
    |p: PendingView| now.micros < p.expires_at.micros
}

/// Whether a packet waits on another interface.
pub open spec fn off_iface(iface: IfaceHandle) -> spec_fn(PendingView) -> bool {
    |p: PendingView| p.key.0 != iface
}

/// The position of the first packet waiting for `key`, at or after `from`.
pub open spec fn first_waiting(queue: Seq<PendingView>, key: Key, from: int) -> Option<int>
    decreases queue.len() - from,
{
    if from < 0 || from >= queue.len() {
        None
    } else if queue[from].key == key {
        Some(from)
    } else {
        first_waiting(queue, key, from + 1)
    }
}

/// The earliest expiry among the first `n` packets.
pub open spec fn earliest_expiry(queue: Seq<PendingView>, n: int) -> Option<Instant>
    decreases n,
{
    if n <= 0 {
        None
    } else {
        match earliest_expiry(queue, n - 1) {
            Some(t) => Some(t.earlier(queue[n - 1].expires_at)),
            None => Some(queue[n - 1].expires_at),
        }
    }
}

/// No packet expires before the earliest expiry.
pub proof fn law_earliest_expiry_is_minimum(queue: Seq<PendingView>, n: int, i: int)
    requires
        0 <= i < n <= queue.len(),
    ensures
        earliest_expiry(queue, n) is Some,
        earliest_expiry(queue, n)->0.micros <= queue[i].expires_at.micros,
    decreases n,
{
    if i < n - 1 {
        law_earliest_expiry_is_minimum(queue, n - 1, i);
    }
}

/// The earliest expiry is that of one of the packets.
pub proof fn lemma_earliest_expiry_source(queue: Seq<PendingView>, n: int)
    requires
        0 <= n <= queue.len(),
        earliest_expiry(queue, n) is Some,
    ensures
        exists|j: int| 0 <= j < n && (#[trigger] queue[j]).expires_at == earliest_expiry(queue, n)->0,
    decreases n,
{
    let t = earliest_expiry(queue, n)->0;
    if earliest_expiry(queue, n - 1) == Some(t) {
        lemma_earliest_expiry_source(queue, n - 1);
        let j = choose|j: int| 0 <= j < n - 1 && (#[trigger] queue[j]).expires_at == t;
        assert(queue[j].expires_at == t);
    } else {
        assert(queue[n - 1].expires_at == t);
    }
}

/// A packet that joins the queue is the last one of its interface, whose oldest packet
/// makes room for it if need be. The packets of other interfaces stay as they are, and
/// every interface's share of the queue stays bounded.
pub proof fn law_queue_is_bounded_fifo(
    queue: Seq<PendingView>,
    key: Key,
    buf: PacketView,
    now: Instant,
    other: IfaceHandle,
)
    requires
        bounded(queue),
        other != key.0,
    ensures
        ({
            let after = queued(queue, key, buf, now);
            let before = waiting_on(queue, key.0);
            &&& bounded(after)
            &&& waiting_on(after, other) == waiting_on(queue, other)
            &&& waiting_on(after, key.0) == (if before.len() >= PENDING_QUEUE_COUNT {
                before.drop_first()
            } else {
                before
            }).push(waiter(key, buf, now))
        }),
{
    lemma_queued(queue, key, buf, now);
}

/// What an interface's share of the queue is after a packet joined it.
proof fn lemma_queued(queue: Seq<PendingView>, key: Key, buf: PacketView, now: Instant)
    requires
        bounded(queue),
    ensures
        bounded(queued(queue, key, buf, now)),
        forall|iface: IfaceHandle|
            #[trigger] waiting_on(queued(queue, key, buf, now), iface) == if iface != key.0 {
                waiting_on(queue, iface)
            } else if waiting_on(queue, key.0).len() >= PENDING_QUEUE_COUNT {
                waiting_on(queue, key.0).drop_first().push(waiter(key, buf, now))
            } else {
                waiting_on(queue, key.0).push(waiter(key, buf, now))
            },
{
    let packet = waiter(key, buf, now);
    let room = with_room(queue, key.0);
    lemma_first_on(queue, key.0, 0);
    if waiting_on(queue, key.0).len() >= PENDING_QUEUE_COUNT && first_on(queue, key.0, 0) is None {
        neighbor::lemma_filter_subset(queue, on_iface(key.0));
        let first = waiting_on(queue, key.0)[0];
        broadcast use vstd::seq_lib::group_filter_ensures;

        assert(on_iface(key.0)(first));
        let k = choose|k: int| 0 <= k < queue.len() && queue[k] == first;
        assert(queue[k].key.0 != key.0);
    }
    assert forall|iface: IfaceHandle|
        #[trigger] waiting_on(room.push(packet), iface) == if iface != key.0 {
            waiting_on(queue, iface)
        } else if waiting_on(queue, key.0).len() >= PENDING_QUEUE_COUNT {
            waiting_on(queue, key.0).drop_first().push(packet)
        } else {
            waiting_on(queue, key.0).push(packet)
        } by {
        if let Some(i) = first_on(queue, key.0, 0) {
            lemma_remove_first_on(queue, key.0, i, iface);
        }
        reveal(Seq::filter);
        assert(room.push(packet).drop_last() =~= room);
    }
    assert forall|iface: IfaceHandle| (#[trigger] waiting_on(room.push(packet), iface)).len()
        <= PENDING_QUEUE_COUNT by {
        assert(waiting_on(queue, iface).len() <= PENDING_QUEUE_COUNT);
    }
}

/// The first packet waiting on an interface has none before it.
proof fn lemma_first_on(queue: Seq<PendingView>, iface: IfaceHandle, from: int)
    requires
        0 <= from,
    ensures
        match first_on(queue, iface, from) {
            Some(i) => {
                &&& from <= i < queue.len()
                &&& queue[i].key.0 == iface
                &&& forall|j: int| from <= j < i ==> (#[trigger] queue[j]).key.0 != iface
            },
            None => forall|j: int| from <= j < queue.len() ==> (#[trigger] queue[j]).key.0 != iface,
        },
    decreases queue.len() - from,
{
    if from < queue.len() && queue[from].key.0 != iface {
        lemma_first_on(queue, iface, from + 1);
    }
}

/// Making room only takes packets out.
pub proof fn lemma_with_room(queue: Seq<PendingView>, iface: IfaceHandle)
    ensures
        with_room(queue, iface).len() <= queue.len(),
        forall|i: int|
            0 <= i < with_room(queue, iface).len() ==> queue.contains(#[trigger] with_room(queue, iface)[i]),
{
    let room = with_room(queue, iface);
    lemma_first_on(queue, iface, 0);
    assert forall|i: int| 0 <= i < room.len() implies queue.contains(#[trigger] room[i]) by {
        if room != queue && i >= first_on(queue, iface, 0)->0 {
            assert(room[i] == queue[i + 1]);
        } else {
            assert(room[i] == queue[i]);
        }
    }
}

/// Filtering splits at any position.
proof fn lemma_filter_split(queue: Seq<PendingView>, pred: spec_fn(PendingView) -> bool, i: int)
    requires
        0 <= i < queue.len(),
    ensures
        queue.filter(pred) == queue.take(i).filter(pred) + seq![queue[i]].filter(pred) + queue.skip(i + 1).filter(
            pred,
        ),
        queue.remove(i).filter(pred) == queue.take(i).filter(pred) + queue.skip(i + 1).filter(pred),
        seq![queue[i]].filter(pred) == if pred(queue[i]) {
            seq![queue[i]]
        } else {
            Seq::empty()
        },
{
    let head = queue.take(i);
    let one = seq![queue[i]];
    let tail = queue.skip(i + 1);
    assert(queue =~= head + one + tail);
    assert(queue.remove(i) =~= head + tail);
    Seq::filter_distributes_over_add(head, tail, pred);
    Seq::filter_distributes_over_add(head + one, tail, pred);
    Seq::filter_distributes_over_add(head, one, pred);
    reveal(Seq::filter);
    let none = Seq::<PendingView>::empty();
    assert(none.filter(pred) == none);
    assert(one.drop_last() =~= none);
    assert(one.filter(pred) =~= if pred(queue[i]) {
        seq![queue[i]]
    } else {
        Seq::empty()
    });
}

/// Without the first packet waiting on an interface, the other interfaces' packets are as
/// they were.
proof fn lemma_remove_first_on(queue: Seq<PendingView>, iface: IfaceHandle, i: int, other: IfaceHandle)
    requires
        first_on(queue, iface, 0) == Some(i),
    ensures
        waiting_on(queue.remove(i), other) == if other == iface {
            waiting_on(queue, other).drop_first()
        } else {
            waiting_on(queue, other)
        },
        other == iface ==> waiting_on(queue, other).len() > 0,
{
    lemma_first_on(queue, iface, 0);
    lemma_filter_split(queue, on_iface(other), i);
    if other == iface {
        let head = queue.take(i);
        neighbor::lemma_filter_subset(head, on_iface(other));
        if head.filter(on_iface(other)).len() > 0 {
            broadcast use vstd::seq_lib::group_filter_ensures;

            let first = head.filter(on_iface(other))[0];
            assert(on_iface(other)(first));
            let k = choose|k: int| 0 <= k < head.len() && head[k] == first;
            assert(queue[k].key.0 != iface);
        }
        assert(head.filter(on_iface(other)) =~= Seq::<PendingView>::empty());
    }
    assert(waiting_on(queue.remove(i), other) =~= if other == iface {
        waiting_on(queue, other).drop_first()
    } else {
        waiting_on(queue, other)
    });
}

/// Taking any packet out of the queue keeps it bounded.
proof fn lemma_bounded_without(queue: Seq<PendingView>, i: int)
    requires
        bounded(queue),
        0 <= i < queue.len(),
    ensures
        bounded(queue.remove(i)),
{
    assert forall|iface: IfaceHandle| (#[trigger] waiting_on(queue.remove(i), iface)).len()
        <= PENDING_QUEUE_COUNT by {
        assert(waiting_on(queue, iface).len() <= PENDING_QUEUE_COUNT);
        lemma_filter_split(queue, on_iface(iface), i);
    }
}

/// Keeping only some of the packets keeps the queue bounded.
proof fn lemma_bounded_filter(queue: Seq<PendingView>, pred: spec_fn(PendingView) -> bool)
    requires
        bounded(queue),
    ensures
        bounded(queue.filter(pred)),
{
    assert forall|iface: IfaceHandle| (#[trigger] waiting_on(queue.filter(pred), iface)).len()
        <= PENDING_QUEUE_COUNT by {
        assert(waiting_on(queue, iface).len() <= PENDING_QUEUE_COUNT);
        lemma_filter_twice(queue, pred, on_iface(iface));
    }
}

proof fn lemma_filter_twice(
    queue: Seq<PendingView>,
    first: spec_fn(PendingView) -> bool,
    then_by: spec_fn(PendingView) -> bool,
)
    ensures
        queue.filter(first).filter(then_by).len() <= queue.filter(then_by).len(),
    decreases queue.len(),
{
    reveal(Seq::filter);
    if queue.len() > 0 {
        lemma_filter_twice(queue.drop_last(), first, then_by);
        let kept = queue.drop_last().filter(first);
        assert(kept.push(queue.last()).drop_last() =~= kept);
    }
}

/// Filtering the view of one more packet appends it if it passes.
proof fn lemma_views_step(packets: Seq<PendingPacket>, pred: spec_fn(PendingView) -> bool, i: int)
    requires
        0 <= i < packets.len(),
    ensures
        views(packets).take(i + 1).filter(pred) == if pred(packets[i]@) {
            views(packets).take(i).filter(pred).push(packets[i]@)
        } else {
            views(packets).take(i).filter(pred)
        },
{
    neighbor::lemma_filter_step(views(packets), pred, i);
}

/// A queue of egress packets waiting for neighbor resolution.
///
/// When egress needs a neighbor that is not in the cache, the fully-built IP packet
/// is queued here and a solicitation (ARP request / NDISC neighbor solicit) is sent
/// instead, retransmitted per RFC 4861 until an answer arrives or the probe limit is
/// reached. When the answer arrives and fills the cache, the queued packets are
/// flushed to the device; if resolution fails, they are dropped.
#[derive(Debug)]
pub struct PendingQueue {
    packets: Vec<PendingPacket>,
}

impl View for PendingQueue {
    type V = Seq<PendingView>;

    closed spec fn view(&self) -> Seq<PendingView> {
        views(self.packets@)
    }
}

impl PendingQueue {
    /// Every interface's share of the queue is bounded, and the buffers are well-formed.
    pub closed spec fn wf(&self) -> bool {
        bounded(views(self.packets@)) && bufs_ok(self.packets@)
    }

    /// No interface has more packets waiting than it may have.
    pub proof fn lemma_bounded(&self)
        requires
            self.wf(),
        ensures
            bounded(self@),
    {
    }

    /// An empty queue.
    pub fn new() -> (r: Self)
        ensures
            r.wf(),
            r@ == Seq::<PendingView>::empty(),
    {
        let r = PendingQueue { packets: Vec::new() };
        assert(r@ =~= Seq::<PendingView>::empty());
        proof {
            reveal(Seq::filter);
        }
        r
    }

    /// Queue a packet waiting for `key` to resolve.
    pub fn push(&mut self, key: Key, buf: PacketBuf, timestamp: Instant)
        requires
            old(self).wf(),
            buf.wf(),
            neighbor::time_ok(timestamp),
        ensures
            final(self).wf(),
            final(self)@ == queued(old(self)@, key, buf@, timestamp),
    {
        let (count, first) = self.share_of(key.0);
        if count >= PENDING_QUEUE_COUNT {
            if let Some(i) = first {
                let _ = self.packets.remove(i);
                assert(views(self.packets@) =~= old(self)@.remove(i as int));
            }
        }
        assert(views(self.packets@) == with_room(old(self)@, key.0));
        self.packets.push(PendingPacket { key, buf, expires_at: timestamp.after(pending_queue_lifetime()) });
        assert(self@ =~= queued(old(self)@, key, buf@, timestamp));
        proof {
            lemma_queued(old(self)@, key, buf@, timestamp);
        }
    }

    /// How many packets wait on an interface, and where the oldest of them is.
    fn share_of(&self, iface: IfaceHandle) -> (r: (usize, Option<usize>))
        ensures
            r.0 == waiting_on(self@, iface).len(),
            (match r.1 {
                Some(i) => Some(i as int),
                None => None,
            }) == first_on(self@, iface, 0),
            r.1 matches Some(i) ==> i < self@.len(),
    {
        let ghost all = views(self.packets@);
        let mut count: usize = 0;
        let mut first: Option<usize> = None;
        let mut i: usize = 0;
        proof {
            reveal(Seq::filter);
            assert(all.take(0) =~= Seq::<PendingView>::empty());
        }
        while i < self.packets.len()
            invariant
                i <= self.packets@.len(),
                all == views(self.packets@),
                count == all.take(i as int).filter(on_iface(iface)).len(),
                count <= i,
                match first {
                    Some(k) => k < i && first_on(all, iface, 0) == Some(k as int),
                    None => first_on(all, iface, 0) == first_on(all, iface, i as int),
                },
            decreases self.packets@.len() - i,
        {
            proof {
                lemma_views_step(self.packets@, on_iface(iface), i as int);
            }
            if self.packets[i].key.0.0 == iface.0 {
                count += 1;
                if first.is_none() {
                    first = Some(i);
                }
            }
            i += 1;
        }
        assert(all.take(i as int) =~= all);
        (count, first)
    }

    /// Remove and return all packets waiting for `key`, in FIFO order.
    pub fn take_matching(&mut self, key: &Key) -> (r: Vec<PendingPacket>)
        requires
            old(self).wf(),
        ensures
            final(self).wf(),
            bufs_ok(r@),
            views(r@) == old(self)@.filter(waits_for(*key)),
            final(self)@ == old(self)@.filter(waits_elsewhere(*key)),
    {
        let mut taken: Vec<PendingPacket> = Vec::new();
        let mut kept: Vec<PendingPacket> = Vec::new();
        let ghost all = self.packets@;
        let ghost mut i: int = 0;
        proof {
            reveal(Seq::filter);
            assert(views(all).take(0) =~= Seq::<PendingView>::empty());
            assert(views(taken@) =~= Seq::<PendingView>::empty());
            assert(views(kept@) =~= Seq::<PendingView>::empty());
            assert(all.skip(0) =~= all);
        }
        while self.packets.len() > 0
            invariant
                0 <= i <= all.len(),
                self.packets@ == all.skip(i),
                bufs_ok(all),
                bufs_ok(taken@),
                bufs_ok(kept@),
                kept@.len() <= i,
                views(taken@) == views(all).take(i).filter(waits_for(*key)),
                views(kept@) == views(all).take(i).filter(waits_elsewhere(*key)),
            decreases self.packets@.len(),
        {
            let packet = self.packets.remove(0);
            proof {
                lemma_views_step(all, waits_for(*key), i);
                lemma_views_step(all, waits_elsewhere(*key), i);
                assert(packet == all[i]);
                assert(all.skip(i).remove(0) =~= all.skip(i + 1));
            }
            let ghost t = taken@;
            let ghost k = kept@;
            let ghost packet_view = packet;
            if same_key(&packet.key, key) {
                taken.push(packet);
                assert(views(taken@) =~= views(t).push(packet_view@));
            } else {
                kept.push(packet);
                assert(views(kept@) =~= views(k).push(packet_view@));
            }
            proof {
                i = i + 1;
            }
        }
        assert(views(all).take(i) =~= views(all));
        proof {
            lemma_bounded_filter(views(all), waits_elsewhere(*key));
        }
        self.packets = kept;
        taken
    }

    /// Remove and return the oldest packet waiting for `key`.
    pub fn pop_matching(&mut self, key: &Key) -> (r: Option<PendingPacket>)
        requires
            old(self).wf(),
        ensures
            final(self).wf(),
            match first_waiting(old(self)@, *key, 0) {
                Some(i) => {
                    &&& r is Some
                    &&& r->0@ == old(self)@[i]
                    &&& r->0.buf.wf()
                    &&& 0 <= i < old(self)@.len()
                    &&& r->0.key == *key
                    &&& final(self)@ == old(self)@.remove(i)
                },
                None => r is None && final(self)@ == old(self)@,
            },
    {
        let mut i: usize = 0;
        while i < self.packets.len()
            invariant
                i <= self.packets@.len(),
                self.packets@ == old(self).packets@,
                bounded(views(self.packets@)),
                bufs_ok(self.packets@),
                first_waiting(views(self.packets@), *key, i as int) == first_waiting(
                    views(self.packets@),
                    *key,
                    0,
                ),
            decreases self.packets@.len() - i,
        {
            if same_key(&self.packets[i].key, key) {
                let packet = self.packets.remove(i);
                assert(views(self.packets@) =~= old(self)@.remove(i as int));
                proof {
                    lemma_bounded_without(old(self)@, i as int);
                }
                return Some(packet);
            }
            i += 1;
        }
        None
    }

    /// Drop packets that have waited too long.
    pub fn purge_expired(&mut self, timestamp: Instant)
        requires
            old(self).wf(),
        ensures
            final(self).wf(),
            final(self)@ == old(self)@.filter(still_waits(timestamp)),
    {
        let mut kept: Vec<PendingPacket> = Vec::new();
        let ghost all = self.packets@;
        let ghost mut i: int = 0;
        proof {
            reveal(Seq::filter);
            assert(views(all).take(0) =~= Seq::<PendingView>::empty());
            assert(views(kept@) =~= Seq::<PendingView>::empty());
            assert(all.skip(0) =~= all);
        }
        while self.packets.len() > 0
            invariant
                0 <= i <= all.len(),
                self.packets@ == all.skip(i),
                bufs_ok(all),
                bufs_ok(kept@),
                kept@.len() <= i,
                views(kept@) == views(all).take(i).filter(still_waits(timestamp)),
            decreases self.packets@.len(),
        {
            let packet = self.packets.remove(0);
            proof {
                lemma_views_step(all, still_waits(timestamp), i);
                assert(packet == all[i]);
                assert(all.skip(i).remove(0) =~= all.skip(i + 1));
            }
            let ghost k = kept@;
            let ghost packet_view = packet;
            if timestamp.micros < packet.expires_at.micros {
                kept.push(packet);
                assert(views(kept@) =~= views(k).push(packet_view@));
            }
            proof {
                i = i + 1;
            }
        }
        assert(views(all).take(i) =~= views(all));
        proof {
            lemma_bounded_filter(views(all), still_waits(timestamp));
        }
        self.packets = kept;
    }

    /// Drop all packets queued on the given interface.
    pub fn purge_iface(&mut self, iface: IfaceHandle)
        requires
            old(self).wf(),
        ensures
            final(self).wf(),
            final(self)@ == old(self)@.filter(off_iface(iface)),
    {
        let mut kept: Vec<PendingPacket> = Vec::new();
        let ghost all = self.packets@;
        let ghost mut i: int = 0;
        proof {
            reveal(Seq::filter);
            assert(views(all).take(0) =~= Seq::<PendingView>::empty());
            assert(views(kept@) =~= Seq::<PendingView>::empty());
            assert(all.skip(0) =~= all);
        }
        while self.packets.len() > 0
            invariant
                0 <= i <= all.len(),
                self.packets@ == all.skip(i),
                bufs_ok(all),
                bufs_ok(kept@),
                kept@.len() <= i,
                views(kept@) == views(all).take(i).filter(off_iface(iface)),
            decreases self.packets@.len(),
        {
            let packet = self.packets.remove(0);
            proof {
                lemma_views_step(all, off_iface(iface), i);
                assert(packet == all[i]);
                assert(all.skip(i).remove(0) =~= all.skip(i + 1));
            }
            let ghost k = kept@;
            let ghost packet_view = packet;
            if packet.key.0.0 != iface.0 {
                kept.push(packet);
                assert(views(kept@) =~= views(k).push(packet_view@));
            }
            proof {
                i = i + 1;
            }
        }
        assert(views(all).take(i) =~= views(all));
        proof {
            lemma_bounded_filter(views(all), off_iface(iface));
        }
        self.packets = kept;
    }

    /// The earliest expiry timer in the queue, if any.
    pub fn poll_at(&self) -> (r: Option<Instant>)
        ensures
            r == earliest_expiry(self@, self@.len() as int),
    {
        let mut best: Option<Instant> = None;
        let mut i: usize = 0;
        while i < self.packets.len()
            invariant
                i <= self.packets@.len(),
                best == earliest_expiry(views(self.packets@), i as int),
            decreases self.packets@.len() - i,
        {
            let t = self.packets[i].expires_at;
            best = match best {
                Some(b) => Some(b.earliest(t)),
                None => Some(t),
            };
            i += 1;
        }
        best
    }
}

} // verus!
