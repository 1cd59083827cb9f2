//! Polling: everything the stack does on its own.

use vstd::prelude::*;

use crate::buf::{PacketBuf, PacketView};
use crate::iface::IfaceHandle;
use crate::neighbor;
use crate::pending;
use crate::stack::iface_state;
use crate::stack::iface_state::IfaceModel;
use crate::stack::ingress;
use crate::stack::link;
use crate::stack::link::InnerModel;
use crate::stack::network;
use crate::stack::network::{NetModel, Network};
use crate::stack::state;
use crate::stack::state::{Stack, StackModel};
use crate::stack::timers;
use crate::storage::slab;
use crate::time::Instant;

verus! {

/// The stack at another time, without the packets that waited too long for a neighbor.
pub open spec fn advanced(stack: StackModel, now: Instant) -> StackModel {
    stack.with_net(
        NetModel {
            inner: InnerModel {
                now,
                pending: stack.net.inner.pending.filter(pending::still_waits(now)),
                ..stack.net.inner
            },
            ..stack.net
        },
    )
}

/// The network side with the frames received on an interface taken.
pub open spec fn rx_taken(net: NetModel, iface: IfaceHandle) -> NetModel {
    NetModel {
        ifaces: net.ifaces.update(iface.0 as int, Some(IfaceModel { rx: Seq::empty(), ..net.iface(iface) })),
        ..net
    }
}

/// The stack after the first `n` frames arrived on an interface.
pub open spec fn frames_processed(stack: StackModel, iface: IfaceHandle, frames: Seq<PacketView>, n: int) -> StackModel
    decreases n,
{
    if n <= 0 {
        stack
    } else {
        ingress::frame_processed(frames_processed(stack, iface, frames, n - 1), iface, frames[n - 1])
    }
}

/// The stack after polling one interface: its neighbors' timers are looked at, and all
/// the frames it received processed, oldest first.
pub open spec fn iface_polled(stack: StackModel, iface: IfaceHandle) -> StackModel {
    let after = timers::timers_polled(stack, iface);
    let frames = after.net.iface(iface).rx;
    frames_processed(after.with_net(rx_taken(after.net, iface)), iface, frames, frames.len() as int)
}

/// The stack after polling the interfaces in the first `n` slots.
pub open spec fn ifaces_polled(stack: StackModel, n: int) -> StackModel
    decreases n,
{
    if n <= 0 {
        stack
    } else {
        let before = ifaces_polled(stack, n - 1);
        if slab::occupied(stack.net.ifaces, n - 1) {
            iface_polled(before, IfaceHandle((n - 1) as usize))
        } else {
            before
        }
    }
}

/// The stack after polling it at a time.
pub open spec fn polled(stack: StackModel, now: Instant) -> StackModel {
    ifaces_polled(advanced(stack, now), stack.net.ifaces.len() as int)
}

/// The earlier of two times, if there are any.
pub open spec fn earlier_of(a: Option<Instant>, b: Option<Instant>) -> Option<Instant> {
    match (a, b) {
        (Some(x), Some(y)) => Some(x.earlier(y)),
        (Some(x), None) => Some(x),
        (None, y) => y,
    }
}

/// When the stack's next timer expires: that of a neighbor to ask again, or of a packet
/// that has waited long enough. `None` if no timer runs.
pub open spec fn next_timer(net: NetModel) -> Option<Instant> {
    earlier_of(
        neighbor::earliest_retrans(net.inner.cache, net.inner.cache.len() as int),
        pending::earliest_expiry(net.inner.pending, net.inner.pending.len() as int),
    )
}

/// No timer of the stack expires before the next one.
pub proof fn law_no_timer_before_deadline(net: NetModel)
    ensures
        forall|i: int|
            0 <= i < net.inner.pending.len() ==> next_timer(net) is Some && next_timer(net)->0.micros <= (
            #[trigger] net.inner.pending[i]).expires_at.micros,
        forall|i: int|
            0 <= i < net.inner.cache.len() ==> ((#[trigger] net.inner.cache[i]).1 matches neighbor::State::Incomplete {
                retrans_at,
                ..
            } ==> next_timer(net) is Some && next_timer(net)->0.micros <= retrans_at.micros),
{
    assert forall|i: int| 0 <= i < net.inner.pending.len() implies next_timer(net) is Some && next_timer(
        net,
    )->0.micros <= (#[trigger] net.inner.pending[i]).expires_at.micros by {
        pending::law_earliest_expiry_is_minimum(net.inner.pending, net.inner.pending.len() as int, i);
    }
    assert forall|i: int| 0 <= i < net.inner.cache.len() implies ((
    #[trigger] net.inner.cache[i]).1 matches neighbor::State::Incomplete { retrans_at, .. } ==> next_timer(net) is Some
        && next_timer(net)->0.micros <= retrans_at.micros) by {
        if net.inner.cache[i].1 is Incomplete {
            neighbor::law_earliest_retrans_is_minimum(net.inner.cache, net.inner.cache.len() as int, i);
        }
    }
}

/// The next timer is that of a packet that waits or of a neighbor to ask again.
pub proof fn law_deadline_is_a_timer(net: NetModel)
    requires
        next_timer(net) is Some,
    ensures
        ({
            let t = next_timer(net)->0;
            ||| exists|i: int| 0 <= i < net.inner.pending.len() && (#[trigger] net.inner.pending[i]).expires_at == t
            ||| exists|i: int|
                0 <= i < net.inner.cache.len() && (#[trigger] net.inner.cache[i]).1 is Incomplete
                    && net.inner.cache[i].1->retrans_at == t
        }),
{
    let cache = net.inner.cache;
    let queue = net.inner.pending;
    if neighbor::earliest_retrans(cache, cache.len() as int) is Some {
        neighbor::lemma_earliest_retrans_source(cache, cache.len() as int);
    }
    if pending::earliest_expiry(queue, queue.len() as int) is Some {
        pending::lemma_earliest_expiry_source(queue, queue.len() as int);
    }
}

/// Whether two network sides have the same interfaces, though not in the same state.
pub open spec fn same_ifaces(before: NetModel, after: NetModel) -> bool {
    &&& after.ifaces.len() == before.ifaces.len()
    &&& forall|i: int| #[trigger] slab::occupied(after.ifaces, i) == slab::occupied(before.ifaces, i)
    &&& after.inner.routes == before.inner.routes
    &&& after.inner.now == before.inner.now
}

/// Whether all the frames received on the interfaces in the first `n` slots are taken.
pub open spec fn drained(net: NetModel, n: int) -> bool {
    forall|i: int|
        0 <= i < n && slab::occupied(net.ifaces, i) ==> (#[trigger] net.ifaces[i])->0.rx == Seq::<PacketView>::empty()
}

/// Whether the frames received on one interface were taken, and on no other.
pub open spec fn drained_at(before: NetModel, after: NetModel, iface: IfaceHandle) -> bool {
    forall|i: int|
        slab::occupied(before.ifaces, i) ==> (#[trigger] after.ifaces[i])->0.rx == if i == iface.0 {
            Seq::<PacketView>::empty()
        } else {
            before.ifaces[i]->0.rx
        }
}

/// Taking the frames of an interface keeps the stack well-formed.
proof fn lemma_rx_taken(net: NetModel, iface: IfaceHandle)
    requires
        net.wf(),
        net.routes_attached(),
        net.has_iface(iface),
    ensures
        rx_taken(net, iface).wf(),
        rx_taken(net, iface).routes_attached(),
        same_ifaces(net, rx_taken(net, iface)),
        rx_taken(net, iface).has_iface(iface),
        rx_taken(net, iface).iface(iface) == (IfaceModel { rx: Seq::empty(), ..net.iface(iface) }),
{
    let after = rx_taken(net, iface);
    assert forall|i: int| #[trigger] slab::occupied(after.ifaces, i) == slab::occupied(net.ifaces, i) by {}
    assert forall|i: int| slab::occupied(after.ifaces, i) implies network::iface_ok(
        #[trigger] after.ifaces[i]->0,
        i,
    ) by {
        assert(network::iface_ok(net.ifaces[i]->0, i));
    }
    assert forall|i: int| 0 <= i < after.inner.cache.len() implies network::ethernet_at(
        after.ifaces,
        (#[trigger] after.inner.cache[i]).0.0,
    ) by {
        assert(network::ethernet_at(net.ifaces, net.inner.cache[i].0.0));
    }
    assert forall|i: int| 0 <= i < after.inner.routes.len() implies slab::occupied(
        after.ifaces,
        (#[trigger] after.inner.routes[i]).iface.0 as int,
    ) by {
        assert(slab::occupied(net.ifaces, net.inner.routes[i].iface.0 as int));
    }
}

impl Network {
    /// Take the frames received on an interface.
    fn take_rx(&mut self, iface: IfaceHandle) -> (r: Vec<PacketBuf>)
        requires
            old(self).wf(),
            old(self)@.routes_attached(),
            old(self)@.has_iface(iface),
        ensures
            final(self).wf(),
            final(self)@.routes_attached(),
            same_ifaces(old(self)@, final(self)@),
            final(self)@ == rx_taken(old(self)@, iface),
            final(self)@.has_iface(iface),
            final(self)@.iface(iface).caps == old(self)@.iface(iface).caps,
            iface_state::packet_views(r@) == old(self)@.iface(iface).rx,
            iface_state::packets_ok(r@),
            forall|i: int|
                0 <= i < r@.len() ==> iface_state::rx_ok(old(self)@.iface(iface).caps.medium, (#[trigger] r@[i])@),
    {
        let i: usize = iface.0;
        let ghost slots = self.ifaces@;
        let ghost net = self@;
        proof {
            assert(net.ifaces[i as int] == Some(slots[i as int]->0@));
            assert(slots[i as int]->0.wf());
            assert(network::iface_ok(net.ifaces[i as int]->0, i as int));
            lemma_rx_taken(net, iface);
        }
        let mut rx: Vec<PacketBuf> = Vec::new();
        let state = self.ifaces.get_mut(i);
        let ghost before = state@;
        core::mem::swap(&mut state.rx, &mut rx);
        proof {
            assert(state@.rx =~= Seq::<PacketView>::empty());
            assert(state@ =~= IfaceModel { rx: Seq::empty(), ..before });
            assert forall|k: int| 0 <= k < rx@.len() implies iface_state::rx_ok(before.caps.medium, (#[trigger] rx@[k])@) by {
                assert(before.rx[k] == rx@[k]@);
            }
            slab::lemma_views_update(slots, i as int, self.ifaces@[i as int]->0);
            assert forall|k: int| slab::occupied(self.ifaces@, k) implies (#[trigger] self.ifaces@[k])->0.wf() by {
                if k != i {
                    assert(slots[k]->0.wf());
                }
            }
        }
        rx
    }
}

/// The earlier of two times, if there are any.
fn earlier(a: Option<Instant>, b: Option<Instant>) -> (r: Option<Instant>)
    ensures
        r == earlier_of(a, b),
{
    match (a, b) {
        (Some(x), Some(y)) => Some(x.earliest(y)),
        (Some(x), None) => Some(x),
        (None, y) => y,
    }
}

impl Stack {
    /// Poll one interface.
    fn poll_iface(&mut self, iface: IfaceHandle)
        requires
            old(self).ready(),
            old(self)@.net.has_iface(iface),
        ensures
            final(self).ready(),
            same_ifaces(old(self)@.net, final(self)@.net),
            final(self)@ == iface_polled(old(self)@, iface),
            drained_at(old(self)@.net, final(self)@.net, iface),
    {
        self.poll_neighbor_timers(iface);
        let ghost timed = self@;
        assert(forall|i: int|
            slab::occupied(old(self)@.net.ifaces, i) ==> (#[trigger] timed.net.ifaces[i])->0.rx
                == old(self)@.net.ifaces[i]->0.rx);
        assert(timed.net.has_iface(iface));
        let ghost frames = timed.net.iface(iface).rx;
        let mut rx = self.net.take_rx(iface);
        let ghost all = rx@;
        let ghost first = *self;
        assert(drained_at(timed.net, first@.net, iface));
        let ghost mut done: int = 0;
        proof {
            assert(all.skip(0) =~= all);
            network::lemma_net_kept_refl(self@.net);
        }
        while rx.len() > 0
            invariant
                0 <= done <= all.len(),
                rx@ == all.skip(done),
                iface_state::packets_ok(all),
                iface_state::packet_views(all) == frames,
                first@.net.has_iface(iface),
                forall|i: int|
                    0 <= i < all.len() ==> iface_state::rx_ok(
                        first@.net.iface(iface).caps.medium,
                        (#[trigger] all[i])@,
                    ),
                state::goes_on(first, *self),
                self@ == frames_processed(first@, iface, frames, done),
            decreases rx@.len(),
        {
            let buf = rx.remove(0);
            let ghost before = *self;
            proof {
                assert(buf == all[done]);
                assert(frames[done] == buf@);
                assert(all.skip(done).remove(0) =~= all.skip(done + 1));
                assert(before@.net.has_iface(iface));
                assert(before@.net.iface(iface).caps == first@.net.iface(iface).caps);
            }
            self.process(iface, buf);
            proof {
                network::lemma_net_kept_trans(first@.net, before@.net, self@.net);
                done = done + 1;
            }
        }
        assert(drained_at(old(self)@.net, self@.net, iface)) by {
            assert forall|i: int| slab::occupied(old(self)@.net.ifaces, i) implies (
            #[trigger] self@.net.ifaces[i])->0.rx == if i == iface.0 {
                Seq::<PacketView>::empty()
            } else {
                old(self)@.net.ifaces[i]->0.rx
            } by {
                assert(slab::occupied(timed.net.ifaces, i));
                assert(slab::occupied(first@.net.ifaces, i));
                assert(network::iface_kept(first@.net.ifaces[i]->0, self@.net.ifaces[i]->0));
                assert(timed.net.ifaces[i]->0.rx == old(self)@.net.ifaces[i]->0.rx);
            }
        }
    }

    /// Process all pending ingress packets on all ifaces and advance the stack's
    /// internal timers.
    ///
    /// `timestamp` is the current time.
    ///
    /// Returns a "poll deadline" instant. It is the earliest expiring timer. You should call `poll` at that instant to let it advance timers. Special cases:
    /// - If it's in the past, `poll` should be called again immediately.
    /// - If no timer is pending, [`Instant::max`] is returned. No need to call `poll` on a timer, only after
    ///   a packet is received or an operation is done on the Stack, a socket or an interface.
    pub fn poll(&mut self, timestamp: Instant) -> (r: Instant)
        requires
            old(self).ready(),
            neighbor::time_ok(timestamp),
        ensures
            final(self).ready(),
            final(self)@ == polled(old(self)@, timestamp),
            same_ifaces(advanced(old(self)@, timestamp).net, final(self)@.net),
            final(self)@.net.inner.now == timestamp,
            forall|i: int|
                slab::occupied(final(self)@.net.ifaces, i) ==> (#[trigger] final(self)@.net.ifaces[i])->0.rx
                    == Seq::<PacketView>::empty(),
            r == (match next_timer(final(self)@.net) {
                Some(t) => t,
                None => Instant { micros: i64::MAX },
            }),
    {
        self.net.inner.now = timestamp;
        // Drop queued packets whose neighbor resolution timed out.
        self.net.inner.pending.purge_expired(timestamp);
        proof {
            link::lemma_pending_filter(old(self)@.net.inner.pending, pending::still_waits(timestamp));
            assert(self@ =~= advanced(old(self)@, timestamp));
            assert(self@.net.ifaces == old(self)@.net.ifaces);
        }
        let ghost first = self@;
        assert(self.ready());
        let mut index: usize = 0;
        while index < self.net.ifaces.slot_count()
            invariant
                self.ready(),
                index <= self@.net.ifaces.len(),
                same_ifaces(first.net, self@.net),
                first.net.inner.now == timestamp,
                drained(self@.net, index as int),
                self@ == ifaces_polled(first, index as int),
            decreases self@.net.ifaces.len() - index,
        {
            proof {
                slab::lemma_views_room(self.net.ifaces@, 0);
            }
            if self.net.ifaces.is_occupied(index) {
                assert(slab::occupied(self@.net.ifaces, index as int));
                assert(slab::occupied(first.net.ifaces, index as int));
                let ghost before = self@.net;
                self.poll_iface(IfaceHandle(index));
                proof {
                    assert forall|i: int| 0 <= i < index + 1 && slab::occupied(self@.net.ifaces, i) implies (
                    #[trigger] self@.net.ifaces[i])->0.rx == Seq::<PacketView>::empty() by {
                        assert(slab::occupied(before.ifaces, i));
                        if i < index {
                            assert(before.ifaces[i]->0.rx == Seq::<PacketView>::empty());
                        }
                    }
                }
            } else {
                assert(!slab::occupied(self@.net.ifaces, index as int));
                assert(!slab::occupied(first.net.ifaces, index as int));
            }
            index += 1;
        }
        let retrans = self.net.inner.neighbor_cache.poll_at();
        let expiry = self.net.inner.pending.poll_at();
        match earlier(retrans, expiry) {
            Some(deadline) => deadline,
            None => Instant::max(),
        }
    }
}

} // verus!
