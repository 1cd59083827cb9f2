//! Neighbor discovery on the interfaces of the stack.

use vstd::prelude::*;

use crate::buf::PacketBuf;
use crate::iface::{IfaceHandle, Medium};
use crate::neighbor;
use crate::neighbor::ProbeEvent;
use crate::stack::iface_state::IfaceState;
use crate::stack::link;
use crate::stack::link::{InnerModel, LinkModel};
use crate::stack::network;
use crate::stack::network::{NetModel, Network};
use crate::storage::slab;
use crate::wire::ethernet::EthernetAddress;
use crate::wire::icmpv6;
use crate::wire::ip::{IpAddress, Ipv6Address};

verus! {

/// The state after hearing from a host on an interface: if its hardware address is
/// known and is still the same, the neighbor gets a new lease.
pub open spec fn heard(net: NetModel, iface: IfaceHandle, src: IpAddress, hardware_addr: EthernetAddress) -> NetModel {
    NetModel {
        inner: InnerModel {
            cache: neighbor::refreshed(net.inner.cache, (iface, src), hardware_addr, net.inner.now),
            ..net.inner
        },
        ..net
    }
}

/// The state after one whole scan of the timers of the neighbors being resolved on an
/// interface.
pub open spec fn timers_scanned(net: NetModel, iface: IfaceHandle) -> NetModel {
    NetModel {
        inner: InnerModel {
            cache: neighbor::scanned(net.inner.cache, iface, net.inner.now, 0),
            ..net.inner
        },
        ..net
    }
}

/// The address an event is about.
pub open spec fn event_addr(event: ProbeEvent) -> IpAddress {
    match event {
        ProbeEvent::Retransmit(addr) => addr,
        ProbeEvent::Failed(addr) => addr,
    }
}

/// Whether every event is about a single host.
pub open spec fn events_ok(events: Seq<ProbeEvent>) -> bool {
    forall|i: int| 0 <= i < events.len() ==> event_addr(#[trigger] events[i]).unicast_view()
}

/// A refreshed neighbor was there before.
proof fn lemma_heard(net: NetModel, iface: IfaceHandle, src: IpAddress, hardware_addr: EthernetAddress)
    requires
        net.wf(),
    ensures
        ({
            let after = heard(net, iface, src, hardware_addr);
            &&& link::neighbors_ok(after.inner.cache)
            &&& forall|i: int|
                0 <= i < after.inner.cache.len() ==> network::ethernet_at(
                    after.ifaces,
                    (#[trigger] after.inner.cache[i]).0.0,
                )
        }),
{
    let after = heard(net, iface, src, hardware_addr);
    neighbor::lemma_entry_of(net.inner.cache, (iface, src));
    assert forall|i: int| 0 <= i < after.inner.cache.len() implies network::ethernet_at(
        after.ifaces,
        (#[trigger] after.inner.cache[i]).0.0,
    ) && after.inner.cache[i].0.1.unicast_view() by {
        assert(after.inner.cache[i].0 == net.inner.cache[i].0);
    }
}

impl Network {
    /// Note that a host on an interface was heard from.
    pub fn hear_from(&mut self, iface: IfaceHandle, src_addr: IpAddress, hardware_addr: EthernetAddress)
        requires
            old(self).wf(),
            old(self)@.routes_attached(),
        ensures
            final(self).wf(),
            network::net_kept(old(self)@, final(self)@),
            final(self)@.routes_attached(),
            final(self)@ == heard(old(self)@, iface, src_addr, hardware_addr),
    {
        let now = self.inner.now;
        self.inner.neighbor_cache.reset_expiry_if_existing((iface, src_addr), hardware_addr, now);
        proof {
            lemma_heard(old(self)@, iface, src_addr, hardware_addr);
            network::lemma_net_kept_refl(old(self)@);
        }
    }

    /// Process an ARP packet that arrived on an interface.
    pub fn process_arp(&mut self, iface: IfaceHandle, buf: &PacketBuf)
        requires
            old(self).wf(),
            old(self)@.routes_attached(),
            old(self)@.has_iface(iface),
            old(self)@.iface(iface).caps.medium == Medium::Ethernet,
            buf.wf(),
        ensures
            final(self).wf(),
            network::net_kept(old(self)@, final(self)@),
            final(self)@.routes_attached(),
            final(self)@ == old(self)@.with_link_at(
                iface,
                link::arp_processed(old(self)@.link_at(iface), buf@.data),
            ),
    {
        let i: usize = iface.0;
        let ghost slots = self.ifaces@;
        let ghost net = self@;
        proof {
            assert(net.ifaces[i as int] == Some(slots[i as int]->0@));
            assert(slots[i as int]->0.wf());
        }
        let state = self.ifaces.get_mut(i);
        self.inner.process_arp(state, buf);
        proof {
            link::lemma_arp_processed_kept(net.link(i as int), buf@.data);
            lemma_changed(net, slots, *self, i);
        }
    }

    /// Process a neighbor solicitation that arrived on an interface.
    pub fn process_ndisc_solicit(
        &mut self,
        iface: IfaceHandle,
        src_addr: Ipv6Address,
        dst_addr: Ipv6Address,
        message: &[u8],
    )
        requires
            old(self).wf(),
            old(self)@.routes_attached(),
            old(self)@.has_iface(iface),
            old(self)@.iface(iface).caps.medium == Medium::Ethernet,
            src_addr.unicast_view(),
            message@.len() >= icmpv6::NEIGHBOR_HEADER_LEN,
        ensures
            final(self).wf(),
            network::net_kept(old(self)@, final(self)@),
            final(self)@.routes_attached(),
            final(self)@ == old(self)@.with_link_at(
                iface,
                link::solicit_processed(old(self)@.link_at(iface), src_addr, dst_addr, message@),
            ),
    {
        let i: usize = iface.0;
        let ghost slots = self.ifaces@;
        let ghost net = self@;
        proof {
            lemma_slot(*self, iface);
        }
        let state = self.ifaces.get_mut(i);
        self.inner.process_ndisc_solicit(state, src_addr, dst_addr, message);
        proof {
            link::lemma_solicit_processed_kept(net.link_at(iface), src_addr, dst_addr, message@);
            lemma_changed(net, slots, *self, i);
        }
    }

    /// Process a neighbor advertisement that arrived on an interface.
    pub fn process_ndisc_advert(&mut self, iface: IfaceHandle, src_addr: Ipv6Address, message: &[u8])
        requires
            old(self).wf(),
            old(self)@.routes_attached(),
            old(self)@.has_iface(iface),
            old(self)@.iface(iface).caps.medium == Medium::Ethernet,
            src_addr.unicast_view(),
            message@.len() >= icmpv6::NEIGHBOR_HEADER_LEN,
        ensures
            final(self).wf(),
            network::net_kept(old(self)@, final(self)@),
            final(self)@.routes_attached(),
            final(self)@ == old(self)@.with_link_at(
                iface,
                link::advert_processed(old(self)@.link_at(iface), src_addr, message@),
            ),
    {
        let i: usize = iface.0;
        let ghost slots = self.ifaces@;
        let ghost net = self@;
        proof {
            lemma_slot(*self, iface);
        }
        let state = self.ifaces.get_mut(i);
        self.inner.process_ndisc_advert(state, src_addr, message);
        proof {
            link::lemma_advert_processed_kept(net.link_at(iface), src_addr, message@);
            lemma_changed(net, slots, *self, i);
        }
    }

    /// Ask for a neighbor again.
    pub fn solicit(&mut self, iface: IfaceHandle, addr: IpAddress)
        requires
            old(self).wf(),
            old(self)@.routes_attached(),
            old(self)@.has_iface(iface),
            old(self)@.iface(iface).caps.medium == Medium::Ethernet,
            addr.unicast_view(),
        ensures
            final(self).wf(),
            network::net_kept(old(self)@, final(self)@),
            final(self)@.routes_attached(),
            final(self)@ == old(self)@.with_link_at(
                iface,
                (LinkModel {
                    iface: link::solicited(old(self)@.iface(iface), addr),
                    ..old(self)@.link_at(iface)
                }),
            ),
    {
        let i: usize = iface.0;
        let ghost slots = self.ifaces@;
        let ghost net = self@;
        proof {
            lemma_slot(*self, iface);
        }
        let state = self.ifaces.get_mut(i);
        self.inner.solicit_neighbor(state, addr);
        proof {
            link::lemma_link_kept_refl(net.link_at(iface));
            let after = link::solicited(net.iface(iface), addr);
            if after != net.iface(iface) {
                link::lemma_sent_kept(net.link_at(iface), after.tx.last());
            }
            lemma_changed(net, slots, *self, i);
        }
    }

    /// Scan the timers of the neighbors being resolved on an interface once, returning
    /// what to do about those that are due.
    pub fn scan_timers(&mut self, iface: IfaceHandle) -> (r: Vec<ProbeEvent>)
        requires
            old(self).wf(),
            old(self)@.routes_attached(),
        ensures
            final(self).wf(),
            network::net_kept(old(self)@, final(self)@),
            final(self)@.routes_attached(),
            final(self)@ == timers_scanned(old(self)@, iface),
            r@ == neighbor::scan_events(old(self)@.inner.cache, iface, old(self)@.inner.now, 0),
            events_ok(r@),
            r@.len() > 0 ==> network::ethernet_at(old(self)@.ifaces, iface),
    {
        let now = self.inner.now;
        let mut events: Vec<ProbeEvent> = Vec::new();
        let mut cursor: usize = 0;
        let ghost first = self@;
        let ghost all = neighbor::scan_events(first.inner.cache, iface, now, 0);
        let ghost end = neighbor::scanned(first.inner.cache, iface, now, 0);
        proof {
            network::lemma_net_kept_refl(first);
            assert(events@ + neighbor::scan_events(self@.inner.cache, iface, now, 0) =~= all);
        }
        loop
            invariant_except_break
                events@ + neighbor::scan_events(self@.inner.cache, iface, now, cursor as int) == all,
                neighbor::scanned(self@.inner.cache, iface, now, cursor as int) == end,
            invariant
                first.wf(),
                now == first.inner.now,
                self.inner.wf(),
                self.ifaces == old(self).ifaces,
                first == old(self)@,
                self@ == (NetModel {
                    inner: InnerModel { cache: self@.inner.cache, ..first.inner },
                    ..first
                }),
                forall|k: int|
                    0 <= k < self@.inner.cache.len() ==> network::ethernet_at(
                        first.ifaces,
                        (#[trigger] self@.inner.cache[k]).0.0,
                    ),
                events_ok(events@),
                events@.len() > 0 ==> network::ethernet_at(first.ifaces, iface),
            ensures
                events@ == all,
                self@.inner.cache == end,
            decreases self@.inner.cache.len() - cursor,
        {
            let ghost cache = self@.inner.cache;
            let ghost at = cursor as int;
            proof {
                let pred = network_key(first);
                assert forall|k: int| 0 <= k < cache.len() implies pred((#[trigger] cache[k]).0) by {
                    assert(network::ethernet_at(first.ifaces, cache[k].0.0));
                }
                neighbor::lemma_timer_step_all(cache, iface, now, at, pred);
                neighbor::lemma_timer_step_progress(cache, iface, now, at);
                let step = neighbor::timer_step(cache, iface, now, at);
                assert forall|k: int| 0 <= k < step.entries.len() implies network::ethernet_at(
                    first.ifaces,
                    (#[trigger] step.entries[k]).0.0,
                ) && step.entries[k].0.1.unicast_view() by {
                    assert(pred(step.entries[k].0));
                }
            }
            match self.inner.neighbor_cache.poll_retransmit(iface, now, &mut cursor) {
                Some(event) => {
                    let ghost before = events@;
                    events.push(event);
                    proof {
                        let rest = neighbor::scan_events(self@.inner.cache, iface, now, cursor as int);
                        assert(neighbor::scan_events(cache, iface, now, at) == seq![event] + rest);
                        assert(before + (seq![event] + rest) =~= events@ + rest);
                    }
                },
                None => {
                    proof {
                        assert(neighbor::scan_events(cache, iface, now, at) =~= Seq::<ProbeEvent>::empty());
                        assert(events@ + Seq::<ProbeEvent>::empty() =~= events@);
                    }
                    break;
                },
            }
        }
        proof {
            assert(self@ =~= timers_scanned(first, iface));
        }
        events
    }
}

/// Whether a neighbor is a single host on an Ethernet interface.
spec fn network_key(net: NetModel) -> spec_fn(neighbor::Key) -> bool {
    |key: neighbor::Key| network::ethernet_at(net.ifaces, key.0) && key.1.unicast_view()
}

/// An interface's slot holds it, well-formed.
proof fn lemma_slot(net: Network, iface: IfaceHandle)
    requires
        net.wf(),
        net@.has_iface(iface),
    ensures
        slab::occupied(net.ifaces@, iface.0 as int),
        net.ifaces@[iface.0 as int]->0@ == net@.iface(iface),
        net.ifaces@[iface.0 as int]->0.wf(),
{
    assert(net@.ifaces[iface.0 as int] == Some(net.ifaces@[iface.0 as int]->0@));
}

/// A link-layer change on one interface keeps the stack well-formed.
proof fn lemma_changed(net: NetModel, slots: Seq<Option<IfaceState>>, after: Network, i: usize)
    requires
        net.wf(),
        net.routes_attached(),
        net.ifaces == slab::views(slots),
        network::slots_ok(slots),
        slab::occupied(slots, i as int),
        after.ifaces@ == slots.update(i as int, after.ifaces@[i as int]),
        after.ifaces@[i as int] is Some,
        after.ifaces@[i as int]->0.wf(),
        after.ifaces.wf(),
        after.inner.wf(),
        link::link_kept(
            net.link(i as int),
            LinkModel { inner: after.inner@, iface: after.ifaces@[i as int]->0@ },
        ),
    ensures
        after.wf(),
        after@.routes_attached(),
        network::net_kept(net, after@),
        after@ == net.with_link(
            i as int,
            LinkModel { inner: after.inner@, iface: after.ifaces@[i as int]->0@ },
        ),
{
    let state = after.ifaces@[i as int]->0;
    let now = LinkModel { inner: after.inner@, iface: state@ };
    slab::lemma_views_update(slots, i as int, state);
    network::lemma_with_link(net, i as int, now);
    assert(after@ == net.with_link(i as int, now));
    assert forall|k: int| slab::occupied(after.ifaces@, k) implies (#[trigger] after.ifaces@[k])->0.wf() by {
        if k != i {
            assert(slots[k]->0.wf());
        }
    }
}

} // verus!
