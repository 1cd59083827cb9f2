//! Neighbors: how they are learned, kept, asked for and forgotten.

use vstd::prelude::*;

use crate::buf::PacketView;
use crate::iface::IfaceHandle;
use crate::laws::address;
use crate::laws::link as frames;
use crate::laws::packet;
use crate::neighbor;
use crate::neighbor::{Answer, Entries, Key, ProbeEvent, State};
use crate::pending;
use crate::pending::PendingView;
use crate::stack::iface_state;
use crate::stack::link;
use crate::stack::link::LinkModel;
use crate::time::Instant;
use crate::wire::arp;
use crate::wire::bytes;
use crate::wire::ethernet::EthernetAddress;
use crate::wire::ip::{IpAddress, Ipv4Address};

verus! {

/// A neighbor that was learned is known for sixty seconds, and not longer.
pub proof fn law_neighbor_is_known_for_a_minute(
    entries: Entries,
    key: Key,
    mac: EthernetAddress,
    now: Instant,
    later: Instant,
)
    requires
        neighbor::entries_ok(entries),
        neighbor::time_ok(now),
    ensures
        neighbor::answer_of(neighbor::filled(entries, key, mac, now), key, later) == if later.micros < now.micros
            + 60_000_000 {
            Answer::Found(mac)
        } else {
            Answer::NotFound
        },
{
    if later.micros < now.micros + 60_000_000 {
        neighbor::law_filled_neighbor_is_found(entries, key, mac, now, later);
    } else {
        neighbor::law_expired_neighbor_is_not_found(entries, key, mac, now, later);
    }
}

/// A packet from a known neighbor with its known hardware address keeps it known for another
/// minute; one with another hardware address changes nothing.
pub proof fn law_traffic_keeps_neighbor_known(
    entries: Entries,
    key: Key,
    known: EthernetAddress,
    mac: EthernetAddress,
    now: Instant,
    later: Instant,
)
    requires
        neighbor::entries_ok(entries),
        neighbor::time_ok(now),
        neighbor::answer_of(entries, key, now) == Answer::Found(known),
    ensures
        mac != known ==> neighbor::refreshed(entries, key, mac, now) == entries,
        neighbor::answer_of(neighbor::refreshed(entries, key, known, now), key, later) == if later.micros < now.micros
            + 60_000_000 {
            Answer::Found(known)
        } else {
            Answer::NotFound
        },
{
    neighbor::lemma_entry_of(entries, key);
    let after = neighbor::refreshed(entries, key, known, now);
    neighbor::lemma_entry_of(after, key);
    assert(after[neighbor::entry_of(entries, key)->0].0 == key);
}

/// Traffic from a neighbor that is not known makes nothing known.
pub proof fn law_traffic_teaches_nothing(entries: Entries, key: Key, mac: EthernetAddress, now: Instant)
    requires
        neighbor::entries_ok(entries),
        forall|i: int| 0 <= i < entries.len() && (#[trigger] entries[i]).0 == key ==> entries[i].1 is Incomplete,
    ensures
        neighbor::refreshed(entries, key, mac, now) == entries,
{
    neighbor::lemma_entry_of(entries, key);
}

/// With eight neighbors kept, one more takes the place of a known one if there is any, and of
/// none that is known for longer than another, nor than an earlier one for as long.
pub proof fn law_earliest_to_expire_makes_room(entries: Entries, key: Key, state: State, v: int)
    requires
        neighbor::entries_ok(entries),
        entries.len() == 8,
        forall|i: int| 0 <= i < entries.len() ==> (#[trigger] entries[i]).0 != key,
        0 <= v < 8,
        neighbor::inserted(entries, key, state)[v].0 == key,
    ensures
        neighbor::inserted(entries, key, state) == entries.update(v, (key, state)),
        forall|i: int|
            0 <= i < 8 && (#[trigger] entries[i]).1 is Reachable ==> entries[v].1 is Reachable
                && entries[v].1->expires_at.micros <= entries[i].1->expires_at.micros,
        entries[v].1 is Incomplete ==> forall|i: int|
            0 <= i < 8 ==> (#[trigger] entries[i]).1 is Incomplete && entries[v].1->retrans_at.micros
                <= entries[i].1->retrans_at.micros,
        forall|i: int|
            0 <= i < v && (#[trigger] entries[i]).1 is Reachable && entries[v].1 is Reachable
                ==> entries[v].1->expires_at.micros < entries[i].1->expires_at.micros,
{
    neighbor::lemma_entry_of(entries, key);
    let w = neighbor::lemma_victim(entries);
    assert(v == w);
    assert forall|i: int| 0 <= i < 8 implies !neighbor::evict_before((#[trigger] entries[i]).1, entries[v].1) by {}
}

/// While there are fewer than eight, one more takes the place of none.
pub proof fn law_eight_neighbors_are_kept(entries: Entries, key: Key, state: State)
    requires
        entries.len() < 8,
        forall|i: int| 0 <= i < entries.len() ==> (#[trigger] entries[i]).0 != key,
    ensures
        neighbor::inserted(entries, key, state) == entries.push((key, state)),
{
    neighbor::lemma_entry_of(entries, key);
}

/// A neighbor that nobody answers for is asked for three times, a second apart, and is then
/// given up.
pub proof fn law_three_questions(key: Key, start: Instant, first: Instant, second: Instant, third: Instant)
    requires
        start.micros + 60_000_000 <= i64::MAX,
        first.micros + 60_000_000 <= i64::MAX,
        second.micros + 60_000_000 <= i64::MAX,
        first.micros >= start.micros + 1_000_000,
        second.micros >= first.micros + 1_000_000,
        third.micros >= second.micros + 1_000_000,
    ensures
        ({
            let a = neighbor::resolution_started(Seq::empty(), key, start);
            let b = neighbor::timer_step(a, key.0, first, 0);
            let c = neighbor::timer_step(b.entries, key.0, second, 0);
            let d = neighbor::timer_step(c.entries, key.0, third, 0);
            &&& b.event == Some(ProbeEvent::Retransmit(key.1))
            &&& c.event == Some(ProbeEvent::Retransmit(key.1))
            &&& d.event == Some(ProbeEvent::Failed(key.1))
            &&& d.entries.len() == 0
        }),
{
    let a = neighbor::resolution_started(Seq::empty(), key, start);
    assert(neighbor::entry_of(Seq::empty(), key) is None);
    assert(a.len() == 1);
    assert(neighbor::first_due(a, key.0, first, 0) == 0);
    let b = neighbor::timer_step(a, key.0, first, 0);
    assert(neighbor::first_due(b.entries, key.0, second, 0) == 0);
    let c = neighbor::timer_step(b.entries, key.0, second, 0);
    assert(neighbor::first_due(c.entries, key.0, third, 0) == 0);
}

/// A neighbor is not asked for again within the second, nor by another interface.
pub proof fn law_no_early_question(key: Key, start: Instant, later: Instant, iface: IfaceHandle)
    requires
        start.micros + 60_000_000 <= i64::MAX,
        later.micros < start.micros + 1_000_000 || iface != key.0,
    ensures
        neighbor::timer_step(neighbor::resolution_started(Seq::empty(), key, start), iface, later, 0).event is None,
{
    let a = neighbor::resolution_started(Seq::empty(), key, start);
    assert(neighbor::entry_of(Seq::empty(), key) is None);
    assert(a.len() == 1);
    assert(neighbor::first_due(a, iface, later, 1) == 1);
}

/// A packet waits for its next hop for five seconds, behind those that wait already. Of those
/// that wait on its interface the oldest gives way if there are sixteen.
pub proof fn law_packet_waits(queue: Seq<PendingView>, key: Key, buf: PacketView, now: Instant)
    requires
        pending::bounded(queue),
        now.micros + 60_000_000 <= i64::MAX,
    ensures
        ({
            let after = pending::queued(queue, key, buf, now);
            let own = |p: PendingView| p.key.0 == key.0;
            let before = queue.filter(own);
            &&& after.last().key == key
            &&& after.last().buf == buf
            &&& after.last().expires_at.micros == now.micros + 5_000_000
            &&& before.len() <= 16
            &&& after.filter(own).drop_last() == if before.len() == 16 {
                before.drop_first()
            } else {
                before
            }
            &&& after.filter(own).last() == after.last()
        }),
{
    let own = |p: PendingView| p.key.0 == key.0;
    assert(own =~= pending::on_iface(key.0));
    let after = pending::queued(queue, key, buf, now);
    let other = IfaceHandle(if key.0.0 == 0 {
        1
    } else {
        0
    });
    pending::law_queue_is_bounded_fifo(queue, key, buf, now, other);
    let before = pending::waiting_on(queue, key.0);
    assert(before.len() <= 16);
    assert(pending::waiting_on(after, key.0).drop_last() =~= if before.len() == 16 {
        before.drop_first()
    } else {
        before
    });
}

/// When a neighbor becomes known, the packets that wait for it leave, in the order in which
/// they came, each in a frame to the neighbor; all others go on waiting.
pub proof fn law_waiting_packets_leave(link: LinkModel, addr: IpAddress, mac: EthernetAddress)
    requires
        link.inner.wf(),
    ensures
        ({
            let key = (link.iface.handle, addr);
            let after = link::neighbor_filled(link, addr, mac);
            let leaving = link.inner.pending.filter(|p: PendingView| p.key == key);
            let n = link.iface.tx.len() as int;
            &&& after.inner.pending == link.inner.pending.filter(|p: PendingView| p.key != key)
            &&& after.iface.tx.len() == n + leaving.len()
            &&& after.iface.tx.take(n) == link.iface.tx
            &&& forall|k: int|
                0 <= k < leaving.len() ==> frames::carries(
                    #[trigger] after.iface.tx[n + k],
                    mac.0@,
                    link.iface.ethernet_addr().0@,
                    frames::kind_of(leaving[k].key.1),
                    leaving[k].buf.data,
                )
            &&& neighbor::answer_of(after.inner.cache, key, link.inner.now) == Answer::Found(mac)
        }),
{
    let key = (link.iface.handle, addr);
    let after = link::neighbor_filled(link, addr, mac);
    let waits = |p: PendingView| p.key == key;
    let stays = |p: PendingView| p.key != key;
    assert(waits =~= pending::waits_for(key));
    assert(stays =~= pending::waits_elsewhere(key));
    let leaving = link.inner.pending.filter(waits);
    let n = link.iface.tx.len() as int;
    assert(after.iface.tx.take(n) =~= link.iface.tx);
    assert forall|k: int| 0 <= k < leaving.len() implies frames::carries(
        #[trigger] after.iface.tx[n + k],
        mac.0@,
        link.iface.ethernet_addr().0@,
        frames::kind_of(leaving[k].key.1),
        leaving[k].buf.data,
    ) by {
        let p = leaving[k];
        frames::lemma_framed(link.iface.ethernet_addr(), mac.0@, link::ethertype_of(p.key.1), p.buf);
    }
    neighbor::law_filled_neighbor_is_found(link.inner.cache, key, mac, link.inner.now, link.inner.now);
}

/// Whether an ARP packet is one that an interface with these addresses heeds: it is about
/// IPv4 over Ethernet, asks or answers, is for an address of the interface, and comes from a
/// single host of an attached network with a hardware address of its own.
pub open spec fn heeded(addrs: Seq<iface_state::IfaceAddr>, d: Seq<u8>) -> bool {
    let sender = IpAddress::Ipv4(Ipv4Address::of(d.subrange(14, 18)));
    &&& d.len() >= 28
    &&& packet::word(d, 0) == 1
    &&& packet::word(d, 2) == 0x0800
    &&& d[4] == 6
    &&& d[5] == 4
    &&& packet::word(d, 6) == 1 || packet::word(d, 6) == 2
    &&& d[8] % 2 == 0
    &&& address::single_host(sender)
    &&& exists|i: int| 0 <= i < addrs.len() && address::holds((#[trigger] addrs[i]).cidr, sender)
    &&& exists|i: int|
        0 <= i < addrs.len() && (#[trigger] addrs[i]).cidr is Ipv4 && addrs[i].cidr->Ipv4_0.address.0@ == d.subrange(
            24,
            28,
        )
}

proof fn lemma_heeded(addrs: Seq<iface_state::IfaceAddr>, d: Seq<u8>)
    requires
        d.len() >= 28,
    ensures
        heeded(addrs, d) <==> {
            let operation = arp::ArpOperation::of_number(bytes::be16(d, 6));
            let mac = EthernetAddress::of(d.subrange(8, 14));
            let source = Ipv4Address::of(d.subrange(14, 18));
            let target = Ipv4Address::of(d.subrange(24, 28));
            &&& arp::well_formed(d)
            &&& arp::ipv4_over_ethernet(d)
            &&& iface_state::has_addr(addrs, IpAddress::Ipv4(target))
            &&& !(operation is Unknown)
            &&& source.unicast_view()
            &&& mac.unicast_view()
            &&& iface_state::on_link(addrs, IpAddress::Ipv4(source))
        },
{
    let mac = EthernetAddress::of(d.subrange(8, 14));
    let source = Ipv4Address::of(d.subrange(14, 18));
    let target = Ipv4Address::of(d.subrange(24, 28));
    let sender = IpAddress::Ipv4(source);
    address::lemma_single_host(sender);
    assert(target.0@ =~= d.subrange(24, 28));
    assert(mac.0@[0] == d[8]);
    assert(mac.unicast_view() == (d[8] % 2 == 0)) by {
        if mac.broadcast_view() {
            assert(mac.0@[0] == 0xff);
        }
    }
    assert forall|i: int| 0 <= i < addrs.len() implies (#[trigger] addrs[i]).cidr.contains(sender)
        == address::holds(addrs[i].cidr, sender) by {
        address::law_network_holds_what_agrees(addrs[i].cidr, sender);
    }
    assert forall|i: int| 0 <= i < addrs.len() implies ((#[trigger] addrs[i]).cidr.address_view() == IpAddress::Ipv4(
        target,
    )) == (addrs[i].cidr is Ipv4 && addrs[i].cidr->Ipv4_0.address.0@ == d.subrange(24, 28)) by {
        if addrs[i].cidr is Ipv4 {
            let a = addrs[i].cidr->Ipv4_0.address;
            if a.0@ == target.0@ {
                assert(a.0 =~= target.0);
            }
        }
    }
}

/// An ARP packet that is heeded makes its sender known. If it asks, it is answered, to the
/// sender alone: with the interface's own hardware address for the address asked for.
pub proof fn law_arp_question_is_answered(link: LinkModel, d: Seq<u8>)
    requires
        link.inner.wf(),
        heeded(link.iface.ip_addrs, d),
    ensures
        ({
            let sender = IpAddress::Ipv4(Ipv4Address::of(d.subrange(14, 18)));
            let key = (link.iface.handle, sender);
            let after = link::arp_processed(link, d);
            let learned = link::neighbor_filled(link, sender, EthernetAddress::of(d.subrange(8, 14)));
            &&& neighbor::answer_of(after.inner.cache, key, link.inner.now) is Found
            &&& neighbor::answer_of(after.inner.cache, key, link.inner.now)->Found_0.0@ == d.subrange(8, 14)
            &&& packet::word(d, 6) == 2 ==> after == learned
            &&& packet::word(d, 6) == 1 ==> {
                &&& after.inner == learned.inner
                &&& after.iface.tx == learned.iface.tx.push(after.iface.tx.last())
                &&& frames::arp_says(
                    after.iface.tx.last(),
                    d.subrange(8, 14),
                    link.iface.ethernet_addr().0@,
                    2,
                    d.subrange(24, 28),
                    d.subrange(8, 14),
                    d.subrange(14, 18),
                )
            }
        }),
{
    let mac = EthernetAddress::of(d.subrange(8, 14));
    let source = Ipv4Address::of(d.subrange(14, 18));
    let target = Ipv4Address::of(d.subrange(24, 28));
    let key = (link.iface.handle, IpAddress::Ipv4(source));
    lemma_heeded(link.iface.ip_addrs, d);
    assert(mac.0@ =~= d.subrange(8, 14));
    assert(source.0@ =~= d.subrange(14, 18));
    assert(target.0@ =~= d.subrange(24, 28));
    neighbor::law_filled_neighbor_is_found(link.inner.cache, key, mac, link.inner.now, link.inner.now);
    let reply = PacketView::fresh(
        14,
        arp::packet_octets(2, link.iface.ethernet_addr().0@, target.0@, mac.0@, source.0@),
    );
    frames::lemma_arp_says(link.iface.ethernet_addr(), mac.0@, 2, target.0@, mac.0@, source.0@, reply);
}

/// An ARP packet that is not heeded changes nothing.
pub proof fn law_other_arp_is_ignored(link: LinkModel, d: Seq<u8>)
    requires
        !heeded(link.iface.ip_addrs, d),
    ensures
        link::arp_processed(link, d) == link,
{
    if d.len() >= 28 {
        lemma_heeded(link.iface.ip_addrs, d);
    }
}

/// The packet that waits the longest for a next hop is the first of those that wait for it.
pub proof fn law_longest_waiting_is_first(queue: Seq<PendingView>, key: Key, from: int, i: int)
    requires
        0 <= from <= i < queue.len(),
        queue[i].key == key,
        forall|j: int| from <= j < i ==> (#[trigger] queue[j]).key != key,
    ensures
        pending::first_waiting(queue, key, from) == Some(i),
    decreases i - from,
{
    if from < i {
        law_longest_waiting_is_first(queue, key, from + 1, i);
    }
}

/// If none waits for a next hop, none is found.
pub proof fn law_none_waiting(queue: Seq<PendingView>, key: Key, from: int)
    requires
        0 <= from <= queue.len(),
        forall|j: int| from <= j < queue.len() ==> (#[trigger] queue[j]).key != key,
    ensures
        pending::first_waiting(queue, key, from) is None,
    decreases queue.len() - from,
{
    if from < queue.len() {
        law_none_waiting(queue, key, from + 1);
    }
}

} // verus!
