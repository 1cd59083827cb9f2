//! Packets that cannot be delivered on the link.

use vstd::prelude::*;

use crate::buf::PacketView;
use crate::icmp_error::IcmpError;
use crate::iface::IfaceHandle;
use crate::laws;
use crate::laws::address;
use crate::laws::control;
use crate::laws::discovery;
use crate::laws::ingress;
use crate::laws::link as frames;
use crate::neighbor::ProbeEvent;
use crate::pending;
use crate::pending::PendingView;
use crate::stack::icmp_ingress;
use crate::stack::iface_state;
use crate::stack::source;
use crate::stack::state::StackModel;
use crate::stack::timers;
use crate::wire::arp;
use crate::wire::ethernet::EthernetAddress;
use crate::wire::ip::{IpAddress, Ipv4Address, Ipv6Address};

verus! {

/// Whether an IPv4 packet holds an error message: of kind 3, 5, 11 or 12.
pub open spec fn is_error_v4(d: Seq<u8>) -> bool {
    let at = d[0] % 16 * 4;
    &&& d[9] == 1
    &&& at < d.len()
    &&& d[at] == 3 || d[at] == 5 || d[at] == 11 || d[at] == 12
}

/// Whether an IPv6 packet holds an error message: of a kind below 128.
pub open spec fn is_error_v6(d: Seq<u8>) -> bool {
    &&& d[6] == 58
    &&& d.len() > 40
    &&& d[40] < 128
}

/// A packet of the stack's own that waited in vain for its next hop is reported to the socket
/// that sent it, as to an unreachable host.
pub proof fn law_lost_packet_is_reported_v4(
    stack: StackModel,
    iface: IfaceHandle,
    d: Seq<u8>,
    src: Ipv4Address,
    by: Ipv4Address,
)
    requires
        d[0] / 16 == 4,
        d.subrange(12, 16) == src.0@,
        !is_error_v4(d),
        control::lone(stack.net.iface(iface).ip_addrs, src),
        ingress::own(stack.net.iface(iface).ip_addrs, src.0@),
        iface_state::source_ipv4(stack.net.iface(iface).ip_addrs, src) == Some(by),
        control::lone(stack.net.iface(iface).ip_addrs, by),
    ensures
        ({
            let after = timers::failure_reported(stack, iface, d);
            after == (StackModel {
                raw: after.raw,
                ..icmp_ingress::error_delivered(stack, IcmpError::HostUnreachable, d)
            })
        }),
{
    let addrs = stack.net.iface(iface).ip_addrs;
    let a = Ipv4Address::of(d.subrange(12, 16));
    assert(a.0 =~= src.0);
    control::lemma_lone(addrs, src);
    control::lemma_lone(addrs, by);
    ingress::lemma_own(addrs, IpAddress::Ipv4(src));
    timers::law_failure_reaches_sender_v4(stack, iface, d, by);
}

/// The same of IPv6.
pub proof fn law_lost_packet_is_reported_v6(stack: StackModel, iface: IfaceHandle, d: Seq<u8>, src: Ipv6Address)
    requires
        d[0] / 16 == 6,
        d.subrange(8, 24) == src.0@,
        !is_error_v6(d),
        address::single_host(IpAddress::Ipv6(src)),
        ingress::own(stack.net.iface(iface).ip_addrs, src.0@),
    ensures
        ({
            let after = timers::failure_reported(stack, iface, d);
            after == (StackModel {
                raw: after.raw,
                ..icmp_ingress::error_delivered(stack, IcmpError::HostUnreachable, d)
            })
        }),
{
    let addrs = stack.net.iface(iface).ip_addrs;
    let a = Ipv6Address::of(d.subrange(8, 24));
    assert(a.0 =~= src.0);
    address::lemma_single_host(IpAddress::Ipv6(src));
    ingress::lemma_own(addrs, IpAddress::Ipv6(src));
    timers::law_failure_reaches_sender_v6(stack, iface, d);
}

/// Nothing is reported of packets that hold error messages, or that come from anything but a
/// single host.
pub proof fn law_lost_errors_are_not_reported(stack: StackModel, iface: IfaceHandle, d: Seq<u8>)
    requires
        ({
            let addrs = stack.net.iface(iface).ip_addrs;
            ||| d[0] / 16 == 4 && (is_error_v4(d) || !control::lone(addrs, Ipv4Address::of(d.subrange(12, 16))))
            ||| d[0] / 16 == 6 && (is_error_v6(d) || !address::single_host(
                IpAddress::Ipv6(Ipv6Address::of(d.subrange(8, 24))),
            ))
            ||| d[0] / 16 != 4 && d[0] / 16 != 6
        }),
    ensures
        timers::failure_reported(stack, iface, d) == stack,
{
    let addrs = stack.net.iface(iface).ip_addrs;
    control::lemma_lone(addrs, Ipv4Address::of(d.subrange(12, 16)));
    address::lemma_single_host(IpAddress::Ipv6(Ipv6Address::of(d.subrange(8, 24))));
}

/// A neighbor that has not answered in time is asked for again, like the first time.
pub proof fn law_question_is_repeated_v4(
    stack: StackModel,
    iface: IfaceHandle,
    target: Ipv4Address,
    by: Ipv4Address,
)
    requires
        stack.net.has_iface(iface),
        source::source_addr(stack.net.iface(iface).ip_addrs, IpAddress::Ipv4(target)) == Some(IpAddress::Ipv4(by)),
    ensures
        ({
            let before = stack.net.iface(iface);
            let after = timers::event_handled(stack, iface, ProbeEvent::Retransmit(IpAddress::Ipv4(target)));
            let frame = after.net.iface(iface).tx.last();
            &&& after.net.iface(iface).tx == before.tx.push(frame)
            &&& after.net.inner == stack.net.inner
            &&& after.udp == stack.udp
            &&& after.tcp == stack.tcp
            &&& frames::arp_says(
                frame,
                frame.data.subrange(0, 6),
                before.ethernet_addr().0@,
                1,
                by.0@,
                frame.data.subrange(32, 38),
                target.0@,
            )
            &&& laws::number(frame.data.subrange(0, 6)) == 0xffff_ffff_ffff
        }),
{
    let before = stack.net.iface(iface);
    let all = EthernetAddress::broadcast_octets();
    laws::lemma_number_six(all);
    let request = PacketView::fresh(
        14,
        arp::packet_octets(1, before.ethernet_addr().0@, by.0@, all, target.0@),
    );
    frames::lemma_arp_says(before.ethernet_addr(), all, 1, by.0@, all, target.0@, request);
}

/// The same of IPv6.
pub proof fn law_question_is_repeated_v6(stack: StackModel, iface: IfaceHandle, target: Ipv6Address)
    requires
        stack.net.has_iface(iface),
    ensures
        ({
            let before = stack.net.iface(iface);
            let after = timers::event_handled(stack, iface, ProbeEvent::Retransmit(IpAddress::Ipv6(target)));
            &&& after.net.iface(iface).tx == before.tx.push(after.net.iface(iface).tx.last())
            &&& after.net.inner == stack.net.inner
            &&& discovery::asks_for(
                after.net.iface(iface).tx.last(),
                before,
                source::source_ipv6(before.ip_addrs, target).0@,
                target.0@,
            )
        }),
{
    discovery::law_neighbor_is_asked_for_v6(stack.net.iface(iface), target);
}

/// When a neighbor is given up, the packets that waited for it, and no others, stop waiting
/// and are reported one after the other.
pub proof fn law_given_up_packets_are_reported(stack: StackModel, iface: IfaceHandle, addr: IpAddress, n: int)
    ensures
        ({
            let key = (iface, addr);
            let after = timers::unparked(stack, key);
            let waiting = stack.net.inner.pending.filter(|p: PendingView| p.key == key);
            &&& after.net.inner.pending == stack.net.inner.pending.filter(|p: PendingView| p.key != key)
            &&& after.net.inner.cache == stack.net.inner.cache
            &&& after.net.ifaces == stack.net.ifaces
            &&& after.udp == stack.udp
            &&& after.tcp == stack.tcp
            &&& waiting.len() == n ==> timers::event_handled(stack, iface, ProbeEvent::Failed(addr))
                == timers::failures_reported(after, iface, waiting, n)
            &&& timers::failures_reported(after, iface, waiting, 0) == after
            &&& 0 <= n < waiting.len() ==> timers::failures_reported(after, iface, waiting, n + 1)
                == timers::failure_reported(
                timers::failures_reported(after, iface, waiting, n),
                iface,
                waiting[n].buf.data,
            )
        }),
{
    let key = (iface, addr);
    assert((|p: PendingView| p.key == key) =~= pending::waits_for(key));
    assert((|p: PendingView| p.key != key) =~= pending::waits_elsewhere(key));
}

} // verus!
