//! Neighbor resolutions that time out: solicitations are sent again, and what waited for
//! a neighbor that never answered is reported to whoever sent it.

use vstd::prelude::*;

use crate::buf::{PacketBuf, PacketView};
use crate::icmp_error::IcmpError;
use crate::iface::IfaceHandle;
use crate::neighbor;
use crate::neighbor::ProbeEvent;
use crate::pending;
use crate::pending::PendingView;
use crate::stack::icmp;
use crate::stack::icmp::{build_icmpv4_error, build_icmpv6_error};
use crate::stack::icmp_ingress;
use crate::stack::iface_state;
use crate::stack::ingress;
use crate::stack::link;
use crate::stack::link::{push_ipv4_header, push_ipv6_header, InnerModel, LinkModel};
use crate::stack::neighbors;
use crate::stack::network;
use crate::stack::network::NetModel;
use crate::stack::source;
use crate::stack::state;
use crate::stack::state::{Stack, StackModel};
use crate::wire::icmpv4;
use crate::wire::icmpv6;
use crate::wire::ip::{IpAddress, IpVersion, Ipv4Address, Ipv6Address};
use crate::wire::ipv4;
use crate::wire::ipv4::{Ipv4Header, IPV4_HEADER_LEN};
use crate::wire::ipv6;
use crate::wire::ipv6::{Ipv6Header, IPV6_HEADER_LEN};
use crate::wire::protocol::IpProtocol;

verus! {

/// Whether an IPv4 packet carries an ICMP error.
pub open spec fn carries_error_v4(data: Seq<u8>) -> bool {
    &&& IpProtocol::of_number(data[9]) == IpProtocol::Icmp
    &&& ipv4::header_len(data) < data.len()
    &&& icmpv4::Message::of_number(data[ipv4::header_len(data)]).error_view()
}

/// Whether an IPv6 packet carries an ICMPv6 error.
pub open spec fn carries_error_v6(data: Seq<u8>) -> bool {
    &&& IpProtocol::of_number(data[6]) == IpProtocol::Icmpv6
    &&& data.len() > IPV6_HEADER_LEN
    &&& icmpv6::Message::of_number(data[40]).error_view()
}

/// The host unreachable error about an IPv4 packet this stack sent, as it would come
/// back from the network. `None` if there is to be none.
pub open spec fn failure_v4(net: NetModel, iface: IfaceHandle, orig: Seq<u8>) -> Option<PacketView> {
    let addrs = net.iface(iface).ip_addrs;
    let src = ingress::src_v4(orig);
    if carries_error_v4(orig) || !iface_state::is_unicast_v4(addrs, src) {
        None
    } else {
        match iface_state::source_ipv4(addrs, src) {
            Some(reply_src) => {
                let message = icmp::icmpv4_error_packet(
                    orig,
                    icmpv4::Message::DstUnreachable,
                    icmpv4::DstUnreachable::HostUnreachable.number(),
                );
                Some(
                    message.prepended(
                        ipv4::header_octets(
                            reply_src.0@,
                            src.0@,
                            IpProtocol::Icmp,
                            64,
                            message.data.len(),
                            true,
                        ),
                    ),
                )
            },
            None => None,
        }
    }
}

/// The address unreachable error about an IPv6 packet this stack sent, as it would come
/// back from the network. `None` if there is to be none.
pub open spec fn failure_v6(net: NetModel, iface: IfaceHandle, orig: Seq<u8>) -> Option<PacketView> {
    let src = ingress::src_v6(orig);
    if carries_error_v6(orig) || !src.unicast_view() {
        None
    } else {
        let reply_src = source::source_ipv6(net.iface(iface).ip_addrs, src);
        let message = icmp::icmpv6_error_packet(
            orig,
            reply_src,
            src,
            icmpv6::Message::DstUnreachable,
            icmpv6::DstUnreachable::AddrUnreachable.number(),
            0,
        );
        Some(
            message.prepended(
                ipv6::header_octets(reply_src.0@, src.0@, IpProtocol::Icmpv6, 64, message.data.len()),
            ),
        )
    }
}

/// The stack after a packet it sent could not be delivered for want of a neighbor.
pub open spec fn failure_reported(stack: StackModel, iface: IfaceHandle, orig: Seq<u8>) -> StackModel {
    match IpVersion::of_packet_view(orig) {
        Some(IpVersion::Ipv4) => match failure_v4(stack.net, iface, orig) {
            Some(error) => ingress::ipv4_processed(stack, iface, None, error),
            None => stack,
        },
        Some(IpVersion::Ipv6) => match failure_v6(stack.net, iface, orig) {
            Some(error) => ingress::ipv6_processed(stack, iface, None, error),
            None => stack,
        },
        None => stack,
    }
}

/// The stack after the first `n` of the packets could not be delivered.
pub open spec fn failures_reported(stack: StackModel, iface: IfaceHandle, packets: Seq<PendingView>, n: int) -> StackModel
    decreases n,
{
    if n <= 0 {
        stack
    } else {
        failure_reported(
            failures_reported(stack, iface, packets, n - 1),
            iface,
            packets[n - 1].buf.data,
        )
    }
}

/// The stack without the packets that wait for a neighbor.
pub open spec fn unparked(stack: StackModel, key: neighbor::Key) -> StackModel {
    stack.with_net(
        NetModel {
            inner: InnerModel {
                pending: stack.net.inner.pending.filter(pending::waits_elsewhere(key)),
                ..stack.net.inner
            },
            ..stack.net
        },
    )
}

/// The stack after acting on a neighbor's timer: a neighbor that may still answer is
/// asked again, and the packets that waited for one that did not are reported.
pub open spec fn event_handled(stack: StackModel, iface: IfaceHandle, event: ProbeEvent) -> StackModel {
    match event {
        ProbeEvent::Retransmit(addr) => stack.with_net(
            stack.net.with_link_at(
                iface,
                LinkModel {
                    iface: link::solicited(stack.net.iface(iface), addr),
                    ..stack.net.link_at(iface)
                },
            ),
        ),
        ProbeEvent::Failed(addr) => {
            let waiting = stack.net.inner.pending.filter(pending::waits_for((iface, addr)));
            failures_reported(unparked(stack, (iface, addr)), iface, waiting, waiting.len() as int)
        },
    }
}

/// The stack after acting on the first `n` events.
pub open spec fn events_handled(stack: StackModel, iface: IfaceHandle, events: Seq<ProbeEvent>, n: int) -> StackModel
    decreases n,
{
    if n <= 0 {
        stack
    } else {
        event_handled(events_handled(stack, iface, events, n - 1), iface, events[n - 1])
    }
}

/// The stack after the timers of the neighbors being resolved on an interface were
/// looked at.
pub open spec fn timers_polled(stack: StackModel, iface: IfaceHandle) -> StackModel {
    let events = neighbor::scan_events(stack.net.inner.cache, iface, stack.net.inner.now, 0);
    events_handled(
        stack.with_net(neighbors::timers_scanned(stack.net, iface)),
        iface,
        events,
        events.len() as int,
    )
}

/// No error is ever made about a packet that carries one.
pub proof fn law_no_failure_report_about_errors(stack: StackModel, iface: IfaceHandle, orig: Seq<u8>)
    requires
        IpVersion::of_packet_view(orig) == Some(IpVersion::Ipv4) ==> carries_error_v4(orig),
        IpVersion::of_packet_view(orig) == Some(IpVersion::Ipv6) ==> carries_error_v6(orig),
    ensures
        failure_reported(stack, iface, orig) == stack,
{
}

/// An IPv4 packet from an address of the interface whose neighbor cannot be resolved is
/// reported as host unreachable to the socket it belongs to. Nothing is sent, and apart
/// from the raw sockets, which see the error too, nothing else changes. The error is
/// taken up only if its own source, an address of the interface, is not the broadcast
/// address of one of the interface's subnets.
pub proof fn law_failure_reaches_sender_v4(stack: StackModel, iface: IfaceHandle, orig: Seq<u8>, reply_src: Ipv4Address)
    requires
        IpVersion::of_packet_view(orig) == Some(IpVersion::Ipv4),
        !carries_error_v4(orig),
        ({
            let addrs = stack.net.iface(iface).ip_addrs;
            let src = ingress::src_v4(orig);
            &&& iface_state::is_unicast_v4(addrs, src)
            &&& iface_state::has_addr(addrs, IpAddress::Ipv4(src))
            &&& iface_state::source_ipv4(addrs, src) == Some(reply_src)
            &&& iface_state::is_unicast_v4(addrs, reply_src)
        }),
    ensures
        ({
            let after = failure_reported(stack, iface, orig);
            let told = icmp_ingress::error_delivered(stack, IcmpError::HostUnreachable, orig);
            after == (StackModel { raw: after.raw, ..told })
        }),
{
    let src = ingress::src_v4(orig);
    let msg_type = icmpv4::Message::DstUnreachable;
    let code = icmpv4::DstUnreachable::HostUnreachable.number();
    let message = icmp::icmpv4_error_message(orig, msg_type, code);
    let packet = failure_v4(stack.net, iface, orig)->0;
    icmp::law_icmpv4_error_fits_minimum_mtu(orig, msg_type, code);
    icmp::law_quote_identifies_flow(orig);
    ipv4::law_ipv4_header_round_trip(reply_src.0@, src.0@, IpProtocol::Icmp, 64, message);
    reply_src.lemma_of();
    src.lemma_of();
    assert(ingress::ipv4_accepted(stack.net, iface, packet.data));
    let whole = packet.truncated(ipv4::total_len(packet.data));
    let header = ipv4::header_octets(reply_src.0@, src.0@, IpProtocol::Icmp, 64, message.len(), true);
    ipv4::lemma_header_shape(reply_src.0@, src.0@, IpProtocol::Icmp, 64, message.len(), true);
    assert(packet.data == header + message);
    assert(whole.data =~= packet.data);
    assert(whole.pulled(20).data =~= message);
}

/// An IPv6 packet from an address of the interface whose neighbor cannot be resolved is
/// reported as host unreachable to the socket it belongs to. Nothing is sent, and apart
/// from the raw sockets, which see the error too, nothing else changes.
pub proof fn law_failure_reaches_sender_v6(stack: StackModel, iface: IfaceHandle, orig: Seq<u8>)
    requires
        IpVersion::of_packet_view(orig) == Some(IpVersion::Ipv6),
        !carries_error_v6(orig),
        ({
            let addrs = stack.net.iface(iface).ip_addrs;
            let src = ingress::src_v6(orig);
            &&& src.unicast_view()
            &&& iface_state::has_addr(addrs, IpAddress::Ipv6(src))
        }),
    ensures
        ({
            let after = failure_reported(stack, iface, orig);
            let told = icmp_ingress::error_delivered(stack, IcmpError::HostUnreachable, orig);
            after == (StackModel { raw: after.raw, ..told })
        }),
{
    let src = ingress::src_v6(orig);
    let reply_src = source::source_ipv6(stack.net.iface(iface).ip_addrs, src);
    if src.loopback_view() {
        src.lemma_of();
    } else {
        source::law_ipv6_source_to_self(stack.net.iface(iface).ip_addrs, src);
    }
    let msg_type = icmpv6::Message::DstUnreachable;
    let code = icmpv6::DstUnreachable::AddrUnreachable.number();
    let message = icmp::icmpv6_error_message(orig, reply_src, src, msg_type, code, 0);
    let packet = failure_v6(stack.net, iface, orig)->0;
    icmp::law_icmpv6_error_fits_minimum_mtu(orig, reply_src, src, msg_type, code, 0);
    icmp::law_quote_identifies_flow(orig);
    lemma_message_processed_v6(stack, iface, reply_src, src, message, packet);
}

/// An ICMPv6 message to an address of the interface is processed as it arrived.
#[verifier::spinoff_prover]
#[verifier::rlimit(60)]
proof fn lemma_message_processed_v6(
    stack: StackModel,
    iface: IfaceHandle,
    src: Ipv6Address,
    dst: Ipv6Address,
    message: Seq<u8>,
    packet: PacketView,
)
    requires
        src.unicast_view(),
        iface_state::has_addr(stack.net.iface(iface).ip_addrs, IpAddress::Ipv6(dst)),
        message.len() <= 0xffff,
        packet.data == ipv6::header_octets(src.0@, dst.0@, IpProtocol::Icmpv6, 64, message.len()) + message,
    ensures
        ({
            let after = ingress::ipv6_processed(stack, iface, None, packet);
            after == icmp_ingress::icmpv6_processed(
                StackModel { raw: after.raw, ..stack },
                iface,
                false,
                src,
                dst,
                64,
                message,
            )
        }),
{
    let whole = packet.truncated(IPV6_HEADER_LEN + ipv6::payload_len(packet.data));
    assert(whole.data == packet.data && whole.pulled(40).data == message && packet.data[6] == 58 && packet.data[7] == 64
        && ingress::src_v6(packet.data) == src && ingress::dst_v6(packet.data) == dst && ingress::ipv6_accepted(
        stack.net,
        iface,
        packet.data,
    )) by {
        ipv6::law_ipv6_header_round_trip(src.0@, dst.0@, IpProtocol::Icmpv6, 64, message);
        ipv6::lemma_header_shape(src.0@, dst.0@, IpProtocol::Icmpv6, 64, message.len());
        src.lemma_of();
        dst.lemma_of();
        assert(whole.data =~= packet.data);
        assert(whole.pulled(40).data =~= message);
    }
    let after = ingress::ipv6_processed(stack, iface, None, packet);
    assert(after == ingress::ipv6_walked(stack, iface, false, whole));
    assert(after == ingress::ipv6_offered(stack, iface, false, whole, IpProtocol::Icmpv6, 40, 6));
}

impl Stack {
    /// Build an ICMP destination unreachable error for a packet whose neighbor
    /// resolution failed, and deliver it back through local ingress processing.
    ///
    /// Queued packets are locally generated (nothing is forwarded), so the sender
    /// the error must reach is a local socket. The error is fed into ingress,
    /// where the erring TCP/UDP socket, or a raw-socket ping application,
    /// receives it, rather than transmitted to the wire. `orig` is the queued
    /// packet, a whole IP frame.
    pub fn deliver_neighbor_failure_error(&mut self, iface: IfaceHandle, orig: &PacketBuf)
        requires
            old(self).ready(),
            old(self)@.net.has_iface(iface),
            orig.wf(),
            link::ip_packet(orig@.data),
        ensures
            state::goes_on(*old(self), *final(self)),
            final(self)@ == failure_reported(old(self)@, iface, orig@.data),
    {
        proof {
            network::lemma_net_kept_refl(self@.net);
        }
        let data = orig.as_slice();
        match IpVersion::of_packet(data) {
            Ok(IpVersion::Ipv4) => {
                if let Some(reply) = self.build_failure_v4(iface, data) {
                    self.process_ipv4(iface, None, reply);
                }
            },
            Ok(IpVersion::Ipv6) => {
                if let Some(reply) = self.build_failure_v6(iface, data) {
                    self.process_ipv6(iface, None, reply);
                }
            },
            Err(_) => {},
        }
    }

    /// The host unreachable error about an IPv4 packet this stack sent.
    fn build_failure_v4(&self, iface: IfaceHandle, orig: &[u8]) -> (r: Option<PacketBuf>)
        requires
            self.ready(),
            self@.net.has_iface(iface),
            orig@.len() >= IPV4_HEADER_LEN,
        ensures
            match r {
                Some(buf) => {
                    &&& buf.wf()
                    &&& failure_v4(self@.net, iface, orig@) == Some(buf@)
                    &&& buf@.data.len() <= ipv4::IPV4_MIN_MTU
                },
                None => failure_v4(self@.net, iface, orig@) is None,
            },
    {
        let header = Ipv4Header::read(orig);
        let src_addr = header.src_addr;
        proof {
            src_addr.lemma_of();
        }
        // Never generate an ICMP error about an ICMP error (RFC 1122 §3.2.2).
        if header.next_header == IpProtocol::Icmp && header.header_len < orig.len() {
            if icmpv4::Message::from(orig[header.header_len]).is_error() {
                return None;
            }
        }
        let state = self.net.iface_state(iface);
        if !state.is_unicast_v4(src_addr) {
            return None;
        }
        let reply_src = match state.get_source_address_ipv4(&src_addr) {
            Some(addr) => addr,
            None => return None,
        };
        let mut reply = build_icmpv4_error(
            orig,
            icmpv4::Message::DstUnreachable,
            u8::from(icmpv4::DstUnreachable::HostUnreachable),
        );
        let ghost message = reply@;
        push_ipv4_header(&mut reply, reply_src, src_addr, IpProtocol::Icmp, 64, true);
        proof {
            ipv4::lemma_header_shape(reply_src.0@, src_addr.0@, IpProtocol::Icmp, 64, message.data.len(), true);
        }
        Some(reply)
    }

    /// The address unreachable error about an IPv6 packet this stack sent.
    fn build_failure_v6(&self, iface: IfaceHandle, orig: &[u8]) -> (r: Option<PacketBuf>)
        requires
            self.ready(),
            self@.net.has_iface(iface),
            orig@.len() >= IPV6_HEADER_LEN,
        ensures
            match r {
                Some(buf) => {
                    &&& buf.wf()
                    &&& failure_v6(self@.net, iface, orig@) == Some(buf@)
                    &&& buf@.data.len() <= ipv6::IPV6_MIN_MTU
                },
                None => failure_v6(self@.net, iface, orig@) is None,
            },
    {
        let header = Ipv6Header::read(orig);
        let src_addr = header.src_addr;
        proof {
            src_addr.lemma_of();
        }
        // Never generate an ICMP error about an ICMP error (RFC 4443 §2.4).
        if header.next_header == IpProtocol::Icmpv6 && orig.len() > IPV6_HEADER_LEN {
            if icmpv6::Message::from(orig[IPV6_HEADER_LEN]).is_error() {
                return None;
            }
        }
        if !src_addr.is_unicast() {
            return None;
        }
        let state = self.net.iface_state(iface);
        let reply_src = state.get_source_address_ipv6(&src_addr);
        let mut reply = build_icmpv6_error(
            orig,
            &reply_src,
            &src_addr,
            icmpv6::Message::DstUnreachable,
            u8::from(icmpv6::DstUnreachable::AddrUnreachable),
            0,
        );
        let ghost message = reply@;
        push_ipv6_header(&mut reply, reply_src, src_addr, IpProtocol::Icmpv6, 64);
        proof {
            ipv6::lemma_header_shape(reply_src.0@, src_addr.0@, IpProtocol::Icmpv6, 64, message.data.len());
        }
        Some(reply)
    }

    /// Drop the packets queued on a neighbor whose resolution failed, answering each with
    /// an ICMP destination unreachable error (RFC 4861 §7.3.3).
    fn fail_neighbor(&mut self, iface: IfaceHandle, addr: IpAddress)
        requires
            old(self).ready(),
            old(self)@.net.has_iface(iface),
        ensures
            state::goes_on(*old(self), *final(self)),
            final(self)@ == event_handled(old(self)@, iface, ProbeEvent::Failed(addr)),
    {
        let key = (iface, addr);
        let ghost waiting = self@.net.inner.pending.filter(pending::waits_for(key));
        let mut packets = self.net.inner.pending.take_matching(&key);
        proof {
            link::lemma_pending_filter(old(self)@.net.inner.pending, pending::waits_for(key));
            link::lemma_pending_filter(old(self)@.net.inner.pending, pending::waits_elsewhere(key));
            network::lemma_net_kept_refl(old(self)@.net);
            network::lemma_kept_routes_attached(old(self)@.net, self@.net);
            assert(self@ == unparked(old(self)@, key));
        }
        let ghost all = packets@;
        let ghost first = self@;
        let ghost mut done: int = 0;
        assert(all.skip(0) =~= all);
        while packets.len() > 0
            invariant
                0 <= done <= all.len(),
                packets@ == all.skip(done),
                pending::bufs_ok(all),
                pending::views(all) == waiting,
                link::pending_ok(waiting),
                old(self)@.net.has_iface(iface),
                state::goes_on(*old(self), *self),
                self@ == failures_reported(first, iface, waiting, done),
            decreases packets@.len(),
        {
            let packet = packets.remove(0);
            proof {
                assert(packet == all[done]);
                assert(packet@ == waiting[done]);
                assert(link::ip_packet(waiting[done].buf.data));
                assert(all.skip(done).remove(0) =~= all.skip(done + 1));
            }
            let ghost before = *self;
            assert(before@.net.has_iface(iface));
            self.deliver_neighbor_failure_error(iface, &packet.buf);
            proof {
                network::lemma_net_kept_trans(old(self)@.net, before@.net, self@.net);
                done = done + 1;
            }
        }
        assert(done == waiting.len());
    }

    /// Advance the solicitation retransmission timers of the neighbors being resolved
    /// on this interface, retransmitting solicitations and failing resolutions that
    /// exhausted their probes.
    pub fn poll_neighbor_timers(&mut self, iface: IfaceHandle)
        requires
            old(self).ready(),
            old(self)@.net.has_iface(iface),
        ensures
            state::goes_on(*old(self), *final(self)),
            final(self)@ == timers_polled(old(self)@, iface),
    {
        let events = self.net.scan_timers(iface);
        let ghost first = self@;
        let mut i: usize = 0;
        while i < events.len()
            invariant
                i <= events@.len(),
                old(self)@.net.has_iface(iface),
                neighbors::events_ok(events@),
                events@.len() > 0 ==> network::ethernet_at(old(self)@.net.ifaces, iface),
                state::goes_on(*old(self), *self),
                self@ == events_handled(first, iface, events@, i as int),
            decreases events@.len() - i,
        {
            let ghost before = *self;
            proof {
                assert(neighbors::event_addr(events@[i as int]).unicast_view());
                assert(before@.net.has_iface(iface));
                assert(before@.net.iface(iface).caps == old(self)@.net.iface(iface).caps);
            }
            match events[i] {
                ProbeEvent::Retransmit(addr) => {
                    self.net.solicit(iface, addr);
                },
                ProbeEvent::Failed(addr) => {
                    self.fail_neighbor(iface, addr);
                },
            }
            proof {
                network::lemma_net_kept_trans(old(self)@.net, before@.net, self@.net);
            }
            i += 1;
        }
    }
}

} // verus!
