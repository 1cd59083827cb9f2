//! ICMP messages that arrive: echo requests are answered, errors delivered to the
//! socket whose packet provoked them, and neighbor discovery carried out.

use vstd::prelude::*;

use crate::buf::{PacketBuf, PacketView, PACKET_BUF_SIZE};
use crate::icmp_error;
use crate::icmp_error::{parse_quoted_packet, IcmpError, QuotedPacket};
use crate::iface::{IfaceHandle, Medium};
use crate::stack::icmp;
use crate::stack::iface_state;
use crate::stack::link;
use crate::stack::network;
use crate::stack::network::NetModel;
use crate::stack::state;
use crate::stack::state::{Stack, StackModel};
use crate::tcp;
use crate::udp;
use crate::wire::endpoint::IpEndpoint;
use crate::wire::icmpv4;
use crate::wire::icmpv6;
use crate::wire::ip::{IpAddress, Ipv4Address, Ipv6Address};
use crate::wire::ipv4::IPV4_HEADER_LEN;
use crate::wire::ipv6::IPV6_HEADER_LEN;
use crate::wire::protocol::IpProtocol;
use crate::wire::LINK_HEADER_LEN;

verus! {

/// The local end of a quoted flow.
pub open spec fn quoted_local(quoted: QuotedPacket) -> IpEndpoint {
    IpEndpoint { addr: quoted.src_addr, port: quoted.src_port }
}

/// The remote end of a quoted flow.
pub open spec fn quoted_remote(quoted: QuotedPacket) -> IpEndpoint {
    IpEndpoint { addr: quoted.dst_addr, port: quoted.dst_port }
}

/// The stack after an error about a packet it sent, given what the error quotes of it.
pub open spec fn error_delivered(stack: StackModel, error: IcmpError, quote: Seq<u8>) -> StackModel {
    match icmp_error::quoted_flow(quote) {
        Some(quoted) => match quoted.protocol {
            IpProtocol::Udp => StackModel {
                udp: udp::ingress::error_delivered(
                    stack.udp,
                    error,
                    quoted_local(quoted),
                    quoted_remote(quoted),
                ),
                ..stack
            },
            IpProtocol::Tcp => StackModel {
                tcp: tcp::socket::error_delivered(
                    stack.tcp,
                    error,
                    quoted_local(quoted),
                    quoted_remote(quoted),
                    quoted.tcp_seq,
                ),
                ..stack
            },
            _ => stack,
        },
        None => stack,
    }
}

/// The octets of the ICMPv4 echo reply to a request: the same identifier, sequence
/// number and data.
pub open spec fn echo_reply_v4(request: Seq<u8>) -> Seq<u8> {
    icmpv4::with_checksum(seq![icmpv4::Message::EchoReply.number(), 0u8, 0u8, 0u8] + request.skip(4))
}

/// The octets of the ICMPv6 echo reply to a request: the same identifier, sequence
/// number and data.
pub open spec fn echo_reply_v6(src: Seq<u8>, dst: Seq<u8>, request: Seq<u8>) -> Seq<u8> {
    icmpv6::with_checksum(src, dst, seq![icmpv6::Message::EchoReply.number(), 0u8, 0u8, 0u8] + request.skip(4))
}

/// The address an ICMPv4 echo request is answered from, if it is answered: only one
/// from a single host, to a single host or to broadcast.
pub open spec fn echo_source_v4(net: NetModel, iface: IfaceHandle, src: Ipv4Address, dst: Ipv4Address) -> Option<
    Ipv4Address,
> {
    let addrs = net.iface(iface).ip_addrs;
    if !iface_state::is_unicast_v4(addrs, src) {
        None
    } else if iface_state::is_unicast_v4(addrs, dst) {
        Some(dst)
    } else if iface_state::is_broadcast_v4(addrs, dst) {
        iface_state::first_ipv4(addrs, 0)
    } else {
        None
    }
}

/// The network side after an ICMPv4 echo request arrived.
pub open spec fn echoed_v4(
    net: NetModel,
    iface: IfaceHandle,
    src: Ipv4Address,
    dst: Ipv4Address,
    data: Seq<u8>,
) -> NetModel {
    match echo_source_v4(net, iface, src, dst) {
        Some(reply_src) => network::reply_sent(
            net,
            iface,
            PacketView::fresh(LINK_HEADER_LEN + IPV4_HEADER_LEN, echo_reply_v4(data)),
            IpAddress::Ipv4(reply_src),
            IpAddress::Ipv4(src),
            IpProtocol::Icmp,
            64,
        ),
        None => net,
    }
}

/// The network side after an ICMPv6 echo request arrived.
pub open spec fn echoed_v6(
    net: NetModel,
    iface: IfaceHandle,
    src: Ipv6Address,
    dst: Ipv6Address,
    data: Seq<u8>,
) -> NetModel {
    let reply_src = icmp::reply_source_v6(net, iface, src, dst);
    network::reply_sent(
        net,
        iface,
        PacketView::fresh(LINK_HEADER_LEN + IPV6_HEADER_LEN, echo_reply_v6(reply_src.0@, src.0@, data)),
        IpAddress::Ipv6(reply_src),
        IpAddress::Ipv6(src),
        IpProtocol::Icmpv6,
        64,
    )
}

/// Whether an ICMPv4 message that arrived is taken up.
pub open spec fn icmpv4_accepted(net: NetModel, iface: IfaceHandle, data: Seq<u8>) -> bool {
    &&& data.len() >= icmpv4::ICMPV4_HEADER_LEN
    &&& net.iface(iface).caps.checksum.icmpv4.rx_view() ==> icmpv4::checksum_ok(data)
}

/// The stack after an ICMPv4 message arrived.
pub open spec fn icmpv4_processed(
    stack: StackModel,
    iface: IfaceHandle,
    src: Ipv4Address,
    dst: Ipv4Address,
    data: Seq<u8>,
) -> StackModel {
    let message = icmpv4::Message::of_number(data[0]);
    if !icmpv4_accepted(stack.net, iface, data) {
        stack
    } else if message == icmpv4::Message::EchoRequest && data[1] == 0 {
        stack.with_net(echoed_v4(stack.net, iface, src, dst, data))
    } else if message.error_view() {
        match IcmpError::of_icmpv4(message, data[1]) {
            Some(error) => error_delivered(stack, error, data.skip(8)),
            None => stack,
        }
    } else {
        stack
    }
}

/// Whether an ICMPv6 message that arrived is taken up.
pub open spec fn icmpv6_accepted(
    net: NetModel,
    iface: IfaceHandle,
    src: Ipv6Address,
    dst: Ipv6Address,
    data: Seq<u8>,
) -> bool {
    &&& icmpv6::well_formed(data)
    &&& net.iface(iface).caps.checksum.icmpv6.rx_view() ==> icmpv6::checksum_ok(src.0@, dst.0@, data)
}

/// The stack after an ICMPv6 message arrived. Neighbor discovery is carried out only on
/// Ethernet, and only if the hop limit shows that the message was not forwarded.
pub open spec fn icmpv6_processed(
    stack: StackModel,
    iface: IfaceHandle,
    on_ethernet: bool,
    src: Ipv6Address,
    dst: Ipv6Address,
    hop_limit: u8,
    data: Seq<u8>,
) -> StackModel {
    let message = icmpv6::Message::of_number(data[0]);
    if !icmpv6_accepted(stack.net, iface, src, dst, data) {
        stack
    } else if message == icmpv6::Message::EchoRequest {
        stack.with_net(echoed_v6(stack.net, iface, src, dst, data))
    } else if message.error_view() {
        match IcmpError::of_icmpv6(message, data[1]) {
            Some(error) => error_delivered(stack, error, data.skip(8)),
            None => stack,
        }
    } else if message == icmpv6::Message::NeighborSolicit && hop_limit == 0xff && on_ethernet {
        stack.with_net(
            stack.net.with_link_at(
                iface,
                link::solicit_processed(stack.net.link_at(iface), src, dst, data),
            ),
        )
    } else if message == icmpv6::Message::NeighborAdvert && hop_limit == 0xff && on_ethernet {
        stack.with_net(
            stack.net.with_link_at(iface, link::advert_processed(stack.net.link_at(iface), src, data)),
        )
    } else {
        stack
    }
}

/// The echo reply to a well-formed request is a well-formed message with the request's
/// identifier, sequence number and data, and its checksum verifies.
pub proof fn law_echo_reply_v4_mirrors_request(request: Seq<u8>)
    requires
        request.len() >= icmpv4::ICMPV4_HEADER_LEN,
    ensures
        echo_reply_v4(request).len() == request.len(),
        echo_reply_v4(request)[0] == icmpv4::Message::EchoReply.number(),
        echo_reply_v4(request)[1] == 0,
        echo_reply_v4(request).skip(4) == request.skip(4),
        icmpv4::checksum_ok(echo_reply_v4(request)),
{
    let unsummed = seq![icmpv4::Message::EchoReply.number(), 0u8, 0u8, 0u8] + request.skip(4);
    assert(echo_reply_v4(request).skip(4) =~= request.skip(4));
    icmpv4::law_icmpv4_filled_checksum_verifies(unsummed);
}

/// The echo reply to a well-formed request is a well-formed message with the request's
/// identifier, sequence number and data, and its checksum verifies.
pub proof fn law_echo_reply_v6_mirrors_request(src: Ipv6Address, dst: Ipv6Address, request: Seq<u8>)
    requires
        icmpv6::ICMPV6_HEADER_LEN <= request.len() <= 0xffff,
    ensures
        echo_reply_v6(src.0@, dst.0@, request).len() == request.len(),
        echo_reply_v6(src.0@, dst.0@, request)[0] == icmpv6::Message::EchoReply.number(),
        echo_reply_v6(src.0@, dst.0@, request)[1] == 0,
        echo_reply_v6(src.0@, dst.0@, request).skip(4) == request.skip(4),
        icmpv6::checksum_ok(src.0@, dst.0@, echo_reply_v6(src.0@, dst.0@, request)),
{
    let unsummed = seq![icmpv6::Message::EchoReply.number(), 0u8, 0u8, 0u8] + request.skip(4);
    assert(echo_reply_v6(src.0@, dst.0@, request).skip(4) =~= request.skip(4));
    icmpv6::law_icmpv6_filled_checksum_verifies(src.0@, dst.0@, unsummed);
}

/// An ICMP error is never answered: errors cannot provoke errors (RFC 1122 §3.2.2).
pub proof fn law_icmpv4_error_is_not_answered(
    stack: StackModel,
    iface: IfaceHandle,
    src: Ipv4Address,
    dst: Ipv4Address,
    data: Seq<u8>,
)
    requires
        data.len() > 0,
        icmpv4::Message::of_number(data[0]).error_view(),
    ensures
        icmpv4_processed(stack, iface, src, dst, data).net == stack.net,
{
}

/// An ICMPv6 error is never answered (RFC 4443 §2.4).
pub proof fn law_icmpv6_error_is_not_answered(
    stack: StackModel,
    iface: IfaceHandle,
    on_ethernet: bool,
    src: Ipv6Address,
    dst: Ipv6Address,
    hop_limit: u8,
    data: Seq<u8>,
)
    requires
        data.len() > 0,
        icmpv6::Message::of_number(data[0]).error_view(),
    ensures
        icmpv6_processed(stack, iface, on_ethernet, src, dst, hop_limit, data).net == stack.net,
{
}

/// Build the ICMPv4 echo reply to a request.
fn build_echo_reply_v4(request: &[u8]) -> (r: PacketBuf)
    requires
        request@.len() >= icmpv4::ICMPV4_HEADER_LEN,
        request@.len() + LINK_HEADER_LEN + IPV4_HEADER_LEN <= PACKET_BUF_SIZE,
    ensures
        r.wf(),
        r@ == PacketView::fresh(LINK_HEADER_LEN + IPV4_HEADER_LEN, echo_reply_v4(request@)),
{
    let mut message: Vec<u8> = Vec::new();
    message.push(u8::from(icmpv4::Message::EchoReply));
    message.push(0);
    message.push(0);
    message.push(0);
    let n: usize = request.len();
    crate::wire::bytes::push_bytes(&mut message, &request[4..n]);
    assert(message@ =~= seq![icmpv4::Message::EchoReply.number(), 0u8, 0u8, 0u8] + request@.skip(4));
    let mut packet = icmpv4::Packet::new_unchecked(message.as_mut_slice());
    packet.fill_checksum();
    PacketBuf::with_data(LINK_HEADER_LEN + IPV4_HEADER_LEN, message.as_slice())
}

/// Build the ICMPv6 echo reply to a request, to be sent from `src` to `dst`.
fn build_echo_reply_v6(request: &[u8], src: &Ipv6Address, dst: &Ipv6Address) -> (r: PacketBuf)
    requires
        request@.len() >= icmpv6::ICMPV6_HEADER_LEN,
        request@.len() + LINK_HEADER_LEN + IPV6_HEADER_LEN <= PACKET_BUF_SIZE,
    ensures
        r.wf(),
        r@ == PacketView::fresh(LINK_HEADER_LEN + IPV6_HEADER_LEN, echo_reply_v6(src.0@, dst.0@, request@)),
{
    let mut message: Vec<u8> = Vec::new();
    message.push(u8::from(icmpv6::Message::EchoReply));
    message.push(0);
    message.push(0);
    message.push(0);
    let n: usize = request.len();
    crate::wire::bytes::push_bytes(&mut message, &request[4..n]);
    assert(message@ =~= seq![icmpv6::Message::EchoReply.number(), 0u8, 0u8, 0u8] + request@.skip(4));
    icmpv6::fill_checksum(message.as_mut_slice(), src, dst);
    PacketBuf::with_data(LINK_HEADER_LEN + IPV6_HEADER_LEN, message.as_slice())
}

impl Stack {
    /// Deliver an ICMP error message to the socket whose packet provoked it.
    ///
    /// `quote` is the offending packet quoted in the error, a packet *we sent*, so
    /// its source identifies the socket's local endpoint and its destination the
    /// remote. UDP demux scores the sockets like ordinary ingress (most specific
    /// match wins). TCP demux is by exact 4-tuple, and the socket additionally
    /// validates the quoted sequence number against its send window, so blindly
    /// spoofed errors cannot reset connections (RFC 5927).
    pub fn deliver_icmp_error(&mut self, error: IcmpError, quote: &[u8])
        requires
            old(self).ready(),
        ensures
            state::goes_on(*old(self), *final(self)),
            final(self).net == old(self).net,
            final(self)@ == error_delivered(old(self)@, error, quote@),
    {
        proof {
            network::lemma_net_kept_refl(self@.net);
        }
        let quoted = match parse_quoted_packet(quote) {
            Some(quoted) => quoted,
            None => return,
        };
        let local = IpEndpoint::new(quoted.src_addr, quoted.src_port);
        let remote = IpEndpoint::new(quoted.dst_addr, quoted.dst_port);
        match quoted.protocol {
            IpProtocol::Udp => {
                udp::process_icmp_error(&mut self.sockets.udp, error, local, remote);
            },
            IpProtocol::Tcp => {
                tcp::process_icmp_error(&mut self.sockets.tcp, error, local, remote, quoted.tcp_seq);
            },
            _ => {},
        }
    }

    /// The address an ICMPv4 echo request is answered from, if it is answered.
    fn echo_source(&self, iface: IfaceHandle, src_addr: Ipv4Address, dst_addr: Ipv4Address) -> (r: Option<Ipv4Address>)
        requires
            self.ready(),
            self@.net.has_iface(iface),
        ensures
            r == echo_source_v4(self@.net, iface, src_addr, dst_addr),
    {
        let iface = self.net.iface_state(iface);
        // Do not send ICMP replies to non-unicast sources.
        if !iface.is_unicast_v4(src_addr) {
            return None;
        }
        // Reply as normal when src_addr and dst_addr are both unicast; only
        // reply to broadcasts for echo replies and not other ICMP messages.
        if iface.is_unicast_v4(dst_addr) {
            Some(dst_addr)
        } else if iface.is_broadcast_v4(dst_addr) {
            iface.ipv4_addr()
        } else {
            None
        }
    }

    /// Process an ICMPv4 message. `buf` starts at the ICMP header.
    pub fn process_icmpv4(
        &mut self,
        iface: IfaceHandle,
        src_addr: Ipv4Address,
        dst_addr: Ipv4Address,
        buf: &PacketBuf,
    )
        requires
            old(self).ready(),
            old(self)@.net.has_iface(iface),
            buf.wf(),
            buf@.data.len() + LINK_HEADER_LEN + IPV4_HEADER_LEN <= PACKET_BUF_SIZE,
        ensures
            state::goes_on(*old(self), *final(self)),
            final(self)@ == icmpv4_processed(old(self)@, iface, src_addr, dst_addr, buf@.data),
    {
        proof {
            network::lemma_net_kept_refl(self@.net);
        }
        let data = buf.as_slice();
        if data.len() < icmpv4::ICMPV4_HEADER_LEN {
            return;
        }
        let state = self.net.iface_state(iface);
        if state.caps.checksum.icmpv4.rx() && !icmpv4::verify_checksum(data) {
            return;
        }
        let msg_type = icmpv4::Message::from(data[0]);
        let msg_code: u8 = data[1];
        if msg_type == icmpv4::Message::EchoRequest && msg_code == 0 {
            // Respond to echo requests.
            if let Some(reply_src) = self.echo_source(iface, src_addr, dst_addr) {
                let reply = build_echo_reply_v4(data);
                self.net.transmit_reply(
                    iface,
                    reply,
                    IpAddress::Ipv4(reply_src),
                    IpAddress::Ipv4(src_addr),
                    IpProtocol::Icmp,
                    64,
                );
            }
        } else if msg_type.is_error() {
            // Deliver error messages to the socket whose packet provoked them.
            if let Some(error) = IcmpError::from_icmpv4(msg_type, msg_code) {
                let n: usize = data.len();
                let quote = &data[8..n];
                assert(quote@ =~= data@.skip(8));
                self.deliver_icmp_error(error, quote);
            }
        }
    }

    /// Process an ICMPv6 message. `buf` starts at the ICMP header.
    pub fn process_icmpv6(
        &mut self,
        iface: IfaceHandle,
        on_ethernet: bool,
        src_addr: Ipv6Address,
        dst_addr: Ipv6Address,
        hop_limit: u8,
        buf: &PacketBuf,
    )
        requires
            old(self).ready(),
            old(self)@.net.has_iface(iface),
            on_ethernet ==> old(self)@.net.iface(iface).caps.medium == Medium::Ethernet,
            src_addr.unicast_view(),
            buf.wf(),
            buf@.data.len() + LINK_HEADER_LEN + IPV6_HEADER_LEN <= PACKET_BUF_SIZE,
        ensures
            state::goes_on(*old(self), *final(self)),
            final(self)@ == icmpv6_processed(
                old(self)@,
                iface,
                on_ethernet,
                src_addr,
                dst_addr,
                hop_limit,
                buf@.data,
            ),
    {
        proof {
            network::lemma_net_kept_refl(self@.net);
        }
        let data = buf.as_slice();
        let msg_type = match icmpv6::check(data) {
            Ok(msg_type) => msg_type,
            Err(_) => return,
        };
        let state = self.net.iface_state(iface);
        if state.caps.checksum.icmpv6.rx() && !icmpv6::verify_checksum(data, &src_addr, &dst_addr) {
            return;
        }
        if msg_type == icmpv6::Message::EchoRequest {
            // Respond to echo requests.
            let reply_src = self.net.reply_source(iface, src_addr, dst_addr);
            let reply = build_echo_reply_v6(data, &reply_src, &src_addr);
            self.net.transmit_reply(
                iface,
                reply,
                IpAddress::Ipv6(reply_src),
                IpAddress::Ipv6(src_addr),
                IpProtocol::Icmpv6,
                64,
            );
        } else if msg_type.is_error() {
            // Deliver error messages to the socket whose packet provoked them.
            if let Some(error) = IcmpError::from_icmpv6(msg_type, data[1]) {
                let n: usize = data.len();
                let quote = &data[8..n];
                assert(quote@ =~= data@.skip(8));
                self.deliver_icmp_error(error, quote);
            }
        } else if msg_type == icmpv6::Message::NeighborSolicit && hop_limit == 0xff && on_ethernet {
            // NDISC is only processed if the packet arrived with the un-decremented
            // hop limit, and only on Ethernet mediums.
            self.net.process_ndisc_solicit(iface, src_addr, dst_addr, data);
        } else if msg_type == icmpv6::Message::NeighborAdvert && hop_limit == 0xff && on_ethernet {
            self.net.process_ndisc_advert(iface, src_addr, data);
        }
    }
}

} // verus!
