//! ICMP errors the stack sends, and the IPv6 options that provoke them.

use vstd::prelude::*;

use crate::buf::{PacketBuf, PacketView};
use crate::icmp_error;
use crate::iface::IfaceHandle;
use crate::stack::iface_state;
use crate::stack::network;
use crate::stack::network::{NetModel, Network};
use crate::stack::source;
use crate::wire::bytes;
use crate::wire::icmpv4;
use crate::wire::icmpv6;
use crate::wire::ip::{IpAddress, Ipv4Address, Ipv6Address};
use crate::wire::ipv4;
use crate::wire::ipv4::{Ipv4Header, IPV4_HEADER_LEN, IPV4_MIN_MTU};
use crate::wire::ipv6;
use crate::wire::ipv6::{Ipv6Header, IPV6_HEADER_LEN, IPV6_MIN_MTU};
use crate::wire::ipv6ext;
use crate::wire::ipv6ext::{Ipv6ExtHeader, OptionFailureAction};
use crate::wire::protocol::IpProtocol;
use crate::wire::{Error, LINK_HEADER_LEN};

verus! {

/// ICMP error messages have a fixed 8-byte header (type, code, checksum, and a
/// 4-byte type-specific field), followed by the quoted packet.
pub const ICMP_ERROR_HEADER_LEN: usize = 8;

/// The first `max` octets of a packet, or all of it.
pub open spec fn quote_of(orig: Seq<u8>, max: int) -> Seq<u8> {
    if orig.len() <= max {
        orig
    } else {
        orig.take(max)
    }
}

/// How much of a packet an ICMPv4 error quotes.
pub const QUOTE_MAX_V4: usize = 548;

/// How much of a packet an ICMPv6 error quotes.
pub const QUOTE_MAX_V6: usize = 1232;

/// The most that is quoted just fills the minimum MTU.
proof fn lemma_quote_max()
    ensures
        IPV4_HEADER_LEN + ICMP_ERROR_HEADER_LEN + QUOTE_MAX_V4 == IPV4_MIN_MTU,
        IPV6_HEADER_LEN + ICMP_ERROR_HEADER_LEN + QUOTE_MAX_V6 == IPV6_MIN_MTU,
{
}

/// The part of a packet an ICMPv4 error quotes.
pub open spec fn quote_v4(orig: Seq<u8>) -> Seq<u8> {
    quote_of(orig, QUOTE_MAX_V4 as int)
}

/// The part of a packet an ICMPv6 error quotes.
pub open spec fn quote_v6(orig: Seq<u8>) -> Seq<u8> {
    quote_of(orig, QUOTE_MAX_V6 as int)
}

/// The part of a packet an error quotes.
fn quote_slice(orig: &[u8], max: usize) -> (r: &[u8])
    ensures
        r@ == quote_of(orig@, max as int),
{
    if orig.len() <= max {
        orig
    } else {
        let r = &orig[0..max];
        assert(r@ =~= orig@.take(max as int));
        r
    }
}

/// The octets of an ICMPv4 error message quoting as much of a packet as fits
/// within the minimum MTU (RFC 1812 §4.3.2.3).
pub open spec fn icmpv4_error_message(orig: Seq<u8>, msg_type: icmpv4::Message, code: u8) -> Seq<u8> {
    icmpv4::with_checksum(
        seq![msg_type.number(), code, 0u8, 0u8, 0u8, 0u8, 0u8, 0u8] + quote_v4(orig),
    )
}

/// The octets of an ICMPv6 error message quoting as much of a packet as fits
/// within the minimum MTU (RFC 4443 §2.4). The pointer is written for parameter
/// problem messages only.
pub open spec fn icmpv6_error_message(
    orig: Seq<u8>,
    src: Ipv6Address,
    dst: Ipv6Address,
    msg_type: icmpv6::Message,
    code: u8,
    pointer: u32,
) -> Seq<u8> {
    let field = if msg_type == icmpv6::Message::ParamProblem {
        pointer
    } else {
        0
    };
    icmpv6::with_checksum(
        src.0@,
        dst.0@,
        seq![msg_type.number(), code, 0u8, 0u8] + bytes::octets32(field) + quote_v6(orig),
    )
}

/// An ICMPv4 error message ready for an IP header to be put in front of it.
pub open spec fn icmpv4_error_packet(orig: Seq<u8>, msg_type: icmpv4::Message, code: u8) -> PacketView {
    PacketView::fresh(LINK_HEADER_LEN + IPV4_HEADER_LEN, icmpv4_error_message(orig, msg_type, code))
}

/// An ICMPv6 error message ready for an IP header to be put in front of it.
pub open spec fn icmpv6_error_packet(
    orig: Seq<u8>,
    src: Ipv6Address,
    dst: Ipv6Address,
    msg_type: icmpv6::Message,
    code: u8,
    pointer: u32,
) -> PacketView {
    PacketView::fresh(
        LINK_HEADER_LEN + IPV6_HEADER_LEN,
        icmpv6_error_message(orig, src, dst, msg_type, code, pointer),
    )
}

/// Whether an ICMPv4 error may be sent about a packet received on an interface:
/// only when both its source and its destination are unicast (RFC 1122 §3.2.2).
pub open spec fn icmpv4_error_allowed(net: NetModel, iface: IfaceHandle, orig: Seq<u8>) -> bool {
    let addrs = net.iface(iface).ip_addrs;
    iface_state::is_unicast_v4(addrs, Ipv4Address::of(ipv4::src_octets(orig))) && iface_state::is_unicast_v4(
        addrs,
        Ipv4Address::of(ipv4::dst_octets(orig)),
    )
}

/// The state after an ICMPv4 error about a received packet.
pub open spec fn icmpv4_error_sent(
    net: NetModel,
    iface: IfaceHandle,
    orig: Seq<u8>,
    msg_type: icmpv4::Message,
    code: u8,
) -> NetModel {
    if icmpv4_error_allowed(net, iface, orig) {
        network::reply_sent(
            net,
            iface,
            icmpv4_error_packet(orig, msg_type, code),
            IpAddress::Ipv4(Ipv4Address::of(ipv4::dst_octets(orig))),
            IpAddress::Ipv4(Ipv4Address::of(ipv4::src_octets(orig))),
            IpProtocol::Icmp,
            64,
        )
    } else {
        net
    }
}

/// Whether an ICMPv6 error may be sent about a packet: never to non-unicast
/// sources, nor about multicast-destined packets unless that is asked for (RFC
/// 4443 §2.4).
pub open spec fn icmpv6_error_allowed(orig: Seq<u8>, allow_multicast_dst: bool) -> bool {
    Ipv6Address::of(ipv6::src_octets(orig)).unicast_view() && (!Ipv6Address::of(
        ipv6::dst_octets(orig),
    ).multicast_view() || allow_multicast_dst)
}

/// The address an answer to a packet is sent from: the packet's destination if it
/// is unicast, else one of the interface's.
pub open spec fn reply_source_v6(net: NetModel, iface: IfaceHandle, src: Ipv6Address, dst: Ipv6Address) -> Ipv6Address {
    if dst.unicast_view() {
        dst
    } else {
        source::source_ipv6(net.iface(iface).ip_addrs, src)
    }
}

/// The state after an ICMPv6 error about a received packet.
pub open spec fn icmpv6_error_sent(
    net: NetModel,
    iface: IfaceHandle,
    orig: Seq<u8>,
    msg_type: icmpv6::Message,
    code: u8,
    pointer: u32,
    allow_multicast_dst: bool,
) -> NetModel {
    let src = Ipv6Address::of(ipv6::src_octets(orig));
    let dst = Ipv6Address::of(ipv6::dst_octets(orig));
    let reply_src = reply_source_v6(net, iface, src, dst);
    if icmpv6_error_allowed(orig, allow_multicast_dst) {
        network::reply_sent(
            net,
            iface,
            icmpv6_error_packet(orig, reply_src, src, msg_type, code, pointer),
            IpAddress::Ipv6(reply_src),
            IpAddress::Ipv6(src),
            IpProtocol::Icmpv6,
            64,
        )
    } else {
        net
    }
}

/// An ICMP error, sent with its IPv4 header, never exceeds the minimum MTU, and
/// quotes the packet from its start.
pub proof fn law_icmpv4_error_fits_minimum_mtu(orig: Seq<u8>, msg_type: icmpv4::Message, code: u8)
    ensures
        ({
            let message = icmpv4_error_message(orig, msg_type, code);
            &&& IPV4_HEADER_LEN + message.len() <= IPV4_MIN_MTU
            &&& message.skip(8) == quote_v4(orig)
            &&& message.skip(8).is_prefix_of(orig)
            &&& message[0] == msg_type.number()
            &&& message[1] == code
            &&& icmpv4::checksum_ok(message)
        }),
{
    let message = icmpv4_error_message(orig, msg_type, code);
    let quote = quote_v4(orig);
    lemma_quote_max();
    assert(message.skip(8) =~= quote);
    icmpv4::law_icmpv4_filled_checksum_verifies(
        seq![msg_type.number(), code, 0u8, 0u8, 0u8, 0u8, 0u8, 0u8] + quote,
    );
}

/// An ICMPv6 error, sent with its IPv6 header, never exceeds the minimum MTU, and
/// quotes the packet from its start.
pub proof fn law_icmpv6_error_fits_minimum_mtu(
    orig: Seq<u8>,
    src: Ipv6Address,
    dst: Ipv6Address,
    msg_type: icmpv6::Message,
    code: u8,
    pointer: u32,
)
    ensures
        ({
            let message = icmpv6_error_message(orig, src, dst, msg_type, code, pointer);
            &&& IPV6_HEADER_LEN + message.len() <= IPV6_MIN_MTU
            &&& message.skip(8) == quote_v6(orig)
            &&& message.skip(8).is_prefix_of(orig)
            &&& message[0] == msg_type.number()
            &&& message[1] == code
            &&& msg_type == icmpv6::Message::ParamProblem ==> bytes::be32(message, 4) == pointer
            &&& icmpv6::checksum_ok(src.0@, dst.0@, message)
        }),
{
    let message = icmpv6_error_message(orig, src, dst, msg_type, code, pointer);
    let quote = quote_v6(orig);
    let field = if msg_type == icmpv6::Message::ParamProblem {
        pointer
    } else {
        0
    };
    let unsummed = seq![msg_type.number(), code, 0u8, 0u8] + bytes::octets32(field) + quote;
    lemma_quote_max();
    assert(message.skip(8) =~= quote);
    icmpv6::law_icmpv6_filled_checksum_verifies(src.0@, dst.0@, unsummed);
    bytes::law_u32_round_trip(unsummed, 4, field);
    assert(bytes::be32(message, 4) == bytes::be32(bytes::octets32(field), 0));
}

/// No ICMP error is ever sent about a packet from or to a broadcast or multicast
/// address of the interface it arrived on.
pub proof fn law_no_icmpv4_error_about_group_traffic(
    net: NetModel,
    iface: IfaceHandle,
    orig: Seq<u8>,
    msg_type: icmpv4::Message,
    code: u8,
)
    requires
        ({
            let addrs = net.iface(iface).ip_addrs;
            let src = Ipv4Address::of(ipv4::src_octets(orig));
            let dst = Ipv4Address::of(ipv4::dst_octets(orig));
            ||| iface_state::is_broadcast_v4(addrs, src)
            ||| iface_state::is_broadcast_v4(addrs, dst)
            ||| src.multicast_view()
            ||| dst.multicast_view()
        }),
    ensures
        icmpv4_error_sent(net, iface, orig, msg_type, code) == net,
{
}

/// No ICMPv6 error is ever sent about a packet from anything but a single host, nor,
/// unless that is asked for, about one to a group.
pub proof fn law_no_icmpv6_error_about_group_traffic(
    net: NetModel,
    iface: IfaceHandle,
    orig: Seq<u8>,
    msg_type: icmpv6::Message,
    code: u8,
    pointer: u32,
    allow_multicast_dst: bool,
)
    requires
        ({
            let src = Ipv6Address::of(ipv6::src_octets(orig));
            let dst = Ipv6Address::of(ipv6::dst_octets(orig));
            ||| !src.unicast_view()
            ||| dst.multicast_view() && !allow_multicast_dst
        }),
    ensures
        icmpv6_error_sent(net, iface, orig, msg_type, code, pointer, allow_multicast_dst) == net,
{
}

/// What an error quotes of a packet is enough to tell the packet's flow.
pub proof fn law_quote_identifies_flow(orig: Seq<u8>)
    ensures
        icmp_error::quoted_flow(quote_v4(orig)) == icmp_error::quoted_flow(orig),
        icmp_error::quoted_flow(quote_v6(orig)) == icmp_error::quoted_flow(orig),
{
    lemma_prefix_flow(orig, 548);
    lemma_prefix_flow(orig, 1232);
}

/// The first octets of a packet tell its flow if they hold any IP header and the ports.
proof fn lemma_prefix_flow(orig: Seq<u8>, n: int)
    requires
        68 <= n,
    ensures
        icmp_error::quoted_flow(quote_of(orig, n)) == icmp_error::quoted_flow(orig),
{
    let quote = quote_of(orig, n);
    if orig.len() > n {
        assert(forall|i: int| 0 <= i < n ==> quote[i] == orig[i]);
        assert(ipv4::header_len(quote) <= 60);
        assert(ipv4::src_octets(quote) =~= ipv4::src_octets(orig));
        assert(ipv4::dst_octets(quote) =~= ipv4::dst_octets(orig));
        assert(ipv6::src_octets(quote) =~= ipv6::src_octets(orig));
        assert(ipv6::dst_octets(quote) =~= ipv6::dst_octets(orig));
    }
}

/// Build an ICMPv4 error message, quoting as much of `orig` (a whole IP packet)
/// as fits within the minimum MTU (RFC 1812 §4.3.2.3).
pub fn build_icmpv4_error(orig: &[u8], msg_type: icmpv4::Message, msg_code: u8) -> (r: PacketBuf)
    ensures
        r.wf(),
        r@ == icmpv4_error_packet(orig@, msg_type, msg_code),
        r@.data.len() <= IPV4_MIN_MTU - IPV4_HEADER_LEN,
{
    let quote = quote_slice(orig, QUOTE_MAX_V4);
    let mut message: Vec<u8> = Vec::new();
    message.push(u8::from(msg_type));
    message.push(msg_code);
    bytes::push_u16(&mut message, 0);
    bytes::push_u32(&mut message, 0);
    bytes::push_bytes(&mut message, quote);
    assert(message@ =~= seq![msg_type.number(), msg_code, 0u8, 0u8, 0u8, 0u8, 0u8, 0u8] + quote_v4(orig@));
    let mut icmp = icmpv4::Packet::new_unchecked(message.as_mut_slice());
    icmp.fill_checksum();
    PacketBuf::with_data(LINK_HEADER_LEN + IPV4_HEADER_LEN, message.as_slice())
}

/// Build an ICMPv6 error message, quoting as much of `orig` (a whole IP packet)
/// as fits within the minimum MTU (RFC 4443 §2.4). `src_addr` and `dst_addr` are
/// the addresses the error will be sent between, for the checksum. `pointer` is
/// written for parameter problem messages.
pub fn build_icmpv6_error(
    orig: &[u8],
    src_addr: &Ipv6Address,
    dst_addr: &Ipv6Address,
    msg_type: icmpv6::Message,
    msg_code: u8,
    pointer: u32,
) -> (r: PacketBuf)
    ensures
        r.wf(),
        r@ == icmpv6_error_packet(orig@, *src_addr, *dst_addr, msg_type, msg_code, pointer),
        r@.data.len() <= IPV6_MIN_MTU - IPV6_HEADER_LEN,
{
    let quote = quote_slice(orig, QUOTE_MAX_V6);
    let field: u32 = if msg_type == icmpv6::Message::ParamProblem {
        pointer
    } else {
        0
    };
    let mut message: Vec<u8> = Vec::new();
    message.push(u8::from(msg_type));
    message.push(msg_code);
    bytes::push_u16(&mut message, 0);
    bytes::push_u32(&mut message, field);
    bytes::push_bytes(&mut message, quote);
    assert(message@ =~= seq![msg_type.number(), msg_code, 0u8, 0u8] + bytes::octets32(field) + quote_v6(orig@));
    icmpv6::fill_checksum(message.as_mut_slice(), src_addr, dst_addr);
    PacketBuf::with_data(LINK_HEADER_LEN + IPV6_HEADER_LEN, message.as_slice())
}

impl Network {
    /// Transmit an ICMPv4 error message in reply to the ingress packet in `orig`
    /// (a whole IP packet, starting at the IP header, quoted in the error).
    ///
    /// Errors are only sent when both the source and the destination of the
    /// offending packet are unicast (RFC 1122 §3.2.2): none about broadcast or
    /// multicast traffic, and none to non-unicast senders.
    pub fn transmit_icmpv4_error(&mut self, iface: IfaceHandle, orig: &[u8], msg_type: icmpv4::Message, msg_code: u8)
        requires
            old(self).wf(),
            old(self)@.routes_attached(),
            old(self)@.has_iface(iface),
            orig@.len() >= IPV4_HEADER_LEN,
        ensures
            final(self).wf(),
            network::net_kept(old(self)@, final(self)@),
            final(self)@.routes_attached(),
            final(self)@ == icmpv4_error_sent(old(self)@, iface, orig@, msg_type, msg_code),
    {
        proof {
            network::lemma_net_kept_refl(self@);
        }
        let header = Ipv4Header::read(orig);
        let src_addr = header.src_addr;
        let dst_addr = header.dst_addr;
        proof {
            src_addr.lemma_of();
            dst_addr.lemma_of();
        }
        let state = self.iface_state(iface);
        if !state.is_unicast_v4(src_addr) || !state.is_unicast_v4(dst_addr) {
            return;
        }
        let reply = build_icmpv4_error(orig, msg_type, msg_code);
        self.transmit_reply(
            iface,
            reply,
            IpAddress::Ipv4(dst_addr),
            IpAddress::Ipv4(src_addr),
            IpProtocol::Icmp,
            64,
        );
    }

    /// Transmit an ICMPv6 error message in reply to the ingress packet in `orig`
    /// (a whole IP packet, starting at the IP header, quoted in the error).
    ///
    /// Errors are never sent to non-unicast sources, nor about multicast-destined
    /// packets (RFC 4443 §2.4). The exception is an unrecognized hop-by-hop option
    /// whose type demands the error even then (`allow_multicast_dst`).
    pub fn transmit_icmpv6_error(
        &mut self,
        iface: IfaceHandle,
        orig: &[u8],
        msg_type: icmpv6::Message,
        msg_code: u8,
        pointer: u32,
        allow_multicast_dst: bool,
    )
        requires
            old(self).wf(),
            old(self)@.routes_attached(),
            old(self)@.has_iface(iface),
            orig@.len() >= IPV6_HEADER_LEN,
        ensures
            final(self).wf(),
            network::net_kept(old(self)@, final(self)@),
            final(self)@.routes_attached(),
            final(self)@ == icmpv6_error_sent(
                old(self)@,
                iface,
                orig@,
                msg_type,
                msg_code,
                pointer,
                allow_multicast_dst,
            ),
    {
        proof {
            network::lemma_net_kept_refl(self@);
        }
        let header = Ipv6Header::read(orig);
        let src_addr = header.src_addr;
        let dst_addr = header.dst_addr;
        proof {
            src_addr.lemma_of();
            dst_addr.lemma_of();
        }
        if !src_addr.is_unicast() {
            return;
        }
        if dst_addr.is_multicast() && !allow_multicast_dst {
            return;
        }
        let reply_src = self.reply_source(iface, src_addr, dst_addr);
        let reply = build_icmpv6_error(orig, &reply_src, &src_addr, msg_type, msg_code, pointer);
        self.transmit_reply(
            iface,
            reply,
            IpAddress::Ipv6(reply_src),
            IpAddress::Ipv6(src_addr),
            IpProtocol::Icmpv6,
            64,
        );
    }

    /// The address an answer to a packet from `src_addr` to `dst_addr` is sent from.
    pub fn reply_source(&self, iface: IfaceHandle, src_addr: Ipv6Address, dst_addr: Ipv6Address) -> (r: Ipv6Address)
        requires
            self.wf(),
            self@.has_iface(iface),
            !src_addr.unspecified_view(),
        ensures
            r == reply_source_v6(self@, iface, src_addr, dst_addr),
    {
        if dst_addr.is_unicast() {
            dst_addr
        } else {
            let state = self.iface_state(iface);
            state.get_source_address_ipv6(&src_addr)
        }
    }
}

/// The outcome of processing a hop-by-hop options header.
#[derive(Debug, Clone, Copy)]
pub enum HopByHopAction {
    /// All options accepted, continue at the upper-layer header.
    Continue { next_header: IpProtocol, ext_len: usize },
    /// An unrecognized option requires the packet to be discarded silently.
    Discard,
    /// An unrecognized option requires the packet to be discarded and a parameter
    /// problem error sent, pointing at the offending option.
    DiscardSendError { pointer: u32, allow_multicast_dst: bool },
}

/// The outcome of the options from `at` on, `done` if all are accepted. `None` if
/// an option is malformed.
pub open spec fn options_outcome(options: Seq<u8>, at: int, done: HopByHopAction) -> Option<HopByHopAction>
    decreases options.len() - at,
{
    if at < 0 || at >= options.len() {
        Some(done)
    } else if !ipv6ext::option_fits(options, at) {
        None
    } else if ipv6ext::option_recognized(options[at]) || OptionFailureAction::of_type(options[at])
        == OptionFailureAction::Skip {
        options_outcome(options, ipv6ext::next_option(options, at), done)
    } else if OptionFailureAction::of_type(options[at]) == OptionFailureAction::Discard {
        Some(HopByHopAction::Discard)
    } else {
        Some(
            HopByHopAction::DiscardSendError {
                pointer: (IPV6_HEADER_LEN + 2 + at) as u32,
                allow_multicast_dst: OptionFailureAction::of_type(options[at])
                    == OptionFailureAction::DiscardSendError,
            },
        )
    }
}

/// The outcome of the hop-by-hop options header a payload starts with. `None` if
/// it is malformed.
pub open spec fn hop_by_hop_outcome(payload: Seq<u8>) -> Option<HopByHopAction> {
    if ipv6ext::ext_well_formed(payload) {
        options_outcome(
            payload.subrange(2, ipv6ext::ext_header_len(payload)),
            0,
            HopByHopAction::Continue {
                next_header: IpProtocol::of_number(payload[0]),
                ext_len: ipv6ext::ext_header_len(payload) as usize,
            },
        )
    } else {
        None
    }
}

/// Walk a hop-by-hop options header (`payload` starts at the extension header).
///
/// Recognized options (padding, router alert) are skipped. Unrecognized ones are
/// acted on per the two high bits of their type (RFC 8200 §4.2).
pub fn process_hop_by_hop(payload: &[u8]) -> (r: Result<HopByHopAction, Error>)
    ensures
        (match r {
            Ok(action) => Some(action),
            Err(_) => None,
        }) == hop_by_hop_outcome(payload@),
        r matches Ok(HopByHopAction::Continue { ext_len, .. }) ==> ext_len <= payload@.len() && ext_len
            == ipv6ext::ext_header_len(payload@),
{
    let ext = match Ipv6ExtHeader::parse(payload) {
        Ok(ext) => ext,
        Err(_) => return Err(Error),
    };
    let options = &payload[2..ext.header_len];
    let done = HopByHopAction::Continue { next_header: ext.next_header, ext_len: ext.header_len };
    let mut at: usize = 0;
    while at < options.len()
        invariant
            at <= options@.len(),
            options@.len() <= 2046,
            options_outcome(options@, at as int, done) == options_outcome(options@, 0, done),
            hop_by_hop_outcome(payload@) == options_outcome(options@, 0, done),
            done == (HopByHopAction::Continue { next_header: ext.next_header, ext_len: ext.header_len }),
        decreases options@.len() - at,
    {
        let len: usize = match ipv6ext::option_len(options, at) {
            Ok(len) => len,
            Err(_) => return Err(Error),
        };
        let option_type: u8 = options[at];
        if option_type != ipv6ext::OPTION_PAD1 && option_type != ipv6ext::OPTION_PADN && option_type
            != ipv6ext::OPTION_ROUTER_ALERT {
            // The option sits 2 bytes into the extension header, which itself
            // starts right after the fixed IPv6 header.
            let pointer: u32 = (IPV6_HEADER_LEN + 2 + at) as u32;
            match OptionFailureAction::from_type(option_type) {
                OptionFailureAction::Skip => {},
                OptionFailureAction::Discard => return Ok(HopByHopAction::Discard),
                OptionFailureAction::DiscardSendError => {
                    return Ok(HopByHopAction::DiscardSendError { pointer, allow_multicast_dst: true });
                },
                OptionFailureAction::DiscardSendErrorIfUnicast => {
                    return Ok(HopByHopAction::DiscardSendError { pointer, allow_multicast_dst: false });
                },
            }
        }
        at += len;
    }
    Ok(done)
}

} // verus!
