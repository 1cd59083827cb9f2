//! Control messages: echoes and errors.

use vstd::prelude::*;

use crate::buf::PacketView;
use crate::icmp_error;
use crate::icmp_error::IcmpError;
use crate::iface::IfaceHandle;
use crate::laws;
use crate::laws::address;
use crate::laws::link as frames;
use crate::laws::packet;
use crate::laws::tcp as numbers;
use crate::stack::icmp;
use crate::stack::icmp_ingress;
use crate::stack::iface_state;
use crate::stack::iface_state::IfaceAddr;
use crate::stack::network;
use crate::stack::network::NetModel;
use crate::stack::state::StackModel;
use crate::tcp;
use crate::udp;
use crate::wire::bytes;
use crate::wire::checksum;
use crate::wire::endpoint::IpEndpoint;
use crate::wire::icmpv4;
use crate::wire::icmpv6;
use crate::wire::ip::{IpAddress, Ipv4Address, Ipv6Address};
use crate::wire::protocol::IpProtocol;
use crate::wire::tcp::TcpSeqNumber;

verus! {

/// Whether an address is that of a single host, for an interface with these addresses.
pub open spec fn lone(addrs: Seq<IfaceAddr>, addr: Ipv4Address) -> bool {
    address::single_host(IpAddress::Ipv4(addr)) && frames::goes_to_neighbor(addrs, IpAddress::Ipv4(addr))
}

pub proof fn lemma_lone(addrs: Seq<IfaceAddr>, addr: Ipv4Address)
    ensures
        iface_state::is_unicast_v4(addrs, addr) == lone(addrs, addr),
{
    address::lemma_single_host(IpAddress::Ipv4(addr));
    address::law_ipv4_classes(addr);
    if lone(addrs, addr) {
        frames::lemma_goes_to_neighbor(addrs, IpAddress::Ipv4(addr));
    }
    if iface_state::is_unicast_v4(addrs, addr) {
        assert forall|i: int| 0 <= i < addrs.len() implies !((#[trigger] addrs[i]).cidr is Ipv4
            && addrs[i].cidr->Ipv4_0.prefix_len <= 30 && address::holds(addrs[i].cidr, IpAddress::Ipv4(addr))
            && forall|k: int| addrs[i].cidr->Ipv4_0.prefix_len <= k < 32 ==> #[trigger] laws::bit(addr.0@, k)) by {
            if addrs[i].cidr is Ipv4 {
                address::law_broadcast_has_all_host_bits_set(addrs[i].cidr->Ipv4_0, addr);
            }
        }
    }
}

/// Whether octets are a control message of the given kind that gives back what another one
/// brought.
pub open spec fn mirrors(r: Seq<u8>, d: Seq<u8>, kind: u8) -> bool {
    &&& r.len() == d.len()
    &&& r[0] == kind
    &&& r[1] == 0
    &&& r.skip(4) == d.skip(4)
}

/// Whether the numbers of a message add up, alone.
pub open spec fn sound(d: Seq<u8>) -> bool {
    packet::words(d) > 0 && packet::words(d) % 0xffff == 0
}

/// An echo request from a single host to a single host is answered from where it went to
/// where it came from, with the identifier, the number and the octets that it brought.
pub proof fn law_echo_request_is_answered_v4(
    stack: StackModel,
    iface: IfaceHandle,
    src: Ipv4Address,
    dst: Ipv4Address,
    d: Seq<u8>,
)
    requires
        d.len() >= 8,
        d[0] == 8,
        d[1] == 0,
        sound(d),
        lone(stack.net.iface(iface).ip_addrs, src),
        lone(stack.net.iface(iface).ip_addrs, dst),
    ensures
        exists|r: PacketView|
            {
                &&& mirrors(r.data, d, 0)
                &&& sound(r.data)
                &&& icmp_ingress::icmpv4_processed(stack, iface, src, dst, d) == stack.with_net(
                    #[trigger] network::reply_sent(
                        stack.net,
                        iface,
                        r,
                        IpAddress::Ipv4(dst),
                        IpAddress::Ipv4(src),
                        IpProtocol::Icmp,
                        64,
                    ),
                )
            },
{
    let r = PacketView::fresh(34, icmp_ingress::echo_reply_v4(d));
    lemma_lone(stack.net.iface(iface).ip_addrs, src);
    lemma_lone(stack.net.iface(iface).ip_addrs, dst);
    packet::law_checksum_adds_up(d);
    icmp_ingress::law_echo_reply_v4_mirrors_request(d);
    packet::law_checksum_adds_up(r.data);
    assert(icmp_ingress::echoed_v4(stack.net, iface, src, dst, d) == network::reply_sent(
        stack.net,
        iface,
        r,
        IpAddress::Ipv4(dst),
        IpAddress::Ipv4(src),
        IpProtocol::Icmp,
        64,
    ));
}

/// An echo request to all is answered from the first IPv4 address of the interface. One from
/// anything but a single host, and one to a group, is not answered.
pub proof fn law_echo_request_to_all(
    stack: StackModel,
    iface: IfaceHandle,
    src: Ipv4Address,
    dst: Ipv4Address,
    d: Seq<u8>,
    k: int,
)
    requires
        d.len() >= 8,
        d[0] == 8,
        d[1] == 0,
        sound(d),
        0 <= k < stack.net.iface(iface).ip_addrs.len(),
        stack.net.iface(iface).ip_addrs[k].cidr is Ipv4,
        forall|j: int| 0 <= j < k ==> (#[trigger] stack.net.iface(iface).ip_addrs[j]).cidr is Ipv6,
    ensures
        ({
            let addrs = stack.net.iface(iface).ip_addrs;
            let after = icmp_ingress::icmpv4_processed(stack, iface, src, dst, d);
            &&& !lone(addrs, src) ==> after == stack
            &&& 0xe000_0000 <= laws::number(dst.0@) <= 0xefff_ffff && iface_state::addrs_ok(addrs) ==> after == stack
            &&& lone(addrs, src) && laws::number(dst.0@) == 0xffff_ffff ==> exists|r: PacketView|
                {
                    &&& mirrors(r.data, d, 0)
                    &&& sound(r.data)
                    &&& after == stack.with_net(
                        #[trigger] network::reply_sent(
                            stack.net,
                            iface,
                            r,
                            IpAddress::Ipv4(addrs[k].cidr->Ipv4_0.address),
                            IpAddress::Ipv4(src),
                            IpProtocol::Icmp,
                            64,
                        ),
                    )
                }
        }),
{
    let addrs = stack.net.iface(iface).ip_addrs;
    let r = PacketView::fresh(34, icmp_ingress::echo_reply_v4(d));
    lemma_lone(addrs, src);
    lemma_lone(addrs, dst);
    packet::law_checksum_adds_up(d);
    icmp_ingress::law_echo_reply_v4_mirrors_request(d);
    packet::law_checksum_adds_up(r.data);
    address::law_ipv4_classes(dst);
    lemma_first(addrs, 0, k);
    if 0xe000_0000 <= laws::number(dst.0@) <= 0xefff_ffff && iface_state::addrs_ok(addrs) {
        frames::lemma_group_is_no_broadcast(addrs, IpAddress::Ipv4(dst));
    }
    if lone(addrs, src) && laws::number(dst.0@) == 0xffff_ffff {
        assert(icmp_ingress::echoed_v4(stack.net, iface, src, dst, d) == network::reply_sent(
            stack.net,
            iface,
            r,
            IpAddress::Ipv4(addrs[k].cidr->Ipv4_0.address),
            IpAddress::Ipv4(src),
            IpProtocol::Icmp,
            64,
        ));
    }
    assert(stack.with_net(stack.net) == stack);
}

proof fn lemma_first(addrs: Seq<IfaceAddr>, from: int, k: int)
    requires
        0 <= from <= k < addrs.len(),
        addrs[k].cidr is Ipv4,
        forall|j: int| from <= j < k ==> (#[trigger] addrs[j]).cidr is Ipv6,
    ensures
        iface_state::first_ipv4(addrs, from) == Some(addrs[k].cidr->Ipv4_0.address),
    decreases k - from,
{
    if from < k {
        assert(addrs[from].cidr is Ipv6);
        lemma_first(addrs, from + 1, k);
    }
}

/// An IPv6 echo request to a single host is answered from there to where it came from.
pub proof fn law_echo_request_is_answered_v6(
    stack: StackModel,
    iface: IfaceHandle,
    on_ethernet: bool,
    src: Ipv6Address,
    dst: Ipv6Address,
    hop_limit: u8,
    d: Seq<u8>,
)
    requires
        8 <= d.len() <= 0xffff,
        d[0] == 128,
        packet::covered(src.0@, dst.0@, 58, d) % 0xffff == 0,
        address::single_host(IpAddress::Ipv6(dst)),
    ensures
        exists|r: PacketView|
            {
                &&& mirrors(r.data, d, 129)
                &&& packet::covered(dst.0@, src.0@, 58, r.data) % 0xffff == 0
                &&& icmp_ingress::icmpv6_processed(stack, iface, on_ethernet, src, dst, hop_limit, d)
                    == stack.with_net(
                    #[trigger] network::reply_sent(
                        stack.net,
                        iface,
                        r,
                        IpAddress::Ipv6(dst),
                        IpAddress::Ipv6(src),
                        IpProtocol::Icmpv6,
                        64,
                    ),
                )
            },
{
    let r = PacketView::fresh(54, icmp_ingress::echo_reply_v6(dst.0@, src.0@, d));
    address::lemma_single_host(IpAddress::Ipv6(dst));
    packet::lemma_covered(src.0@, dst.0@, 58, d);
    icmp_ingress::law_echo_reply_v6_mirrors_request(dst, src, d);
    packet::lemma_covered(dst.0@, src.0@, 58, r.data);
    assert(icmp_ingress::echoed_v6(stack.net, iface, src, dst, d) == network::reply_sent(
        stack.net,
        iface,
        r,
        IpAddress::Ipv6(dst),
        IpAddress::Ipv6(src),
        IpProtocol::Icmpv6,
        64,
    ));
}

/// An IPv6 echo request to a group is answered from the address that packets to its sender are
/// sent from.
pub proof fn law_echo_request_to_group(
    stack: StackModel,
    iface: IfaceHandle,
    on_ethernet: bool,
    src: Ipv6Address,
    dst: Ipv6Address,
    hop_limit: u8,
    d: Seq<u8>,
)
    requires
        8 <= d.len() <= 0xffff,
        d[0] == 128,
        packet::covered(src.0@, dst.0@, 58, d) % 0xffff == 0,
        dst.0@[0] == 255,
    ensures
        exists|r: PacketView, own: Ipv6Address|
            {
                &&& own == crate::stack::source::source_ipv6(stack.net.iface(iface).ip_addrs, src)
                &&& mirrors(r.data, d, 129)
                &&& packet::covered(own.0@, src.0@, 58, r.data) % 0xffff == 0
                &&& icmp_ingress::icmpv6_processed(stack, iface, on_ethernet, src, dst, hop_limit, d)
                    == stack.with_net(
                    #[trigger] network::reply_sent(
                        stack.net,
                        iface,
                        r,
                        IpAddress::Ipv6(own),
                        IpAddress::Ipv6(src),
                        IpProtocol::Icmpv6,
                        64,
                    ),
                )
            },
{
    let own = crate::stack::source::source_ipv6(stack.net.iface(iface).ip_addrs, src);
    let r = PacketView::fresh(54, icmp_ingress::echo_reply_v6(own.0@, src.0@, d));
    address::law_ipv6_classes(dst);
    packet::lemma_covered(src.0@, dst.0@, 58, d);
    icmp_ingress::law_echo_reply_v6_mirrors_request(own, src, d);
    packet::lemma_covered(own.0@, src.0@, 58, r.data);
    assert(icmp_ingress::echoed_v6(stack.net, iface, src, dst, d) == network::reply_sent(
        stack.net,
        iface,
        r,
        IpAddress::Ipv6(own),
        IpAddress::Ipv6(src),
        IpProtocol::Icmpv6,
        64,
    ));
}

/// What an IPv4 error message of a kind and a code tells.
pub open spec fn told_v4(kind: u8, code: u8) -> Option<IcmpError> {
    if kind == 3 {
        if code == 0 || code == 6 || code == 11 {
            Some(IcmpError::NetUnreachable)
        } else if code == 1 || code == 5 || code == 7 || code == 8 || code == 12 {
            Some(IcmpError::HostUnreachable)
        } else if code == 2 {
            Some(IcmpError::ProtoUnreachable)
        } else if code == 3 {
            Some(IcmpError::PortUnreachable)
        } else if code == 4 {
            Some(IcmpError::PacketTooBig)
        } else if code <= 15 {
            Some(IcmpError::Prohibited)
        } else {
            None
        }
    } else if kind == 11 {
        Some(IcmpError::TimeExceeded)
    } else if kind == 12 {
        Some(IcmpError::ParamProblem)
    } else {
        None
    }
}

/// What an IPv6 error message of a kind and a code tells.
pub open spec fn told_v6(kind: u8, code: u8) -> Option<IcmpError> {
    if kind == 1 {
        if code == 0 || code == 2 {
            Some(IcmpError::NetUnreachable)
        } else if code == 3 {
            Some(IcmpError::HostUnreachable)
        } else if code == 4 {
            Some(IcmpError::PortUnreachable)
        } else if code <= 6 {
            Some(IcmpError::Prohibited)
        } else {
            None
        }
    } else if kind == 2 {
        Some(IcmpError::PacketTooBig)
    } else if kind == 3 {
        Some(IcmpError::TimeExceeded)
    } else if kind == 4 {
        if code == 1 {
            Some(IcmpError::ProtoUnreachable)
        } else {
            Some(IcmpError::ParamProblem)
        }
    } else {
        None
    }
}

/// A sound message that is no echo request is told from its first two octets, and what it
/// tells is about the packet that it quotes. It is not answered.
pub proof fn law_message_tells_error_v4(
    stack: StackModel,
    iface: IfaceHandle,
    src: Ipv4Address,
    dst: Ipv4Address,
    d: Seq<u8>,
)
    requires
        d.len() >= 8,
        sound(d),
        d[0] != 8 || d[1] != 0,
    ensures
        icmp_ingress::icmpv4_processed(stack, iface, src, dst, d) == match told_v4(d[0], d[1]) {
            Some(error) => icmp_ingress::error_delivered(stack, error, d.skip(8)),
            None => stack,
        },
{
    packet::law_checksum_adds_up(d);
}

/// A sound message that is neither an echo request nor one between neighbors is told from its
/// first two octets, and what it tells is about the packet that it quotes. It is not answered.
pub proof fn law_message_tells_error_v6(
    stack: StackModel,
    iface: IfaceHandle,
    on_ethernet: bool,
    src: Ipv6Address,
    dst: Ipv6Address,
    hop_limit: u8,
    d: Seq<u8>,
)
    requires
        8 <= d.len() <= 0xffff,
        packet::covered(src.0@, dst.0@, 58, d) % 0xffff == 0,
        d[0] != 128,
        d[0] != 135,
        d[0] != 136,
    ensures
        icmp_ingress::icmpv6_processed(stack, iface, on_ethernet, src, dst, hop_limit, d) == match told_v6(
            d[0],
            d[1],
        ) {
            Some(error) => icmp_ingress::error_delivered(stack, error, d.skip(8)),
            None => stack,
        },
{
    packet::lemma_covered(src.0@, dst.0@, 58, d);
}

/// A message whose checksum is to be verified and does not add up makes no difference.
pub proof fn law_unsound_message_is_dropped(
    stack: StackModel,
    iface: IfaceHandle,
    src: Ipv4Address,
    dst: Ipv4Address,
    src6: Ipv6Address,
    dst6: Ipv6Address,
    on_ethernet: bool,
    hop_limit: u8,
    d: Seq<u8>,
)
    requires
        8 <= d.len() <= 0xffff,
    ensures
        stack.net.iface(iface).caps.checksum.icmpv4.rx_view() && !sound(d) ==> icmp_ingress::icmpv4_processed(
            stack,
            iface,
            src,
            dst,
            d,
        ) == stack,
        stack.net.iface(iface).caps.checksum.icmpv6.rx_view() && packet::covered(src6.0@, dst6.0@, 58, d) % 0xffff
            != 0 ==> icmp_ingress::icmpv6_processed(stack, iface, on_ethernet, src6, dst6, hop_limit, d) == stack,
{
    packet::law_checksum_adds_up(d);
    packet::lemma_covered(src6.0@, dst6.0@, 58, d);
}

/// Whether a quoted packet was sent from one end to another: `at` octets of header, and then
/// the two ports and four octets.
pub open spec fn went(q: Seq<u8>, local: IpEndpoint, remote: IpEndpoint, at: int) -> bool {
    &&& local.addr is Ipv4 == remote.addr is Ipv4
    &&& if local.addr is Ipv4 {
        &&& q[0] / 16 == 4
        &&& at == q[0] % 16 * 4
        &&& at >= 20
        &&& q.subrange(12, 16) == local.addr.octets_view()
        &&& q.subrange(16, 20) == remote.addr.octets_view()
    } else {
        &&& q[0] / 16 == 6
        &&& at == 40
        &&& q.subrange(8, 24) == local.addr.octets_view()
        &&& q.subrange(24, 40) == remote.addr.octets_view()
    }
    &&& q.len() >= at + 8
    &&& packet::word(q, at) == local.port
    &&& packet::word(q, at + 2) == remote.port
}

proof fn lemma_same_address(a: IpAddress, b: IpAddress)
    requires
        a is Ipv4 == b is Ipv4,
        a.octets_view() == b.octets_view(),
    ensures
        a == b,
{
    match (a, b) {
        (IpAddress::Ipv4(x), IpAddress::Ipv4(y)) => assert(x.0 =~= y.0),
        (IpAddress::Ipv6(x), IpAddress::Ipv6(y)) => assert(x.0 =~= y.0),
        _ => {},
    }
}

/// What a message tells gets to the socket that sent the quoted packet: one for datagrams if
/// its protocol has the number 17, one of a connection if it has the number 6.
pub proof fn law_error_gets_to_sender(
    stack: StackModel,
    error: IcmpError,
    q: Seq<u8>,
    local: IpEndpoint,
    remote: IpEndpoint,
    seq: TcpSeqNumber,
    at: int,
)
    requires
        went(q, local, remote, at),
        seq.0 == packet::long(q, at + 4),
    ensures
        ({
            let after = icmp_ingress::error_delivered(stack, error, q);
            let protocol = if local.addr is Ipv4 {
                q[9]
            } else {
                q[6]
            };
            if protocol == 17 {
                after == (StackModel {
                    udp: udp::ingress::error_delivered(stack.udp, error, local, remote),
                    ..stack
                })
            } else if protocol == 6 {
                after == (StackModel {
                    tcp: tcp::socket::error_delivered(stack.tcp, error, local, remote, seq),
                    ..stack
                })
            } else {
                after == stack
            }
        }),
{
    match local.addr {
        IpAddress::Ipv4(_) => {
            let a = Ipv4Address::of(q.subrange(12, 16));
            let b = Ipv4Address::of(q.subrange(16, 20));
            assert(a.0@ =~= q.subrange(12, 16));
            assert(b.0@ =~= q.subrange(16, 20));
            lemma_same_address(IpAddress::Ipv4(a), local.addr);
            lemma_same_address(IpAddress::Ipv4(b), remote.addr);
        },
        IpAddress::Ipv6(_) => {
            let a = Ipv6Address::of(q.subrange(8, 24));
            let b = Ipv6Address::of(q.subrange(24, 40));
            assert(a.0@ =~= q.subrange(8, 24));
            assert(b.0@ =~= q.subrange(24, 40));
            lemma_same_address(IpAddress::Ipv6(a), local.addr);
            lemma_same_address(IpAddress::Ipv6(b), remote.addr);
        },
    }
    let quoted = icmp_error::quoted_flow(q)->0;
    assert(icmp_error::quoted_flow(q) is Some);
    assert(quoted.src_addr == local.addr && quoted.dst_addr == remote.addr);
    assert(quoted.src_port == local.port && quoted.dst_port == remote.port);
    assert(quoted.tcp_seq == seq);
    assert(icmp_ingress::quoted_local(quoted) == local);
    assert(icmp_ingress::quoted_remote(quoted) == remote);
}

/// A message that quotes too little to tell whose packet it is about tells nobody.
pub proof fn law_short_quote_tells_nobody(stack: StackModel, error: IcmpError, q: Seq<u8>)
    requires
        ({
            ||| q.len() < 28
            ||| q[0] / 16 == 6 && q.len() < 48
            ||| q[0] / 16 == 4 && q.len() < q[0] % 16 * 4 + 8
            ||| q[0] / 16 != 4 && q[0] / 16 != 6
        }),
    ensures
        icmp_ingress::error_delivered(stack, error, q) == stack,
{
}

/// Whether octets are an error message of a kind and a code, with the number `field` in its
/// second four octets, that quotes the first octets of a packet: all that fit into `most`.
pub open spec fn quotes(r: Seq<u8>, kind: u8, code: u8, field: int, orig: Seq<u8>, most: int) -> bool {
    &&& r[0] == kind
    &&& r[1] == code
    &&& packet::long(r, 4) == field
    &&& r.len() == 8 + (if orig.len() < most {
        orig.len() as int
    } else {
        most
    })
    &&& forall|i: int| 0 <= i < r.len() - 8 ==> #[trigger] r[8 + i] == orig[i]
}

proof fn lemma_control_summed(plain: Seq<u8>)
    requires
        plain.len() >= 8,
    ensures
        ({
            let r = icmpv4::with_checksum(plain);
            &&& r.len() == plain.len()
            &&& forall|i: int| 0 <= i < plain.len() && i != 2 && i != 3 ==> #[trigger] r[i] == plain[i]
        }),
{
    let zeroed = bytes::overwrite(plain, 2, bytes::octets16(0));
    assert(bytes::octets16(0).len() == 2);
    assert(bytes::octets16(checksum::checksum_of(zeroed)).len() == 2);
}

pub proof fn lemma_control_summed_v6(src: Seq<u8>, dst: Seq<u8>, plain: Seq<u8>)
    requires
        plain.len() >= 8,
    ensures
        ({
            let r = icmpv6::with_checksum(src, dst, plain);
            &&& r.len() == plain.len()
            &&& forall|i: int| 0 <= i < plain.len() && i != 2 && i != 3 ==> #[trigger] r[i] == plain[i]
        }),
{
    let zeroed = bytes::overwrite(plain, 2, bytes::octets16(0));
    assert(bytes::octets16(0).len() == 2);
    assert(bytes::octets16(
        checksum::checksum_of(icmpv6::pseudo_header(src, dst, plain.len()) + zeroed),
    ).len() == 2);
}

/// An IPv4 error message, from the packet that it is about.
pub proof fn law_error_message_v4(orig: Seq<u8>, kind: u8, code: u8)
    ensures
        ({
            let r = icmp::icmpv4_error_message(orig, icmpv4::Message::of_number(kind), code);
            &&& quotes(r, kind, code, 0, orig, 548)
            &&& packet::words(r) % 0xffff == 0
        }),
{
    let message = icmpv4::Message::of_number(kind);
    let r = icmp::icmpv4_error_message(orig, message, code);
    let quote = icmp::quote_v4(orig);
    let plain = seq![message.number(), code, 0u8, 0u8, 0u8, 0u8, 0u8, 0u8] + quote;
    assert(message.number() == kind);
    lemma_control_summed(plain);
    assert(r[0] == plain[0] && r[1] == plain[1] && r[4] == plain[4] && r[5] == plain[5] && r[6] == plain[6] && r[7]
        == plain[7]);
    assert forall|i: int| 0 <= i < r.len() - 8 implies #[trigger] r[8 + i] == orig[i] by {
        assert(plain[8 + i] == quote[i]);
    }
    icmpv4::law_icmpv4_filled_checksum_verifies(plain);
    packet::law_checksum_adds_up(r);
}

/// An IPv6 error message, from the packet that it is about. One of the fourth kind points at
/// an octet of it.
pub proof fn law_error_message_v6(
    orig: Seq<u8>,
    src: Ipv6Address,
    dst: Ipv6Address,
    kind: u8,
    code: u8,
    pointer: u32,
)
    ensures
        ({
            let r = icmp::icmpv6_error_message(orig, src, dst, icmpv6::Message::of_number(kind), code, pointer);
            let field = if kind == 4 {
                pointer
            } else {
                0
            };
            &&& quotes(r, kind, code, field + 0, orig, 1232)
            &&& packet::covered(src.0@, dst.0@, 58, r) % 0xffff == 0
        }),
{
    let message = icmpv6::Message::of_number(kind);
    let r = icmp::icmpv6_error_message(orig, src, dst, message, code, pointer);
    let quote = icmp::quote_v6(orig);
    let field = if kind == 4 {
        pointer
    } else {
        0
    };
    let plain = seq![message.number(), code, 0u8, 0u8] + bytes::octets32(field) + quote;
    assert(message.number() == kind);
    assert(bytes::octets32(field).len() == 4);
    lemma_control_summed_v6(src.0@, dst.0@, plain);
    assert(r[0] == plain[0] && r[1] == plain[1]);
    assert(plain[4] == bytes::octets32(field)[0] && plain[5] == bytes::octets32(field)[1]);
    assert(plain[6] == bytes::octets32(field)[2] && plain[7] == bytes::octets32(field)[3]);
    assert(r[4] == plain[4] && r[5] == plain[5] && r[6] == plain[6] && r[7] == plain[7]);
    numbers::lemma_back32(r, 4, field);
    assert forall|i: int| 0 <= i < r.len() - 8 implies #[trigger] r[8 + i] == orig[i] by {
        assert(plain[8 + i] == quote[i]);
    }
    icmpv6::law_icmpv6_filled_checksum_verifies(src.0@, dst.0@, plain);
    packet::lemma_covered(src.0@, dst.0@, 58, r);
}

/// A packet between single hosts is reported back: from where it went to where it came from.
/// Any other packet is not.
pub proof fn law_error_goes_back_v4(
    net: NetModel,
    iface: IfaceHandle,
    orig: Seq<u8>,
    src: Ipv4Address,
    dst: Ipv4Address,
    kind: u8,
    code: u8,
)
    requires
        orig.subrange(12, 16) == src.0@,
        orig.subrange(16, 20) == dst.0@,
    ensures
        ({
            let addrs = net.iface(iface).ip_addrs;
            let after = icmp::icmpv4_error_sent(net, iface, orig, icmpv4::Message::of_number(kind), code);
            if lone(addrs, src) && lone(addrs, dst) {
                exists|r: PacketView|
                    {
                        &&& quotes(r.data, kind, code, 0, orig, 548)
                        &&& packet::words(r.data) % 0xffff == 0
                        &&& after == #[trigger] network::reply_sent(
                            net,
                            iface,
                            r,
                            IpAddress::Ipv4(dst),
                            IpAddress::Ipv4(src),
                            IpProtocol::Icmp,
                            64,
                        )
                    }
            } else {
                after == net
            }
        }),
{
    let addrs = net.iface(iface).ip_addrs;
    lemma_lone(addrs, src);
    lemma_lone(addrs, dst);
    let a = Ipv4Address::of(orig.subrange(12, 16));
    let b = Ipv4Address::of(orig.subrange(16, 20));
    assert(a.0 =~= src.0);
    assert(b.0 =~= dst.0);
    law_error_message_v4(orig, kind, code);
    if lone(addrs, src) && lone(addrs, dst) {
        let r = icmp::icmpv4_error_packet(orig, icmpv4::Message::of_number(kind), code);
        assert(icmp::icmpv4_error_sent(net, iface, orig, icmpv4::Message::of_number(kind), code)
            == network::reply_sent(net, iface, r, IpAddress::Ipv4(dst), IpAddress::Ipv4(src), IpProtocol::Icmp, 64));
    }
}

/// An IPv6 packet from a single host to a single host is reported back: from where it went to
/// where it came from. One from anything else is not, nor is one to a group unless that is
/// asked for.
pub proof fn law_error_goes_back_v6(
    net: NetModel,
    iface: IfaceHandle,
    orig: Seq<u8>,
    src: Ipv6Address,
    dst: Ipv6Address,
    kind: u8,
    code: u8,
    pointer: u32,
    about_groups: bool,
)
    requires
        orig.subrange(8, 24) == src.0@,
        orig.subrange(24, 40) == dst.0@,
    ensures
        ({
            let after = icmp::icmpv6_error_sent(
                net,
                iface,
                orig,
                icmpv6::Message::of_number(kind),
                code,
                pointer,
                about_groups,
            );
            let field = if kind == 4 {
                pointer
            } else {
                0
            };
            &&& !address::single_host(IpAddress::Ipv6(src)) ==> after == net
            &&& dst.0@[0] == 255 && !about_groups ==> after == net
            &&& address::single_host(IpAddress::Ipv6(src)) && address::single_host(IpAddress::Ipv6(dst)) ==> exists|
                r: PacketView,
            |
                {
                    &&& quotes(r.data, kind, code, field + 0, orig, 1232)
                    &&& packet::covered(dst.0@, src.0@, 58, r.data) % 0xffff == 0
                    &&& after == #[trigger] network::reply_sent(
                        net,
                        iface,
                        r,
                        IpAddress::Ipv6(dst),
                        IpAddress::Ipv6(src),
                        IpProtocol::Icmpv6,
                        64,
                    )
                }
            &&& address::single_host(IpAddress::Ipv6(src)) && dst.0@[0] == 255 && about_groups ==> exists|
                r: PacketView,
                own: Ipv6Address,
            |
                {
                    &&& own == crate::stack::source::source_ipv6(net.iface(iface).ip_addrs, src)
                    &&& quotes(r.data, kind, code, field + 0, orig, 1232)
                    &&& packet::covered(own.0@, src.0@, 58, r.data) % 0xffff == 0
                    &&& after == #[trigger] network::reply_sent(
                        net,
                        iface,
                        r,
                        IpAddress::Ipv6(own),
                        IpAddress::Ipv6(src),
                        IpProtocol::Icmpv6,
                        64,
                    )
                }
        }),
{
    address::lemma_single_host(IpAddress::Ipv6(src));
    address::lemma_single_host(IpAddress::Ipv6(dst));
    address::law_ipv6_classes(dst);
    let a = Ipv6Address::of(orig.subrange(8, 24));
    let b = Ipv6Address::of(orig.subrange(24, 40));
    assert(a.0 =~= src.0);
    assert(b.0 =~= dst.0);
    let own = icmp::reply_source_v6(net, iface, src, dst);
    law_error_message_v6(orig, own, src, kind, code, pointer);
    let r = icmp::icmpv6_error_packet(orig, own, src, icmpv6::Message::of_number(kind), code, pointer);
    if icmp::icmpv6_error_allowed(orig, about_groups) {
        assert(icmp::icmpv6_error_sent(
            net,
            iface,
            orig,
            icmpv6::Message::of_number(kind),
            code,
            pointer,
            about_groups,
        ) == network::reply_sent(net, iface, r, IpAddress::Ipv6(own), IpAddress::Ipv6(src), IpProtocol::Icmpv6, 64));
    }
}

} // verus!
