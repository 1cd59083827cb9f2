//! The octets of packets.

use vstd::prelude::*;

use crate::buf::PacketView;
use crate::iface::Checksum;
use crate::stack::iface_state::IfaceModel;
use crate::stack::link;
use crate::stack::offload;
use crate::wire::bytes;
use crate::wire::checksum;
use crate::wire::ipv4;
use crate::wire::ipv6;
use crate::wire::protocol::{EthernetProtocol, IpProtocol};
use crate::wire::udp;

verus! {

/// The 16-bit number at `at`, the high octet first.
pub open spec fn word(s: Seq<u8>, at: int) -> int {
    s[at] * 0x100 + s[at + 1]
}

/// The 32-bit number at `at`, the high octet first.
pub open spec fn long(s: Seq<u8>, at: int) -> int {
    s[at] * 0x100_0000 + s[at + 1] * 0x1_0000 + s[at + 2] * 0x100 + s[at + 3]
}

/// The sum of the 16-bit numbers that octets hold, the last octet padded with a zero if it
/// stands alone.
pub open spec fn words(s: Seq<u8>) -> int
    decreases s.len(),
{
    if s.len() == 0 {
        0
    } else if s.len() == 1 {
        s[0] * 0x100
    } else {
        word(s, 0) + words(s.skip(2))
    }
}

pub proof fn lemma_words(s: Seq<u8>)
    ensures
        words(s) == checksum::word_sum(s),
        words(s) >= 0,
    decreases s.len(),
{
    if s.len() > 1 {
        lemma_words(s.skip(2));
    }
}

/// A checksum verifies if and only if the numbers add up to a positive multiple of 65535.
pub proof fn law_checksum_adds_up(s: Seq<u8>)
    ensures
        checksum::ones_sum(s) == 0xffff <==> words(s) > 0 && words(s) % 0xffff == 0,
{
    lemma_words(s);
    let n = words(s);
    if n > 0 {
        assert(n % 0xffff == 0 <==> (n - 1) % 0xffff == 0xfffe) by (nonlinear_arith);
    }
}

/// Whether octets are an IPv4 packet without options and not in fragments, that carries
/// `payload` of the protocol with the given number.
pub open spec fn ipv4_carries(
    p: Seq<u8>,
    src: Seq<u8>,
    dst: Seq<u8>,
    protocol: int,
    hop_limit: int,
    payload: Seq<u8>,
) -> bool {
    &&& p.len() == 20 + payload.len()
    &&& p[0] == 0x45
    &&& word(p, 2) == p.len()
    &&& word(p, 6) % 0x4000 == 0
    &&& p[8] == hop_limit
    &&& p[9] == protocol
    &&& p.subrange(12, 16) == src
    &&& p.subrange(16, 20) == dst
    &&& p.subrange(20, p.len() as int) == payload
}

/// Whether octets are an IPv6 packet that carries `payload` of the protocol with the given
/// number.
pub open spec fn ipv6_carries(
    p: Seq<u8>,
    src: Seq<u8>,
    dst: Seq<u8>,
    protocol: int,
    hop_limit: int,
    payload: Seq<u8>,
) -> bool {
    &&& p.len() == 40 + payload.len()
    &&& p[0] == 0x60
    &&& word(p, 4) == payload.len()
    &&& p[6] == protocol
    &&& p[7] == hop_limit
    &&& p.subrange(8, 24) == src
    &&& p.subrange(24, 40) == dst
    &&& p.subrange(40, p.len() as int) == payload
}

/// What leaves of a message: all of it, but for a checksum left to the device.
pub open spec fn left_of(iface: IfaceModel, protocol: IpProtocol, message: Seq<u8>) -> Seq<u8> {
    offload::emitted(iface.caps.checksum, protocol, message)
}

/// The fields of a built IPv4 packet.
pub proof fn law_ipv4_packet(
    iface: IfaceModel,
    src: Seq<u8>,
    dst: Seq<u8>,
    protocol: IpProtocol,
    hop_limit: u8,
    message: PacketView,
)
    requires
        src.len() == 4,
        dst.len() == 4,
        message.data.len() <= 0xffff - 20,
    ensures
        ({
            let packet = link::ipv4_packet(iface, src, dst, protocol, hop_limit, message);
            &&& packet.meta == message.meta
            &&& ipv4_carries(
                packet.data,
                src,
                dst,
                protocol.number() as int,
                hop_limit as int,
                left_of(iface, protocol, message.data),
            )
            &&& iface.caps.checksum.ipv4.tx_view() ==> words(packet.data.subrange(0, 20)) % 0xffff == 0
        }),
{
    reveal(ipv4::header_octets);
    let data = left_of(iface, protocol, message.data);
    let sum = iface.caps.checksum.ipv4.tx_view();
    let header = ipv4::header_octets(src, dst, protocol, hop_limit, data.len(), sum);
    let plain = ipv4::header_unsummed(src, dst, protocol, hop_limit, data.len());
    let p = header + data;
    let v = (20 + data.len()) as u16;
    assert(link::ipv4_packet(iface, src, dst, protocol, hop_limit, message).data == p);
    ipv4::lemma_header_shape(src, dst, protocol, hop_limit, data.len(), sum);
    assert(bytes::octets16(v).len() == 2);
    assert(bytes::octets16(checksum::checksum_of(plain)).len() == 2);
    assert(plain.len() == 20);
    assert forall|i: int| 0 <= i < 20 && i != 10 && i != 11 implies #[trigger] header[i] == plain[i] by {}
    assert(plain[2] == bytes::octets16(v)[0] && plain[3] == bytes::octets16(v)[1]);
    assert(header[2] == plain[2] && header[3] == plain[3]);
    assert(header[6] == plain[6] && header[7] == plain[7]);
    assert(header[8] == plain[8] && header[9] == plain[9]);
    assert(plain[6] == 0x40 && plain[7] == 0);
    assert forall|i: int| 0 <= i < 4 implies #[trigger] p.subrange(12, 16)[i] == src[i] by {
        assert(header[12 + i] == plain[12 + i]);
    }
    assert forall|i: int| 0 <= i < 4 implies #[trigger] p.subrange(16, 20)[i] == dst[i] by {
        assert(header[16 + i] == plain[16 + i]);
    }
    assert(p.subrange(12, 16) =~= src);
    assert(p.subrange(16, 20) =~= dst);
    assert(p.subrange(20, p.len() as int) =~= data);
    if sum {
        let none = Seq::<u8>::empty();
        assert(none + plain =~= plain);
        assert(plain[10] == 0 && plain[11] == 0);
        checksum::lemma_filled_zero_field(none, plain, 10);
        assert(none + header =~= header);
        assert(p.subrange(0, 20) =~= header);
        law_checksum_adds_up(header);
    }
}

/// The fields of a built IPv6 packet.
pub proof fn law_ipv6_packet(
    iface: IfaceModel,
    src: Seq<u8>,
    dst: Seq<u8>,
    protocol: IpProtocol,
    hop_limit: u8,
    message: PacketView,
)
    requires
        src.len() == 16,
        dst.len() == 16,
        message.data.len() <= 0xffff,
    ensures
        ({
            let packet = link::ipv6_packet(iface, src, dst, protocol, hop_limit, message);
            &&& packet.meta == message.meta
            &&& ipv6_carries(
                packet.data,
                src,
                dst,
                protocol.number() as int,
                hop_limit as int,
                left_of(iface, protocol, message.data),
            )
        }),
{
    reveal(ipv6::header_octets);
    let data = left_of(iface, protocol, message.data);
    let header = ipv6::header_octets(src, dst, protocol, hop_limit, data.len());
    let p = header + data;
    let v = data.len() as u16;
    assert(link::ipv6_packet(iface, src, dst, protocol, hop_limit, message).data == p);
    assert(bytes::octets16(v).len() == 2);
    assert(header.len() == 40);
    assert(header[4] == bytes::octets16(v)[0] && header[5] == bytes::octets16(v)[1]);
    assert(header[6] == protocol.number() && header[7] == hop_limit);
    assert forall|i: int| 0 <= i < 16 implies #[trigger] p.subrange(8, 24)[i] == src[i] by {
        assert(header[8 + i] == src[i]);
    }
    assert forall|i: int| 0 <= i < 16 implies #[trigger] p.subrange(24, 40)[i] == dst[i] by {
        assert(header[24 + i] == dst[i]);
    }
    assert(p.subrange(8, 24) =~= src);
    assert(p.subrange(24, 40) =~= dst);
    assert(p.subrange(40, p.len() as int) =~= data);
}

/// What is left out of a message is at most its checksum: the octets at 6 of a datagram, at
/// 16 of a segment, at 2 of a control message. If the stack computes the checksum, nothing is;
/// if the device does, they are zero.
pub proof fn law_only_checksum_is_left_out(iface: IfaceModel, protocol: IpProtocol, message: Seq<u8>)
    ensures
        ({
            let left = left_of(iface, protocol, message);
            let at = if protocol == IpProtocol::Udp {
                6int
            } else if protocol == IpProtocol::Tcp {
                16
            } else {
                2
            };
            &&& left.len() == message.len()
            &&& forall|i: int| 0 <= i < message.len() && i != at && i != at + 1 ==> #[trigger] left[i] == message[i]
            &&& message.len() >= at + 2 && {
                ||| protocol == IpProtocol::Udp && !iface.caps.checksum.udp.tx_view()
                ||| protocol == IpProtocol::Tcp && !iface.caps.checksum.tcp.tx_view()
                ||| protocol == IpProtocol::Icmp && !iface.caps.checksum.icmpv4.tx_view()
                ||| protocol == IpProtocol::Icmpv6 && !iface.caps.checksum.icmpv6.tx_view()
            } ==> word(left, at) == 0
            &&& protocol == IpProtocol::Udp && iface.caps.checksum.udp.tx_view() ==> left == message
            &&& protocol == IpProtocol::Tcp && iface.caps.checksum.tcp.tx_view() ==> left == message
            &&& protocol == IpProtocol::Icmp && iface.caps.checksum.icmpv4.tx_view() ==> left == message
            &&& protocol == IpProtocol::Icmpv6 && iface.caps.checksum.icmpv6.tx_view() ==> left == message
        }),
{
}

/// Whether octets are a UDP datagram.
pub open spec fn udp_carries(d: Seq<u8>, src_port: int, dst_port: int, payload: Seq<u8>) -> bool {
    &&& d.len() == 8 + payload.len()
    &&& word(d, 0) == src_port
    &&& word(d, 2) == dst_port
    &&& word(d, 4) == d.len()
    &&& d.subrange(8, d.len() as int) == payload
}

/// What the checksum of a transport message covers besides it: the addresses, the protocol
/// number and the length.
pub open spec fn covered(src: Seq<u8>, dst: Seq<u8>, protocol: int, d: Seq<u8>) -> int {
    words(src) + words(dst) + protocol + d.len() + words(d)
}

pub proof fn lemma_covered(src: Seq<u8>, dst: Seq<u8>, protocol: u8, d: Seq<u8>)
    requires
        src.len() == dst.len(),
        src.len() == 4 || src.len() == 16,
        d.len() <= 0xffff,
        protocol > 0,
    ensures
        checksum::ones_sum(checksum::pseudo_header(src, dst, protocol, d.len()) + d) == 0xffff <==> covered(
            src,
            dst,
            protocol as int,
            d,
        ) % 0xffff == 0,
{
    let pseudo = checksum::pseudo_header(src, dst, protocol, d.len());
    checksum::lemma_pseudo_header_sum(src, dst, protocol, d.len());
    checksum::lemma_word_sum_concat(pseudo, d);
    checksum::lemma_word_sum_two(seq![0u8, protocol]);
    if src.len() == 16 {
        let n = d.len() as u32;
        checksum::lemma_word_sum_four(bytes::octets32(n));
        assert(bytes::octets32(n)[0] == 0 && bytes::octets32(n)[1] == 0);
        assert(bytes::octets32(n)[2] * 0x100 + bytes::octets32(n)[3] == n);
    }
    lemma_words(src);
    lemma_words(dst);
    lemma_words(d);
    lemma_words(pseudo + d);
    law_checksum_adds_up(pseudo + d);
}

/// The fields of a built UDP datagram. Its checksum is not left out, and everything that it
/// covers adds up.
pub proof fn law_udp_datagram(src: Seq<u8>, src_port: u16, dst: Seq<u8>, dst_port: u16, payload: Seq<u8>)
    requires
        src.len() == dst.len(),
        src.len() == 4 || src.len() == 16,
        payload.len() <= 0xffff - 8,
    ensures
        ({
            let d = udp::header_octets(src, src_port, dst, dst_port, payload) + payload;
            &&& udp_carries(d, src_port as int, dst_port as int, payload)
            &&& word(d, 6) != 0
            &&& covered(src, dst, 17, d) % 0xffff == 0
        }),
{
    reveal(udp::header_octets);
    let header = udp::header_octets(src, src_port, dst, dst_port, payload);
    let plain = udp::header_unsummed(src_port, dst_port, payload.len());
    let d = header + payload;
    let v = (8 + payload.len()) as u16;
    udp::law_udp_round_trip(src, src_port, dst, dst_port, payload);
    assert forall|i: int| 0 <= i < 6 implies #[trigger] header[i] == plain[i] by {}
    assert(plain[0] == bytes::octets16(src_port)[0] && plain[1] == bytes::octets16(src_port)[1]);
    assert(plain[2] == bytes::octets16(dst_port)[0] && plain[3] == bytes::octets16(dst_port)[1]);
    assert(plain[4] == bytes::octets16(v)[0] && plain[5] == bytes::octets16(v)[1]);
    assert(header[0] == plain[0] && header[1] == plain[1] && header[2] == plain[2] && header[3] == plain[3]);
    assert(header[4] == plain[4] && header[5] == plain[5]);
    assert(d.subrange(8, d.len() as int) =~= payload);
    let field = udp::checksum_field(src, dst, plain + payload);
    assert(bytes::octets16(field).len() == 2);
    assert(header[6] == bytes::octets16(field)[0] && header[7] == bytes::octets16(field)[1]);
    assert(field != 0);
    assert(d.take(d.len() as int) =~= d);
    lemma_covered(src, dst, 17, d);
}

/// What a device leaves to the stack: to verify what comes in, to compute what goes out, both
/// or neither.
pub proof fn law_checksum_modes()
    ensures
        Checksum::Both.rx_view() && Checksum::Both.tx_view(),
        Checksum::Rx.rx_view() && !Checksum::Rx.tx_view(),
        !Checksum::Tx.rx_view() && Checksum::Tx.tx_view(),
        !Checksum::Ignored.rx_view() && !Checksum::Ignored.tx_view(),
{
}

/// The numbers that stand for protocols.
pub proof fn law_protocol_numbers()
    ensures
        IpProtocol::HopByHop.number() == 0,
        IpProtocol::Icmp.number() == 1,
        IpProtocol::Igmp.number() == 2,
        IpProtocol::Tcp.number() == 6,
        IpProtocol::Udp.number() == 17,
        IpProtocol::Ipv6Route.number() == 43,
        IpProtocol::Ipv6Frag.number() == 44,
        IpProtocol::IpSecEsp.number() == 50,
        IpProtocol::IpSecAh.number() == 51,
        IpProtocol::Icmpv6.number() == 58,
        IpProtocol::Ipv6NoNxt.number() == 59,
        IpProtocol::Ipv6Opts.number() == 60,
        EthernetProtocol::Ipv4.number() == 0x0800,
        EthernetProtocol::Arp.number() == 0x0806,
        EthernetProtocol::Ipv6.number() == 0x86dd,
{
}

} // verus!
