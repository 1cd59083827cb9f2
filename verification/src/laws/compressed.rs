//! Compressed headers and fragments on low-power links.

use vstd::prelude::*;

use crate::laws::packet;
use crate::laws::tcp as numbers;
use crate::wire::bytes;
use crate::wire::sixlowpan::frag;
use crate::wire::sixlowpan::nhc;
use crate::wire::sixlowpan::nhc::{ExtHeaderId, ExtHeaderRepr, NhcPacket, UdpNhcRepr};
use crate::wire::sixlowpan::NextHeader;

verus! {

/// Compressed headers are told by their first octet: those of extensions from 0xe0 to 0xef,
/// those of datagrams from 0xf0 to 0xf7.
pub proof fn law_compressed_headers_are_told_apart(d: Seq<u8>)
    requires
        d.len() > 0,
    ensures
        NhcPacket::of(d) == if 0xe0 <= d[0] <= 0xef {
            Some(NhcPacket::ExtHeader)
        } else if 0xf0 <= d[0] <= 0xf7 {
            Some(NhcPacket::UdpHeader)
        } else {
            None
        },
{
}

/// The number of a kind of extension.
pub open spec fn ext_number(id: ExtHeaderId) -> int {
    match id {
        ExtHeaderId::HopByHopHeader => 0,
        ExtHeaderId::RoutingHeader => 1,
        ExtHeaderId::FragmentHeader => 2,
        ExtHeaderId::DestinationOptionsHeader => 3,
        ExtHeaderId::MobilityHeader => 4,
        ExtHeaderId::Reserved => 5,
        ExtHeaderId::Header => 7,
    }
}

/// The octets of a compressed extension header: its kind, whether what follows is compressed
/// too, the number of what follows if it is not, and its length.
pub proof fn law_ext_header_octets(header: ExtHeaderRepr)
    ensures
        ({
            let o = header.octets();
            match header.next_header {
                NextHeader::Compressed => {
                    &&& o.len() == 2
                    &&& o[0] == 0xe1 + 2 * ext_number(header.ext_header_id)
                    &&& o[1] == header.length
                },
                NextHeader::Uncompressed(nh) => {
                    &&& o.len() == 3
                    &&& o[0] == 0xe0 + 2 * ext_number(header.ext_header_id)
                    &&& o[1] == nh.number()
                    &&& o[2] == header.length
                },
            }
        }),
        header.ext_header_id.protocol().number() == (match header.ext_header_id {
            ExtHeaderId::RoutingHeader => 43,
            ExtHeaderId::FragmentHeader => 44,
            ExtHeaderId::DestinationOptionsHeader => 60,
            _ => 0int,
        }),
{
}

/// A compressed extension header is read from its octets.
pub proof fn law_ext_header_is_read(d: Seq<u8>)
    requires
        d.len() >= 3,
    ensures
        nhc::ext_well_formed(d),
        ({
            let header = ExtHeaderRepr::of(d);
            let kind = d[0] / 2 % 8;
            &&& if kind == 6 {
                header.ext_header_id == ExtHeaderId::Reserved
            } else {
                ext_number(header.ext_header_id) == kind
            }
            &&& if d[0] % 2 == 1 {
                header.next_header is Compressed && header.length == d[1]
            } else {
                &&& header.next_header is Uncompressed
                &&& header.next_header->Uncompressed_0.number() == d[1]
                &&& header.length == d[2]
            }
        }),
{
}

/// The ports of a compressed datagram header. The low two bits of the first octet say in how
/// many octets they stand: both in 16 bits each, the one for the destination or the one for
/// the source without its high octet 0xf0, or both in one octet, behind 0xf0b.
pub proof fn law_compressed_ports_are_read(d: Seq<u8>)
    requires
        d.len() >= 7,
    ensures
        ({
            let s = nhc::udp_src_port(d);
            let t = nhc::udp_dst_port(d);
            let sum = if d[0] / 4 % 2 == 1 {
                0int
            } else {
                2
            };
            &&& d[0] % 4 == 0 ==> s == packet::word(d, 1) && t == packet::word(d, 3) && nhc::udp_header_len(d) == 5
                + sum
            &&& d[0] % 4 == 1 ==> s == packet::word(d, 1) && t == 0xf000 + d[3] && nhc::udp_header_len(d) == 4 + sum
            &&& d[0] % 4 == 2 ==> s == 0xf000 + d[1] && t == packet::word(d, 2) && nhc::udp_header_len(d) == 4 + sum
            &&& d[0] % 4 == 3 ==> s == 0xf0b0 + d[1] / 16 && t == 0xf0b0 + d[1] % 16 && nhc::udp_header_len(d) == 2
                + sum
        }),
{
}

/// The octets of the ports of a compressed datagram header, in the shortest form that holds
/// them.
pub proof fn law_compressed_ports(src: u16, dst: u16)
    ensures
        ({
            let o = nhc::port_octets(src, dst);
            let mode = nhc::mode_for(src, dst);
            if 0xf0b0 <= src < 0xf0c0 && 0xf0b0 <= dst < 0xf0c0 {
                mode == 3 && o.len() == 1 && o[0] == (src - 0xf0b0) * 16 + (dst - 0xf0b0)
            } else if 0xf000 <= src < 0xf100 {
                mode == 2 && o.len() == 3 && o[0] == src - 0xf000 && packet::word(o, 1) == dst
            } else if 0xf000 <= dst < 0xf100 {
                mode == 1 && o.len() == 3 && packet::word(o, 0) == src && o[2] == dst - 0xf000
            } else {
                mode == 0 && o.len() == 4 && packet::word(o, 0) == src && packet::word(o, 2) == dst
            }
        }),
{
    let o = nhc::port_octets(src, dst);
    let mode = nhc::mode_for(src, dst);
    assert(bytes::octets16(src).len() == 2 && bytes::octets16(dst).len() == 2);
    if mode == 2 {
        assert(o[1] == bytes::octets16(dst)[0] && o[2] == bytes::octets16(dst)[1]);
        numbers::lemma_back16(o, 1, dst);
    } else if mode == 1 {
        assert(o[0] == bytes::octets16(src)[0] && o[1] == bytes::octets16(src)[1]);
        numbers::lemma_back16(o, 0, src);
    } else if mode == 0 {
        assert(o[0] == bytes::octets16(src)[0] && o[1] == bytes::octets16(src)[1]);
        assert(o[2] == bytes::octets16(dst)[0] && o[3] == bytes::octets16(dst)[1]);
        numbers::lemma_back16(o, 0, src);
        numbers::lemma_back16(o, 2, dst);
    }
}

/// A compressed datagram header with its ports and its checksum: the first octet, the ports
/// behind it, and the checksum behind them, which is not left out.
pub proof fn law_compressed_datagram_header(header: UdpNhcRepr, d: Seq<u8>, sum: u16)
    requires
        d.len() >= header.header_len_view(),
    ensures
        ({
            let out = nhc::with_checksum(header.written(d), sum);
            let ports = nhc::port_octets(header.src_port, header.dst_port);
            let n = ports.len() as int;
            &&& out.len() == d.len()
            &&& out[0] == 0xf0 + nhc::mode_for(header.src_port, header.dst_port)
            &&& out.subrange(1, 1 + n) == ports
            &&& packet::word(out, 1 + n) == sum
            &&& out.skip(3 + n) == d.skip(3 + n)
        }),
{
    let written = header.written(d);
    let out = nhc::with_checksum(written, sum);
    let ports = nhc::port_octets(header.src_port, header.dst_port);
    let mode = nhc::mode_for(header.src_port, header.dst_port);
    let n = ports.len() as int;
    law_compressed_ports(header.src_port, header.dst_port);
    assert(bytes::octets16(sum).len() == 2);
    let first = d.update(0, (0xf0 + d[0] % 8) as u8);
    assert(first[0] / 4 * 4 == 0xf0 || first[0] / 4 * 4 == 0xf4);
    assert(written[0] == first[0] / 4 * 4 + mode);
    assert(nhc::udp_ports_mode(written) == mode);
    assert(out[0] == 0xf0 + mode);
    assert(nhc::ports_size_of(mode) == n);
    assert(out[1 + n] == bytes::octets16(sum)[0] && out[2 + n] == bytes::octets16(sum)[1]);
    numbers::lemma_back16(out, 1 + n, sum);
    assert forall|i: int| 0 <= i < n implies #[trigger] out.subrange(1, 1 + n)[i] == ports[i] by {
        assert(written[1 + i] == ports[i]);
        assert(out[1 + i] == written[1 + i]);
    }
    assert(out.subrange(1, 1 + n) =~= ports);
    assert(out.skip(3 + n) =~= d.skip(3 + n));
}

/// Fragments are told by their first five bits. They give the size of the whole packet in the
/// next eleven, then a tag; all but the first also give where they belong.
pub proof fn law_fragment_is_read(d: Seq<u8>)
    requires
        d.len() >= 5,
    ensures
        ({
            let first = 0xc0 <= d[0] <= 0xc7;
            let next = 0xe0 <= d[0] <= 0xe7;
            &&& frag::well_formed(d) == (first || next)
            &&& first ==> {
                &&& frag::header_len_of(d) == Some(4int)
                &&& frag::Repr::of(d) is FirstFragment
                &&& frag::Repr::of(d)->FirstFragment_size == packet::word(d, 0) - 0xc000
                &&& frag::Repr::of(d)->FirstFragment_tag == packet::word(d, 2)
            }
            &&& next ==> {
                &&& frag::header_len_of(d) == Some(5int)
                &&& frag::Repr::of(d) is Fragment
                &&& frag::Repr::of(d)->Fragment_size == packet::word(d, 0) - 0xe000
                &&& frag::Repr::of(d)->Fragment_tag == packet::word(d, 2)
                &&& frag::Repr::of(d)->offset == d[4]
            }
        }),
{
}

} // verus!
