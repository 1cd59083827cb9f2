//! IPv6 headers (RFC 8200).

use vstd::prelude::*;

use crate::wire::bytes;
use crate::wire::ip::Ipv6Address;
use crate::wire::protocol::IpProtocol;
use crate::wire::Error;

verus! {

/// The length of an IPv6 header.
pub const IPV6_HEADER_LEN: usize = 40;

/// The smallest MTU an IPv6 link may have.
pub const IPV6_MIN_MTU: usize = 1280;

/// The payload length field.
pub open spec fn payload_len(data: Seq<u8>) -> int {
    bytes::be16(data, 4) as int
}

/// The source address.
pub open spec fn src_octets(data: Seq<u8>) -> Seq<u8> {
    data.subrange(8, 24)
}

/// The destination address.
pub open spec fn dst_octets(data: Seq<u8>) -> Seq<u8> {
    data.subrange(24, 40)
}

/// Whether the header is there in full and its length is consistent with the
/// data.
pub open spec fn well_formed(data: Seq<u8>) -> bool {
    data.len() >= IPV6_HEADER_LEN && IPV6_HEADER_LEN + payload_len(data) <= data.len()
}

/// The octets of a header.
#[verifier::opaque]
pub open spec fn header_octets(
    src: Seq<u8>,
    dst: Seq<u8>,
    next_header: IpProtocol,
    hop_limit: u8,
    payload_len: nat,
) -> Seq<u8> {
    seq![0x60u8, 0u8, 0u8, 0u8] + bytes::octets16(payload_len as u16) + seq![next_header.number(), hop_limit]
        + src + dst
}

/// The header fields of an IPv6 packet.
#[derive(Debug, Clone, Copy)]
pub struct Ipv6Header {
    pub version: u8,
    pub payload_len: usize,
    pub next_header: IpProtocol,
    pub hop_limit: u8,
    pub src_addr: Ipv6Address,
    pub dst_addr: Ipv6Address,
}

impl Ipv6Header {
    /// Whether these are the header fields of the packet `data`.
    pub open spec fn describes(self, data: Seq<u8>) -> bool {
        &&& self.version == data[0] / 16
        &&& self.payload_len == payload_len(data)
        &&& self.next_header == IpProtocol::of_number(data[6])
        &&& self.hop_limit == data[7]
        &&& self.src_addr.0@ == src_octets(data)
        &&& self.dst_addr.0@ == dst_octets(data)
    }

    /// Read the header of a packet. Fails exactly when it is not well-formed.
    pub fn parse(data: &[u8]) -> (r: Result<Self, Error>)
        ensures
            r is Ok <==> well_formed(data@),
            r matches Ok(h) ==> h.describes(data@),
    {
        if data.len() < IPV6_HEADER_LEN {
            return Err(Error);
        }
        let h = Self::read(data);
        if h.payload_len > data.len() - IPV6_HEADER_LEN {
            return Err(Error);
        }
        Ok(h)
    }

    /// Read the header of a packet without checking its length field.
    pub fn read(data: &[u8]) -> (r: Self)
        requires
            data@.len() >= IPV6_HEADER_LEN,
        ensures
            r.describes(data@),
    {
        Ipv6Header {
            version: data[0] / 16,
            payload_len: bytes::get_u16(data, 4) as usize,
            next_header: IpProtocol::from_u8(data[6]),
            hop_limit: data[7],
            src_addr: Ipv6Address::from_bytes(&data[8..24]),
            dst_addr: Ipv6Address::from_bytes(&data[24..40]),
        }
    }
}

/// A header starts with its version and has a fixed length.
pub proof fn lemma_header_shape(src: Seq<u8>, dst: Seq<u8>, next_header: IpProtocol, hop_limit: u8, payload_len: nat)
    requires
        src.len() == 16,
        dst.len() == 16,
    ensures
        header_octets(src, dst, next_header, hop_limit, payload_len).len() == IPV6_HEADER_LEN,
        header_octets(src, dst, next_header, hop_limit, payload_len)[0] == 0x60,
{
    reveal(header_octets);
}

/// The octets of a header.
pub fn emit_header(
    src: Ipv6Address,
    dst: Ipv6Address,
    next_header: IpProtocol,
    hop_limit: u8,
    payload_len: usize,
) -> (r: Vec<u8>)
    requires
        payload_len <= 0xffff,
    ensures
        r@ == header_octets(src.0@, dst.0@, next_header, hop_limit, payload_len as nat),
        r@.len() == IPV6_HEADER_LEN,
{
    let mut out: Vec<u8> = Vec::new();
    out.push(0x60);
    out.push(0);
    out.push(0);
    out.push(0);
    bytes::push_u16(&mut out, payload_len as u16);
    out.push(next_header.to_u8());
    out.push(hop_limit);
    bytes::push_bytes(&mut out, &src.0);
    bytes::push_bytes(&mut out, &dst.0);
    proof {
        reveal(header_octets);
        assert(out@ =~= header_octets(src.0@, dst.0@, next_header, hop_limit, payload_len as nat));
    }
    out
}

/// A packet built with a header is well-formed and carries the fields it was
/// built from.
pub proof fn law_ipv6_header_round_trip(
    src: Seq<u8>,
    dst: Seq<u8>,
    next_header: IpProtocol,
    hop_limit: u8,
    payload: Seq<u8>,
)
    requires
        src.len() == 16,
        dst.len() == 16,
        payload.len() <= 0xffff,
    ensures
        ({
            let data = header_octets(src, dst, next_header, hop_limit, payload.len()) + payload;
            &&& well_formed(data)
            &&& data[0] / 16 == 6
            &&& IPV6_HEADER_LEN + payload_len(data) == data.len()
            &&& data[6] == next_header.number()
            &&& data[7] == hop_limit
            &&& src_octets(data) == src
            &&& dst_octets(data) == dst
        }),
{
    reveal(header_octets);
    let data = header_octets(src, dst, next_header, hop_limit, payload.len()) + payload;
    assert(src_octets(data) =~= src);
    assert(dst_octets(data) =~= dst);
    assert(data[0] == 0x60);
    assert(bytes::be16(data, 4) == payload.len());
}

} // verus!
