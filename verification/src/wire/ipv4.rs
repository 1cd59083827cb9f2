//! IPv4 headers (RFC 791).

use vstd::prelude::*;

use crate::wire::bytes;
use crate::wire::checksum;
use crate::wire::ip::Ipv4Address;
use crate::wire::protocol::IpProtocol;
use crate::wire::Error;

verus! {

/// The length of an IPv4 header without options.
pub const IPV4_HEADER_LEN: usize = 20;

/// The smallest MTU an IPv4 link may have that hosts must accept datagrams of.
pub const IPV4_MIN_MTU: usize = 576;

/// The header length field, in octets.
pub open spec fn header_len(data: Seq<u8>) -> int {
    (data[0] % 16) * 4
}

/// The total length field.
pub open spec fn total_len(data: Seq<u8>) -> int {
    bytes::be16(data, 2) as int
}

/// The source address.
pub open spec fn src_octets(data: Seq<u8>) -> Seq<u8> {
    data.subrange(12, 16)
}

/// The destination address.
pub open spec fn dst_octets(data: Seq<u8>) -> Seq<u8> {
    data.subrange(16, 20)
}

/// Whether the header is there in full and its lengths are consistent with the
/// data.
pub open spec fn well_formed(data: Seq<u8>) -> bool {
    &&& data.len() >= IPV4_HEADER_LEN
    &&& IPV4_HEADER_LEN <= header_len(data) <= total_len(data) <= data.len()
}

/// Whether the packet is a fragment: more fragments follow, or it does not start
/// the datagram.
pub open spec fn is_fragment(data: Seq<u8>) -> bool {
    bytes::be16(data, 6) % 0x4000 != 0
}

/// Whether the header checksum is right.
pub open spec fn checksum_ok(data: Seq<u8>) -> bool {
    checksum::ones_sum(data.take(header_len(data))) == 0xffff
}

/// The octets of a header without options, its checksum zero.
pub open spec fn header_unsummed(
    src: Seq<u8>,
    dst: Seq<u8>,
    protocol: IpProtocol,
    hop_limit: u8,
    payload_len: nat,
) -> Seq<u8> {
    seq![0x45u8, 0u8] + bytes::octets16((IPV4_HEADER_LEN + payload_len) as u16) + seq![
        0u8,
        0u8,
        0x40u8,
        0u8,
        hop_limit,
        protocol.number(),
        0u8,
        0u8,
    ] + src + dst
}

/// The octets of a header without options. The checksum is left zero when the
/// device fills it in.
#[verifier::opaque]
pub open spec fn header_octets(
    src: Seq<u8>,
    dst: Seq<u8>,
    protocol: IpProtocol,
    hop_limit: u8,
    payload_len: nat,
    sum: bool,
) -> Seq<u8> {
    let header = header_unsummed(src, dst, protocol, hop_limit, payload_len);
    if sum {
        bytes::overwrite(header, 10, bytes::octets16(checksum::checksum_of(header)))
    } else {
        header
    }
}

/// The header fields of an IPv4 packet.
#[derive(Debug, Clone, Copy)]
pub struct Ipv4Header {
    pub version: u8,
    pub header_len: usize,
    pub total_len: usize,
    pub fragment: bool,
    pub hop_limit: u8,
    pub next_header: IpProtocol,
    pub src_addr: Ipv4Address,
    pub dst_addr: Ipv4Address,
}

impl Ipv4Header {
    /// Whether these are the header fields of the packet `data`.
    pub open spec fn describes(self, data: Seq<u8>) -> bool {
        &&& self.version == data[0] / 16
        &&& self.header_len == header_len(data)
        &&& self.total_len == total_len(data)
        &&& self.fragment == is_fragment(data)
        &&& self.hop_limit == data[8]
        &&& self.next_header == IpProtocol::of_number(data[9])
        &&& self.src_addr.0@ == src_octets(data)
        &&& self.dst_addr.0@ == dst_octets(data)
    }

    /// Read the header of a packet. Fails exactly when it is not well-formed.
    pub fn parse(data: &[u8]) -> (r: Result<Self, Error>)
        ensures
            r is Ok <==> well_formed(data@),
            r matches Ok(h) ==> h.describes(data@),
    {
        if data.len() < IPV4_HEADER_LEN {
            return Err(Error);
        }
        let h = Self::read(data);
        if h.header_len < IPV4_HEADER_LEN || h.header_len > h.total_len || h.total_len > data.len() {
            return Err(Error);
        }
        Ok(h)
    }

    /// Read the header of a packet without checking its lengths.
    pub fn read(data: &[u8]) -> (r: Self)
        requires
            data@.len() >= IPV4_HEADER_LEN,
        ensures
            r.describes(data@),
    {
        Ipv4Header {
            version: data[0] / 16,
            header_len: (data[0] % 16) as usize * 4,
            total_len: bytes::get_u16(data, 2) as usize,
            fragment: bytes::get_u16(data, 6) % 0x4000 != 0,
            hop_limit: data[8],
            next_header: IpProtocol::from_u8(data[9]),
            src_addr: Ipv4Address::from_bytes(&data[12..16]),
            dst_addr: Ipv4Address::from_bytes(&data[16..20]),
        }
    }
}

/// Whether the header checksum of a packet is right.
pub fn verify_checksum(data: &[u8]) -> (r: bool)
    requires
        well_formed(data@),
    ensures
        r == checksum_ok(data@),
{
    let n: usize = (data[0] % 16) as usize * 4;
    assert(data@.subrange(0, n as int) =~= data@.take(n as int));
    checksum::data(&data[0..n]) == 0xffff
}

/// A header starts with its version and is as long as a header without options.
pub proof fn lemma_header_shape(
    src: Seq<u8>,
    dst: Seq<u8>,
    protocol: IpProtocol,
    hop_limit: u8,
    payload_len: nat,
    sum: bool,
)
    requires
        src.len() == 4,
        dst.len() == 4,
    ensures
        header_octets(src, dst, protocol, hop_limit, payload_len, sum).len() == IPV4_HEADER_LEN,
        header_octets(src, dst, protocol, hop_limit, payload_len, sum)[0] == 0x45,
{
    reveal(header_octets);
}

/// The octets of a header without options.
pub fn emit_header(
    src: Ipv4Address,
    dst: Ipv4Address,
    protocol: IpProtocol,
    hop_limit: u8,
    payload_len: usize,
    sum: bool,
) -> (r: Vec<u8>)
    requires
        payload_len + IPV4_HEADER_LEN <= 0xffff,
    ensures
        r@ == header_octets(src.0@, dst.0@, protocol, hop_limit, payload_len as nat, sum),
        r@.len() == IPV4_HEADER_LEN,
{
    let mut out: Vec<u8> = Vec::new();
    out.push(0x45);
    out.push(0);
    bytes::push_u16(&mut out, (IPV4_HEADER_LEN + payload_len) as u16);
    out.push(0);
    out.push(0);
    out.push(0x40);
    out.push(0);
    out.push(hop_limit);
    out.push(protocol.to_u8());
    out.push(0);
    out.push(0);
    bytes::push_bytes(&mut out, &src.0);
    bytes::push_bytes(&mut out, &dst.0);
    assert(out@ =~= header_unsummed(src.0@, dst.0@, protocol, hop_limit, payload_len as nat));
    if sum {
        let c: u16 = 0xffff - checksum::data(out.as_slice());
        bytes::put_u16(out.as_mut_slice(), 10, c);
    }
    proof {
        reveal(header_octets);
    }
    out
}

/// A packet built with a filled-in header is well-formed, verifies, is no
/// fragment, and carries the fields it was built from.
pub proof fn law_ipv4_header_round_trip(
    src: Seq<u8>,
    dst: Seq<u8>,
    protocol: IpProtocol,
    hop_limit: u8,
    payload: Seq<u8>,
)
    requires
        src.len() == 4,
        dst.len() == 4,
        payload.len() + IPV4_HEADER_LEN <= 0xffff,
    ensures
        ({
            let data = header_octets(src, dst, protocol, hop_limit, payload.len(), true) + payload;
            &&& well_formed(data)
            &&& checksum_ok(data)
            &&& !is_fragment(data)
            &&& data[0] / 16 == 4
            &&& header_len(data) == IPV4_HEADER_LEN
            &&& total_len(data) == data.len()
            &&& data[8] == hop_limit
            &&& data[9] == protocol.number()
            &&& src_octets(data) == src
            &&& dst_octets(data) == dst
        }),
{
    reveal(header_octets);
    let header = header_octets(src, dst, protocol, hop_limit, payload.len(), true);
    let unsummed = header_unsummed(src, dst, protocol, hop_limit, payload.len());
    let data = header + payload;
    assert(data.take(IPV4_HEADER_LEN as int) =~= Seq::<u8>::empty() + header);
    assert(Seq::<u8>::empty() + unsummed =~= unsummed);
    checksum::lemma_filled_zero_field(Seq::<u8>::empty(), unsummed, 10);
    assert(src_octets(data) =~= src);
    assert(dst_octets(data) =~= dst);
    assert(data[0] == 0x45);
    assert(bytes::be16(data, 2) == IPV4_HEADER_LEN + payload.len());
    assert(bytes::be16(data, 6) == 0x4000);
}

} // verus!
