//! UDP datagrams (RFC 768).

use vstd::prelude::*;

use crate::wire::bytes;
use crate::wire::checksum;
use crate::wire::ip::IpAddress;
use crate::wire::Error;

verus! {

/// The length of a UDP header.
pub const UDP_HEADER_LEN: usize = 8;

/// The protocol number of UDP.
pub const UDP_PROTOCOL: u8 = 0x11;

pub open spec fn src_port(data: Seq<u8>) -> u16 {
    bytes::be16(data, 0)
}

pub open spec fn dst_port(data: Seq<u8>) -> u16 {
    bytes::be16(data, 2)
}

/// The length field: header and payload.
pub open spec fn udp_len(data: Seq<u8>) -> int {
    bytes::be16(data, 4) as int
}

/// Whether the datagram is there in full.
pub open spec fn well_formed(data: Seq<u8>) -> bool {
    data.len() >= UDP_HEADER_LEN && UDP_HEADER_LEN <= udp_len(data) <= data.len()
}

/// Whether the checksum is right. A zero checksum means none was computed.
pub open spec fn checksum_ok(src: Seq<u8>, dst: Seq<u8>, data: Seq<u8>) -> bool {
    let datagram = data.take(udp_len(data));
    bytes::be16(data, 6) == 0 || checksum::ones_sum(
        checksum::pseudo_header(src, dst, UDP_PROTOCOL, datagram.len()) + datagram,
    ) == 0xffff
}

/// The octets of a header, its checksum zero.
pub open spec fn header_unsummed(src_port: u16, dst_port: u16, payload_len: nat) -> Seq<u8> {
    bytes::octets16(src_port) + bytes::octets16(dst_port) + bytes::octets16((UDP_HEADER_LEN + payload_len) as u16)
        + seq![0u8, 0u8]
}

/// The checksum field of a datagram. A checksum that comes out as zero is sent as
/// all ones, since zero stands for no checksum.
pub open spec fn checksum_field(src: Seq<u8>, dst: Seq<u8>, unsummed: Seq<u8>) -> u16 {
    let c = checksum::checksum_of(checksum::pseudo_header(src, dst, UDP_PROTOCOL, unsummed.len()) + unsummed);
    if c == 0 {
        0xffff
    } else {
        c
    }
}

/// The octets of a header.
#[verifier::opaque]
pub open spec fn header_octets(
    src: Seq<u8>,
    src_port: u16,
    dst: Seq<u8>,
    dst_port: u16,
    payload: Seq<u8>,
) -> Seq<u8> {
    let header = header_unsummed(src_port, dst_port, payload.len());
    bytes::overwrite(header, 6, bytes::octets16(checksum_field(src, dst, header + payload)))
}

/// The header fields of a UDP datagram.
#[derive(Debug, Clone, Copy)]
pub struct UdpHeader {
    pub src_port: u16,
    pub dst_port: u16,
    pub len: usize,
}

impl UdpHeader {
    /// Whether these are the header fields of `data`.
    pub open spec fn describes(self, data: Seq<u8>) -> bool {
        &&& self.src_port == src_port(data)
        &&& self.dst_port == dst_port(data)
        &&& self.len == udp_len(data)
    }

    /// Read the header of a datagram. Fails exactly when it is not well-formed.
    pub fn parse(data: &[u8]) -> (r: Result<Self, Error>)
        ensures
            r is Ok <==> well_formed(data@),
            r matches Ok(h) ==> h.describes(data@),
    {
        if data.len() < UDP_HEADER_LEN {
            return Err(Error);
        }
        let h = Self::read(data);
        if h.len < UDP_HEADER_LEN || h.len > data.len() {
            return Err(Error);
        }
        Ok(h)
    }

    /// Read the header of a datagram without checking its length field.
    pub fn read(data: &[u8]) -> (r: Self)
        requires
            data@.len() >= UDP_HEADER_LEN,
        ensures
            r.describes(data@),
    {
        UdpHeader {
            src_port: bytes::get_u16(data, 0),
            dst_port: bytes::get_u16(data, 2),
            len: bytes::get_u16(data, 4) as usize,
        }
    }
}

/// Validate the checksum of a datagram.
pub fn verify_checksum(data: &[u8], src: &IpAddress, dst: &IpAddress) -> (r: bool)
    requires
        well_formed(data@),
    ensures
        r == checksum_ok(src.octets_view(), dst.octets_view(), data@),
{
    if bytes::get_u16(data, 6) == 0 {
        return true;
    }
    let n: usize = bytes::get_u16(data, 4) as usize;
    assert(data@.subrange(0, n as int) =~= data@.take(n as int));
    checksum::with_pseudo_header(src, dst, UDP_PROTOCOL, &data[0..n]) == 0xffff
}

/// The octets of a header for `payload`.
pub fn emit_header(src: &IpAddress, src_port: u16, dst: &IpAddress, dst_port: u16, payload: &[u8]) -> (r: Vec<u8>)
    requires
        payload@.len() + UDP_HEADER_LEN <= 0xffff,
    ensures
        r@ == header_octets(src.octets_view(), src_port, dst.octets_view(), dst_port, payload@),
        r@.len() == UDP_HEADER_LEN,
{
    let mut out: Vec<u8> = Vec::new();
    bytes::push_u16(&mut out, src_port);
    bytes::push_u16(&mut out, dst_port);
    bytes::push_u16(&mut out, (UDP_HEADER_LEN + payload.len()) as u16);
    out.push(0);
    out.push(0);
    assert(out@ =~= header_unsummed(src_port, dst_port, payload@.len()));
    let ghost header = out@;
    bytes::push_bytes(&mut out, payload);
    let c: u16 = 0xffff - checksum::with_pseudo_header(src, dst, UDP_PROTOCOL, out.as_slice());
    let field: u16 = if c == 0 {
        0xffff
    } else {
        c
    };
    out.truncate(UDP_HEADER_LEN);
    assert(out@ =~= header);
    bytes::put_u16(out.as_mut_slice(), 6, field);
    proof {
        reveal(header_octets);
    }
    out
}

/// A datagram built with a filled-in header is well-formed, verifies, and carries
/// the fields it was built from.
pub proof fn law_udp_round_trip(src: Seq<u8>, sport: u16, dst: Seq<u8>, dport: u16, payload: Seq<u8>)
    requires
        payload.len() + UDP_HEADER_LEN <= 0xffff,
        src.len() % 2 == 0,
        dst.len() % 2 == 0,
    ensures
        ({
            let data = header_octets(src, sport, dst, dport, payload) + payload;
            &&& well_formed(data)
            &&& checksum_ok(src, dst, data)
            &&& src_port(data) == sport
            &&& dst_port(data) == dport
            &&& udp_len(data) == data.len()
            &&& data.skip(UDP_HEADER_LEN as int) == payload
        }),
        header_octets(src, sport, dst, dport, payload).len() == UDP_HEADER_LEN,
{
    reveal(header_octets);
    let header = header_unsummed(sport, dport, payload.len());
    let unsummed = header + payload;
    let prefix = checksum::pseudo_header(src, dst, UDP_PROTOCOL, unsummed.len());
    let data = header_octets(src, sport, dst, dport, payload) + payload;
    let field = checksum_field(src, dst, unsummed);
    assert(data =~= bytes::overwrite(unsummed, 6, bytes::octets16(field)));
    assert(bytes::be16(data, 0) == sport);
    assert(bytes::be16(data, 2) == dport);
    assert(bytes::be16(data, 4) == UDP_HEADER_LEN + payload.len());
    assert(data.skip(UDP_HEADER_LEN as int) =~= payload);
    assert(data.take(data.len() as int) =~= data);
    assert(prefix.len() % 2 == 0);
    checksum::lemma_any_complement_verifies(prefix, unsummed, 6, field);
}

} // verus!
