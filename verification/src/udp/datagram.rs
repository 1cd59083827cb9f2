//! Queued datagrams: whole IP packets, validated on ingress.

use vstd::prelude::*;
use vstd::std_specs::cmp::PartialEqSpecImpl;
use vstd::std_specs::convert::{FromSpecImpl, IntoSpec};

use crate::buf::{PacketBuf, PacketView};
use crate::meta::PacketMeta;
use crate::wire::endpoint::IpEndpoint;
use crate::wire::ip::{IpAddress, IpVersion, Ipv4Address, Ipv6Address};
use crate::wire::ipv4;
use crate::wire::ipv4::{Ipv4Header, IPV4_HEADER_LEN};
use crate::wire::ipv6;
use crate::wire::ipv6::{Ipv6Header, IPV6_HEADER_LEN};
use crate::wire::ipv6ext;
use crate::wire::protocol::IpProtocol;
use crate::wire::udp;
use crate::wire::udp::{UdpHeader, UDP_HEADER_LEN};

verus! {

/// Metadata for a sent or received UDP datagram.
#[derive(Debug, Eq, Clone, Copy)]
pub struct UdpMetadata {
    /// The remote endpoint: the sender of an incoming datagram, or the destination of
    /// an outgoing one.
    pub endpoint: IpEndpoint,
    /// The local address: the destination of an incoming datagram (always set), or
    /// the source of an outgoing one. If not set on an outgoing datagram (and the
    /// socket is not bound to a single address), a suitable source address is
    /// selected automatically.
    pub local_address: Option<IpAddress>,
    /// The packet's metadata.
    pub meta: PacketMeta,
}

impl PartialEq for UdpMetadata {
    fn eq(&self, other: &Self) -> (r: bool) {
        let same_local = match (self.local_address, other.local_address) {
            (Some(a), Some(b)) => a == b,
            (None, None) => true,
            _ => false,
        };
        self.endpoint == other.endpoint && same_local && self.meta == other.meta
    }
}

impl PartialEqSpecImpl for UdpMetadata {
    open spec fn obeys_eq_spec() -> bool {
        true
    }

    open spec fn eq_spec(&self, other: &Self) -> bool {
        *self == *other
    }
}

impl UdpMetadata {
    /// The metadata of a datagram to an endpoint, everything else left open.
    pub open spec fn to_endpoint(endpoint: IpEndpoint) -> Self {
        UdpMetadata { endpoint, local_address: None, meta: PacketMeta::none() }
    }
}

impl<T: Into<IpEndpoint>> From<T> for UdpMetadata {
    fn from(value: T) -> (r: Self)
        ensures
            exists|endpoint: IpEndpoint| #[trigger]
                call_ensures(T::into, (value,), endpoint) && r == UdpMetadata::to_endpoint(endpoint),
    {
        UdpMetadata { endpoint: value.into(), local_address: None, meta: PacketMeta::default() }
    }
}

impl<T: Into<IpEndpoint>> FromSpecImpl<T> for UdpMetadata {
    open spec fn obeys_from_spec() -> bool {
        T::obeys_into_spec()
    }

    open spec fn from_spec(value: T) -> Self {
        UdpMetadata::to_endpoint(value.into_spec())
    }
}

/// Where the payload of an IP packet starts, behind the IP header and, on IPv6, a
/// hop-by-hop options header. `None` if the headers are not there in full.
pub open spec fn l4_offset(data: Seq<u8>) -> Option<int> {
    if data.len() == 0 {
        None
    } else {
        match IpVersion::of_packet_view(data) {
            Some(IpVersion::Ipv4) => if data.len() >= IPV4_HEADER_LEN && ipv4::header_len(data)
                >= IPV4_HEADER_LEN {
                Some(ipv4::header_len(data))
            } else {
                None
            },
            Some(IpVersion::Ipv6) => if data.len() < IPV6_HEADER_LEN {
                None
            } else if IpProtocol::of_number(data[6]) == IpProtocol::HopByHop {
                if data.len() >= IPV6_HEADER_LEN + 2 {
                    Some(IPV6_HEADER_LEN + ipv6ext::ext_header_len(data.skip(IPV6_HEADER_LEN as int)))
                } else {
                    None
                }
            } else {
                Some(IPV6_HEADER_LEN as int)
            },
            None => None,
        }
    }
}

/// Whether the data is a whole IP packet carrying a whole UDP datagram.
pub open spec fn datagram_ok(data: Seq<u8>) -> bool {
    match l4_offset(data) {
        Some(at) => at <= data.len() && udp::well_formed(data.skip(at)),
        None => false,
    }
}

/// The source address of an IP packet.
pub open spec fn packet_src(data: Seq<u8>) -> IpAddress {
    match IpVersion::of_packet_view(data) {
        Some(IpVersion::Ipv4) => IpAddress::Ipv4(Ipv4Address::of(ipv4::src_octets(data))),
        _ => IpAddress::Ipv6(Ipv6Address::of(ipv6::src_octets(data))),
    }
}

/// The destination address of an IP packet.
pub open spec fn packet_dst(data: Seq<u8>) -> IpAddress {
    match IpVersion::of_packet_view(data) {
        Some(IpVersion::Ipv4) => IpAddress::Ipv4(Ipv4Address::of(ipv4::dst_octets(data))),
        _ => IpAddress::Ipv6(Ipv6Address::of(ipv6::dst_octets(data))),
    }
}

/// The metadata of a received datagram: who sent it and to which address.
pub open spec fn received_meta(packet: PacketView) -> UdpMetadata {
    let at = l4_offset(packet.data)->0;
    UdpMetadata {
        endpoint: IpEndpoint { addr: packet_src(packet.data), port: udp::src_port(packet.data.skip(at)) },
        local_address: Some(packet_dst(packet.data)),
        meta: packet.meta,
    }
}

/// The payload of a received datagram.
pub open spec fn received_payload(data: Seq<u8>) -> Seq<u8> {
    let at = l4_offset(data)->0;
    data.subrange(at + UDP_HEADER_LEN, at + udp::udp_len(data.skip(at)))
}

/// Parse the addresses and the payload location out of a queued datagram (a full IP
/// packet starting at the IP header): its metadata, and where its payload starts and
/// ends.
///
/// The packet was validated on ingress, so this cannot fail.
pub fn parse_datagram(buf: &PacketBuf) -> (r: (UdpMetadata, usize, usize))
    requires
        buf.wf(),
        datagram_ok(buf@.data),
    ensures
        r.0 == received_meta(buf@),
        r.1 <= r.2 <= buf@.data.len(),
        buf@.data.subrange(r.1 as int, r.2 as int) == received_payload(buf@.data),
{
    let data = buf.as_slice();
    proof {
        buf.lemma_fits();
    }
    let (src_addr, dst_addr, header_len): (IpAddress, IpAddress, usize) = match IpVersion::of_packet(data) {
        Ok(IpVersion::Ipv4) => {
            let packet = Ipv4Header::read(data);
            proof {
                packet.src_addr.lemma_of();
                packet.dst_addr.lemma_of();
            }
            (IpAddress::Ipv4(packet.src_addr), IpAddress::Ipv4(packet.dst_addr), packet.header_len)
        },
        _ => {
            let packet = Ipv6Header::read(data);
            proof {
                packet.src_addr.lemma_of();
                packet.dst_addr.lemma_of();
            }
            let header_len: usize = if packet.next_header == IpProtocol::HopByHop {
                assert(data@.skip(IPV6_HEADER_LEN as int)[1] == data@[IPV6_HEADER_LEN + 1]);
                IPV6_HEADER_LEN + (data[IPV6_HEADER_LEN + 1] as usize + 1) * 8
            } else {
                IPV6_HEADER_LEN
            };
            (IpAddress::Ipv6(packet.src_addr), IpAddress::Ipv6(packet.dst_addr), header_len)
        },
    };
    assert(l4_offset(data@) == Some(header_len as int));
    let n: usize = data.len();
    let datagram = &data[header_len..n];
    assert(datagram@ =~= data@.skip(header_len as int));
    let header = UdpHeader::read(datagram);
    let meta = UdpMetadata {
        endpoint: IpEndpoint::new(src_addr, header.src_port),
        local_address: Some(dst_addr),
        meta: buf.meta(),
    };
    (meta, header_len + UDP_HEADER_LEN, header_len + header.len)
}

/// A received UDP datagram. Derefs to the UDP payload.
///
/// This is zero-copy, it contains the owned buffer the packet arrived in. Dropping it frees the buffer.
#[derive(Debug)]
pub struct RecvPacket {
    buf: PacketBuf,
    meta: UdpMetadata,
    start: usize,
    end: usize,
}

impl RecvPacket {
    /// The payload lies within the buffer.
    #[verifier::type_invariant]
    spec fn wf(self) -> bool {
        self.buf.wf() && self.start <= self.end <= self.buf@.data.len()
    }

    /// The datagram's metadata.
    pub closed spec fn meta_view(&self) -> UdpMetadata {
        self.meta
    }

    /// The UDP payload.
    pub closed spec fn payload_view(&self) -> Seq<u8> {
        self.buf@.data.subrange(self.start as int, self.end as int)
    }

    /// Take a datagram apart.
    pub fn new(buf: PacketBuf) -> (r: Self)
        requires
            buf.wf(),
            datagram_ok(buf@.data),
        ensures
            r.meta_view() == received_meta(buf@),
            r.payload_view() == received_payload(buf@.data),
    {
        let (meta, start, end) = parse_datagram(&buf);
        RecvPacket { buf, meta, start, end }
    }

    /// The datagram's metadata: remote endpoint and local address.
    pub fn meta(&self) -> (r: UdpMetadata)
        ensures
            r == self.meta_view(),
    {
        self.meta
    }

    /// The UDP payload.
    pub fn payload(&self) -> (r: &[u8])
        ensures
            r@ == self.payload_view(),
    {
        proof {
            use_type_invariant(self);
        }
        let data = self.buf.as_slice();
        &data[self.start..self.end]
    }
}

impl std::ops::Deref for RecvPacket {
    type Target = [u8];

    fn deref(&self) -> (r: &[u8])
        ensures
            r@ == self.payload_view(),
    {
        self.payload()
    }
}

/// Cutting off what is behind a datagram leaves the packet whole and keeps what
/// it carries.
pub proof fn lemma_truncated_datagram(data: Seq<u8>, at: int)
    requires
        l4_offset(data) == Some(at),
        at <= data.len(),
        udp::well_formed(data.skip(at)),
    ensures
        ({
            let cut = data.take(at + udp::udp_len(data.skip(at)));
            &&& l4_offset(cut) == Some(at)
            &&& datagram_ok(cut)
            &&& packet_src(cut) == packet_src(data)
            &&& packet_dst(cut) == packet_dst(data)
            &&& received_payload(cut) == received_payload(data)
            &&& udp::src_port(cut.skip(at)) == udp::src_port(data.skip(at))
        }),
{
    let n = at + udp::udp_len(data.skip(at));
    let cut = data.take(n);
    assert(IpVersion::of_packet_view(cut) == IpVersion::of_packet_view(data));
    if IpVersion::of_packet_view(data) == Some(IpVersion::Ipv4) {
        assert(ipv4::src_octets(cut) =~= ipv4::src_octets(data));
        assert(ipv4::dst_octets(cut) =~= ipv4::dst_octets(data));
    } else {
        assert(ipv6::src_octets(cut) =~= ipv6::src_octets(data));
        assert(ipv6::dst_octets(cut) =~= ipv6::dst_octets(data));
        if data.len() >= IPV6_HEADER_LEN + 2 && n >= IPV6_HEADER_LEN + 2 {
            assert(cut.skip(IPV6_HEADER_LEN as int)[1] == data.skip(IPV6_HEADER_LEN as int)[1]);
        }
    }
    assert(l4_offset(cut) == Some(at));
    assert(cut.skip(at) =~= data.skip(at).take(udp::udp_len(data.skip(at))));
    assert(received_payload(cut) =~= received_payload(data));
}

/// What a packet made of an IP header and a datagram carries.
proof fn lemma_datagram_behind_header(data: Seq<u8>, header: Seq<u8>, datagram: Seq<u8>, payload: Seq<u8>)
    requires
        data == header + datagram,
        l4_offset(data) == Some(header.len() as int),
        udp::well_formed(datagram),
        udp::udp_len(datagram) == datagram.len(),
        datagram.skip(UDP_HEADER_LEN as int) == payload,
    ensures
        datagram_ok(data),
        data.skip(header.len() as int) == datagram,
        received_payload(data) == payload,
{
    assert(data.skip(header.len() as int) =~= datagram);
    assert(received_payload(data) =~= datagram.skip(UDP_HEADER_LEN as int));
}

/// What an IPv4 packet carrying a datagram carries.
proof fn lemma_ipv4_datagram(
    src: Ipv4Address,
    dst: Ipv4Address,
    sport: u16,
    header: Seq<u8>,
    datagram: Seq<u8>,
    payload: Seq<u8>,
    packet: PacketView,
)
    requires
        packet.data == header + datagram,
        header.len() == IPV4_HEADER_LEN,
        packet.data[0] / 16 == 4,
        ipv4::header_len(packet.data) == IPV4_HEADER_LEN,
        ipv4::src_octets(packet.data) == src.0@,
        ipv4::dst_octets(packet.data) == dst.0@,
        udp::well_formed(datagram),
        udp::udp_len(datagram) == datagram.len(),
        udp::src_port(datagram) == sport,
        datagram.skip(UDP_HEADER_LEN as int) == payload,
    ensures
        datagram_ok(packet.data),
        received_payload(packet.data) == payload,
        received_meta(packet).endpoint == (IpEndpoint { addr: IpAddress::Ipv4(src), port: sport }),
        received_meta(packet).local_address == Some(IpAddress::Ipv4(dst)),
{
    lemma_datagram_behind_header(packet.data, header, datagram, payload);
    src.lemma_of();
    dst.lemma_of();
}

/// A datagram that is sent in an IPv4 packet and received again carries the
/// payload and the source it was sent with.
pub proof fn law_ipv4_datagram_round_trip(
    src: Ipv4Address,
    sport: u16,
    dst: Ipv4Address,
    dport: u16,
    hop_limit: u8,
    payload: Seq<u8>,
    datagram: Seq<u8>,
    packet: PacketView,
)
    requires
        payload.len() + UDP_HEADER_LEN + IPV4_HEADER_LEN <= 0xffff,
        datagram == udp::header_octets(src.0@, sport, dst.0@, dport, payload) + payload,
        packet.data == ipv4::header_octets(
            src.0@,
            dst.0@,
            IpProtocol::Udp,
            hop_limit,
            datagram.len(),
            true,
        ) + datagram,
    ensures
        datagram_ok(packet.data),
        received_payload(packet.data) == payload,
        received_meta(packet).endpoint == (IpEndpoint { addr: IpAddress::Ipv4(src), port: sport }),
        received_meta(packet).local_address == Some(IpAddress::Ipv4(dst)),
{
    let header = ipv4::header_octets(src.0@, dst.0@, IpProtocol::Udp, hop_limit, datagram.len(), true);
    udp::law_udp_round_trip(src.0@, sport, dst.0@, dport, payload);
    ipv4::law_ipv4_header_round_trip(src.0@, dst.0@, IpProtocol::Udp, hop_limit, datagram);
    ipv4::lemma_header_shape(src.0@, dst.0@, IpProtocol::Udp, hop_limit, datagram.len(), true);
    lemma_ipv4_datagram(src, dst, sport, header, datagram, payload, packet);
}

/// What an IPv6 packet carrying a datagram carries.
proof fn lemma_ipv6_datagram(
    src: Ipv6Address,
    dst: Ipv6Address,
    sport: u16,
    header: Seq<u8>,
    datagram: Seq<u8>,
    payload: Seq<u8>,
    packet: PacketView,
)
    requires
        packet.data == header + datagram,
        header.len() == IPV6_HEADER_LEN,
        packet.data[0] / 16 == 6,
        packet.data[6] == IpProtocol::Udp.number(),
        ipv6::src_octets(packet.data) == src.0@,
        ipv6::dst_octets(packet.data) == dst.0@,
        udp::well_formed(datagram),
        udp::udp_len(datagram) == datagram.len(),
        udp::src_port(datagram) == sport,
        datagram.skip(UDP_HEADER_LEN as int) == payload,
    ensures
        datagram_ok(packet.data),
        received_payload(packet.data) == payload,
        received_meta(packet).endpoint == (IpEndpoint { addr: IpAddress::Ipv6(src), port: sport }),
        received_meta(packet).local_address == Some(IpAddress::Ipv6(dst)),
{
    lemma_datagram_behind_header(packet.data, header, datagram, payload);
    src.lemma_of();
    dst.lemma_of();
}

/// A datagram that is sent in an IPv6 packet and received again carries the
/// payload and the source it was sent with.
pub proof fn law_ipv6_datagram_round_trip(
    src: Ipv6Address,
    sport: u16,
    dst: Ipv6Address,
    dport: u16,
    hop_limit: u8,
    payload: Seq<u8>,
    datagram: Seq<u8>,
    packet: PacketView,
)
    requires
        payload.len() + UDP_HEADER_LEN <= 0xffff,
        datagram == udp::header_octets(src.0@, sport, dst.0@, dport, payload) + payload,
        packet.data == ipv6::header_octets(src.0@, dst.0@, IpProtocol::Udp, hop_limit, datagram.len()) + datagram,
    ensures
        datagram_ok(packet.data),
        received_payload(packet.data) == payload,
        received_meta(packet).endpoint == (IpEndpoint { addr: IpAddress::Ipv6(src), port: sport }),
        received_meta(packet).local_address == Some(IpAddress::Ipv6(dst)),
{
    let header = ipv6::header_octets(src.0@, dst.0@, IpProtocol::Udp, hop_limit, datagram.len());
    udp::law_udp_round_trip(src.0@, sport, dst.0@, dport, payload);
    ipv6::law_ipv6_header_round_trip(src.0@, dst.0@, IpProtocol::Udp, hop_limit, datagram);
    ipv6::lemma_header_shape(src.0@, dst.0@, IpProtocol::Udp, hop_limit, datagram.len());
    lemma_ipv6_datagram(src, dst, sport, header, datagram, payload, packet);
}

} // verus!
