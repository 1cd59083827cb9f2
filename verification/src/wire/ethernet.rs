//! Ethernet addresses and frames.

use vstd::prelude::*;
use vstd::std_specs::cmp::PartialEqSpecImpl;

use crate::wire::bytes;
use crate::wire::bytes::bytes_eq;
use crate::wire::protocol::EthernetProtocol;
use crate::wire::Error;

verus! {

/// The length of an Ethernet header: two addresses and the EtherType.
pub const ETHERNET_HEADER_LEN: usize = 14;

/// An Ethernet (MAC) address.
#[derive(Debug, Clone, Copy, Eq, Hash)]
pub struct EthernetAddress(pub [u8; 6]);

impl PartialEq for EthernetAddress {
    fn eq(&self, other: &Self) -> (r: bool) {
        let r = bytes_eq(&self.0, &other.0);
        assert(r ==> self.0 =~= other.0);
        r
    }
}

impl PartialEqSpecImpl for EthernetAddress {
    open spec fn obeys_eq_spec() -> bool {
        true
    }

    open spec fn eq_spec(&self, other: &Self) -> bool {
        *self == *other
    }
}

impl EthernetAddress {
    /// The octets of the broadcast address.
    pub open spec fn broadcast_octets() -> Seq<u8> {
        seq![0xffu8, 0xffu8, 0xffu8, 0xffu8, 0xffu8, 0xffu8]
    }

    /// Whether every octet is `ff`.
    pub open spec fn broadcast_view(self) -> bool {
        self.0@ == Self::broadcast_octets()
    }

    /// Whether the group bit is set.
    pub open spec fn multicast_view(self) -> bool {
        self.0@[0] % 2 == 1
    }

    /// Neither broadcast nor multicast.
    pub open spec fn unicast_view(self) -> bool {
        !self.broadcast_view() && !self.multicast_view()
    }

    /// The modified EUI-64 interface identifier (RFC 4291 appendix A): `ff:fe`
    /// inserted in the middle and the universal/local bit flipped.
    pub open spec fn eui_64_view(self) -> Seq<u8> {
        seq![self.0@[0] ^ 2u8, self.0@[1], self.0@[2], 0xffu8, 0xfeu8, self.0@[3], self.0@[4], self.0@[5]]
    }

    /// The broadcast address.
    pub fn broadcast() -> (r: Self)
        ensures
            r.broadcast_view(),
    {
        let r = EthernetAddress([0xff, 0xff, 0xff, 0xff, 0xff, 0xff]);
        assert(r.0@ =~= Self::broadcast_octets());
        r
    }

    /// The address with the given six octets.
    pub open spec fn of(octets: Seq<u8>) -> Self {
        EthernetAddress([octets[0], octets[1], octets[2], octets[3], octets[4], octets[5]])
    }

    /// An address is the one with its octets.
    pub proof fn lemma_of(self)
        ensures
            Self::of(self.0@) == self,
    {
        assert(Self::of(self.0@).0 =~= self.0);
    }

    /// The address held in the six octets of the slice.
    pub fn from_bytes(data: &[u8]) -> (r: Self)
        requires
            data@.len() == 6,
        ensures
            r.0@ == data@,
            r == Self::of(data@),
    {
        let r = EthernetAddress([data[0], data[1], data[2], data[3], data[4], data[5]]);
        assert(r.0@ =~= data@);
        r
    }

    /// The octets of the address.
    pub fn as_bytes(&self) -> (r: &[u8])
        ensures
            r@ == self.0@,
    {
        self.0.as_slice()
    }

    pub fn is_broadcast(&self) -> (r: bool)
        ensures
            r == self.broadcast_view(),
    {
        let b = EthernetAddress::broadcast();
        bytes_eq(&self.0, &b.0)
    }

    pub fn is_multicast(&self) -> (r: bool)
        ensures
            r == self.multicast_view(),
    {
        self.0[0] % 2 == 1
    }

    pub fn is_unicast(&self) -> (r: bool)
        ensures
            r == self.unicast_view(),
    {
        !self.is_broadcast() && !self.is_multicast()
    }

    /// The modified EUI-64 interface identifier.
    pub fn as_eui_64(&self) -> (r: [u8; 8])
        ensures
            r@ == self.eui_64_view(),
    {
        let r: [u8; 8] = [
            self.0[0] ^ 2u8,
            self.0[1],
            self.0[2],
            0xff,
            0xfe,
            self.0[3],
            self.0[4],
            self.0[5],
        ];
        assert(r@ =~= self.eui_64_view());
        r
    }
}

/// The octets of an Ethernet header.
pub open spec fn header_octets(dst: Seq<u8>, src: Seq<u8>, ethertype: EthernetProtocol) -> Seq<u8> {
    dst + src + bytes::octets16(ethertype.number())
}

/// The header fields of an Ethernet frame.
#[derive(Debug, Clone, Copy)]
pub struct EthernetHeader {
    pub dst_addr: EthernetAddress,
    pub src_addr: EthernetAddress,
    pub ethertype: EthernetProtocol,
}

impl EthernetHeader {
    /// Whether `h` holds the header fields of the frame `data`.
    pub open spec fn describes(self, data: Seq<u8>) -> bool {
        &&& data.len() >= ETHERNET_HEADER_LEN
        &&& self.dst_addr.0@ == data.subrange(0, 6)
        &&& self.src_addr.0@ == data.subrange(6, 12)
        &&& self.ethertype == EthernetProtocol::of_number(bytes::be16(data, 12))
    }

    /// Read the header of a frame. Fails exactly when the frame is too short to
    /// hold one.
    pub fn parse(data: &[u8]) -> (r: Result<Self, Error>)
        ensures
            r is Err <==> data@.len() < ETHERNET_HEADER_LEN,
            r matches Ok(h) ==> h.describes(data@),
    {
        if data.len() < ETHERNET_HEADER_LEN {
            return Err(Error);
        }
        Ok(
            EthernetHeader {
                dst_addr: EthernetAddress::from_bytes(&data[0..6]),
                src_addr: EthernetAddress::from_bytes(&data[6..12]),
                ethertype: EthernetProtocol::from_u16(bytes::get_u16(data, 12)),
            },
        )
    }

    /// The octets of the header.
    pub fn emit(&self) -> (r: Vec<u8>)
        ensures
            r@ == header_octets(self.dst_addr.0@, self.src_addr.0@, self.ethertype),
            r@.len() == ETHERNET_HEADER_LEN,
    {
        let mut out: Vec<u8> = Vec::new();
        bytes::push_bytes(&mut out, self.dst_addr.as_bytes());
        bytes::push_bytes(&mut out, self.src_addr.as_bytes());
        bytes::push_u16(&mut out, self.ethertype.to_u16());
        assert(out@ =~= header_octets(self.dst_addr.0@, self.src_addr.0@, self.ethertype));
        out
    }
}

/// A frame built from header fields parses back to them.
pub proof fn law_ethernet_round_trip(h: EthernetHeader, payload: Seq<u8>, parsed: EthernetHeader)
    requires
        parsed.describes(header_octets(h.dst_addr.0@, h.src_addr.0@, h.ethertype) + payload),
    ensures
        parsed.dst_addr == h.dst_addr,
        parsed.src_addr == h.src_addr,
        parsed.ethertype.number() == h.ethertype.number(),
{
    let data = header_octets(h.dst_addr.0@, h.src_addr.0@, h.ethertype) + payload;
    assert(data.subrange(0, 6) =~= h.dst_addr.0@);
    assert(data.subrange(6, 12) =~= h.src_addr.0@);
    assert(parsed.dst_addr.0 =~= h.dst_addr.0);
    assert(parsed.src_addr.0 =~= h.src_addr.0);
    assert(bytes::be16(data, 12) == h.ethertype.number());
}

} // verus!
