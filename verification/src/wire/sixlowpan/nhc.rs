//! Next header compression (RFC 6282 §4).

use vstd::prelude::*;
use vstd::std_specs::convert::FromSpecImpl;

use crate::wire::bytes;
use crate::wire::protocol::IpProtocol;
use crate::wire::sixlowpan::{NextHeader, DISPATCH_EXT_HEADER, DISPATCH_UDP_HEADER};
use crate::wire::Error;

verus! {

/// The kind of compressed next header a buffer starts with.
#[derive(Debug, Clone, Copy, PartialEq, Eq, Structural)]
pub enum NhcPacket {
    /// A compressed IPv6 extension header, see [`ExtHeaderPacket`].
    ExtHeader,
    /// A compressed UDP header, see [`UdpNhcPacket`].
    UdpHeader,
}

impl NhcPacket {
    /// The kind of compressed next header that `data` starts with, or `None` if it
    /// starts with none.
    pub open spec fn of(data: Seq<u8>) -> Option<NhcPacket> {
        if data.len() == 0 {
            None
        } else if data[0] / 16 == DISPATCH_EXT_HEADER {
            Some(NhcPacket::ExtHeader)
        } else if data[0] / 8 == DISPATCH_UDP_HEADER {
            Some(NhcPacket::UdpHeader)
        } else {
            None
        }
    }

    /// Read the dispatch byte of a compressed next header.
    ///
    /// Errors:
    /// - `Error` if the buffer is empty, or the dispatch is neither an
    ///   extension header nor a UDP header.
    pub fn dispatch(buffer: &[u8]) -> (r: Result<Self, Error>)
        ensures
            r is Err <==> NhcPacket::of(buffer@) is None,
            r matches Ok(kind) ==> NhcPacket::of(buffer@) == Some(kind),
    {
        if buffer.len() == 0 {
            return Err(Error);
        }
        if buffer[0] / 16 == DISPATCH_EXT_HEADER {
            Ok(NhcPacket::ExtHeader)
        } else if buffer[0] / 8 == DISPATCH_UDP_HEADER {
            Ok(NhcPacket::UdpHeader)
        } else {
            Err(Error)
        }
    }
}

/// The IPv6 extension header a compressed extension header stands for.
#[derive(Debug, PartialEq, Eq, Structural, Clone, Copy)]
pub enum ExtHeaderId {
    HopByHopHeader,
    RoutingHeader,
    FragmentHeader,
    DestinationOptionsHeader,
    MobilityHeader,
    Header,
    Reserved,
}

impl ExtHeaderId {
    /// The header that a three-bit ID stands for.
    pub open spec fn of_eid(eid: int) -> ExtHeaderId {
        if eid == 0 {
            ExtHeaderId::HopByHopHeader
        } else if eid == 1 {
            ExtHeaderId::RoutingHeader
        } else if eid == 2 {
            ExtHeaderId::FragmentHeader
        } else if eid == 3 {
            ExtHeaderId::DestinationOptionsHeader
        } else if eid == 4 {
            ExtHeaderId::MobilityHeader
        } else if eid == 7 {
            ExtHeaderId::Header
        } else {
            ExtHeaderId::Reserved
        }
    }

    /// The ID that stands for the header.
    pub open spec fn eid(self) -> int {
        match self {
            ExtHeaderId::HopByHopHeader => 0,
            ExtHeaderId::RoutingHeader => 1,
            ExtHeaderId::FragmentHeader => 2,
            ExtHeaderId::DestinationOptionsHeader => 3,
            ExtHeaderId::MobilityHeader => 4,
            ExtHeaderId::Reserved => 5,
            ExtHeaderId::Header => 7,
        }
    }

    /// The protocol number of the header. The headers without one of their own get
    /// number zero.
    pub open spec fn protocol(self) -> IpProtocol {
        match self {
            ExtHeaderId::RoutingHeader => IpProtocol::Ipv6Route,
            ExtHeaderId::FragmentHeader => IpProtocol::Ipv6Frag,
            ExtHeaderId::DestinationOptionsHeader => IpProtocol::Ipv6Opts,
            _ => IpProtocol::HopByHop,
        }
    }
}

impl From<ExtHeaderId> for IpProtocol {
    fn from(val: ExtHeaderId) -> (r: Self) {
        match val {
            ExtHeaderId::HopByHopHeader => IpProtocol::HopByHop,
            ExtHeaderId::RoutingHeader => IpProtocol::Ipv6Route,
            ExtHeaderId::FragmentHeader => IpProtocol::Ipv6Frag,
            ExtHeaderId::DestinationOptionsHeader => IpProtocol::Ipv6Opts,
            ExtHeaderId::MobilityHeader => IpProtocol::from_u8(0),
            ExtHeaderId::Header => IpProtocol::from_u8(0),
            ExtHeaderId::Reserved => IpProtocol::from_u8(0),
        }
    }
}

impl FromSpecImpl<ExtHeaderId> for IpProtocol {
    open spec fn obeys_from_spec() -> bool {
        true
    }

    open spec fn from_spec(val: ExtHeaderId) -> Self {
        val.protocol()
    }
}

/// The size of the in-line next header field of a compressed extension header: it is
/// there unless the low bit says that the next header is compressed.
pub open spec fn ext_next_header_size(data: Seq<u8>) -> int {
    if data[0] % 2 == 0 {
        1
    } else {
        0
    }
}

/// The next header of a compressed extension header.
pub open spec fn ext_next_header(data: Seq<u8>) -> NextHeader {
    if data[0] % 2 == 1 {
        NextHeader::Compressed
    } else {
        NextHeader::Uncompressed(IpProtocol::of_number(data[1]))
    }
}

/// The extension header ID field.
pub open spec fn ext_eid(data: Seq<u8>) -> int {
    ((data[0] / 2) % 8) as int
}

/// The length field of a compressed extension header.
pub open spec fn ext_length(data: Seq<u8>) -> u8 {
    data[1 + ext_next_header_size(data)]
}

/// Whether a compressed extension header is there in full.
pub open spec fn ext_well_formed(data: Seq<u8>) -> bool {
    data.len() > 0 && 2 + ext_next_header_size(data) <= data.len()
}

/// A read/write wrapper around a 6LoWPAN NHC extension header.
///
/// The header has the following format:
/// ```txt
///   0   1   2   3   4   5   6   7
/// +---+---+---+---+---+---+---+---+
/// | 1 | 1 | 1 | 0 |    EID    |NH |
/// +---+---+---+---+---+---+---+---+
/// ```
///
/// With:
/// - EID: the extension header ID
/// - NH: Next Header
#[derive(Debug)]
pub struct ExtHeaderPacket<'a> {
    pub buffer: &'a mut [u8],
}

impl<'a> ExtHeaderPacket<'a> {
    /// The octets the wrapped buffer holds.
    pub open spec fn octets(&self) -> Seq<u8> {
        self.buffer@
    }

    /// Imbue a raw octet buffer with a 6LoWPAN NHC Extension Header structure.
    pub fn new_unchecked(buffer: &'a mut [u8]) -> (r: ExtHeaderPacket<'a>)
        ensures
            r.octets() == old(buffer)@,
            final(r.buffer)@ == final(buffer)@,
    {
        ExtHeaderPacket { buffer }
    }

    /// Shorthand for a combination of [new_unchecked](Self::new_unchecked) and
    /// [check_len](Self::check_len).
    pub fn new_checked(buffer: &'a mut [u8]) -> (r: Result<ExtHeaderPacket<'a>, Error>)
        ensures
            r is Ok <==> ext_well_formed(old(buffer)@),
            r matches Ok(p) ==> p.octets() == old(buffer)@ && final(p.buffer)@ == final(buffer)@,
            r is Err ==> final(buffer)@ == old(buffer)@,
    {
        let packet = Self::new_unchecked(buffer);
        if packet.check_len().is_err() {
            return Err(Error);
        }
        Ok(packet)
    }

    /// Ensure that no accessor method will panic if called.
    /// Returns `Err(Error)` if the buffer is too short.
    pub fn check_len(&self) -> (r: Result<(), Error>)
        ensures
            r is Ok <==> ext_well_formed(self.octets()),
    {
        if self.buffer.len() == 0 {
            return Err(Error);
        }
        let len: usize = 2 + self.next_header_size();
        if len <= self.buffer.len() {
            Ok(())
        } else {
            Err(Error)
        }
    }

    /// Return the dispatch field.
    pub fn dispatch_field(&self) -> (r: u8)
        requires
            self.octets().len() >= 1,
        ensures
            r == self.octets()[0] / 16,
    {
        self.buffer[0] / 16
    }

    /// Return the extension header ID field.
    pub fn eid_field(&self) -> (r: u8)
        requires
            self.octets().len() >= 1,
        ensures
            r == ext_eid(self.octets()),
    {
        self.buffer[0] / 2 % 8
    }

    /// Return the next header bit.
    pub fn nh_field(&self) -> (r: u8)
        requires
            self.octets().len() >= 1,
        ensures
            r == self.octets()[0] % 2,
    {
        self.buffer[0] % 2
    }

    /// Return the Extension Header ID.
    pub fn extension_header_id(&self) -> (r: ExtHeaderId)
        requires
            self.octets().len() >= 1,
        ensures
            r == ExtHeaderId::of_eid(ext_eid(self.octets())),
    {
        let eid: u8 = self.eid_field();
        if eid == 0 {
            ExtHeaderId::HopByHopHeader
        } else if eid == 1 {
            ExtHeaderId::RoutingHeader
        } else if eid == 2 {
            ExtHeaderId::FragmentHeader
        } else if eid == 3 {
            ExtHeaderId::DestinationOptionsHeader
        } else if eid == 4 {
            ExtHeaderId::MobilityHeader
        } else if eid == 7 {
            ExtHeaderId::Header
        } else {
            ExtHeaderId::Reserved
        }
    }

    /// Return the length field: the length of the payload, in bytes.
    pub fn length(&self) -> (r: u8)
        requires
            ext_well_formed(self.octets()),
        ensures
            r == ext_length(self.octets()),
    {
        self.buffer[1 + self.next_header_size()]
    }

    /// Parse the next header field.
    pub fn next_header(&self) -> (r: NextHeader)
        requires
            ext_well_formed(self.octets()),
        ensures
            r == ext_next_header(self.octets()),
    {
        if self.nh_field() == 1 {
            NextHeader::Compressed
        } else {
            // The full 8 bits for Next Header are carried in-line.
            NextHeader::Uncompressed(IpProtocol::from_u8(self.buffer[1]))
        }
    }

    /// Return the size of the Next Header field.
    pub fn next_header_size(&self) -> (r: usize)
        requires
            self.octets().len() >= 1,
        ensures
            r == ext_next_header_size(self.octets()),
    {
        // If nh is set, then the Next Header is compressed using LOWPAN_NHC
        if self.nh_field() == 0 {
            1
        } else {
            0
        }
    }

    /// Return the length of the header, not counting the payload.
    pub fn header_len(&self) -> (r: usize)
        requires
            self.octets().len() >= 1,
        ensures
            r == 2 + ext_next_header_size(self.octets()),
    {
        2 + self.next_header_size()
    }

    /// Return a pointer to the payload.
    ///
    /// The buffer must not be shorter than the length field says.
    pub fn payload(&self) -> (r: &[u8])
        requires
            ext_well_formed(self.octets()),
            2 + ext_next_header_size(self.octets()) + ext_length(self.octets()) <= self.octets().len(),
        ensures
            r@ == self.octets().subrange(
                2 + ext_next_header_size(self.octets()),
                2 + ext_next_header_size(self.octets()) + ext_length(self.octets()),
            ),
    {
        let start: usize = self.header_len();
        let len: usize = self.length() as usize;
        &self.buffer[start..start + len]
    }

    /// Return a mutable pointer to the payload.
    ///
    /// The buffer must not be shorter than the length field says.
    pub fn payload_mut(&mut self) -> (r: &mut [u8])
        requires
            ext_well_formed(old(self).octets()),
            2 + ext_next_header_size(old(self).octets()) + ext_length(old(self).octets()) <= old(
                self,
            ).octets().len(),
        ensures
            ({
                let before = old(self).octets();
                let start = 2 + ext_next_header_size(before);
                let end = start + ext_length(before);
                &&& r@ == before.subrange(start, end)
                &&& final(self).octets() == before.take(start) + final(r)@ + before.skip(end)
                &&& final(final(self).buffer)@ == final(old(self).buffer)@
            }),
    {
        let ghost before = self.octets();
        let start: usize = self.header_len();
        let len: usize = self.length() as usize;
        let (head, tail) = self.buffer.split_at_mut(start);
        let (payload, rest) = tail.split_at_mut(len);
        assert(head@ =~= before.take(start as int));
        assert(payload@ =~= before.subrange(start as int, start + len));
        assert(rest@ =~= before.skip(start + len));
        payload
    }

    /// Set the dispatch field.
    fn set_dispatch_field(&mut self)
        requires
            old(self).octets().len() >= 1,
        ensures
            final(self).octets() == old(self).octets().update(
                0,
                (DISPATCH_EXT_HEADER * 16 + old(self).octets()[0] % 16) as u8,
            ),
            final(final(self).buffer)@ == final(old(self).buffer)@,
    {
        let low: u8 = self.buffer[0] % 16;
        self.buffer[0] = DISPATCH_EXT_HEADER * 16 + low;
    }

    /// Set the Extension Header ID field.
    fn set_extension_header_id(&mut self, ext_header_id: ExtHeaderId)
        requires
            old(self).octets().len() >= 1,
        ensures
            final(self).octets() == old(self).octets().update(
                0,
                ((old(self).octets()[0] / 16) * 16 + ext_header_id.eid() * 2 + old(self).octets()[0] % 2) as u8,
            ),
            final(final(self).buffer)@ == final(old(self).buffer)@,
    {
        let id: u8 = match ext_header_id {
            ExtHeaderId::HopByHopHeader => 0,
            ExtHeaderId::RoutingHeader => 1,
            ExtHeaderId::FragmentHeader => 2,
            ExtHeaderId::DestinationOptionsHeader => 3,
            ExtHeaderId::MobilityHeader => 4,
            ExtHeaderId::Reserved => 5,
            ExtHeaderId::Header => 7,
        };
        let raw: u8 = self.buffer[0];
        self.buffer[0] = raw / 16 * 16 + id * 2 + raw % 2;
    }

    /// Set the Next Header.
    fn set_next_header(&mut self, next_header: NextHeader)
        requires
            old(self).octets().len() >= 1,
            next_header is Uncompressed ==> old(self).octets().len() >= 2,
        ensures
            final(self).octets() == match next_header {
                NextHeader::Compressed => old(self).octets().update(
                    0,
                    ((old(self).octets()[0] / 2) * 2 + 1) as u8,
                ),
                NextHeader::Uncompressed(nh) => old(self).octets().update(
                    0,
                    ((old(self).octets()[0] / 2) * 2) as u8,
                ).update(1, nh.number()),
            },
            final(final(self).buffer)@ == final(old(self).buffer)@,
    {
        let raw: u8 = self.buffer[0];
        match next_header {
            NextHeader::Compressed => {
                self.buffer[0] = raw / 2 * 2 + 1;
            },
            NextHeader::Uncompressed(nh) => {
                self.buffer[0] = raw / 2 * 2;
                self.buffer[1] = nh.to_u8();
            },
        }
    }

    /// Set the length.
    fn set_length(&mut self, length: u8)
        requires
            ext_well_formed(old(self).octets()),
        ensures
            final(self).octets() == old(self).octets().update(
                1 + ext_next_header_size(old(self).octets()),
                length,
            ),
            final(final(self).buffer)@ == final(old(self).buffer)@,
    {
        let start: usize = 1 + self.next_header_size();
        self.buffer[start] = length;
    }
}

/// The fields of a 6LoWPAN NHC extension header.
#[derive(Debug, PartialEq, Eq, Structural, Clone, Copy)]
pub struct ExtHeaderRepr {
    pub ext_header_id: ExtHeaderId,
    pub next_header: NextHeader,
    /// The length of the payload, in bytes.
    pub length: u8,
}

impl ExtHeaderRepr {
    /// The fields of the header that `data` starts with.
    pub open spec fn of(data: Seq<u8>) -> ExtHeaderRepr {
        ExtHeaderRepr {
            ext_header_id: ExtHeaderId::of_eid(ext_eid(data)),
            next_header: ext_next_header(data),
            length: ext_length(data),
        }
    }

    /// The octets of the header.
    pub open spec fn octets(self) -> Seq<u8> {
        let first = DISPATCH_EXT_HEADER * 16 + self.ext_header_id.eid() * 2;
        match self.next_header {
            NextHeader::Compressed => seq![(first + 1) as u8, self.length],
            NextHeader::Uncompressed(nh) => seq![first as u8, nh.number(), self.length],
        }
    }

    /// Parse a 6LoWPAN NHC extension header.
    pub fn parse(packet: &ExtHeaderPacket<'_>) -> (r: Result<Self, Error>)
        ensures
            r is Ok <==> ext_well_formed(packet.octets()) && NhcPacket::of(packet.octets()) == Some(
                NhcPacket::ExtHeader,
            ),
            r matches Ok(repr) ==> repr == ExtHeaderRepr::of(packet.octets()),
    {
        // Ensure basic accessors will work.
        if packet.check_len().is_err() {
            return Err(Error);
        }
        if packet.dispatch_field() != DISPATCH_EXT_HEADER {
            return Err(Error);
        }
        Ok(
            ExtHeaderRepr {
                ext_header_id: packet.extension_header_id(),
                next_header: packet.next_header(),
                length: packet.length(),
            },
        )
    }

    /// Return the length of the header this will emit, not counting the payload.
    pub fn buffer_len(&self) -> (r: usize)
        ensures
            r == self.octets().len(),
    {
        let mut len: usize = 1;  // The minimal header size
        if self.next_header != NextHeader::Compressed {
            len += 1;
        }
        len += 1;  // The length
        len
    }

    /// Write the header into a packet.
    ///
    /// The buffer must be at least as long as the header.
    pub fn emit(&self, packet: &mut ExtHeaderPacket<'_>)
        requires
            old(packet).octets().len() >= self.octets().len(),
        ensures
            final(packet).octets() == bytes::overwrite(old(packet).octets(), 0, self.octets()),
            final(final(packet).buffer)@ == final(old(packet).buffer)@,
    {
        let ghost before = packet.octets();
        packet.set_dispatch_field();
        packet.set_extension_header_id(self.ext_header_id);
        packet.set_next_header(self.next_header);
        packet.set_length(self.length);
        assert(packet.octets() =~= bytes::overwrite(before, 0, self.octets()));
    }
}

/// The fields written into a compressed extension header are read back out of it, but
/// for the protocol number being read as the protocol it stands for.
pub proof fn law_ext_header_round_trip(repr: ExtHeaderRepr, data: Seq<u8>)
    requires
        data.len() >= repr.octets().len(),
        repr.next_header matches NextHeader::Uncompressed(nh) ==> nh == IpProtocol::of_number(nh.number()),
    ensures
        NhcPacket::of(bytes::overwrite(data, 0, repr.octets())) == Some(NhcPacket::ExtHeader),
        ext_well_formed(bytes::overwrite(data, 0, repr.octets())),
        ExtHeaderRepr::of(bytes::overwrite(data, 0, repr.octets())) == repr,
{
}

/// The ports mode field.
pub open spec fn udp_ports_mode(data: Seq<u8>) -> int {
    (data[0] % 4) as int
}

/// The size of both port numbers in a ports mode.
pub open spec fn ports_size_of(mode: int) -> int {
    if mode == 0 {
        4
    } else if mode == 3 {
        1
    } else {
        3
    }
}

/// Whether the checksum is elided.
pub open spec fn udp_checksum_elided(data: Seq<u8>) -> bool {
    (data[0] / 4) % 2 == 1
}

/// The size of the checksum field.
pub open spec fn udp_checksum_size(data: Seq<u8>) -> int {
    if udp_checksum_elided(data) {
        0
    } else {
        2
    }
}

/// The length of a compressed UDP header.
pub open spec fn udp_header_len(data: Seq<u8>) -> int {
    1 + ports_size_of(udp_ports_mode(data)) + udp_checksum_size(data)
}

/// Whether a compressed UDP header is there in full.
pub open spec fn udp_well_formed(data: Seq<u8>) -> bool {
    data.len() > 0 && udp_header_len(data) <= data.len()
}

/// The source port.
pub open spec fn udp_src_port(data: Seq<u8>) -> u16 {
    let mode = udp_ports_mode(data);
    if mode == 0 || mode == 1 {
        bytes::be16(data, 1)
    } else if mode == 2 {
        (0xf000 + data[1]) as u16
    } else {
        (0xf0b0 + data[1] / 16) as u16
    }
}

/// The destination port.
pub open spec fn udp_dst_port(data: Seq<u8>) -> u16 {
    let mode = udp_ports_mode(data);
    if mode == 0 {
        bytes::be16(data, 3)
    } else if mode == 1 {
        (0xf000 + data[3]) as u16
    } else if mode == 2 {
        bytes::be16(data, 2)
    } else {
        (0xf0b0 + data[1] % 16) as u16
    }
}

/// The ports mode that two ports are written in: each of the four-bit, eight-bit and
/// sixteen-bit forms needs the port to be in the range it can express.
pub open spec fn mode_for(src_port: u16, dst_port: u16) -> int {
    if 0xf0b0 <= src_port <= 0xf0bf && 0xf0b0 <= dst_port <= 0xf0bf {
        3
    } else if 0xf000 <= src_port <= 0xf0ff {
        2
    } else if 0xf000 <= dst_port <= 0xf0ff {
        1
    } else {
        0
    }
}

/// The octets that two ports are written as.
pub open spec fn port_octets(src_port: u16, dst_port: u16) -> Seq<u8> {
    let mode = mode_for(src_port, dst_port);
    if mode == 3 {
        seq![((src_port - 0xf0b0) * 16 + (dst_port - 0xf0b0)) as u8]
    } else if mode == 2 {
        seq![(src_port - 0xf000) as u8] + bytes::octets16(dst_port)
    } else if mode == 1 {
        bytes::octets16(src_port) + seq![(dst_port - 0xf000) as u8]
    } else {
        bytes::octets16(src_port) + bytes::octets16(dst_port)
    }
}

/// The octets after two ports were written.
pub open spec fn with_ports(data: Seq<u8>, src_port: u16, dst_port: u16) -> Seq<u8> {
    bytes::overwrite(
        data.update(0, ((data[0] / 4) * 4 + mode_for(src_port, dst_port)) as u8),
        1,
        port_octets(src_port, dst_port),
    )
}

/// The octets after the checksum was written in-line.
pub open spec fn with_checksum(data: Seq<u8>, checksum: u16) -> Seq<u8> {
    bytes::overwrite(
        data.update(0, ((data[0] / 8) * 8 + data[0] % 4) as u8),
        1 + ports_size_of(udp_ports_mode(data)),
        bytes::octets16(checksum),
    )
}

/// A read/write wrapper around a 6LoWPAN NHC UDP header.
///
/// The base header has the following format:
/// ```txt
///   0   1   2   3   4   5   6   7
/// +---+---+---+---+---+---+---+---+
/// | 1 | 1 | 1 | 1 | 0 | C |   P   |
/// +---+---+---+---+---+---+---+---+
/// With:
/// - C: checksum, specifies if the checksum is elided.
/// - P: ports, specifies if the ports are elided.
/// ```
#[derive(Debug)]
pub struct UdpNhcPacket<'a> {
    pub buffer: &'a mut [u8],
}

impl<'a> UdpNhcPacket<'a> {
    /// The octets the wrapped buffer holds.
    pub open spec fn octets(&self) -> Seq<u8> {
        self.buffer@
    }

    /// Imbue a raw octet buffer with a LOWPAN_NHC frame structure for UDP.
    pub fn new_unchecked(buffer: &'a mut [u8]) -> (r: UdpNhcPacket<'a>)
        ensures
            r.octets() == old(buffer)@,
            final(r.buffer)@ == final(buffer)@,
    {
        UdpNhcPacket { buffer }
    }

    /// Shorthand for a combination of [new_unchecked](Self::new_unchecked) and
    /// [check_len](Self::check_len).
    pub fn new_checked(buffer: &'a mut [u8]) -> (r: Result<UdpNhcPacket<'a>, Error>)
        ensures
            r is Ok <==> udp_well_formed(old(buffer)@),
            r matches Ok(p) ==> p.octets() == old(buffer)@ && final(p.buffer)@ == final(buffer)@,
            r is Err ==> final(buffer)@ == old(buffer)@,
    {
        let packet = Self::new_unchecked(buffer);
        if packet.check_len().is_err() {
            return Err(Error);
        }
        Ok(packet)
    }

    /// Ensure that no accessor method will panic if called.
    /// Returns `Err(Error)` if the buffer is too short.
    pub fn check_len(&self) -> (r: Result<(), Error>)
        ensures
            r is Ok <==> udp_well_formed(self.octets()),
    {
        if self.buffer.len() == 0 {
            return Err(Error);
        }
        let index: usize = 1 + self.ports_size() + self.checksum_size();
        if index > self.buffer.len() {
            return Err(Error);
        }
        Ok(())
    }

    /// Return the dispatch field.
    pub fn dispatch_field(&self) -> (r: u8)
        requires
            self.octets().len() >= 1,
        ensures
            r == self.octets()[0] / 8,
    {
        self.buffer[0] / 8
    }

    /// Return the checksum bit.
    pub fn checksum_field(&self) -> (r: u8)
        requires
            self.octets().len() >= 1,
        ensures
            r == (self.octets()[0] / 4) % 2,
    {
        self.buffer[0] / 4 % 2
    }

    /// Return the ports field.
    pub fn ports_field(&self) -> (r: u8)
        requires
            self.octets().len() >= 1,
        ensures
            r == udp_ports_mode(self.octets()),
    {
        self.buffer[0] % 4
    }

    /// Return the source port number.
    pub fn src_port(&self) -> (r: u16)
        requires
            udp_well_formed(self.octets()),
        ensures
            r == udp_src_port(self.octets()),
    {
        let mode: u8 = self.ports_field();
        if mode == 0 || mode == 1 {
            // The full 16 bits are carried in-line.
            bytes::get_u16(self.buffer, 1)
        } else if mode == 2 {
            // The first 8 bits are elided.
            0xf000 + self.buffer[1] as u16
        } else {
            // The first 12 bits are elided.
            0xf0b0 + (self.buffer[1] / 16) as u16
        }
    }

    /// Return the destination port number.
    pub fn dst_port(&self) -> (r: u16)
        requires
            udp_well_formed(self.octets()),
        ensures
            r == udp_dst_port(self.octets()),
    {
        let mode: u8 = self.ports_field();
        if mode == 0 {
            // The full 16 bits are carried in-line.
            bytes::get_u16(self.buffer, 3)
        } else if mode == 1 {
            // The first 8 bits are elided.
            0xf000 + self.buffer[3] as u16
        } else if mode == 2 {
            // The full 16 bits are carried in-line.
            bytes::get_u16(self.buffer, 2)
        } else {
            // The first 12 bits are elided.
            0xf0b0 + (self.buffer[1] % 16) as u16
        }
    }

    /// Return the checksum, or `None` if it is elided.
    pub fn checksum(&self) -> (r: Option<u16>)
        requires
            udp_well_formed(self.octets()),
        ensures
            r == if udp_checksum_elided(self.octets()) {
                None
            } else {
                Some(bytes::be16(self.octets(), 1 + ports_size_of(udp_ports_mode(self.octets()))))
            },
    {
        if self.checksum_field() == 0 {
            let start: usize = 1 + self.ports_size();
            Some(bytes::get_u16(self.buffer, start))
        } else {
            // The checksum is elided and needs to be recomputed on the 6LoWPAN termination point.
            None
        }
    }

    /// Return the size of the checksum field.
    pub fn checksum_size(&self) -> (r: usize)
        requires
            self.octets().len() >= 1,
        ensures
            r == udp_checksum_size(self.octets()),
    {
        if self.checksum_field() == 0 {
            2
        } else {
            0
        }
    }

    /// Returns the total size of both port numbers.
    pub fn ports_size(&self) -> (r: usize)
        requires
            self.octets().len() >= 1,
        ensures
            r == ports_size_of(udp_ports_mode(self.octets())),
    {
        let mode: u8 = self.ports_field();
        if mode == 0 {
            4  // 16 bits + 16 bits
        } else if mode == 3 {
            1  // 4 bits + 4 bits
        } else {
            3  // 16 bits + 8 bits, or 8 bits + 16 bits
        }
    }

    /// Return the length of the header, not counting the payload.
    pub fn header_len(&self) -> (r: usize)
        requires
            self.octets().len() >= 1,
        ensures
            r == udp_header_len(self.octets()),
    {
        1 + self.ports_size() + self.checksum_size()
    }

    /// Return a pointer to the payload.
    pub fn payload(&self) -> (r: &[u8])
        requires
            udp_well_formed(self.octets()),
        ensures
            r@ == self.octets().skip(udp_header_len(self.octets())),
    {
        let start: usize = self.header_len();
        let r = &self.buffer[start..self.buffer.len()];
        assert(r@ =~= self.octets().skip(start as int));
        r
    }

    /// Return a mutable pointer to the payload.
    pub fn payload_mut(&mut self) -> (r: &mut [u8])
        requires
            udp_well_formed(old(self).octets()),
        ensures
            r@ == old(self).octets().skip(udp_header_len(old(self).octets())),
            final(self).octets() == old(self).octets().take(udp_header_len(old(self).octets())) + final(r)@,
            final(final(self).buffer)@ == final(old(self).buffer)@,
    {
        let ghost before = self.octets();
        let start: usize = self.header_len();
        let (head, tail) = self.buffer.split_at_mut(start);
        assert(tail@ =~= before.skip(start as int));
        assert(head@ =~= before.take(start as int));
        tail
    }

    /// Set the dispatch field.
    fn set_dispatch_field(&mut self)
        requires
            old(self).octets().len() >= 1,
        ensures
            final(self).octets() == old(self).octets().update(
                0,
                (DISPATCH_UDP_HEADER * 8 + old(self).octets()[0] % 8) as u8,
            ),
            final(final(self).buffer)@ == final(old(self).buffer)@,
    {
        let low: u8 = self.buffer[0] % 8;
        self.buffer[0] = DISPATCH_UDP_HEADER * 8 + low;
    }

    /// Set the ports field.
    fn set_ports_field(&mut self, mode: u8)
        requires
            old(self).octets().len() >= 1,
            mode < 4,
        ensures
            final(self).octets() == old(self).octets().update(0, ((old(self).octets()[0] / 4) * 4 + mode) as u8),
            final(final(self).buffer)@ == final(old(self).buffer)@,
    {
        let raw: u8 = self.buffer[0];
        self.buffer[0] = raw / 4 * 4 + mode;
    }

    /// Set the ports, in the shortest form that can express them.
    fn set_ports(&mut self, src_port: u16, dst_port: u16)
        requires
            old(self).octets().len() >= 1 + port_octets(src_port, dst_port).len(),
        ensures
            final(self).octets() == with_ports(old(self).octets(), src_port, dst_port),
            final(final(self).buffer)@ == final(old(self).buffer)@,
    {
        let ghost before = self.octets();
        if 0xf0b0 <= src_port && src_port <= 0xf0bf && 0xf0b0 <= dst_port && dst_port <= 0xf0bf {
            // We can compress both the source and destination ports.
            self.set_ports_field(3);
            self.buffer[1] = ((src_port - 0xf0b0) * 16 + (dst_port - 0xf0b0)) as u8;
        } else if 0xf000 <= src_port && src_port <= 0xf0ff {
            // We can compress the source port, but not the destination port.
            self.set_ports_field(2);
            self.buffer[1] = (src_port - 0xf000) as u8;
            bytes::put_u16(self.buffer, 2, dst_port);
        } else if 0xf000 <= dst_port && dst_port <= 0xf0ff {
            // We can compress the destination port, but not the source port.
            self.set_ports_field(1);
            bytes::put_u16(self.buffer, 1, src_port);
            self.buffer[3] = (dst_port - 0xf000) as u8;
        } else {
            // We cannot compress any port.
            self.set_ports_field(0);
            bytes::put_u16(self.buffer, 1, src_port);
            bytes::put_u16(self.buffer, 3, dst_port);
        }
        assert(self.octets() =~= with_ports(before, src_port, dst_port));
    }

    /// Write the checksum inline.
    ///
    /// Call this after [`UdpNhcRepr::emit`]: the ports must be set first.
    pub fn set_checksum(&mut self, checksum: u16)
        requires
            old(self).octets().len() >= 1,
            old(self).octets().len() >= 3 + ports_size_of(udp_ports_mode(old(self).octets())),
        ensures
            final(self).octets() == with_checksum(old(self).octets(), checksum),
            final(final(self).buffer)@ == final(old(self).buffer)@,
    {
        let raw: u8 = self.buffer[0];
        self.buffer[0] = raw / 8 * 8 + raw % 4;
        let idx: usize = 1 + self.ports_size();
        bytes::put_u16(self.buffer, idx, checksum);
    }
}

/// The fields of a 6LoWPAN NHC UDP header.
#[derive(Debug, PartialEq, Eq, Structural, Clone, Copy)]
pub struct UdpNhcRepr {
    pub src_port: u16,
    pub dst_port: u16,
}

impl UdpNhcRepr {
    /// The length of the header, with the checksum inline.
    pub open spec fn header_len_view(self) -> int {
        3 + ports_size_of(mode_for(self.src_port, self.dst_port))
    }

    /// The octets of a packet that the dispatch byte and the ports were written into.
    pub open spec fn written(self, data: Seq<u8>) -> Seq<u8> {
        with_ports(
            data.update(0, (DISPATCH_UDP_HEADER * 8 + data[0] % 8) as u8),
            self.src_port,
            self.dst_port,
        )
    }

    /// Parse a 6LoWPAN NHC UDP header.
    ///
    /// The checksum is not verified here. Read it with
    /// [`UdpNhcPacket::checksum`].
    pub fn parse(packet: &UdpNhcPacket<'_>) -> (r: Result<Self, Error>)
        ensures
            r is Ok <==> udp_well_formed(packet.octets()) && NhcPacket::of(packet.octets()) == Some(
                NhcPacket::UdpHeader,
            ),
            r matches Ok(repr) ==> repr == (UdpNhcRepr {
                src_port: udp_src_port(packet.octets()),
                dst_port: udp_dst_port(packet.octets()),
            }),
    {
        if packet.check_len().is_err() {
            return Err(Error);
        }
        if packet.dispatch_field() != DISPATCH_UDP_HEADER {
            return Err(Error);
        }
        Ok(UdpNhcRepr { src_port: packet.src_port(), dst_port: packet.dst_port() })
    }

    /// Return the length of the header this will emit, with the checksum inline.
    pub fn header_len(&self) -> (r: usize)
        ensures
            r == self.header_len_view(),
    {
        // The dispatch, and the checksum, which is always carried inline.
        let len: usize = 3;
        if 0xf0b0 <= self.src_port && self.src_port <= 0xf0bf && 0xf0b0 <= self.dst_port && self.dst_port <= 0xf0bf {
            len + 1
        } else if (0xf000 <= self.src_port && self.src_port <= 0xf0ff) || (0xf000 <= self.dst_port && self.dst_port
            <= 0xf0ff) {
            len + 3
        } else {
            len + 4
        }
    }

    /// Write the dispatch byte and the ports into a packet.
    ///
    /// The buffer must be zeroed first. Write the checksum after, with
    /// [`UdpNhcPacket::set_checksum`].
    pub fn emit(&self, packet: &mut UdpNhcPacket<'_>)
        requires
            old(packet).octets().len() >= 1 + ports_size_of(mode_for(self.src_port, self.dst_port)),
        ensures
            final(packet).octets() == self.written(old(packet).octets()),
            final(final(packet).buffer)@ == final(old(packet).buffer)@,
    {
        packet.set_dispatch_field();
        packet.set_ports(self.src_port, self.dst_port);
    }
}

/// Every port encoding round-trips: the ports and the checksum written into a
/// compressed UDP header are read back out of it, and the header is as long as was
/// announced.
pub proof fn law_udp_header_round_trip(repr: UdpNhcRepr, data: Seq<u8>, checksum: u16)
    requires
        data.len() >= repr.header_len_view(),
    ensures
        ({
            let out = with_checksum(repr.written(data), checksum);
            &&& NhcPacket::of(out) == Some(NhcPacket::UdpHeader)
            &&& udp_well_formed(out)
            &&& udp_header_len(out) == repr.header_len_view()
            &&& udp_src_port(out) == repr.src_port
            &&& udp_dst_port(out) == repr.dst_port
            &&& !udp_checksum_elided(out)
            &&& bytes::be16(out, 1 + ports_size_of(udp_ports_mode(out))) == checksum
            &&& out.skip(repr.header_len_view()) == data.skip(repr.header_len_view())
        }),
{
    let out = with_checksum(repr.written(data), checksum);
    assert(out.skip(repr.header_len_view()) =~= data.skip(repr.header_len_view()));
}

} // verus!
