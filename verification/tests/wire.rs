use xarxa::wire::arp::{ArpOperation, ArpRepr};
use xarxa::wire::bytes;
use xarxa::wire::checksum;
use xarxa::wire::cidr::{IpCidr, Ipv4Cidr};
use xarxa::wire::ethernet::{EthernetAddress, EthernetHeader};
use xarxa::wire::icmpv4::{Message, Packet};
use xarxa::wire::ieee802154::{Ieee802154Address, Ieee802154Repr};
use xarxa::wire::ip::{IpAddress, IpVersion, Ipv4Address, Ipv6Address};
use xarxa::wire::ipv4::{self, Ipv4Header};
use xarxa::wire::ipv6::{self, Ipv6Header};
use xarxa::wire::ipv6ext::OptionFailureAction;
use xarxa::wire::ndisc;
use xarxa::wire::protocol::{EthernetProtocol, IpProtocol};
use xarxa::wire::sixlowpan::frag;
use xarxa::wire::sixlowpan::nhc::{ExtHeaderId, ExtHeaderPacket, ExtHeaderRepr, NhcPacket, UdpNhcPacket, UdpNhcRepr};
use xarxa::wire::sixlowpan::{NextHeader, DISPATCH_EXT_HEADER, DISPATCH_FRAGMENT_HEADER, DISPATCH_UDP_HEADER};
use xarxa::wire::{Error, HardwareAddress, RawHardwareAddress};

const ECHO_PACKET_BYTES: [u8; 12] = [0x08, 0x00, 0x8e, 0xfe, 0x12, 0x34, 0xab, 0xcd, 0xaa, 0x00, 0x00, 0xff];
const ECHO_DATA_BYTES: [u8; 4] = [0xaa, 0x00, 0x00, 0xff];

#[test]
fn test_echo_deconstruct() {
    let mut bytes = ECHO_PACKET_BYTES;
    let packet = Packet::new_unchecked(&mut bytes);
    assert_eq!(packet.msg_type(), Message::EchoRequest);
    assert_eq!(packet.msg_code(), 0);
    assert_eq!(packet.checksum(), 0x8efe);
    assert_eq!(packet.echo_ident(), 0x1234);
    assert_eq!(packet.echo_seq_no(), 0xabcd);
    assert_eq!(packet.data(), &ECHO_DATA_BYTES[..]);
    assert!(packet.verify_checksum());
}

#[test]
fn test_echo_construct() {
    let mut bytes = [0xa5; 12];
    let mut packet = Packet::new_unchecked(&mut bytes);
    packet.set_msg_type(Message::EchoRequest);
    packet.set_msg_code(0);
    packet.set_echo_ident(0x1234);
    packet.set_echo_seq_no(0xabcd);
    packet.data_mut().copy_from_slice(&ECHO_DATA_BYTES[..]);
    packet.fill_checksum();
    assert_eq!(bytes, ECHO_PACKET_BYTES);
}

#[test]
fn test_check_len() {
    let mut bytes = [0x0b, 0x00, 0x00, 0x00, 0x00, 0x00, 0x00, 0x00];
    assert_eq!(Packet::new_checked(&mut []), Err(Error));
    assert_eq!(Packet::new_checked(&mut bytes[..4]), Err(Error));
    assert!(Packet::new_checked(&mut bytes[..]).is_ok());
}

const ROUTING_SR_PACKET: [u8; 32] = [
    0xe3, 0x1e, 0x03, 0x03, 0x99, 0x30, 0x00, 0x00, 0x05, 0x00, 0x05, 0x00, 0x05, 0x00, 0x05, 0x06, 0x00, 0x06, 0x00,
    0x06, 0x00, 0x06, 0x02, 0x00, 0x02, 0x00, 0x02, 0x00, 0x02, 0x00, 0x00, 0x00,
];

#[test]
fn test_source_routing_deconstruct() {
    let mut bytes = ROUTING_SR_PACKET;
    let header = ExtHeaderPacket::new_checked(&mut bytes[..]).unwrap();
    assert_eq!(header.next_header(), NextHeader::Compressed);
    assert_eq!(header.extension_header_id(), ExtHeaderId::RoutingHeader);
    assert_eq!(header.length(), 30);
    assert_eq!(header.payload(), &ROUTING_SR_PACKET[2..]);
}

#[test]
fn test_source_routing_emit() {
    let ext_hdr = ExtHeaderRepr {
        ext_header_id: ExtHeaderId::RoutingHeader,
        next_header: NextHeader::Compressed,
        length: 30,
    };

    let mut buffer = vec![0u8; ext_hdr.buffer_len() + 30];
    let len = ext_hdr.buffer_len();
    ext_hdr.emit(&mut ExtHeaderPacket::new_unchecked(&mut buffer[..len]));
    buffer[len..].copy_from_slice(&ROUTING_SR_PACKET[2..]);

    assert_eq!(&buffer[..], ROUTING_SR_PACKET);
}

#[test]
fn ext_header_nh_inlined() {
    let mut bytes = [0xe2, 0x3a, 0x6, 0x3, 0x0, 0xff, 0x0, 0x0, 0x0];

    let packet = ExtHeaderPacket::new_checked(&mut bytes[..]).unwrap();
    assert_eq!(packet.next_header_size(), 1);
    assert_eq!(packet.length(), 6);
    assert_eq!(packet.dispatch_field(), DISPATCH_EXT_HEADER);
    assert_eq!(packet.extension_header_id(), ExtHeaderId::RoutingHeader);
    assert_eq!(packet.next_header(), NextHeader::Uncompressed(IpProtocol::Icmpv6));

    assert_eq!(packet.payload(), [0x03, 0x00, 0xff, 0x00, 0x00, 0x00]);
}

#[test]
fn ext_header_nh_elided() {
    let mut bytes = [0xe3, 0x06, 0x03, 0x00, 0xff, 0x00, 0x00, 0x00];

    let packet = ExtHeaderPacket::new_checked(&mut bytes[..]).unwrap();
    assert_eq!(packet.next_header_size(), 0);
    assert_eq!(packet.length(), 6);
    assert_eq!(packet.dispatch_field(), DISPATCH_EXT_HEADER);
    assert_eq!(packet.extension_header_id(), ExtHeaderId::RoutingHeader);
    assert_eq!(packet.next_header(), NextHeader::Compressed);

    assert_eq!(packet.payload(), [0x03, 0x00, 0xff, 0x00, 0x00, 0x00]);
}

#[test]
fn ext_header_emit() {
    let ext_header = ExtHeaderRepr {
        ext_header_id: ExtHeaderId::RoutingHeader,
        next_header: NextHeader::Compressed,
        length: 6,
    };

    let len = ext_header.buffer_len();
    let mut buffer = [0u8; 127];
    let mut packet = ExtHeaderPacket::new_unchecked(&mut buffer[..len]);
    ext_header.emit(&mut packet);

    assert_eq!(packet.dispatch_field(), DISPATCH_EXT_HEADER);
    assert_eq!(packet.next_header(), NextHeader::Compressed);
    assert_eq!(packet.extension_header_id(), ExtHeaderId::RoutingHeader);
}

#[test]
fn udp_nhc_fields() {
    let mut bytes = [0xf0, 0x16, 0x2e, 0x22, 0x3d, 0x28, 0xc4];

    let packet = UdpNhcPacket::new_checked(&mut bytes[..]).unwrap();
    assert_eq!(packet.dispatch_field(), DISPATCH_UDP_HEADER);
    assert_eq!(packet.checksum(), Some(0x28c4));
    assert_eq!(packet.src_port(), 5678);
    assert_eq!(packet.dst_port(), 8765);
}

#[test]
fn udp_emit() {
    let udp = UdpNhcRepr { src_port: 0xf0b1, dst_port: 0xf001 };

    let payload = b"Hello World!";

    let len = udp.header_len() + payload.len();
    let mut buffer = [0u8; 127];
    let mut packet = UdpNhcPacket::new_unchecked(&mut buffer[..len]);
    udp.emit(&mut packet);
    packet.set_checksum(0x1234);
    packet.payload_mut().copy_from_slice(&payload[..]);

    assert_eq!(packet.dispatch_field(), DISPATCH_UDP_HEADER);
    assert_eq!(packet.src_port(), 0xf0b1);
    assert_eq!(packet.dst_port(), 0xf001);
    assert_eq!(packet.checksum(), Some(0x1234));
    assert_eq!(packet.payload(), b"Hello World!");
}

/// Every port encoding round-trips, including the 4-bit one for two
/// `0xf0bX` ports (RFC 6282 §4.3.3).
#[test]
fn udp_port_modes() {
    for (src_port, dst_port, header_len) in [
        (0xf0b1, 0xf0b2, 4),
        (0xf0b1, 0xf001, 6),
        (0xf0b1, 1234, 6),
        (1234, 0xf0b1, 6),
        (0xf0ff, 0xf0ff, 6),
        (1234, 5678, 7),
    ] {
        let udp = UdpNhcRepr { src_port, dst_port };
        assert_eq!(udp.header_len(), header_len);
        let mut buffer = [0u8; 8];
        let mut packet = UdpNhcPacket::new_unchecked(&mut buffer[..header_len]);
        udp.emit(&mut packet);
        packet.set_checksum(0xabcd);
        assert_eq!(packet.header_len(), header_len);
        assert_eq!(packet.src_port(), src_port);
        assert_eq!(packet.dst_port(), dst_port);
        assert_eq!(packet.checksum(), Some(0xabcd));
        assert_eq!(UdpNhcRepr::parse(&packet), Ok(udp));
    }
}

#[test]
fn compressed_header_kinds() {
    assert_eq!(NhcPacket::dispatch(&[]), Err(Error));
    assert_eq!(NhcPacket::dispatch(&[0xe2]), Ok(NhcPacket::ExtHeader));
    assert_eq!(NhcPacket::dispatch(&[0xf3]), Ok(NhcPacket::UdpHeader));
    assert_eq!(NhcPacket::dispatch(&[0x60]), Err(Error));
    assert_eq!(IpProtocol::from(ExtHeaderId::FragmentHeader), IpProtocol::Ipv6Frag);
    assert_eq!(IpProtocol::from(ExtHeaderId::MobilityHeader), IpProtocol::HopByHop);
    let mut short = [0xf4, 0x00];
    assert!(UdpNhcPacket::new_checked(&mut short[..]).is_err());
    let mut elided = [0xf7, 0x12];
    let packet = UdpNhcPacket::new_checked(&mut elided[..]).unwrap();
    assert_eq!(packet.checksum(), None);
    assert_eq!((packet.src_port(), packet.dst_port()), (0xf0b1, 0xf0b2));
}

#[test]
fn fragment_headers_round_trip() {
    let first = frag::Repr::FirstFragment { size: 307, tag: 0x3f };
    let mut buffer = [0xa5u8; 8];
    let mut packet = frag::Packet::new_unchecked(&mut buffer[..]);
    first.emit(&mut packet);
    assert!(packet.is_first_fragment());
    assert_eq!(frag::Repr::parse(&packet), Ok(first));
    assert_eq!(packet.payload(), &[0xa5; 4]);
    assert_eq!(&buffer[..4], &[0xc1, 0x33, 0x00, 0x3f]);

    let next = frag::Repr::Fragment { size: 307, tag: 0x3f, offset: 0x11 };
    assert_eq!(next.buffer_len(), 5);
    let mut buffer = [0u8; 6];
    let mut packet = frag::Packet::new_unchecked(&mut buffer[..]);
    next.emit(&mut packet);
    assert_eq!(packet.dispatch(), DISPATCH_FRAGMENT_HEADER);
    assert_eq!(packet.datagram_offset(), 0x11);
    assert_eq!(packet.header_len(), 5);
    let macs = Ieee802154Repr {
        src_addr: Some(Ieee802154Address::Short([1, 2])),
        dst_addr: Some(Ieee802154Address::Extended([8; 8])),
    };
    let key = packet.get_key(&macs);
    assert_eq!((key.datagram_size, key.datagram_tag), (307, 0x3f));
    assert_eq!(key.ll_src_addr, Ieee802154Address::Short([1, 2]));

    // Too short, and no fragment header at all.
    assert!(frag::Packet::new_checked(&mut [0xe1, 0x33, 0x00, 0x3f][..]).is_err());
    assert!(frag::Packet::new_checked(&mut [0x61, 0x33, 0x00, 0x3f, 0x00][..]).is_err());
    assert!(frag::Packet::new_checked(&mut [][..]).is_err());
}

#[test]
fn big_endian_fields() {
    let mut buf = [0u8; 8];
    bytes::put_u16(&mut buf, 1, 0x1234);
    bytes::put_u32(&mut buf, 3, 0x89ab_cdef);
    assert_eq!(buf, [0, 0x12, 0x34, 0x89, 0xab, 0xcd, 0xef, 0]);
    assert_eq!(bytes::get_u16(&buf, 1), 0x1234);
    assert_eq!(bytes::get_u32(&buf, 3), 0x89ab_cdef);
}

#[test]
fn internet_checksum() {
    assert_eq!(checksum::data(&[0x00, 0x01, 0xf2, 0x03, 0xf4, 0xf5, 0xf6, 0xf7]), 0xddf2);
    // An odd octet counts as the high half of a word.
    assert_eq!(checksum::data(&[0x12]), 0x1200);
}

#[test]
fn ethernet_and_arp_round_trip() {
    let header = EthernetHeader {
        dst_addr: EthernetAddress::broadcast(),
        src_addr: EthernetAddress([2, 0, 0, 0, 0, 1]),
        ethertype: EthernetProtocol::Arp,
    };
    let parsed = EthernetHeader::parse(&header.emit()).unwrap();
    assert_eq!(parsed.dst_addr, header.dst_addr);
    assert_eq!(parsed.ethertype, EthernetProtocol::Arp);
    assert!(EthernetHeader::parse(&[0; 13]).is_err());
    assert!(header.dst_addr.is_broadcast() && header.dst_addr.is_multicast() && !header.dst_addr.is_unicast());
    assert_eq!(header.src_addr.as_eui_64(), [0, 0, 0, 0xff, 0xfe, 0, 0, 1]);

    let arp = ArpRepr {
        operation: ArpOperation::Reply,
        source_hardware_addr: header.src_addr,
        source_protocol_addr: Ipv4Address::new(1, 2, 3, 4),
        target_hardware_addr: header.dst_addr,
        target_protocol_addr: Ipv4Address::new(5, 6, 7, 8),
    };
    let octets = arp.emit();
    let back = ArpRepr::parse(&octets).unwrap();
    assert_eq!(back.operation, ArpOperation::Reply);
    assert_eq!(back.target_protocol_addr, Ipv4Address::new(5, 6, 7, 8));
    assert!(ArpRepr::parse(&octets[..27]).is_err());
}

#[test]
fn ip_headers_round_trip() {
    let src = Ipv4Address::new(10, 0, 0, 1);
    let dst = Ipv4Address::new(10, 0, 0, 2);
    let header = ipv4::emit_header(src, dst, IpProtocol::Udp, 64, 0, true);
    let parsed = Ipv4Header::parse(&header).unwrap();
    assert_eq!((parsed.version, parsed.header_len, parsed.total_len), (4, 20, 20));
    assert_eq!((parsed.src_addr, parsed.dst_addr, parsed.hop_limit), (src, dst, 64));
    assert!(!parsed.fragment);
    assert!(ipv4::verify_checksum(&header));
    assert!(Ipv4Header::parse(&header[..19]).is_err());

    let src6 = Ipv6Address::new(0xfe80, 0, 0, 0, 0, 0, 0, 1);
    let dst6 = Ipv6Address::new(0xff02, 0, 0, 0, 0, 0, 0, 1);
    let header = ipv6::emit_header(src6, dst6, IpProtocol::Icmpv6, 255, 0);
    let parsed = Ipv6Header::parse(&header).unwrap();
    assert_eq!((parsed.src_addr, parsed.dst_addr), (src6, dst6));
    assert_eq!(IpVersion::of_packet(&header), Ok(IpVersion::Ipv6));
    assert_eq!(IpVersion::of_packet(&[0x10]), Err(Error));
}

#[test]
fn networks_contain_their_addresses() {
    let net = Ipv4Cidr::new(Ipv4Address::new(192, 168, 1, 77), 20);
    assert!(net.contains_addr(&Ipv4Address::new(192, 168, 15, 1)));
    assert!(!net.contains_addr(&Ipv4Address::new(192, 168, 16, 1)));
    assert_eq!(net.broadcast(), Some(Ipv4Address::new(192, 168, 15, 255)));
    assert_eq!(Ipv4Cidr::new(Ipv4Address::new(1, 2, 3, 4), 31).broadcast(), None);
    let v6 = IpCidr::new(Ipv6Address::new(0xfdaa, 0, 0, 0, 0, 0, 0, 1).into(), 64);
    assert!(v6.contains_addr(&IpAddress::Ipv6(Ipv6Address::new(0xfdaa, 0, 0, 0, 5, 0, 0, 2))));
    assert!(!v6.contains_addr(&IpAddress::Ipv4(Ipv4Address::new(1, 2, 3, 4))));
}

#[test]
fn solicited_node_group() {
    let addr = Ipv6Address::new(0xfdaa, 0, 0, 0, 0, 0, 0x12, 0x3456);
    let group = addr.solicited_node();
    assert_eq!(group, Ipv6Address::new(0xff02, 0, 0, 0, 0, 1, 0xff12, 0x3456));
    assert!(group.is_solicited_node_multicast() && group.is_multicast());
}

#[test]
fn link_layer_address_options() {
    let target = Ipv6Address::new(0xfe80, 0, 0, 0, 0, 0, 0, 1);
    let hw = EthernetAddress([2, 0, 0, 0, 0, 9]);
    let message = ndisc::neighbor_message(135, 0, target, ndisc::SOURCE_LINK_LAYER_ADDR, hw);
    let found = ndisc::lladdr_option(&message[24..], ndisc::SOURCE_LINK_LAYER_ADDR).unwrap().unwrap();
    assert_eq!(found.parse_ethernet(), Ok(hw));
    assert_eq!(ndisc::lladdr_option(&message[24..], ndisc::TARGET_LINK_LAYER_ADDR), Ok(None));
    assert_eq!(ndisc::lladdr_option(&[1, 0, 0, 0, 0, 0, 0, 0], 1), Err(Error));
}

#[test]
fn hardware_addresses() {
    let hw = EthernetAddress([2, 0, 0, 0, 0, 9]);
    let raw = RawHardwareAddress::from(hw);
    assert_eq!(raw.as_bytes(), &hw.0);
    assert_eq!((raw.len(), raw.is_empty()), (6, false));
    assert_eq!(RawHardwareAddress::from_bytes(&[1, 2]).parse_ethernet(), Err(Error));
    assert_eq!(HardwareAddress::from(hw).ethernet(), Some(hw));
    assert_eq!(HardwareAddress::Ip.ethernet(), None);
    assert_eq!(HardwareAddress::Ip.medium(), xarxa::iface::Medium::Ip);
}

#[test]
fn unrecognized_option_actions() {
    assert_eq!(OptionFailureAction::from_type(0x3f), OptionFailureAction::Skip);
    assert_eq!(OptionFailureAction::from_type(0x40), OptionFailureAction::Discard);
    assert_eq!(OptionFailureAction::from_type(0x80), OptionFailureAction::DiscardSendError);
    assert_eq!(OptionFailureAction::from_type(0xc0), OptionFailureAction::DiscardSendErrorIfUnicast);
}
