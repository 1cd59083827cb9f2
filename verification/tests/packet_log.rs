use xarxa::iface::Medium;
use xarxa::packet_log::dns::{log_dns, DnsData, DnsLine, DnsSection};
use xarxa::packet_log::{log_packet, HeaderKind, HeaderLine, Layer, LogLine, TcpFlags};
use xarxa::wire::arp::{ArpOperation, ArpRepr};
use xarxa::wire::dns::DnsName;
use xarxa::wire::ethernet::{EthernetAddress, EthernetHeader};
use xarxa::wire::icmpv4;
use xarxa::wire::icmpv6;
use xarxa::wire::ip::{IpAddress, Ipv4Address, Ipv6Address};
use xarxa::wire::ipv4;
use xarxa::wire::ipv6;
use xarxa::wire::protocol::{EthernetProtocol, IpProtocol};
use xarxa::wire::udp;
use xarxa::PacketBuf;

const DNS_RESPONSE: [u8; 79] = [
    0x78, 0x6c, 0x81, 0x80, 0x00, 0x01, 0x00, 0x02, 0x00, 0x00, 0x00, 0x00, 0x03, 0x77, 0x77, 0x77, 0x08, 0x66, 0x61,
    0x63, 0x65, 0x62, 0x6f, 0x6f, 0x6b, 0x03, 0x63, 0x6f, 0x6d, 0x00, 0x00, 0x01, 0x00, 0x01, 0xc0, 0x0c, 0x00, 0x05,
    0x00, 0x01, 0x00, 0x00, 0x05, 0xf3, 0x00, 0x11, 0x09, 0x73, 0x74, 0x61, 0x72, 0x2d, 0x6d, 0x69, 0x6e, 0x69, 0x04,
    0x63, 0x31, 0x30, 0x72, 0xc0, 0x10, 0xc0, 0x2e, 0x00, 0x01, 0x00, 0x01, 0x00, 0x00, 0x00, 0x05, 0x00, 0x04, 0x1f,
    0x0d, 0x53, 0x24,
];

/// Decoding a CNAME + A response must walk every record without panicking.
#[test]
fn test_log_dns() {
    let mut out = Vec::new();
    log_dns(&DNS_RESPONSE, &mut out);
    let name = DnsName::parse(&DNS_RESPONSE, &[0xc0, 0x2e]).unwrap();
    assert_eq!(name.as_str(), "star-mini.c10r.facebook.com.");
    // Truncated: must report malformed, not panic.
    let mut out = Vec::new();
    log_dns(
        &[0x78, 0x6c, 0x81, 0x80, 0x00, 0x01, 0x00, 0x02, 0x00, 0x00, 0x00, 0x00, 0x03, 0x77],
        &mut out,
    );
    assert_eq!(out[1..], [LogLine::Dns(DnsLine::QuestionMalformed)]);
}

#[test]
fn dns_response_line_by_line() {
    let mut out = Vec::new();
    log_dns(&DNS_RESPONSE, &mut out);
    assert_eq!(out.len(), 4);
    match &out[0] {
        LogLine::Dns(DnsLine::Header(header)) => {
            assert_eq!((header.id, header.response, header.opcode, header.rcode), (0x786c, true, 0, 0));
            assert_eq!((header.questions, header.answers), (1, 2));
        }
        other => panic!("expected a header, got {:?}", other),
    }
    match &out[1] {
        LogLine::Dns(DnsLine::Question { name, type_ }) => {
            assert_eq!(name.as_ref().unwrap().as_str(), "www.facebook.com.");
            assert_eq!(*type_, 1);
        }
        other => panic!("expected a question, got {:?}", other),
    }
    match &out[2] {
        LogLine::Dns(DnsLine::Record { section, ttl, data: DnsData::Cname(cname), .. }) => {
            assert_eq!((*section, *ttl), (DnsSection::Answer, 0x5f3));
            assert_eq!(cname.as_ref().unwrap().as_str(), "star-mini.c10r.facebook.com.");
        }
        other => panic!("expected a name record, got {:?}", other),
    }
    match &out[3] {
        LogLine::Dns(DnsLine::Record { data: DnsData::A(addr), .. }) => {
            assert_eq!(*addr, Ipv4Address::new(31, 13, 83, 36));
        }
        other => panic!("expected an address record, got {:?}", other),
    }
    // A message without a whole header, and one whose record section is cut off.
    let mut out = Vec::new();
    log_dns(&DNS_RESPONSE[..11], &mut out);
    assert_eq!(out, [LogLine::Dns(DnsLine::Malformed)]);
    let mut out = Vec::new();
    log_dns(&DNS_RESPONSE[..78], &mut out);
    assert_eq!(out[3], LogLine::Dns(DnsLine::RecordMalformed(DnsSection::Answer)));
}

#[test]
fn dns_names() {
    // Text that is not UTF-8, a pointer that points at itself, a reserved label kind.
    assert_eq!(DnsName::parse(&[], &[1, 0xff, 0]).unwrap().as_str(), "<non-utf8>");
    assert!(DnsName::parse(&[0xc0, 0x00], &[0xc0, 0x00]).is_none());
    assert!(DnsName::parse(&[], &[0x40, 0]).is_none());
    assert!(DnsName::parse(&[], &[3, 0x61]).is_none());
    assert_eq!(DnsName::parse(&[], &[0]).unwrap().as_str(), "");
    // Five labels of 50 octets with their dots are as much as fits.
    let mut name = Vec::new();
    for _ in 0..5 {
        name.push(50);
        name.extend_from_slice(&[0x61; 50]);
    }
    name.push(0);
    assert!(DnsName::parse(&[], &name).is_some());
    name[0] = 51;
    name.insert(1, 0x61);
    assert!(DnsName::parse(&[], &name).is_none());
}

const A: Ipv4Address = Ipv4Address([10, 0, 0, 1]);
const B: Ipv4Address = Ipv4Address([10, 0, 0, 2]);

fn lines(data: &[u8], layer: Layer) -> Vec<LogLine> {
    log_packet(&PacketBuf::with_data(0, data), layer)
}

fn ipv4_packet(proto: IpProtocol, payload: &[u8]) -> Vec<u8> {
    let mut bytes = ipv4::emit_header(A, B, proto, 64, payload.len(), true);
    bytes.extend_from_slice(payload);
    bytes
}

fn udp_datagram(dst_port: u16, payload: &[u8]) -> Vec<u8> {
    let mut bytes = udp::emit_header(&IpAddress::Ipv4(A), 4000, &IpAddress::Ipv4(B), dst_port, payload);
    bytes.extend_from_slice(payload);
    bytes
}

#[test]
fn ethernet_frame_is_decoded_down_to_dns() {
    let mut frame = EthernetHeader {
        dst_addr: EthernetAddress([2, 0, 0, 0, 0, 2]),
        src_addr: EthernetAddress([2, 0, 0, 0, 0, 1]),
        ethertype: EthernetProtocol::Ipv4,
    }
    .emit();
    frame.extend_from_slice(&ipv4_packet(IpProtocol::Udp, &udp_datagram(53, &DNS_RESPONSE)));
    let out = lines(&frame, Layer::Ethernet);
    assert_eq!(out.len(), 7);
    assert_eq!(
        out[0],
        LogLine::Header(HeaderLine::Ethernet {
            src: EthernetAddress([2, 0, 0, 0, 0, 1]),
            dst: EthernetAddress([2, 0, 0, 0, 0, 2]),
            ethertype: EthernetProtocol::Ipv4,
        })
    );
    assert_eq!(
        out[1],
        LogLine::Header(HeaderLine::Ipv4 {
            src: A,
            dst: B,
            proto: IpProtocol::Udp,
            len: 107,
            ttl: 64,
            ident: 0,
            dscp: 0,
            ecn: 0,
            dont_frag: true,
            more_frags: false,
            frag_offset: 0,
        })
    );
    assert_eq!(
        out[2],
        LogLine::Header(HeaderLine::Udp { src_port: 4000, dst_port: 53, len: 87, payload: 79 })
    );
}

#[test]
fn quoted_packets_are_decoded_too() {
    let quoted = ipv4_packet(IpProtocol::Udp, &udp_datagram(7, b"hi"));
    let mut icmp = vec![0; 8];
    icmp[0] = icmpv4::Message::DstUnreachable.into();
    icmp[1] = icmpv4::DstUnreachable::PortUnreachable.into();
    icmp.extend_from_slice(&quoted);
    let out = lines(&ipv4_packet(IpProtocol::Icmp, &icmp), Layer::Ip);
    assert_eq!(out.len(), 4);
    assert_eq!(
        out[1],
        LogLine::Header(HeaderLine::Icmpv4DstUnreachable(icmpv4::DstUnreachable::PortUnreachable))
    );
    assert_eq!(
        out[3],
        LogLine::Header(HeaderLine::Udp { src_port: 4000, dst_port: 7, len: 10, payload: 2 })
    );
}

#[test]
fn malformed_headers_end_the_log() {
    assert_eq!(
        lines(&[0; 5], Layer::Ethernet),
        [LogLine::Header(HeaderLine::Malformed(HeaderKind::Ethernet))]
    );
    assert_eq!(lines(&[], Layer::Ip), [LogLine::Header(HeaderLine::IpEmpty)]);
    assert_eq!(lines(&[0x10], Layer::Ip), [LogLine::Header(HeaderLine::IpUnknownVersion { len: 1 })]);
    assert_eq!(
        lines(&[0x45], Layer::Ipv4),
        [LogLine::Header(HeaderLine::Malformed(HeaderKind::Ipv4))]
    );
    assert_eq!(
        lines(&[0x60], Layer::Ipv6),
        [LogLine::Header(HeaderLine::Malformed(HeaderKind::Ipv6))]
    );
    assert_eq!(
        lines(&[0; 3], Layer::Arp),
        [LogLine::Header(HeaderLine::Malformed(HeaderKind::Arp))]
    );
    let out = lines(&ipv4_packet(IpProtocol::Tcp, &[0; 10]), Layer::Ipv4);
    assert_eq!(out[1..], [LogLine::Header(HeaderLine::Malformed(HeaderKind::Tcp))]);
    let out = lines(&ipv4_packet(IpProtocol::Udp, &[0; 3]), Layer::Ipv4);
    assert_eq!(out[1..], [LogLine::Header(HeaderLine::Malformed(HeaderKind::Udp))]);
    let out = lines(&ipv4_packet(IpProtocol::Icmp, &[0; 3]), Layer::Ipv4);
    assert_eq!(out[1..], [LogLine::Header(HeaderLine::Malformed(HeaderKind::Icmpv4))]);
}

#[test]
fn ipv6_extension_headers_are_walked() {
    let src = Ipv6Address::new(0xfe80, 0, 0, 0, 0, 0, 0, 1);
    let dst = Ipv6Address::new(0xfe80, 0, 0, 0, 0, 0, 0, 2);
    let mut payload = vec![IpProtocol::Icmpv6.to_u8(), 0, 0x01, 0x02, 0, 0, 0x00, 0x00];
    let mut message = vec![icmpv6::Message::NeighborSolicit.into(), 0, 0, 0, 0, 0, 0, 0];
    message.extend_from_slice(&dst.0);
    message.extend_from_slice(&[1, 1, 2, 0, 0, 0, 0, 9]);
    message.extend_from_slice(&[5, 1, 0, 0, 0, 0, 5, 0xdc]);
    message.extend_from_slice(&[9, 0]);
    payload.extend_from_slice(&message);
    let mut bytes = ipv6::emit_header(src, dst, IpProtocol::HopByHop, 255, payload.len());
    bytes.extend_from_slice(&payload);
    let out = lines(&bytes, Layer::Ip);
    let expected = [
        HeaderLine::Extension { proto: IpProtocol::HopByHop, next_header: IpProtocol::Icmpv6, len: 8 },
        HeaderLine::ExtensionOption { option_type: 1, len: 2 },
        HeaderLine::ExtensionOption { option_type: 0, len: 0 },
        HeaderLine::ExtensionOption { option_type: 0, len: 0 },
        HeaderLine::NeighborSolicit { target: dst },
        HeaderLine::NdiscLinkLayerAddr { option_type: 1, addr: EthernetAddress([2, 0, 0, 0, 0, 9]) },
        HeaderLine::NdiscMtu { mtu: 1500 },
        HeaderLine::Malformed(HeaderKind::NdiscOption),
    ];
    assert_eq!(out.len(), 1 + expected.len());
    for (line, want) in out[1..].iter().zip(expected) {
        assert_eq!(*line, LogLine::Header(want));
    }
}

#[test]
fn arp_and_other_payloads() {
    let arp = ArpRepr {
        operation: ArpOperation::Request,
        source_hardware_addr: EthernetAddress([2, 0, 0, 0, 0, 1]),
        source_protocol_addr: A,
        target_hardware_addr: EthernetAddress([0; 6]),
        target_protocol_addr: B,
    };
    assert_eq!(
        lines(&arp.emit(), Layer::Arp),
        [LogLine::Header(HeaderLine::Arp {
            operation: ArpOperation::Request,
            source_hardware_addr: EthernetAddress([2, 0, 0, 0, 0, 1]),
            source_protocol_addr: A,
            target_hardware_addr: EthernetAddress([0; 6]),
            target_protocol_addr: B,
        })]
    );
    let mut odd = arp.emit();
    odd[0] = 0x12;
    assert!(matches!(
        lines(&odd, Layer::Arp)[0],
        LogLine::Header(HeaderLine::ArpOther { hardware_type: 0x1201, .. })
    ));
    let out = lines(&ipv4_packet(IpProtocol::Unknown(99), b"abc"), Layer::Ip);
    assert_eq!(
        out[1],
        LogLine::Header(HeaderLine::Transport { proto: IpProtocol::Unknown(99), len: 3 })
    );
    assert_eq!(Layer::of_medium(Medium::Ethernet), Some(Layer::Ethernet));
    assert_eq!(Layer::of_medium(Medium::Ip), Some(Layer::Ip));
    assert_eq!(Layer::of_medium(Medium::Ieee802154), None);
}

#[test]
fn tcp_flags_spell_letters() {
    let flags = TcpFlags {
        fin: false,
        syn: true,
        rst: false,
        psh: false,
        ack: true,
        urg: false,
        ece: false,
        cwr: false,
        ns: true,
    };
    assert_eq!(flags.letters(), b"SAN");
}
