use xarxa::icmp_error::IcmpError;
use xarxa::iface::{IfaceCapabilities, IfaceHandle, Medium};
use xarxa::meta::{Timestamp, TxTimestamp};
use xarxa::neighbor::MAX_MULTICAST_SOLICIT;
use xarxa::rand::Rand;
use xarxa::raw::RawMode;
use xarxa::stack::{alloc_ephemeral_port, AddrOrigin, IfaceAddr, EPHEMERAL_PORT_MIN};
use xarxa::storage::Full;
use xarxa::tcp::{State, TcpHandle, TcpRepr, Tuple};
use xarxa::time::Instant;
use xarxa::udp::{RecvError, UdpMetadata};
use xarxa::wire::arp::{ArpOperation, ArpRepr, ARP_BUFFER_LEN};
use xarxa::wire::checksum;
use xarxa::wire::cidr::IpCidr;
use xarxa::wire::endpoint::{IpEndpoint, IpListenEndpoint};
use xarxa::wire::ethernet::{EthernetAddress, EthernetHeader, ETHERNET_HEADER_LEN};
use xarxa::wire::icmpv4;
use xarxa::wire::icmpv6;
use xarxa::wire::ip::{IpAddress, IpVersion, Ipv4Address, Ipv6Address};
use xarxa::wire::ipv4::{Ipv4Header, IPV4_HEADER_LEN, IPV4_MIN_MTU};
use xarxa::wire::ipv6::{Ipv6Header, IPV6_HEADER_LEN};
use xarxa::wire::protocol::{EthernetProtocol, IpProtocol};
use xarxa::wire::tcp::{TcpControl, TcpSeqNumber};
use xarxa::wire::udp as wire_udp;
use xarxa::wire::HardwareAddress;
use xarxa::{PacketBuf, Stack};

#[test]
fn test_alloc_ephemeral_port() {
    let mut rand = Rand::new(42);

    // Unconstrained: any port in the ephemeral range.
    let port = alloc_ephemeral_port(&mut rand, |_| false).unwrap();
    assert!(port >= EPHEMERAL_PORT_MIN);

    // The probe walks past used ports (wrapping) to the single free one.
    let free = EPHEMERAL_PORT_MIN + 1234;
    assert_eq!(alloc_ephemeral_port(&mut rand, |p| p != free), Some(free));

    // Every port in use: allocation fails.
    assert_eq!(alloc_ephemeral_port(&mut rand, |_| true), None);
}

const OUR_HW: EthernetAddress = EthernetAddress([0x02, 0, 0, 0, 0, 0x01]);
const OUR_V4: Ipv4Address = Ipv4Address([192, 168, 1, 1]);
const REMOTE_V4: Ipv4Address = Ipv4Address([192, 168, 1, 2]);
const OUR_V6: Ipv6Address = Ipv6Address([0xfd, 0xaa, 0, 0, 0, 0, 0, 0, 0, 0, 0, 0, 0, 0, 0, 1]);
const REMOTE_V6: Ipv6Address = Ipv6Address([0xfd, 0xaa, 0, 0, 0, 0, 0, 0, 0, 0, 0, 0, 0, 0, 0, 2]);
const ALL_NODES: Ipv6Address = Ipv6Address([0xff, 0x02, 0, 0, 0, 0, 0, 0, 0, 0, 0, 0, 0, 0, 0, 1]);

/// 02:00:00:00:00:01 -> fe80::ff:fe00:1 (modified EUI-64 flips the U/L bit back).
const OUR_LINK_LOCAL: Ipv6Address = Ipv6Address([0xfe, 0x80, 0, 0, 0, 0, 0, 0, 0, 0, 0, 0xff, 0xfe, 0, 0, 1]);

const OUR_V4_B: Ipv4Address = Ipv4Address([10, 0, 0, 1]);
const REMOTE_V4_B: Ipv4Address = Ipv4Address([10, 0, 0, 2]);
const LINK_LOCAL_V6: Ipv6Address = Ipv6Address([0xfe, 0x80, 0, 0, 0, 0, 0, 0, 0, 0, 0, 0, 0, 0, 0, 1]);
const LINK_LOCAL_REMOTE_V6: Ipv6Address = Ipv6Address([0xfe, 0x80, 0, 0, 0, 0, 0, 0, 0, 0, 0, 0, 0, 0, 0, 2]);

const IFACE: IfaceHandle = IfaceHandle(0);

fn any() -> IpListenEndpoint {
    IpListenEndpoint::unspecified()
}

fn caps(medium: Medium) -> IfaceCapabilities {
    let mut caps = IfaceCapabilities::default();
    caps.medium = medium;
    caps.max_transmission_unit = 1500;
    caps
}

fn hardware_addr(medium: Medium) -> HardwareAddress {
    match medium {
        Medium::Ethernet => HardwareAddress::Ethernet(OUR_HW),
        _ => HardwareAddress::Ip,
    }
}

/// A stack with one interface of the given medium, owning [`OUR_V4`]/24 and
/// [`OUR_V6`]/64.
fn test_stack(medium: Medium) -> Stack {
    let mut stack = Stack::new(0x1234_5678_dead_beef);
    let handle = stack.add_iface(caps(medium), hardware_addr(medium)).unwrap();
    stack
        .iface(handle)
        .set_ip_addrs(&[IpCidr::new(OUR_V4.into(), 24), IpCidr::new(OUR_V6.into(), 64)])
        .unwrap();
    stack.poll(Instant::zero());
    sent(&mut stack, handle);
    stack
}

/// The frames that the stack sent on an interface.
fn sent(stack: &mut Stack, handle: IfaceHandle) -> Vec<Vec<u8>> {
    let mut frames = Vec::new();
    while let Some(buf) = stack.iface(handle).transmit() {
        frames.push(buf.to_vec());
    }
    frames
}

/// Hand a frame to an interface and poll the stack to process it.
fn inject_on(stack: &mut Stack, handle: IfaceHandle, bytes: &[u8]) {
    stack.iface(handle).receive(PacketBuf::with_data(0, bytes));
    stack.poll(Instant::zero());
}

fn inject(stack: &mut Stack, bytes: &[u8]) {
    inject_on(stack, IFACE, bytes);
}

/// A whole IPv4 packet, header checksum filled in.
fn ipv4_packet(src: Ipv4Address, dst: Ipv4Address, protocol: IpProtocol, payload: &[u8]) -> Vec<u8> {
    let mut bytes = vec![0; IPV4_HEADER_LEN];
    bytes[0] = 0x45;
    let total = (IPV4_HEADER_LEN + payload.len()) as u16;
    bytes[2..4].copy_from_slice(&total.to_be_bytes());
    bytes[8] = 64;
    bytes[9] = protocol.to_u8();
    bytes[12..16].copy_from_slice(&src.0);
    bytes[16..20].copy_from_slice(&dst.0);
    let sum = !checksum::data(&bytes);
    bytes[10..12].copy_from_slice(&sum.to_be_bytes());
    bytes.extend_from_slice(payload);
    bytes
}

/// A whole IPv6 packet.
fn ipv6_packet(src: Ipv6Address, dst: Ipv6Address, protocol: IpProtocol, payload: &[u8]) -> Vec<u8> {
    let mut bytes = vec![0; IPV6_HEADER_LEN];
    bytes[0] = 0x60;
    bytes[4..6].copy_from_slice(&(payload.len() as u16).to_be_bytes());
    bytes[6] = protocol.to_u8();
    bytes[7] = 64;
    bytes[8..24].copy_from_slice(&src.0);
    bytes[24..40].copy_from_slice(&dst.0);
    bytes.extend_from_slice(payload);
    bytes
}

/// A UDP datagram (UDP header + payload), checksum filled in.
fn udp_datagram(src: IpAddress, src_port: u16, dst: IpAddress, dst_port: u16, payload: &[u8]) -> Vec<u8> {
    let mut bytes = wire_udp::emit_header(&src, src_port, &dst, dst_port, payload);
    bytes.extend_from_slice(payload);
    bytes
}

/// Parse a transmitted IPv4 frame as an ICMPv4 message, verifying addresses and
/// both checksums, and return `(type, code, quoted packet)`.
fn parse_icmpv4_reply(frame: &[u8], src: Ipv4Address, dst: Ipv4Address) -> (icmpv4::Message, u8, Vec<u8>) {
    let ip = Ipv4Header::parse(frame).unwrap();
    assert!(xarxa::wire::ipv4::verify_checksum(frame));
    assert_eq!(ip.src_addr, src);
    assert_eq!(ip.dst_addr, dst);
    assert_eq!(ip.next_header, IpProtocol::Icmp);
    let mut icmp_bytes = frame[ip.header_len..].to_vec();
    let icmp = icmpv4::Packet::new_checked(&mut icmp_bytes[..]).unwrap();
    assert!(icmp.verify_checksum());
    (icmp.msg_type(), icmp.msg_code(), icmp.data().to_vec())
}

/// Parse a transmitted IPv6 frame as an ICMPv6 message, verifying addresses and
/// the checksum, and return `(type, code, pointer, quoted packet)`.
fn parse_icmpv6_reply(frame: &[u8], src: Ipv6Address, dst: Ipv6Address) -> (icmpv6::Message, u8, u32, Vec<u8>) {
    let ip = Ipv6Header::parse(frame).unwrap();
    assert_eq!(ip.src_addr, src);
    assert_eq!(ip.dst_addr, dst);
    assert_eq!(ip.next_header, IpProtocol::Icmpv6);
    let icmp = &frame[IPV6_HEADER_LEN..];
    let msg_type = icmpv6::check(icmp).unwrap();
    assert!(icmpv6::verify_checksum(icmp, &src, &dst));
    let pointer = u32::from_be_bytes([icmp[4], icmp[5], icmp[6], icmp[7]]);
    (msg_type, icmp[1], pointer, icmp[msg_type.header_len()..].to_vec())
}

#[test]
fn test_auto_link_local() {
    let ll = IfaceAddr { cidr: IpCidr::new(OUR_LINK_LOCAL.into(), 64), origin: AddrOrigin::LinkLocal };
    let second = Ipv6Address::new(0xfe80, 0, 0, 0, 0, 0xff, 0xfe00, 0x2);
    let mut stack = test_stack(Medium::Ethernet);

    // Present after add_iface, survives set_ip_addrs.
    assert!(stack.iface(IFACE).ip_addrs().contains(&ll));
    assert!(stack.iface(IFACE).has_ip_addr(OUR_LINK_LOCAL));

    // Follows the hardware address.
    let generation = stack.iface(IFACE).config_generation();
    stack.iface(IFACE).set_hardware_addr(HardwareAddress::Ethernet(EthernetAddress([0x02, 0, 0, 0, 0, 0x02])));
    assert!(!stack.iface(IFACE).has_ip_addr(OUR_LINK_LOCAL));
    assert!(stack.iface(IFACE).has_ip_addr(second));
    assert_ne!(stack.iface(IFACE).config_generation(), generation);

    // Can be removed by hand, and a user-set link-local is kept by set_ip_addrs.
    stack.iface(IFACE).remove_ip_addr(second);
    assert!(!stack.iface(IFACE).ip_addrs().iter().any(|a| a.origin == AddrOrigin::LinkLocal));
    stack.iface(IFACE).set_ip_addrs(&[IpCidr::new(OUR_V6.into(), 64)]).unwrap();
    assert_eq!(stack.iface(IFACE).ip_addrs(), &[IfaceAddr::manual(IpCidr::new(OUR_V6.into(), 64))]);

    // No link-local on an IP-medium interface.
    let mut stack = test_stack(Medium::Ip);
    assert!(!stack.iface(IFACE).ip_addrs().iter().any(|a| a.origin == AddrOrigin::LinkLocal));
}

#[test]
fn test_icmpv4_proto_unreachable() {
    let mut stack = test_stack(Medium::Ip);
    let packet = ipv4_packet(REMOTE_V4, OUR_V4, IpProtocol::Unknown(99), b"hello");
    inject(&mut stack, &packet);

    let tx = sent(&mut stack, IFACE);
    assert_eq!(tx.len(), 1);
    let (msg_type, msg_code, quote) = parse_icmpv4_reply(&tx[0], OUR_V4, REMOTE_V4);
    assert_eq!(msg_type, icmpv4::Message::DstUnreachable);
    assert_eq!(msg_code, u8::from(icmpv4::DstUnreachable::ProtoUnreachable));
    assert_eq!(quote, packet);
}

/// A stack with two IP-medium interfaces: the first owns [`OUR_V4`]/24,
/// the second 10.0.0.1/24, and both own fe80::1/64.
fn test_stack_two_ifaces() -> Stack {
    let mut stack = Stack::new(0x1234_5678_dead_beef);
    for addr in [IpCidr::new(OUR_V4.into(), 24), IpCidr::new(OUR_V4_B.into(), 24)] {
        let handle = stack.add_iface(caps(Medium::Ip), HardwareAddress::Ip).unwrap();
        stack.iface(handle).set_ip_addrs(&[addr, IpCidr::new(LINK_LOCAL_V6.into(), 64)]).unwrap();
    }
    stack
}

/// Replies are routed like any other egress: a packet whose sender is on-link
/// for another interface gets its reply out of that interface, not the one it
/// arrived on (asymmetric routing).
#[test]
fn test_reply_routed_out_other_iface() {
    let mut stack = test_stack_two_ifaces();
    // Unknown protocol from the second interface's subnet, arriving on the first.
    let packet = ipv4_packet(REMOTE_V4_B, OUR_V4, IpProtocol::Unknown(99), b"hello");
    inject_on(&mut stack, IfaceHandle(0), &packet);

    assert!(sent(&mut stack, IfaceHandle(0)).is_empty());
    let tx = sent(&mut stack, IfaceHandle(1));
    assert_eq!(tx.len(), 1);
    let (msg_type, msg_code, quote) = parse_icmpv4_reply(&tx[0], OUR_V4, REMOTE_V4_B);
    assert_eq!(msg_type, icmpv4::Message::DstUnreachable);
    assert_eq!(msg_code, u8::from(icmpv4::DstUnreachable::ProtoUnreachable));
    assert_eq!(quote, packet);
}

/// An ICMPv6 message, checksum filled in.
fn icmpv6_message(src: Ipv6Address, dst: Ipv6Address, header: [u8; 8], payload: &[u8]) -> Vec<u8> {
    let mut icmp = header.to_vec();
    icmp.extend_from_slice(payload);
    icmpv6::fill_checksum(&mut icmp[..], &src, &dst);
    icmp
}

/// A reply to an IPv6 link-local source is link-scoped: it goes back out the
/// arrival interface, even when another interface has a matching on-link
/// prefix (here, both interfaces own an fe80::/64 address).
#[test]
fn test_reply_to_link_local_stays_on_arrival_iface() {
    let mut stack = test_stack_two_ifaces();
    let icmp = icmpv6_message(
        LINK_LOCAL_REMOTE_V6,
        LINK_LOCAL_V6,
        [icmpv6::Message::EchoRequest.into(), 0, 0, 0, 0x12, 0x34, 0, 1],
        b"hello",
    );
    let packet = ipv6_packet(LINK_LOCAL_REMOTE_V6, LINK_LOCAL_V6, IpProtocol::Icmpv6, &icmp);
    // Arriving on the second interface: an on-link scan would pick the first.
    inject_on(&mut stack, IfaceHandle(1), &packet);

    assert!(sent(&mut stack, IfaceHandle(0)).is_empty());
    let tx = sent(&mut stack, IfaceHandle(1));
    assert_eq!(tx.len(), 1);
    let (msg_type, _, _, payload) = parse_icmpv6_reply(&tx[0], LINK_LOCAL_V6, LINK_LOCAL_REMOTE_V6);
    assert_eq!(msg_type, icmpv6::Message::EchoReply);
    assert_eq!(payload, b"hello");
}

#[test]
fn test_icmpv4_no_error_to_broadcast() {
    let mut stack = test_stack(Medium::Ip);
    // Unknown protocol on a broadcast-destined packet: no error may be sent.
    let bcast = Ipv4Address::new(192, 168, 1, 255);
    let packet = ipv4_packet(REMOTE_V4, bcast, IpProtocol::Unknown(99), b"hello");
    inject(&mut stack, &packet);
    assert!(sent(&mut stack, IFACE).is_empty());
}

#[test]
fn test_icmpv4_port_unreachable() {
    let mut stack = test_stack(Medium::Ip);
    let datagram = udp_datagram(REMOTE_V4.into(), 4000, OUR_V4.into(), 7, b"echo?");
    let packet = ipv4_packet(REMOTE_V4, OUR_V4, IpProtocol::Udp, &datagram);
    inject(&mut stack, &packet);

    let tx = sent(&mut stack, IFACE);
    assert_eq!(tx.len(), 1);
    let (msg_type, msg_code, quote) = parse_icmpv4_reply(&tx[0], OUR_V4, REMOTE_V4);
    assert_eq!(msg_type, icmpv4::Message::DstUnreachable);
    assert_eq!(msg_code, u8::from(icmpv4::DstUnreachable::PortUnreachable));
    assert_eq!(quote, packet);

    // With a socket bound to the port, the datagram is delivered instead.
    let handle = stack.add_udp_socket().unwrap();
    stack.udp_socket(handle).bind(7, any()).unwrap();
    inject(&mut stack, &packet);
    assert!(sent(&mut stack, IFACE).is_empty());
    assert_eq!(stack.udp_socket(handle).recv().unwrap().payload(), b"echo?");
}

#[test]
fn test_icmpv4_port_unreachable_suppressed_by_raw_socket() {
    let mut stack = test_stack(Medium::Ip);
    // An application handling UDP through a raw socket suppresses the error.
    let handle = stack.add_raw_socket().unwrap();
    stack
        .raw_socket(handle)
        .bind(RawMode::Ip { version: Some(IpVersion::Ipv4), protocol: Some(IpProtocol::Udp) })
        .unwrap();

    let datagram = udp_datagram(REMOTE_V4.into(), 4000, OUR_V4.into(), 7, b"echo?");
    let packet = ipv4_packet(REMOTE_V4, OUR_V4, IpProtocol::Udp, &datagram);
    inject(&mut stack, &packet);

    assert!(sent(&mut stack, IFACE).is_empty());
    assert_eq!(stack.raw_socket(handle).recv().unwrap().as_slice(), &packet[..]);
}

#[test]
fn test_icmpv6_unknown_next_header() {
    let mut stack = test_stack(Medium::Ip);
    let packet = ipv6_packet(REMOTE_V6, OUR_V6, IpProtocol::Unknown(99), b"hello");
    inject(&mut stack, &packet);

    let tx = sent(&mut stack, IFACE);
    assert_eq!(tx.len(), 1);
    let (msg_type, msg_code, pointer, quote) = parse_icmpv6_reply(&tx[0], OUR_V6, REMOTE_V6);
    assert_eq!(msg_type, icmpv6::Message::ParamProblem);
    assert_eq!(msg_code, u8::from(icmpv6::ParamProblem::UnrecognizedNxtHdr));
    // The pointer names the fixed header's next header field.
    assert_eq!(pointer, 6);
    assert_eq!(quote, packet);
}

#[test]
fn test_icmpv6_no_error_to_multicast() {
    let mut stack = test_stack(Medium::Ip);
    // Unknown protocol on a multicast-destined packet: no error may be sent.
    let packet = ipv6_packet(REMOTE_V6, ALL_NODES, IpProtocol::Unknown(99), b"hello");
    inject(&mut stack, &packet);
    assert!(sent(&mut stack, IFACE).is_empty());
}

#[test]
fn test_icmpv6_port_unreachable() {
    let mut stack = test_stack(Medium::Ip);
    let datagram = udp_datagram(REMOTE_V6.into(), 4000, OUR_V6.into(), 7, b"echo?");
    let packet = ipv6_packet(REMOTE_V6, OUR_V6, IpProtocol::Udp, &datagram);
    inject(&mut stack, &packet);

    let tx = sent(&mut stack, IFACE);
    assert_eq!(tx.len(), 1);
    let (msg_type, msg_code, _, quote) = parse_icmpv6_reply(&tx[0], OUR_V6, REMOTE_V6);
    assert_eq!(msg_type, icmpv6::Message::DstUnreachable);
    assert_eq!(msg_code, u8::from(icmpv6::DstUnreachable::PortUnreachable));
    assert_eq!(quote, packet);
}

/// A hop-by-hop options header carrying the given options (padded to a
/// multiple of 8 by the caller), followed by the given payload.
fn hbh_payload(next_header: IpProtocol, options: &[u8], payload: &[u8]) -> Vec<u8> {
    assert_eq!((options.len() + 2) % 8, 0);
    let mut bytes = vec![next_header.to_u8(), ((options.len() + 2) / 8 - 1) as u8];
    bytes.extend_from_slice(options);
    bytes.extend_from_slice(payload);
    bytes
}

#[test]
fn test_icmpv6_hop_by_hop_passthrough() {
    let mut stack = test_stack(Medium::Ip);
    let handle = stack.add_udp_socket().unwrap();
    stack.udp_socket(handle).bind(7, any()).unwrap();

    // PadN + an unknown option whose action is "skip" (high bits 00): the
    // packet continues to UDP and is delivered, headers intact.
    let datagram = udp_datagram(REMOTE_V6.into(), 4000, OUR_V6.into(), 7, b"echo?");
    let options = [0x01, 0x01, 0x00, 0x02, 0x01, 0x00];
    let packet = ipv6_packet(
        REMOTE_V6,
        OUR_V6,
        IpProtocol::HopByHop,
        &hbh_payload(IpProtocol::Udp, &options, &datagram),
    );
    inject(&mut stack, &packet);

    let recv = stack.udp_socket(handle).recv().unwrap();
    assert_eq!(recv.payload(), b"echo?");
    assert_eq!(recv.meta().endpoint, IpEndpoint::new(REMOTE_V6.into(), 4000));
}

#[test]
fn test_icmpv6_hop_by_hop_unrecognized_option() {
    let mut stack = test_stack(Medium::Ip);

    // High bits 01: discard silently.
    let options = [0x41, 0x04, 0x00, 0x00, 0x00, 0x00];
    let packet = ipv6_packet(
        REMOTE_V6,
        OUR_V6,
        IpProtocol::HopByHop,
        &hbh_payload(IpProtocol::Udp, &options, b""),
    );
    inject(&mut stack, &packet);
    assert!(sent(&mut stack, IFACE).is_empty());

    // High bits 10: discard and send a parameter problem, pointing at the
    // offending option (40-byte header + 2 bytes into the extension header).
    let options = [0x81, 0x04, 0x00, 0x00, 0x00, 0x00];
    let packet = ipv6_packet(
        REMOTE_V6,
        OUR_V6,
        IpProtocol::HopByHop,
        &hbh_payload(IpProtocol::Udp, &options, b""),
    );
    inject(&mut stack, &packet);
    let tx = sent(&mut stack, IFACE);
    assert_eq!(tx.len(), 1);
    let (msg_type, msg_code, pointer, quote) = parse_icmpv6_reply(&tx[0], OUR_V6, REMOTE_V6);
    assert_eq!(msg_type, icmpv6::Message::ParamProblem);
    assert_eq!(msg_code, u8::from(icmpv6::ParamProblem::UnrecognizedOption));
    assert_eq!(pointer, 42);
    assert_eq!(quote, packet);
}

#[test]
fn test_icmpv6_hop_by_hop_unrecognized_option_multicast() {
    let mut stack = test_stack(Medium::Ip);

    // High bits 11: discard, and send the error only if the destination was
    // not multicast, which it is here, so nothing may be sent.
    let options = [0xc1, 0x04, 0x00, 0x00, 0x00, 0x00];
    let packet = ipv6_packet(
        REMOTE_V6,
        ALL_NODES,
        IpProtocol::HopByHop,
        &hbh_payload(IpProtocol::Udp, &options, b""),
    );
    inject(&mut stack, &packet);
    assert!(sent(&mut stack, IFACE).is_empty());

    // High bits 10: the error is sent even for a multicast destination, with
    // the source picked from the interface.
    let options = [0x81, 0x04, 0x00, 0x00, 0x00, 0x00];
    let packet = ipv6_packet(
        REMOTE_V6,
        ALL_NODES,
        IpProtocol::HopByHop,
        &hbh_payload(IpProtocol::Udp, &options, b""),
    );
    inject(&mut stack, &packet);
    let tx = sent(&mut stack, IFACE);
    assert_eq!(tx.len(), 1);
    let (msg_type, msg_code, _, quote) = parse_icmpv6_reply(&tx[0], OUR_V6, REMOTE_V6);
    assert_eq!(msg_type, icmpv6::Message::ParamProblem);
    assert_eq!(msg_code, u8::from(icmpv6::ParamProblem::UnrecognizedOption));
    assert_eq!(quote, packet);
}

#[test]
fn test_icmp_error_quote_truncated() {
    let mut stack = test_stack(Medium::Ip);
    // A big offending packet: the quote is capped so the error fits the
    // minimum MTU (576 for IPv4: 20-byte header + 8-byte ICMP header + quote).
    let packet = ipv4_packet(REMOTE_V4, OUR_V4, IpProtocol::Unknown(99), &[0xab; 1000]);
    inject(&mut stack, &packet);

    let tx = sent(&mut stack, IFACE);
    let (_, _, quote) = parse_icmpv4_reply(&tx[0], OUR_V4, REMOTE_V4);
    assert_eq!(quote.len(), IPV4_MIN_MTU - IPV4_HEADER_LEN - 8);
    assert_eq!(quote, packet[..quote.len()]);
}

#[test]
fn test_neighbor_failure_dst_unreachable() {
    let mut stack = test_stack(Medium::Ethernet);

    // A raw socket listening for ICMPv4, the erring application.
    let raw_handle = stack.add_raw_socket().unwrap();
    stack
        .raw_socket(raw_handle)
        .bind(RawMode::Ip { version: Some(IpVersion::Ipv4), protocol: Some(IpProtocol::Icmp) })
        .unwrap();

    // Send a datagram to an on-link address that will never resolve: the
    // packet is queued and an ARP request goes out.
    let dead = Ipv4Address::new(192, 168, 1, 99);
    let udp_handle = stack.add_udp_socket().unwrap();
    stack.udp_socket(udp_handle).bind(5555, any()).unwrap();
    stack.udp_socket(udp_handle).send_slice(b"anyone?", (dead, 1000)).unwrap();
    let mut tx = sent(&mut stack, IFACE);
    assert_eq!(tx.len(), 1); // the first ARP request

    // Let the resolution run out of probes.
    for secs in 1..=4 {
        stack.poll(Instant::from_secs(secs));
    }
    // Every transmission was an ARP request: the error is not sent to the
    // wire, it is delivered back through local ingress...
    tx.extend(sent(&mut stack, IFACE));
    assert_eq!(tx.len(), MAX_MULTICAST_SOLICIT as usize);

    // ...where the raw socket receives it: host unreachable, from us to us,
    // quoting the queued UDP packet.
    let error = stack.raw_socket(raw_handle).recv().unwrap();
    let (msg_type, msg_code, quote) = parse_icmpv4_reply(error.as_slice(), OUR_V4, OUR_V4);
    assert_eq!(msg_type, icmpv4::Message::DstUnreachable);
    assert_eq!(msg_code, u8::from(icmpv4::DstUnreachable::HostUnreachable));

    let ip = Ipv4Header::parse(&quote).unwrap();
    assert_eq!(ip.src_addr, OUR_V4);
    assert_eq!(ip.dst_addr, dead);
    assert_eq!(ip.next_header, IpProtocol::Udp);
}

/// A whole IPv4 packet carrying an ICMPv4 error message quoting `quote`.
fn icmpv4_error_packet(
    src: Ipv4Address,
    dst: Ipv4Address,
    msg_type: icmpv4::Message,
    msg_code: u8,
    quote: &[u8],
) -> Vec<u8> {
    let mut icmp = vec![0u8; 8 + quote.len()];
    {
        let mut packet = icmpv4::Packet::new_unchecked(&mut icmp[..]);
        packet.set_msg_type(msg_type);
        packet.set_msg_code(msg_code);
        packet.clear_unused();
        packet.data_mut().copy_from_slice(quote);
        packet.fill_checksum();
    }
    ipv4_packet(src, dst, IpProtocol::Icmp, &icmp)
}

/// A whole IPv6 packet carrying an ICMPv6 error message quoting `quote`.
fn icmpv6_error_packet(
    src: Ipv6Address,
    dst: Ipv6Address,
    msg_type: icmpv6::Message,
    msg_code: u8,
    quote: &[u8],
) -> Vec<u8> {
    let icmp = icmpv6_message(src, dst, [msg_type.into(), msg_code, 0, 0, 0, 0, 0, 0], quote);
    ipv6_packet(src, dst, IpProtocol::Icmpv6, &icmp)
}

/// End to end: the driver stamps a received frame and the metadata travels up the
/// stack into the socket that receives it. A socket's send metadata travels back
/// down into the driver, and the transmit timestamp it asked for comes back out of
/// band, tagged with the packet's id.
#[test]
fn test_packet_meta_end_to_end() {
    let rx_stamp = Timestamp::from_seconds_and_nanos(4, 500);
    let tx_stamp = Timestamp::from_seconds_and_nanos(9, 250);

    let mut stack = Stack::new(0x1234_5678_dead_beef);
    let iface = stack.add_iface(caps(Medium::Ip), HardwareAddress::Ip).unwrap();
    stack.iface(iface).add_ip_addr(IpCidr::new(OUR_V4.into(), 24)).unwrap();

    let handle = stack.add_udp_socket().unwrap();
    stack.udp_socket(handle).bind(319, any()).unwrap();

    // Ingress: driver, IP/UDP demux, socket queue, recv.
    let datagram = udp_datagram(REMOTE_V4.into(), 319, OUR_V4.into(), 319, b"sync");
    let mut buf = PacketBuf::with_data(0, &ipv4_packet(REMOTE_V4, OUR_V4, IpProtocol::Udp, &datagram));
    let mut stamped = buf.meta();
    stamped.id = 0x1111;
    stamped.timestamp = Some(rx_stamp);
    buf.set_meta(stamped);
    stack.iface(iface).receive(buf);
    stack.poll(Instant::zero());
    let packet = stack.udp_socket(handle).recv().unwrap();
    assert_eq!(packet.payload(), b"sync");
    assert_eq!(packet.meta().meta.id, 0x1111);
    assert_eq!(packet.meta().meta.timestamp, Some(rx_stamp));

    // Egress: socket to driver, with a transmit timestamp requested.
    let mut meta: UdpMetadata = IpEndpoint::new(REMOTE_V4.into(), 319).into();
    meta.meta.id = 0x2222;
    meta.meta.request_timestamp = true;
    stack.udp_socket(handle).send_slice(b"delay_req", meta).unwrap();
    let frame = stack.iface(iface).transmit().unwrap();
    assert!(stack.iface(iface).transmit().is_none());
    assert_eq!(frame.meta().id, 0x2222);
    assert!(frame.meta().request_timestamp);

    // ... and the timestamp comes back out of band, tagged with the id.
    stack.iface(iface).report_tx_timestamp(TxTimestamp { id: frame.meta().id, timestamp: tx_stamp });
    assert_eq!(
        stack.iface(iface).poll_tx_timestamp(),
        Some(TxTimestamp { id: 0x2222, timestamp: tx_stamp })
    );
    assert_eq!(stack.iface(iface).poll_tx_timestamp(), None);
}

#[test]
fn test_udp_icmp_error_delivery() {
    let mut stack = test_stack(Medium::Ip);
    let handle = stack.add_udp_socket().unwrap();
    stack.udp_socket(handle).bind(5000, (REMOTE_V4, 53)).unwrap();
    stack.udp_socket(handle).send_slice(b"query", (REMOTE_V4, 53)).unwrap();
    let frame = sent(&mut stack, IFACE).pop().unwrap();

    // A port unreachable arrives, quoting the datagram we sent.
    let error = icmpv4_error_packet(
        REMOTE_V4,
        OUR_V4,
        icmpv4::Message::DstUnreachable,
        icmpv4::DstUnreachable::PortUnreachable.into(),
        &frame,
    );
    inject(&mut stack, &error);

    // recv reports it once, clearing it.
    match stack.udp_socket(handle).recv() {
        Err(RecvError::IcmpError { error, remote }) => {
            assert_eq!(error, IcmpError::PortUnreachable);
            assert_eq!(remote, IpEndpoint::new(REMOTE_V4.into(), 53));
        }
        other => panic!("expected icmp error, got {:?}", other),
    }
    assert_eq!(stack.udp_socket(handle).take_icmp_error(), None);
    assert!(matches!(stack.udp_socket(handle).recv(), Err(RecvError::Exhausted)));
}

#[test]
fn test_udp_icmp_error_no_match() {
    let mut stack = test_stack(Medium::Ip);
    let handle = stack.add_udp_socket().unwrap();
    stack.udp_socket(handle).bind(5000, any()).unwrap();

    // An error quoting a flow from another local port: not for this socket.
    let quote = ipv4_packet(
        OUR_V4,
        REMOTE_V4,
        IpProtocol::Udp,
        &udp_datagram(OUR_V4.into(), 6000, REMOTE_V4.into(), 53, b"x"),
    );
    let error = icmpv4_error_packet(
        REMOTE_V4,
        OUR_V4,
        icmpv4::Message::DstUnreachable,
        icmpv4::DstUnreachable::PortUnreachable.into(),
        &quote,
    );
    inject(&mut stack, &error);
    assert_eq!(stack.udp_socket(handle).take_icmp_error(), None);
}

#[test]
fn test_udp_icmp_error_delivery_v6() {
    let mut stack = test_stack(Medium::Ip);
    let handle = stack.add_udp_socket().unwrap();
    stack.udp_socket(handle).bind(5000, (REMOTE_V6, 53)).unwrap();
    stack.udp_socket(handle).send_slice(b"query", (REMOTE_V6, 53)).unwrap();
    let frame = sent(&mut stack, IFACE).pop().unwrap();

    let error = icmpv6_error_packet(
        REMOTE_V6,
        OUR_V6,
        icmpv6::Message::DstUnreachable,
        icmpv6::DstUnreachable::PortUnreachable.into(),
        &frame,
    );
    inject(&mut stack, &error);

    assert_eq!(
        stack.udp_socket(handle).take_icmp_error(),
        Some((IcmpError::PortUnreachable, IpEndpoint::new(REMOTE_V6.into(), 53)))
    );
}

#[test]
fn test_neighbor_failure_reported_to_udp_socket() {
    let mut stack = test_stack(Medium::Ethernet);
    let dead = Ipv4Address::new(192, 168, 1, 99);
    let handle = stack.add_udp_socket().unwrap();
    stack.udp_socket(handle).bind(5555, any()).unwrap();
    stack.udp_socket(handle).send_slice(b"anyone?", (dead, 1000)).unwrap();

    // Let the ARP resolution run out of probes. The local destination
    // unreachable error lands on the socket, and nothing but the ARP
    // requests ever reaches the wire.
    for secs in 1..=4 {
        stack.poll(Instant::from_secs(secs));
    }
    assert_eq!(
        stack.udp_socket(handle).take_icmp_error(),
        Some((IcmpError::HostUnreachable, IpEndpoint::new(dead.into(), 1000)))
    );
    assert_eq!(sent(&mut stack, IFACE).len(), MAX_MULTICAST_SOLICIT as usize);
}

const LOCAL_PORT: u16 = 49152;

/// A connection to port 80 of `remote`, with the sequence numbers from `sent` up to
/// `next` in flight.
fn add_connection(stack: &mut Stack, state: State, remote: Ipv4Address, sent: u32, next: u32) -> TcpHandle {
    let handle = stack.add_tcp_socket(4096, 4096).unwrap();
    let socket = stack.sockets.tcp.get_mut(handle.0);
    socket.state = state;
    socket.tuple = Some(Tuple {
        local: IpEndpoint::new(OUR_V4.into(), LOCAL_PORT),
        remote: IpEndpoint::new(remote.into(), 80),
    });
    socket.local_seq_no = TcpSeqNumber(sent);
    socket.remote_last_seq = TcpSeqNumber(next);
    handle
}

/// A segment of that connection, as it goes out.
fn segment_to(remote: Ipv4Address, control: TcpControl, seq: u32, payload: &[u8]) -> Vec<u8> {
    let repr = TcpRepr {
        src_port: LOCAL_PORT,
        dst_port: 80,
        control,
        seq_number: TcpSeqNumber(seq),
        ack_number: if control == TcpControl::Syn { None } else { Some(TcpSeqNumber(10001)) },
        window_len: 4096,
        window_scale: None,
        max_seg_size: None,
        sack_permitted: false,
        sack_ranges: [None, None, None],
        timestamp: None,
        payload,
    };
    let segment = repr.emit_octets(&OUR_V4.into(), &remote.into());
    ipv4_packet(OUR_V4, remote, IpProtocol::Tcp, &segment)
}

fn host_unreachable(quote: &[u8]) -> Vec<u8> {
    icmpv4_error_packet(
        REMOTE_V4,
        OUR_V4,
        icmpv4::Message::DstUnreachable,
        icmpv4::DstUnreachable::HostUnreachable.into(),
        quote,
    )
}

#[test]
fn test_tcp_connect_aborted_by_icmp_error() {
    let mut stack = test_stack(Medium::Ip);
    let handle = add_connection(&mut stack, State::SynSent, REMOTE_V4, 1000, 1001);
    assert_eq!(stack.tcp_socket(handle).state(), State::SynSent);
    let syn = segment_to(REMOTE_V4, TcpControl::Syn, 1000, b"");

    // A host unreachable quoting our SYN aborts the nascent connection.
    inject(&mut stack, &host_unreachable(&syn));

    assert_eq!(stack.tcp_socket(handle).state(), State::Closed);
    assert_eq!(stack.tcp_socket(handle).take_icmp_error(), Some(IcmpError::HostUnreachable));
}

#[test]
fn test_tcp_established_icmp_error_is_soft() {
    let mut stack = test_stack(Medium::Ip);
    let handle = add_connection(&mut stack, State::Established, REMOTE_V4, 1001, 1006);

    // An error quoting an in-flight data segment is soft: recorded, not fatal.
    let data_segment = segment_to(REMOTE_V4, TcpControl::Psh, 1001, b"hello");
    inject(&mut stack, &host_unreachable(&data_segment));
    assert_eq!(stack.tcp_socket(handle).state(), State::Established);
    assert_eq!(stack.tcp_socket(handle).take_icmp_error(), Some(IcmpError::HostUnreachable));

    // An error quoting an out-of-window sequence number is a blind spoof:
    // ignored entirely.
    let mut forged = data_segment.clone();
    forged[IPV4_HEADER_LEN + 4..IPV4_HEADER_LEN + 8].copy_from_slice(&999_999_999u32.to_be_bytes());
    inject(&mut stack, &host_unreachable(&forged));
    assert_eq!(stack.tcp_socket(handle).state(), State::Established);
    assert_eq!(stack.tcp_socket(handle).take_icmp_error(), None);
}

#[test]
fn test_neighbor_failure_aborts_tcp_connect() {
    let mut stack = test_stack(Medium::Ethernet);
    let dead = Ipv4Address::new(192, 168, 1, 99);
    let handle = add_connection(&mut stack, State::SynSent, dead, 1000, 1001);
    let raw_handle = stack.add_raw_socket().unwrap();
    stack
        .raw_socket(raw_handle)
        .bind(RawMode::Ip { version: Some(IpVersion::Ipv4), protocol: Some(IpProtocol::Tcp) })
        .unwrap();

    // The SYN is queued on the unresolvable neighbor. When resolution fails, the
    // local destination unreachable error aborts the connect.
    let syn = segment_to(dead, TcpControl::Syn, 1000, b"");
    stack.raw_socket(raw_handle).send_slice(&syn).unwrap();
    stack.poll(Instant::zero());
    assert_eq!(stack.tcp_socket(handle).state(), State::SynSent);
    for secs in 1..=4 {
        stack.poll(Instant::from_secs(secs));
    }
    assert_eq!(stack.tcp_socket(handle).state(), State::Closed);
    assert_eq!(stack.tcp_socket(handle).take_icmp_error(), Some(IcmpError::HostUnreachable));
    // Nothing but ARP requests ever reached the wire.
    let tx = sent(&mut stack, IFACE);
    assert_eq!(tx.len(), MAX_MULTICAST_SOLICIT as usize);
    for frame in tx.iter() {
        assert_eq!(ethertype_of(frame), EthernetProtocol::Arp);
    }
}

/// Replacing the addresses is adding them one by one: an address named twice stays
/// where it was named first, with the prefix it was named with last.
#[test]
fn address_named_twice_is_assigned_once() {
    let mut stack = test_stack(Medium::Ip);
    let addr: IpAddress = Ipv4Address::new(10, 0, 0, 1).into();
    let twice = [IpCidr::new(addr, 24), IpCidr::new(addr, 8)];
    assert_eq!(stack.iface(IFACE).set_ip_addrs(&twice), Ok(()));
    assert_eq!(stack.iface(IFACE).ip_addrs(), [IfaceAddr::manual(IpCidr::new(addr, 8))]);

    let between = [IpCidr::new(addr, 24), IpCidr::new(OUR_V4.into(), 24), IpCidr::new(addr, 16)];
    assert_eq!(stack.iface(IFACE).set_ip_addrs(&between), Ok(()));
    assert_eq!(
        stack.iface(IFACE).ip_addrs(),
        [
            IfaceAddr::manual(IpCidr::new(addr, 16)),
            IfaceAddr::manual(IpCidr::new(OUR_V4.into(), 24)),
        ]
    );

    // However often it is named, it takes up one place.
    let many = vec![IpCidr::new(addr, 24); 100];
    assert_eq!(stack.iface(IFACE).set_ip_addrs(&many), Ok(()));
    assert_eq!(stack.iface(IFACE).ip_addrs(), [IfaceAddr::manual(IpCidr::new(addr, 24))]);
}

/// The first rule that tells two source addresses apart decides.
#[test]
fn source_address_rules_are_taken_in_order() {
    let one = Ipv6Address::new(0xfd00, 0, 0, 0, 0, 0, 0, 1);
    let two = Ipv6Address::new(0xfd00, 0, 0, 0, 0, 0, 0, 2);
    let peer = Ipv6Address::new(0xfd00, 0, 0, 0, 0, 0, 0, 9);
    let link_peer = Ipv6Address::new(0xfe80, 0, 0, 0, 0, 0, 0, 9);
    let mut stack = test_stack(Medium::Ip);

    // The destination itself, though another address has the longer prefix.
    stack.iface(IFACE).set_ip_addrs(&[IpCidr::new(one.into(), 64), IpCidr::new(two.into(), 128)]).unwrap();
    assert_eq!(stack.net.ifaces.get(0).get_source_address(&one.into()), Some(one.into()));

    // An address of the destination's scope, whatever its place in the list.
    stack
        .iface(IFACE)
        .set_ip_addrs(&[IpCidr::new(LINK_LOCAL_V6.into(), 64), IpCidr::new(one.into(), 64)])
        .unwrap();
    assert_eq!(stack.net.ifaces.get(0).get_source_address(&peer.into()), Some(one.into()));
    stack
        .iface(IFACE)
        .set_ip_addrs(&[IpCidr::new(one.into(), 64), IpCidr::new(LINK_LOCAL_V6.into(), 64)])
        .unwrap();
    assert_eq!(
        stack.net.ifaces.get(0).get_source_address(&link_peer.into()),
        Some(LINK_LOCAL_V6.into())
    );
}

/// An echo request, checksum filled in.
fn icmpv4_echo_request(ident: u16, seq_no: u16) -> Vec<u8> {
    let mut bytes = vec![0; 8];
    {
        let mut icmp = icmpv4::Packet::new_unchecked(&mut bytes[..]);
        icmp.set_msg_type(icmpv4::Message::EchoRequest);
        icmp.set_msg_code(0);
        icmp.set_echo_ident(ident);
        icmp.set_echo_seq_no(seq_no);
        icmp.fill_checksum();
    }
    bytes
}

/// The ethertype of a transmitted Ethernet frame.
fn ethertype_of(frame: &[u8]) -> EthernetProtocol {
    EthernetHeader::parse(frame).unwrap().ethertype
}

#[test]
fn test_iface_ip_addrs() {
    let mut stack = test_stack(Medium::Ip);
    let new_addr = Ipv4Address::new(10, 0, 0, 1);

    assert_eq!(
        stack.iface(IFACE).ip_addrs(),
        [
            IfaceAddr::manual(IpCidr::new(OUR_V4.into(), 24)),
            IfaceAddr::manual(IpCidr::new(OUR_V6.into(), 64))
        ]
    );
    assert!(stack.iface(IFACE).has_ip_addr(OUR_V4));
    assert!(!stack.iface(IFACE).has_ip_addr(new_addr));

    // An echo request to an address we don't have is ignored.
    let echo = ipv4_packet(REMOTE_V4, new_addr, IpProtocol::Icmp, &icmpv4_echo_request(0x1234, 1));
    inject(&mut stack, &echo);
    assert!(sent(&mut stack, IFACE).is_empty());

    // A new address is appended, and ingress starts accepting it right away.
    assert_eq!(stack.iface(IFACE).add_ip_addr(IpCidr::new(new_addr.into(), 8)).unwrap(), None);
    assert!(stack.iface(IFACE).has_ip_addr(new_addr));
    inject(&mut stack, &echo);
    let tx = sent(&mut stack, IFACE);
    assert_eq!(tx.len(), 1);
    let (msg_type, ..) = parse_icmpv4_reply(&tx[0], new_addr, REMOTE_V4);
    assert_eq!(msg_type, icmpv4::Message::EchoReply);

    // Re-adding an address already assigned updates its prefix in place,
    // returning the CIDR it had.
    assert_eq!(
        stack.iface(IFACE).add_ip_addr(IpCidr::new(new_addr.into(), 24)).unwrap(),
        Some(IpCidr::new(new_addr.into(), 8))
    );
    assert_eq!(
        stack.iface(IFACE).ip_addrs(),
        [
            IfaceAddr::manual(IpCidr::new(OUR_V4.into(), 24)),
            IfaceAddr::manual(IpCidr::new(OUR_V6.into(), 64)),
            IfaceAddr::manual(IpCidr::new(new_addr.into(), 24)),
        ]
    );

    // Removing hands back the CIDR it was assigned with, once.
    assert_eq!(stack.iface(IFACE).remove_ip_addr(new_addr), Some(IpCidr::new(new_addr.into(), 24)));
    assert_eq!(stack.iface(IFACE).remove_ip_addr(new_addr), None);
    assert!(!stack.iface(IFACE).has_ip_addr(new_addr));

    // ...and ingress stops accepting it.
    inject(&mut stack, &echo);
    assert!(sent(&mut stack, IFACE).is_empty());

    // Wholesale replacement.
    stack.iface(IFACE).set_ip_addrs(&[IpCidr::new(new_addr.into(), 8)]).unwrap();
    assert_eq!(stack.iface(IFACE).ip_addrs(), [IfaceAddr::manual(IpCidr::new(new_addr.into(), 8))]);
    assert!(!stack.iface(IFACE).has_ip_addr(OUR_V4));
}

#[test]
#[should_panic]
fn test_iface_reject_non_unicast_ip_addr() {
    let mut stack = test_stack(Medium::Ip);
    stack
        .iface(IFACE)
        .add_ip_addr(IpCidr::new(Ipv4Address::new(224, 0, 0, 1).into(), 24))
        .unwrap();
}

#[test]
fn test_iface_addr_change_invalidates_link_state() {
    let mut stack = test_stack(Medium::Ethernet);
    let remote_hw = EthernetAddress([0x02, 0, 0, 0, 0, 0x02]);

    // Learn the remote's hardware address from an ARP request for us.
    let header = EthernetHeader {
        dst_addr: EthernetAddress::broadcast(),
        src_addr: remote_hw,
        ethertype: EthernetProtocol::Arp,
    };
    let arp = ArpRepr {
        operation: ArpOperation::Request,
        source_hardware_addr: remote_hw,
        source_protocol_addr: REMOTE_V4,
        target_hardware_addr: EthernetAddress([0; 6]),
        target_protocol_addr: OUR_V4,
    };
    let mut request = header.emit();
    request.extend_from_slice(&arp.emit());
    assert_eq!(request.len(), ETHERNET_HEADER_LEN + ARP_BUFFER_LEN);
    inject(&mut stack, &request);
    let tx = sent(&mut stack, IFACE);
    assert_eq!(tx.len(), 1); // the ARP reply
    assert_eq!(ethertype_of(&tx[0]), EthernetProtocol::Arp);

    // The neighbor is now resolved: a datagram to it goes out immediately.
    let udp = stack.add_udp_socket().unwrap();
    stack.udp_socket(udp).bind(5555, any()).unwrap();
    stack.udp_socket(udp).send_slice(b"hi", (REMOTE_V4, 1000)).unwrap();
    let tx = sent(&mut stack, IFACE);
    assert_eq!(tx.len(), 1);
    assert_eq!(ethertype_of(&tx[0]), EthernetProtocol::Ipv4);

    // Queue a packet on a neighbor that will never answer.
    let dead = Ipv4Address::new(192, 168, 1, 99);
    stack.udp_socket(udp).send_slice(b"anyone?", (dead, 1000)).unwrap();
    let tx = sent(&mut stack, IFACE);
    assert_eq!(tx.len(), 1);
    assert_eq!(ethertype_of(&tx[0]), EthernetProtocol::Arp);

    // Changing the interface's addresses invalidates both: the queued packet
    // is dropped (no solicitation is ever retransmitted for it)...
    stack.iface(IFACE).set_ip_addrs(&[IpCidr::new(OUR_V4.into(), 24)]).unwrap();
    for secs in 1..=4 {
        stack.poll(Instant::from_secs(secs));
    }
    assert!(sent(&mut stack, IFACE).is_empty());

    // ...and the learned mapping is gone, so the next datagram to the remote
    // has to resolve it again.
    stack.udp_socket(udp).send_slice(b"hi", (REMOTE_V4, 1000)).unwrap();
    let tx = sent(&mut stack, IFACE);
    assert_eq!(tx.len(), 1);
    assert_eq!(ethertype_of(&tx[0]), EthernetProtocol::Arp);
}

#[test]
fn echo_reply_mirrors_the_request() {
    let mut stack = test_stack(Medium::Ip);
    inject(&mut stack, &ipv4_packet(REMOTE_V4, OUR_V4, IpProtocol::Icmp, &icmpv4_echo_request(7, 9)));
    let tx = sent(&mut stack, IFACE);
    let (msg_type, code, _) = parse_icmpv4_reply(&tx[0], OUR_V4, REMOTE_V4);
    assert_eq!((msg_type, code), (icmpv4::Message::EchoReply, 0));
    assert_eq!(&tx[0][24..28], &[0, 7, 0, 9]);
}

#[test]
fn bad_checksums_are_dropped_unless_the_device_checks_them() {
    let mut packet = ipv4_packet(REMOTE_V4, OUR_V4, IpProtocol::Unknown(99), b"hello");
    packet[10] ^= 0xff;
    let mut stack = test_stack(Medium::Ip);
    inject(&mut stack, &packet);
    assert!(sent(&mut stack, IFACE).is_empty());

    let mut caps = caps(Medium::Ip);
    caps.checksum = xarxa::iface::ChecksumCapabilities::ignored();
    let mut stack = Stack::new(1);
    let handle = stack.add_iface(caps, HardwareAddress::Ip).unwrap();
    stack.iface(handle).add_ip_addr(IpCidr::new(OUR_V4.into(), 24)).unwrap();
    inject(&mut stack, &packet);
    assert_eq!(sent(&mut stack, handle).len(), 1);
}

#[test]
fn icmp_errors_are_not_answered() {
    let mut stack = test_stack(Medium::Ip);
    let quote = ipv4_packet(OUR_V4, REMOTE_V4, IpProtocol::Unknown(99), b"x");
    let error = icmpv4_error_packet(REMOTE_V4, OUR_V4, icmpv4::Message::TimeExceeded, 0, &quote);
    inject(&mut stack, &error);
    assert!(sent(&mut stack, IFACE).is_empty());
}

#[test]
fn frames_for_others_are_ignored() {
    let mut stack = test_stack(Medium::Ethernet);
    let packet = ipv4_packet(REMOTE_V4, OUR_V4, IpProtocol::Icmp, &icmpv4_echo_request(1, 1));
    let mut frame = EthernetHeader {
        dst_addr: EthernetAddress([0x02, 0, 0, 0, 0, 0x77]),
        src_addr: EthernetAddress([0x02, 0, 0, 0, 0, 0x02]),
        ethertype: EthernetProtocol::Ipv4,
    }
    .emit();
    frame.extend_from_slice(&packet);
    inject(&mut stack, &frame);
    assert!(sent(&mut stack, IFACE).is_empty());
}

#[test]
fn packets_for_others_are_ignored() {
    let mut stack = test_stack(Medium::Ip);
    let other_v4 = Ipv4Address::new(192, 168, 1, 77);
    inject(
        &mut stack,
        &ipv4_packet(REMOTE_V4, other_v4, IpProtocol::Icmp, &icmpv4_echo_request(1, 1)),
    );
    let mut other_v6 = OUR_V6;
    other_v6.0[15] = 77;
    let request = icmpv6_message(REMOTE_V6, other_v6, [128, 0, 0, 0, 0, 1, 0, 1], b"ping");
    inject(&mut stack, &ipv6_packet(REMOTE_V6, other_v6, IpProtocol::Icmpv6, &request));
    assert!(sent(&mut stack, IFACE).is_empty());
    // The same request for us is answered.
    let request = icmpv6_message(REMOTE_V6, OUR_V6, [128, 0, 0, 0, 0, 1, 0, 1], b"ping");
    inject(&mut stack, &ipv6_packet(REMOTE_V6, OUR_V6, IpProtocol::Icmpv6, &request));
    assert_eq!(sent(&mut stack, IFACE).len(), 1);
}

#[test]
fn removed_iface_takes_its_routes_along() {
    let mut stack = test_stack_two_ifaces();
    let gateway = Ipv4Address::new(10, 0, 0, 254);
    stack.routes_mut().add_default_ipv4_route(gateway, IfaceHandle(1));
    let far = IpAddress::Ipv4(Ipv4Address::new(8, 8, 8, 8));
    assert!(stack.routes().lookup(&far, Instant::zero()).is_some());
    stack.remove_iface(IfaceHandle(1));
    assert!(stack.routes().lookup(&far, Instant::zero()).is_none());
    // The slot is free for the next interface.
    let again = stack.add_iface(caps(Medium::Ip), HardwareAddress::Ip).unwrap();
    assert_eq!(again, IfaceHandle(1));
}

#[test]
fn tables_run_full() {
    let mut stack = Stack::new(1);
    let mut ifaces = 0;
    while stack.add_iface(caps(Medium::Ip), HardwareAddress::Ip).is_ok() {
        ifaces += 1;
    }
    assert_eq!(ifaces, xarxa::config::IFACE_COUNT);
    let mut sockets = 0;
    while stack.add_udp_socket().is_ok() {
        sockets += 1;
    }
    assert_eq!(sockets, xarxa::config::UDP_SOCKET_COUNT);
    assert_eq!(stack.add_udp_socket(), Err(Full));
    let mut raws = 0;
    while stack.add_raw_socket().is_ok() {
        raws += 1;
    }
    assert_eq!(raws, xarxa::config::RAW_SOCKET_COUNT);
    let mut tcps = 0;
    while stack.add_tcp_socket(4096, 4096).is_ok() {
        tcps += 1;
    }
    assert_eq!(tcps, xarxa::config::TCP_SOCKET_COUNT);
    let mut listeners = 0;
    while stack.add_tcp_listener().is_ok() {
        listeners += 1;
    }
    assert_eq!(listeners, xarxa::config::TCP_LISTENER_COUNT);
    let mut addrs: u8 = 0;
    while stack
        .iface(IfaceHandle(0))
        .add_ip_addr(IpCidr::new(Ipv4Address::new(10, 0, addrs, 1).into(), 24))
        .is_ok()
    {
        addrs += 1;
    }
    assert_eq!(addrs as usize, xarxa::config::IFACE_ADDR_COUNT);
}

#[test]
fn walks_visit_everything_once() {
    let mut stack = test_stack_two_ifaces();
    let a = stack.add_udp_socket().unwrap();
    let b = stack.add_udp_socket().unwrap();
    let c = stack.add_udp_socket().unwrap();
    stack.remove_udp_socket(b);
    let mut seen = Vec::new();
    let mut walk = stack.udp_sockets();
    while let Some((handle, item)) = walk.next() {
        assert!(!item.can_recv());
        seen.push(handle);
    }
    assert_eq!(seen, vec![a, c]);

    let mut mtus = Vec::new();
    let mut walk = stack.ifaces();
    while let Some((handle, item)) = walk.next() {
        mtus.push((handle.index(), item.ip_mtu()));
    }
    assert_eq!(mtus, vec![(0, 1500), (1, 1500)]);

    let raw = stack.add_raw_socket().unwrap();
    let mut walk = stack.raw_sockets();
    let (handle, item) = walk.next().unwrap();
    assert_eq!(handle, raw);
    assert!(!item.is_open());
    assert!(walk.next().is_none());

    let tcp = stack.add_tcp_socket(10, 10).unwrap();
    let mut walk = stack.tcp_sockets();
    assert_eq!(walk.next().unwrap().0, tcp);
    assert!(walk.next().is_none());

    let listener = stack.add_tcp_listener().unwrap();
    let mut walk = stack.tcp_listeners();
    assert_eq!(walk.next().unwrap().0, listener);
    assert!(walk.next().is_none());
    stack.remove_raw_socket(raw);
    stack.remove_tcp_socket(tcp);
    stack.remove_tcp_listener(listener);
    assert!(stack.tcp_listeners().next().is_none());
}

#[test]
fn poll_says_when_it_wants_to_be_called_again() {
    let mut stack = test_stack(Medium::Ethernet);
    assert_eq!(stack.poll(Instant::zero()), Instant::max());
    let udp = stack.add_udp_socket().unwrap();
    stack.udp_socket(udp).bind(5555, any()).unwrap();
    stack.udp_socket(udp).send_slice(b"hi", (REMOTE_V4, 1000)).unwrap();
    // The resolution is retried a second later.
    assert_eq!(stack.poll(Instant::zero()), Instant::from_secs(1));
}

/// Polling sets the clock and leaves no received frame behind, on any interface.
#[test]
fn poll_sets_clock_and_drains_queues() {
    let mut stack = test_stack_two_ifaces();
    let packet = ipv4_packet(REMOTE_V4, OUR_V4, IpProtocol::Unknown(99), b"hello");
    for _ in 0..3 {
        stack.iface(IfaceHandle(0)).receive(PacketBuf::with_data(0, &packet));
        stack.iface(IfaceHandle(1)).receive(PacketBuf::with_data(0, &packet));
    }
    assert_eq!(stack.net.ifaces.get(0).rx.len(), 3);
    stack.poll(Instant::from_secs(7));
    assert_eq!(stack.net.inner.now, Instant::from_secs(7));
    assert!(stack.net.ifaces.get(0).rx.is_empty());
    assert!(stack.net.ifaces.get(1).rx.is_empty());
}
