use std::sync::atomic::{AtomicUsize, Ordering};
use std::sync::Arc;
use std::task::{Wake, Waker};

use xarxa::icmp_error::{parse_quoted_packet, IcmpError};
use xarxa::iface::{IfaceCapabilities, IfaceHandle, Medium};
use xarxa::raw::{BindError, RawMode, RecvError, SendError};
use xarxa::route::{Route, RouteOrigin, Routes};
use xarxa::time::{Duration, Instant};
use xarxa::waker::WakerRegistration;
use xarxa::wire::cidr::IpCidr;
use xarxa::wire::ethernet::EthernetAddress;
use xarxa::wire::icmpv4;
use xarxa::wire::icmpv6;
use xarxa::wire::ip::{IpAddress, IpVersion, Ipv4Address, Ipv6Address};
use xarxa::wire::ipv4;
use xarxa::wire::protocol::{EthernetProtocol, IpProtocol};
use xarxa::wire::HardwareAddress;
use xarxa::{PacketBuf, Stack, PACKET_BUF_SIZE};

const OUR: Ipv4Address = Ipv4Address([192, 168, 1, 1]);
const PEER: Ipv4Address = Ipv4Address([192, 168, 1, 2]);
const IFACE: IfaceHandle = IfaceHandle(0);

fn stack(medium: Medium) -> Stack {
    let mut stack = Stack::new(1);
    let mut caps = IfaceCapabilities::default();
    caps.medium = medium;
    caps.max_transmission_unit = 1500;
    let hw = match medium {
        Medium::Ethernet => HardwareAddress::Ethernet(EthernetAddress([2, 0, 0, 0, 0, 1])),
        _ => HardwareAddress::Ip,
    };
    let handle = stack.add_iface(caps, hw).unwrap();
    stack.iface(handle).add_ip_addr(IpCidr::new(OUR.into(), 24)).unwrap();
    stack
}

fn packet(src: Ipv4Address, dst: Ipv4Address, payload: &[u8]) -> Vec<u8> {
    let mut bytes = ipv4::emit_header(src, dst, IpProtocol::Unknown(99), 64, payload.len(), true);
    bytes.extend_from_slice(payload);
    bytes
}

#[test]
fn raw_socket_sends_and_receives_whole_packets() {
    let mut stack = stack(Medium::Ip);
    let handle = stack.add_raw_socket().unwrap();
    assert_eq!(stack.raw_socket(handle).send_slice(b"x"), Err(SendError::Unaddressable));
    let mode = RawMode::Ip { version: Some(IpVersion::Ipv4), protocol: Some(IpProtocol::Unknown(99)) };
    stack.raw_socket(handle).bind(mode).unwrap();
    assert_eq!(stack.raw_socket(handle).bind(mode), Err(BindError::InvalidState));
    assert!(stack.raw_socket(handle).is_open());
    assert_eq!(stack.raw_socket(handle).recv().err(), Some(RecvError::Exhausted));

    let incoming = packet(PEER, OUR, b"in");
    stack.iface(IFACE).receive(PacketBuf::with_data(0, &incoming));
    stack.poll(Instant::zero());
    assert!(stack.raw_socket(handle).can_recv());
    assert_eq!(stack.raw_socket(handle).recv().unwrap().as_slice(), &incoming[..]);
    // The protocol is handled, so nobody is told that it is unreachable.
    assert!(stack.iface(IFACE).transmit().is_none());

    let outgoing = packet(OUR, PEER, b"out");
    stack.raw_socket(handle).send_slice(&outgoing).unwrap();
    assert_eq!(stack.iface(IFACE).transmit().unwrap().as_slice(), &outgoing[..]);
    assert_eq!(
        stack.raw_socket(handle).send_slice(&[0x45; PACKET_BUF_SIZE + 1]),
        Err(SendError::BufferFull)
    );
    stack.raw_socket(handle).close();
    assert!(!stack.raw_socket(handle).is_open());
}

#[test]
fn raw_ethernet_socket_takes_frames_of_its_kind() {
    let mut stack = stack(Medium::Ethernet);
    let handle = stack.add_raw_socket().unwrap();
    stack
        .raw_socket(handle)
        .bind(RawMode::Ethernet { iface: IFACE, ethertype: Some(EthernetProtocol::Unknown(0x88cc)) })
        .unwrap();
    let mut frame = vec![2, 0, 0, 0, 0, 1, 2, 0, 0, 0, 0, 2, 0x88, 0xcc];
    frame.extend_from_slice(b"lldp");
    stack.iface(IFACE).receive(PacketBuf::with_data(0, &frame));
    stack.poll(Instant::zero());
    assert_eq!(stack.raw_socket(handle).recv().unwrap().as_slice(), &frame[..]);
    stack.raw_socket(handle).send_slice(&frame).unwrap();
    assert_eq!(stack.iface(IFACE).transmit().unwrap().as_slice(), &frame[..]);
}

struct Counter(AtomicUsize);

impl Wake for Counter {
    fn wake(self: Arc<Self>) {
        self.0.fetch_add(1, Ordering::SeqCst);
    }
}

#[test]
fn waker_is_woken_once() {
    let first = Arc::new(Counter(AtomicUsize::new(0)));
    let second = Arc::new(Counter(AtomicUsize::new(0)));
    let a = Waker::from(first.clone());
    let b = Waker::from(second.clone());
    let mut registration = WakerRegistration::new();
    registration.register(&a);
    registration.register(&a);
    // Another task takes the place of the first one.
    registration.register(&b);
    registration.wake();
    registration.wake();
    assert_eq!(first.0.load(Ordering::SeqCst), 0);
    assert_eq!(second.0.load(Ordering::SeqCst), 1);
}

#[test]
fn configuration_changes_wake_who_waits_for_them() {
    let mut stack = stack(Medium::Ip);
    let counter = Arc::new(Counter(AtomicUsize::new(0)));
    let waker = Waker::from(counter.clone());
    let generation = stack.iface(IFACE).config_generation();
    stack.iface(IFACE).register_config_waker(&waker);
    assert_eq!(counter.0.load(Ordering::SeqCst), 0);
    stack.iface(IFACE).remove_ip_addr(OUR);
    assert_eq!(counter.0.load(Ordering::SeqCst), 1);
    assert_ne!(stack.iface(IFACE).config_generation(), generation);
}

#[test]
fn longest_prefix_wins() {
    let mut routes = Routes::new();
    let via = |a: u8| IpAddress::Ipv4(Ipv4Address::new(192, 168, 1, a));
    let route = |prefix: u8, gateway: u8| Route {
        cidr: IpCidr::new(Ipv4Address::new(10, 0, 0, 0).into(), prefix),
        via_router: via(gateway),
        iface: IFACE,
        expires_at: None,
        origin: RouteOrigin::Manual,
    };
    routes.add_route(route(8, 1));
    routes.add_route(route(24, 2));
    let near = IpAddress::Ipv4(Ipv4Address::new(10, 0, 0, 9));
    let far = IpAddress::Ipv4(Ipv4Address::new(10, 9, 0, 9));
    assert_eq!(routes.lookup(&near, Instant::zero()).unwrap().via_router, via(2));
    assert_eq!(routes.lookup(&far, Instant::zero()).unwrap().via_router, via(1));
    let none = IpAddress::Ipv4(Ipv4Address::new(11, 0, 0, 9));
    assert!(routes.lookup(&none, Instant::zero()).is_none());
    assert!(routes.add_default_ipv4_route(Ipv4Address::new(192, 168, 1, 3), IFACE).is_none());
    assert_eq!(routes.lookup(&none, Instant::zero()).unwrap().via_router, via(3));
}

#[test]
fn default_routes_replace_each_other() {
    let mut routes = Routes::new();
    let gateway = |a: u8| Ipv6Address([0xfe, 0x80, 0, 0, 0, 0, 0, 0, 0, 0, 0, 0, 0, 0, 0, a]);
    let far = IpAddress::Ipv6(Ipv6Address([0x20, 1, 0, 0, 0, 0, 0, 0, 0, 0, 0, 0, 0, 0, 0, 9]));
    assert!(routes.add_default_ipv6_route(gateway(1), IFACE).is_none());
    assert!(routes.add_default_ipv4_route(PEER, IFACE).is_none());
    let old = routes.add_default_ipv6_route(gateway(2), IFACE).unwrap();
    assert_eq!(old.via_router, IpAddress::Ipv6(gateway(1)));
    assert_eq!(old.cidr, IpCidr::new(Ipv6Address([0; 16]).into(), 0));
    assert_eq!((old.origin, old.expires_at), (RouteOrigin::Manual, None));
    assert_eq!(routes.lookup(&far, Instant::zero()).unwrap().via_router, IpAddress::Ipv6(gateway(2)));
}

#[test]
fn packets_grow_at_the_front() {
    let mut buf = PacketBuf::with_data(4, b"data");
    assert_eq!((buf.headroom(), buf.len(), buf.capacity()), (4, 4, PACKET_BUF_SIZE));
    buf.prepend(b"hd");
    assert_eq!(buf.as_slice(), b"hddata");
    buf.pull_front(3);
    assert_eq!(buf.to_vec(), b"ata");
    buf.push_front(1);
    assert_eq!(buf.as_slice(), b"data");
    buf.set_len(6);
    assert_eq!(buf.as_slice(), b"data\0\0");
    buf.as_mut_slice()[0] = b'D';
    assert_eq!(buf.duplicate().as_slice(), b"Data\0\0");
    assert!(!buf.is_empty());
}

#[test]
fn icmp_errors_are_classified() {
    assert_eq!(
        IcmpError::from_icmpv4(icmpv4::Message::DstUnreachable, 3),
        Some(IcmpError::PortUnreachable)
    );
    assert_eq!(IcmpError::from_icmpv4(icmpv4::Message::TimeExceeded, 0), Some(IcmpError::TimeExceeded));
    assert_eq!(IcmpError::from_icmpv4(icmpv4::Message::EchoReply, 0), None);
    assert_eq!(IcmpError::from_icmpv6(icmpv6::Message::PktTooBig, 0), Some(IcmpError::PacketTooBig));
    let quote = packet(OUR, PEER, &[0x12, 0x34, 0x56, 0x78, 0, 0, 0, 9]);
    let flow = parse_quoted_packet(&quote).unwrap();
    assert_eq!((flow.src_port, flow.dst_port), (0x1234, 0x5678));
    assert_eq!(flow.src_addr, IpAddress::Ipv4(OUR));
    assert!(parse_quoted_packet(&quote[..27]).is_none());
}

#[test]
fn time_adds_up() {
    let t = Instant::from_millis(1500).after(Duration::from_millis(500));
    assert_eq!(t, Instant::from_secs(2));
    assert_eq!(t.earliest(Instant::zero()), Instant::zero());
    assert_eq!(Duration::from_millis(2).times(3), Duration::from_millis(6));
}
