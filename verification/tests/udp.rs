use xarxa::config::UDP_SOCKET_COUNT;
use xarxa::icmp_error::IcmpError;
use xarxa::iface::{IfaceCapabilities, IfaceHandle, Medium};
use xarxa::stack::EPHEMERAL_PORT_MIN;
use xarxa::udp::{process_udp, BindError, RecvError, SendError, UdpHandle, UdpMetadata, UdpSocket};
use xarxa::wire::cidr::IpCidr;
use xarxa::wire::endpoint::{IpEndpoint, IpListenEndpoint};
use xarxa::wire::ip::{Ipv4Address, Ipv6Address};
use xarxa::wire::ipv4::{Ipv4Header, IPV4_HEADER_LEN};
use xarxa::wire::udp as wire_udp;
use xarxa::wire::HardwareAddress;
use xarxa::{PacketBuf, Stack};

const LOCAL_ADDR: Ipv4Address = Ipv4Address([192, 168, 1, 1]);
const REMOTE_ADDR: Ipv4Address = Ipv4Address([192, 168, 1, 2]);
const OTHER_ADDR: Ipv4Address = Ipv4Address([192, 168, 1, 3]);
const LOCAL_PORT: u16 = 53;
const REMOTE_PORT: u16 = 49500;
const UNSPECIFIED_V4: Ipv4Address = Ipv4Address([0; 4]);
const UNSPECIFIED_V6: Ipv6Address = Ipv6Address([0; 16]);

/// The fully wildcard remote: an ordinary unconnected bind.
fn any() -> IpListenEndpoint {
    IpListenEndpoint::unspecified()
}

fn stack_with_socket() -> (Stack, UdpHandle) {
    let mut stack = Stack::new(0x1234_5678_dead_beef);
    let handle = stack.add_udp_socket().unwrap();
    (stack, handle)
}

/// A stack with one interface owning `LOCAL_ADDR`, so that binds with a
/// specified remote can resolve their local address.
fn stack_with_iface() -> Stack {
    let mut stack = Stack::new(0x1234_5678_dead_beef);
    let mut caps = IfaceCapabilities::default();
    caps.medium = Medium::Ip;
    caps.max_transmission_unit = 1500;
    let handle = stack.add_iface(caps, HardwareAddress::Ip).unwrap();
    stack.iface(handle).set_ip_addrs(&[IpCidr::new(LOCAL_ADDR.into(), 24)]).unwrap();
    stack
}

/// Build a queued-datagram buffer the way ingress does, as a full IPv4 + UDP packet.
fn queued_packet_from(src_addr: Ipv4Address, src_port: u16, dst_addr: Ipv4Address, payload: &[u8]) -> PacketBuf {
    let udp = wire_udp::emit_header(&src_addr.into(), src_port, &dst_addr.into(), LOCAL_PORT, payload);
    let mut bytes = vec![0; IPV4_HEADER_LEN];
    bytes[0] = 0x45;
    bytes[2..4].copy_from_slice(&((IPV4_HEADER_LEN + udp.len() + payload.len()) as u16).to_be_bytes());
    bytes[9] = 17;
    bytes[12..16].copy_from_slice(&src_addr.0);
    bytes[16..20].copy_from_slice(&dst_addr.0);
    bytes.extend_from_slice(&udp);
    bytes.extend_from_slice(payload);
    PacketBuf::with_data(0, &bytes)
}

fn queued_packet(payload: &[u8]) -> PacketBuf {
    queued_packet_from(REMOTE_ADDR, REMOTE_PORT, LOCAL_ADDR, payload)
}

/// Run a packet through the stack's UDP ingress demux.
fn deliver(stack: &mut Stack, src_addr: Ipv4Address, src_port: u16, payload: &[u8]) {
    deliver_to(stack, src_addr, src_port, LOCAL_ADDR, payload)
}

/// Like [`deliver`], with an explicit destination address.
fn deliver_to(stack: &mut Stack, src_addr: Ipv4Address, src_port: u16, dst_addr: Ipv4Address, payload: &[u8]) {
    let mut buf = queued_packet_from(src_addr, src_port, dst_addr, payload);
    buf.pull_front(IPV4_HEADER_LEN);
    process_udp(
        &mut stack.net,
        &mut stack.sockets.udp,
        IfaceHandle(0),
        src_addr.into(),
        dst_addr.into(),
        IPV4_HEADER_LEN,
        false,
        buf,
    );
}

/// Put a packet into a socket's receive queue.
fn enqueue(socket: &mut UdpSocket<'_>, buf: PacketBuf) {
    let index = socket.index;
    socket.sockets.get_mut(index).rx_enqueue(buf);
}

#[test]
fn test_bind() {
    let (mut stack, handle) = stack_with_socket();
    let mut socket = stack.udp_socket(handle);
    assert!(!socket.is_open());
    assert_eq!(socket.bind(LOCAL_PORT, any()), Ok(()));
    assert!(socket.is_open());
    assert_eq!(socket.bind(LOCAL_PORT, any()), Err(BindError::InvalidState));

    socket.close();
    assert!(!socket.is_open());
    assert_eq!(socket.bind((LOCAL_ADDR, LOCAL_PORT), any()), Ok(()));
    assert_eq!(
        socket.local_endpoint(),
        IpListenEndpoint { addr: Some(LOCAL_ADDR.into()), port: LOCAL_PORT }
    );
    assert_eq!(socket.remote_endpoint(), IpListenEndpoint::unspecified());
}

#[test]
fn test_bind_ephemeral() {
    let mut stack = Stack::new(0x1234_5678_dead_beef);
    let h1 = stack.add_udp_socket().unwrap();
    let h2 = stack.add_udp_socket().unwrap();

    stack.udp_socket(h1).bind(0, any()).unwrap();
    let p1 = stack.udp_socket(h1).local_endpoint().port;
    assert!(p1 >= EPHEMERAL_PORT_MIN);

    // The second allocation must avoid the first socket's port.
    stack.udp_socket(h2).bind(0, any()).unwrap();
    let p2 = stack.udp_socket(h2).local_endpoint().port;
    assert!(p2 >= EPHEMERAL_PORT_MIN);
    assert_ne!(p1, p2);
}

#[test]
fn test_bind_conflicts() {
    let mut stack = Stack::new(0x1234_5678_dead_beef);
    let h1 = stack.add_udp_socket().unwrap();
    let h2 = stack.add_udp_socket().unwrap();

    // Identical 4-tuples conflict.
    stack.udp_socket(h1).bind(LOCAL_PORT, any()).unwrap();
    assert_eq!(stack.udp_socket(h2).bind(LOCAL_PORT, any()), Err(BindError::InUse));
    // A specific address next to an address-less bind on the same port is
    // fine: the tuples differ, and demux picks the most specific match.
    stack.udp_socket(h2).bind((LOCAL_ADDR, LOCAL_PORT), any()).unwrap();

    // Two different specific addresses may share a port.
    let h3 = stack.add_udp_socket().unwrap();
    let h4 = stack.add_udp_socket().unwrap();
    let h5 = stack.add_udp_socket().unwrap();
    stack.udp_socket(h3).bind((LOCAL_ADDR, LOCAL_PORT + 2), any()).unwrap();
    stack.udp_socket(h4).bind((OTHER_ADDR, LOCAL_PORT + 2), any()).unwrap();
    // ...but the same specific address may not.
    assert_eq!(
        stack.udp_socket(h5).bind((LOCAL_ADDR, LOCAL_PORT + 2), any()),
        Err(BindError::InUse)
    );
}

#[test]
fn test_bind_conflicts_connected() {
    let mut stack = stack_with_iface();
    let h1 = stack.add_udp_socket().unwrap();
    let h2 = stack.add_udp_socket().unwrap();
    let h3 = stack.add_udp_socket().unwrap();
    let h4 = stack.add_udp_socket().unwrap();

    // A connected socket and a wildcard-remote socket share a local port:
    // the 4-tuples differ.
    stack.udp_socket(h1).bind(LOCAL_PORT, (REMOTE_ADDR, REMOTE_PORT)).unwrap();
    stack.udp_socket(h2).bind((LOCAL_ADDR, LOCAL_PORT), any()).unwrap();

    // So do two sockets connected to different remotes.
    stack.udp_socket(h3).bind(LOCAL_PORT, (OTHER_ADDR, REMOTE_PORT)).unwrap();

    // The identical local + remote is rejected. (h1's local address was
    // resolved to LOCAL_ADDR, so this bind duplicates its whole tuple.)
    assert_eq!(
        stack.udp_socket(h4).bind((LOCAL_ADDR, LOCAL_PORT), (REMOTE_ADDR, REMOTE_PORT)),
        Err(BindError::InUse)
    );
}

#[test]
fn test_bind_conflicts_per_version() {
    let mut stack = Stack::new(0x1234_5678_dead_beef);
    let h1 = stack.add_udp_socket().unwrap();
    let h2 = stack.add_udp_socket().unwrap();
    let h3 = stack.add_udp_socket().unwrap();

    // The two halves of a dual stack are different tuples, so they may
    // share a port, as may the address-less bind that covers both.
    stack.udp_socket(h1).bind((UNSPECIFIED_V4, LOCAL_PORT), any()).unwrap();
    stack.udp_socket(h2).bind((UNSPECIFIED_V6, LOCAL_PORT), any()).unwrap();
    stack.udp_socket(h3).bind(LOCAL_PORT, any()).unwrap();
    stack.udp_socket(h3).close();

    // Identity does distinguish the versions: only the same half conflicts.
    assert_eq!(
        stack.udp_socket(h3).bind((UNSPECIFIED_V6, LOCAL_PORT), any()),
        Err(BindError::InUse)
    );
}

#[test]
fn test_send_per_version_bind() {
    let (mut stack, handle) = stack_with_socket();
    let mut socket = stack.udp_socket(handle);
    socket.bind((UNSPECIFIED_V6, LOCAL_PORT), any()).unwrap();

    // The bind scopes the socket to IPv6, so an IPv4 destination contradicts it.
    assert_eq!(
        socket.send_slice(b"hi", (REMOTE_ADDR, REMOTE_PORT)),
        Err(SendError::Unaddressable)
    );
}

#[test]
fn test_demux_per_version() {
    // A bind to any IPv6 address takes no IPv4 traffic, not even on the port
    // it holds.
    let mut stack = stack_with_iface();
    let handle = stack.add_udp_socket().unwrap();
    stack.udp_socket(handle).bind((UNSPECIFIED_V6, LOCAL_PORT), any()).unwrap();

    deliver(&mut stack, REMOTE_ADDR, REMOTE_PORT, b"no");
    assert!(!stack.udp_socket(handle).can_recv());

    // The IPv4 half of the same port does take it.
    let handle = stack.add_udp_socket().unwrap();
    stack.udp_socket(handle).bind((UNSPECIFIED_V4, LOCAL_PORT), any()).unwrap();

    deliver(&mut stack, REMOTE_ADDR, REMOTE_PORT, b"yes");
    assert_eq!(stack.udp_socket(handle).recv().unwrap().payload(), b"yes");
}

#[test]
fn test_bind_connected() {
    let mut stack = stack_with_iface();
    let handle = stack.add_udp_socket().unwrap();
    let mut socket = stack.udp_socket(handle);

    // Local fully wildcard + exact remote: the ordinary connected client.
    // The local address is resolved from the routing tables, and an
    // ephemeral port is allocated.
    socket.bind(0, (REMOTE_ADDR, REMOTE_PORT)).unwrap();
    let local = socket.local_endpoint();
    assert_eq!(local.addr, Some(LOCAL_ADDR.into()));
    assert!(local.port >= EPHEMERAL_PORT_MIN);
    assert_eq!(
        socket.remote_endpoint(),
        IpListenEndpoint { addr: Some(REMOTE_ADDR.into()), port: REMOTE_PORT }
    );
}

#[test]
fn test_bind_connected_unaddressable() {
    // Without any interface there is no local address for the remote.
    let (mut stack, handle) = stack_with_socket();
    assert_eq!(
        stack.udp_socket(handle).bind(0, (REMOTE_ADDR, REMOTE_PORT)),
        Err(BindError::Unaddressable)
    );

    // Mismatched local/remote address families.
    let mut stack = stack_with_iface();
    let handle = stack.add_udp_socket().unwrap();
    assert_eq!(
        stack
            .udp_socket(handle)
            .bind((LOCAL_ADDR, LOCAL_PORT), (Ipv6Address::localhost(), REMOTE_PORT)),
        Err(BindError::Unaddressable)
    );
}

#[test]
fn test_connected_demux_filter() {
    let mut stack = stack_with_iface();
    let handle = stack.add_udp_socket().unwrap();
    stack.udp_socket(handle).bind(LOCAL_PORT, (REMOTE_ADDR, REMOTE_PORT)).unwrap();

    // Matching the connected remote: delivered.
    deliver(&mut stack, REMOTE_ADDR, REMOTE_PORT, b"yes");
    assert_eq!(stack.udp_socket(handle).recv().unwrap().payload(), b"yes");

    // Wrong source address or port: filtered out.
    deliver(&mut stack, OTHER_ADDR, REMOTE_PORT, b"no");
    deliver(&mut stack, REMOTE_ADDR, REMOTE_PORT + 1, b"no");
    assert!(!stack.udp_socket(handle).can_recv());
}

#[test]
fn test_remote_addr_only_filter() {
    // A partially specified remote: any port of one peer.
    let mut stack = stack_with_iface();
    let handle = stack.add_udp_socket().unwrap();
    stack.udp_socket(handle).bind(LOCAL_PORT, (REMOTE_ADDR, 0)).unwrap();

    deliver(&mut stack, REMOTE_ADDR, REMOTE_PORT, b"a");
    deliver(&mut stack, REMOTE_ADDR, REMOTE_PORT + 1, b"b");
    deliver(&mut stack, OTHER_ADDR, REMOTE_PORT, b"no");
    assert_eq!(stack.udp_socket(handle).recv().unwrap().payload(), b"a");
    assert_eq!(stack.udp_socket(handle).recv().unwrap().payload(), b"b");
    assert!(!stack.udp_socket(handle).can_recv());
}

#[test]
fn test_demux_priority() {
    // When several sockets match a datagram, the most specific one wins,
    // regardless of creation order: connected beats bound-to-address beats
    // wildcard.
    let mut stack = stack_with_iface();
    let h_any = stack.add_udp_socket().unwrap();
    let h_addr = stack.add_udp_socket().unwrap();
    let h_conn = stack.add_udp_socket().unwrap();
    stack.udp_socket(h_any).bind(LOCAL_PORT, any()).unwrap();
    stack.udp_socket(h_addr).bind((LOCAL_ADDR, LOCAL_PORT), any()).unwrap();
    stack
        .udp_socket(h_conn)
        .bind((LOCAL_ADDR, LOCAL_PORT), (REMOTE_ADDR, REMOTE_PORT))
        .unwrap();

    // From the connected remote: the connected socket wins.
    deliver(&mut stack, REMOTE_ADDR, REMOTE_PORT, b"conn");
    // From another port of the same peer: the address-bound socket.
    deliver(&mut stack, REMOTE_ADDR, REMOTE_PORT + 1, b"addr");
    // To another local address: only the wildcard socket matches.
    deliver_to(&mut stack, REMOTE_ADDR, REMOTE_PORT, OTHER_ADDR, b"any");

    assert_eq!(stack.udp_socket(h_conn).recv().unwrap().payload(), b"conn");
    assert!(!stack.udp_socket(h_conn).can_recv());
    assert_eq!(stack.udp_socket(h_addr).recv().unwrap().payload(), b"addr");
    assert!(!stack.udp_socket(h_addr).can_recv());
    assert_eq!(stack.udp_socket(h_any).recv().unwrap().payload(), b"any");
    assert!(!stack.udp_socket(h_any).can_recv());
}

#[test]
fn test_demux_priority_per_version() {
    // The per-version wildcard sits between the address-less bind and an
    // exact address: it takes its version's traffic away from the
    // dual-stack socket, and gives it up to the exact address in turn.
    let mut stack = stack_with_iface();
    let h_any = stack.add_udp_socket().unwrap();
    let h_v4 = stack.add_udp_socket().unwrap();
    let h_addr = stack.add_udp_socket().unwrap();
    stack.udp_socket(h_any).bind(LOCAL_PORT, any()).unwrap();
    stack.udp_socket(h_v4).bind((UNSPECIFIED_V4, LOCAL_PORT), any()).unwrap();

    deliver(&mut stack, REMOTE_ADDR, REMOTE_PORT, b"v4");
    assert_eq!(stack.udp_socket(h_v4).recv().unwrap().payload(), b"v4");
    assert!(!stack.udp_socket(h_any).can_recv());

    stack.udp_socket(h_addr).bind((LOCAL_ADDR, LOCAL_PORT), any()).unwrap();

    deliver(&mut stack, REMOTE_ADDR, REMOTE_PORT, b"addr");
    assert_eq!(stack.udp_socket(h_addr).recv().unwrap().payload(), b"addr");
    assert!(!stack.udp_socket(h_v4).can_recv());
    assert!(!stack.udp_socket(h_any).can_recv());
}

#[test]
fn test_send_defaults_to_remote() {
    let mut stack = stack_with_iface();
    let handle = stack.add_udp_socket().unwrap();
    let mut socket = stack.udp_socket(handle);

    // Unconnected socket: a wildcard destination is unaddressable.
    socket.bind(LOCAL_PORT, any()).unwrap();
    assert_eq!(
        socket.send_slice(b"hi", IpEndpoint::unspecified()),
        Err(SendError::Unaddressable)
    );
    socket.close();

    // Connected socket: the destination defaults to the bound remote, and
    // an explicit destination overrides it.
    socket.bind(LOCAL_PORT, (REMOTE_ADDR, REMOTE_PORT)).unwrap();
    assert_eq!(socket.send_slice(b"hi", IpEndpoint::unspecified()), Ok(()));
    assert_eq!(socket.send_slice(b"hi", IpEndpoint::new(OTHER_ADDR.into(), 9)), Ok(()));
}

#[test]
fn test_recv() {
    let (mut stack, handle) = stack_with_socket();
    let mut socket = stack.udp_socket(handle);
    socket.bind(LOCAL_PORT, any()).unwrap();

    assert!(!socket.can_recv());
    assert_eq!(socket.recv().err(), Some(RecvError::Exhausted));

    enqueue(&mut socket, queued_packet(b"abcdef"));
    assert!(socket.can_recv());

    let packet = socket.recv().unwrap();
    assert_eq!(packet.payload(), b"abcdef");
    assert_eq!(&*packet, b"abcdef");
    let mut expected: UdpMetadata = IpEndpoint::new(REMOTE_ADDR.into(), REMOTE_PORT).into();
    expected.local_address = Some(LOCAL_ADDR.into());
    assert_eq!(packet.meta(), expected);
    assert!(!socket.can_recv());
}

#[test]
fn test_peek_and_recv_slice() {
    let (mut stack, handle) = stack_with_socket();
    let mut socket = stack.udp_socket(handle);
    socket.bind(LOCAL_PORT, any()).unwrap();
    enqueue(&mut socket, queued_packet(b"abcdef"));

    let (payload, meta) = socket.peek().unwrap();
    assert_eq!(payload, b"abcdef");
    assert_eq!(meta.endpoint.port, REMOTE_PORT);

    // Peeking does not dequeue.
    let mut slice = [0; 16];
    assert_eq!(socket.peek_slice(&mut slice).unwrap().0, 6);
    assert_eq!(&slice[..6], b"abcdef");

    let (len, meta) = socket.recv_slice(&mut slice).unwrap();
    assert_eq!(&slice[..len], b"abcdef");
    assert_eq!(meta.endpoint, IpEndpoint::new(REMOTE_ADDR.into(), REMOTE_PORT));
    assert_eq!(socket.recv_slice(&mut slice).err(), Some(RecvError::Exhausted));
}

#[test]
fn test_recv_slice_truncated() {
    let (mut stack, handle) = stack_with_socket();
    let mut socket = stack.udp_socket(handle);
    socket.bind(LOCAL_PORT, any()).unwrap();
    enqueue(&mut socket, queued_packet(b"abcdef"));

    let mut slice = [0; 4];
    // peek_slice keeps the packet...
    assert_eq!(socket.peek_slice(&mut slice).err(), Some(RecvError::Truncated));
    assert!(socket.can_recv());
    // ...recv_slice drops it.
    assert_eq!(socket.recv_slice(&mut slice).err(), Some(RecvError::Truncated));
    assert!(!socket.can_recv());
}

#[test]
fn sent_datagram_verifies_and_carries_its_payload() {
    let mut stack = stack_with_iface();
    let handle = stack.add_udp_socket().unwrap();
    let mut socket = stack.udp_socket(handle);
    socket.bind(LOCAL_PORT, any()).unwrap();
    socket.set_hop_limit(Some(7));
    assert_eq!(socket.hop_limit(), Some(7));
    socket.send_slice(b"payload", (REMOTE_ADDR, REMOTE_PORT)).unwrap();
    let frame = stack.iface(IfaceHandle(0)).transmit().unwrap().to_vec();
    let ip = Ipv4Header::parse(&frame).unwrap();
    assert_eq!((ip.src_addr, ip.dst_addr, ip.hop_limit), (LOCAL_ADDR, REMOTE_ADDR, 7));
    assert!(xarxa::wire::ipv4::verify_checksum(&frame));
    let udp = &frame[IPV4_HEADER_LEN..];
    assert!(wire_udp::verify_checksum(udp, &LOCAL_ADDR.into(), &REMOTE_ADDR.into()));
    assert_eq!(&udp[8..], b"payload");
    assert_eq!(&udp[..4], &[0, 53, 0xc1, 0x5c]);
}

#[test]
fn send_with_sends_what_was_written() {
    let mut stack = stack_with_iface();
    let handle = stack.add_udp_socket().unwrap();
    let mut socket = stack.udp_socket(handle);
    socket.bind(LOCAL_PORT, any()).unwrap();
    let sent = socket.send_with(16, (REMOTE_ADDR, REMOTE_PORT), |space: &mut [u8]| {
        space[..3].copy_from_slice(b"abc");
        3
    });
    assert_eq!(sent, Ok(()));
    let frame = stack.iface(IfaceHandle(0)).transmit().unwrap().to_vec();
    assert_eq!(&frame[28..], b"abc");
}

#[test]
fn send_errors() {
    let mut stack = stack_with_iface();
    let handle = stack.add_udp_socket().unwrap();
    let mut socket = stack.udp_socket(handle);
    // Not bound.
    assert_eq!(
        socket.send_slice(b"hi", (REMOTE_ADDR, REMOTE_PORT)),
        Err(SendError::Unaddressable)
    );
    socket.bind(LOCAL_PORT, any()).unwrap();
    // Too large for a packet buffer.
    assert_eq!(
        socket.send_slice(&[0; 1500], (REMOTE_ADDR, REMOTE_PORT)),
        Err(SendError::BufferFull)
    );
    // No route.
    assert_eq!(
        socket.send_slice(b"hi", (Ipv4Address::new(8, 8, 8, 8), 1)),
        Err(SendError::Unaddressable)
    );
    assert!(stack.iface(IfaceHandle(0)).transmit().is_none());
}

#[test]
fn recv_reports_an_icmp_error_once() {
    let (mut stack, handle) = stack_with_socket();
    let mut socket = stack.udp_socket(handle);
    socket.bind(LOCAL_PORT, any()).unwrap();
    let remote = IpEndpoint::new(REMOTE_ADDR.into(), REMOTE_PORT);
    let index = socket.index;
    socket.sockets.get_mut(index).report_error(IcmpError::HostUnreachable, remote);
    assert_eq!(
        socket.recv().err(),
        Some(RecvError::IcmpError { error: IcmpError::HostUnreachable, remote })
    );
    assert_eq!(socket.recv().err(), Some(RecvError::Exhausted));
}

#[test]
fn handles_cover_the_table() {
    let mut stack = Stack::new(1);
    for i in 0..UDP_SOCKET_COUNT {
        assert_eq!(stack.add_udp_socket(), Ok(UdpHandle::new(i)));
    }
}

#[test]
fn closed_tuple_is_free_again() {
    let (mut stack, handle) = stack_with_socket();
    let other = stack.add_udp_socket().unwrap();
    let local = (LOCAL_ADDR, LOCAL_PORT);
    let remote = (REMOTE_ADDR, REMOTE_PORT);
    stack.udp_socket(handle).bind(local, remote).unwrap();
    assert_eq!(stack.udp_socket(other).bind(local, remote), Err(BindError::InUse));

    // The socket itself can take the tuple again...
    stack.udp_socket(handle).close();
    stack.udp_socket(handle).bind(local, remote).unwrap();
    assert_eq!(stack.udp_socket(handle).local_endpoint(), local.into());

    // ...and so can another one.
    stack.udp_socket(handle).close();
    stack.udp_socket(other).bind(local, remote).unwrap();
    assert_eq!(stack.udp_socket(other).local_endpoint(), local.into());
}
