use xarxa::iface::{IfaceCapabilities, IfaceHandle, Medium};
use xarxa::tcp::congestion::{Controller, NoControl};
use xarxa::tcp::{ListenError, State, TcpRepr, TcpTimestampRepr};
use xarxa::time::Instant;
use xarxa::wire::cidr::IpCidr;
use xarxa::wire::endpoint::{IpEndpoint, IpListenEndpoint};
use xarxa::wire::ip::{IpAddress, Ipv4Address, Ipv6Address};
use xarxa::wire::ipv4;
use xarxa::wire::protocol::IpProtocol;
use xarxa::wire::tcp::{TcpControl, TcpOption, TcpPacket, TcpSeqNumber};
use xarxa::wire::{Error, HardwareAddress};
use xarxa::{PacketBuf, Stack};

const SRC_ADDR: Ipv4Address = Ipv4Address([192, 168, 1, 1]);
const DST_ADDR: Ipv4Address = Ipv4Address([192, 168, 1, 2]);

const PAYLOAD_BYTES: [u8; 4] = [0xaa, 0x00, 0x00, 0xff];

const SYN_PACKET_BYTES: [u8; 24] = [
    0xbf, 0x00, 0x00, 0x50, 0x01, 0x23, 0x45, 0x67, 0x00, 0x00, 0x00, 0x00, 0x50, 0x02, 0x01, 0x23, 0x7a, 0x8d, 0x00,
    0x00, 0xaa, 0x00, 0x00, 0xff,
];

fn packet_repr() -> TcpRepr<'static> {
    TcpRepr {
        src_port: 48896,
        dst_port: 80,
        seq_number: TcpSeqNumber(0x01234567),
        ack_number: None,
        window_len: 0x0123,
        window_scale: None,
        control: TcpControl::Syn,
        max_seg_size: None,
        sack_permitted: false,
        sack_ranges: [None, None, None],
        timestamp: None,
        payload: &PAYLOAD_BYTES,
    }
}

#[test]
fn test_parse() {
    let mut bytes = SYN_PACKET_BYTES;
    let packet = TcpPacket::new_unchecked(&mut bytes[..]);
    assert!(packet.verify_checksum(&SRC_ADDR.into(), &DST_ADDR.into()));
    let repr = TcpRepr::parse(&packet, &SRC_ADDR.into(), &DST_ADDR.into()).unwrap();
    assert_eq!(repr, packet_repr());
}

#[test]
fn test_emit() {
    let repr = packet_repr();
    let mut bytes = vec![0xa5; repr.buffer_len()];
    let mut packet = TcpPacket::new_unchecked(&mut bytes);
    repr.emit(&mut packet, &SRC_ADDR.into(), &DST_ADDR.into());
    assert_eq!(&bytes[..], &SYN_PACKET_BYTES[..]);
}

#[test]
fn test_header_len_multiple_of_4() {
    let mut repr = packet_repr();
    repr.window_scale = Some(0); // This TCP Option needs 3 bytes.
    assert_eq!(repr.header_len() % 4, 0); // Should e.g. be 28 instead of 27.
}

#[test]
fn options_round_trip() {
    let mut repr = packet_repr();
    repr.max_seg_size = Some(1460);
    repr.window_scale = Some(3);
    repr.sack_permitted = true;
    repr.timestamp = Some(TcpTimestampRepr::new(7, 9));
    let octets = repr.emit_octets(&SRC_ADDR.into(), &DST_ADDR.into());
    assert_eq!(octets.len(), repr.buffer_len());
    let back = TcpRepr::parse_octets(&octets).unwrap();
    assert_eq!(back, repr);
    assert_eq!(back.segment_len(), 5);
    assert!(!back.is_empty());
}

#[test]
fn long_segments_round_trip() {
    let payload: Vec<u8> = (0..70_001u32).map(|i| (i * 7) as u8).collect();
    let src: IpAddress = Ipv6Address::new(0xfd00, 0, 0, 0, 0, 0, 0, 1).into();
    let dst: IpAddress = Ipv6Address::new(0xfd00, 0, 0, 0, 0, 0, 0, 2).into();
    let v4: IpAddress = SRC_ADDR.into();
    for (src, dst) in [(src, dst), (v4, DST_ADDR.into()), (v4, dst), (src, v4)] {
        let mut repr = packet_repr();
        repr.control = TcpControl::Psh;
        repr.ack_number = Some(TcpSeqNumber(5));
        repr.sack_ranges = [Some((1, 2)), Some((3, 4)), None];
        repr.payload = &payload;
        let mut bytes = vec![0xa5; repr.buffer_len()];
        let mut packet = TcpPacket::new_unchecked(&mut bytes[..]);
        repr.emit(&mut packet, &src, &dst);
        assert!(packet.verify_checksum(&src, &dst));
        assert_eq!(TcpRepr::parse(&packet, &src, &dst).unwrap(), repr);
        assert_eq!((bytes[12] >> 4) as usize * 4, repr.header_len());
        bytes[70_000] ^= 1;
        assert!(!TcpPacket::new_unchecked(&mut bytes[..]).verify_checksum(&src, &dst));
    }
}

#[test]
fn window_scale_is_limited() {
    let mut repr = packet_repr();
    repr.window_scale = Some(3);
    let mut octets = repr.emit_octets(&SRC_ADDR.into(), &DST_ADDR.into());
    let at = octets.iter().skip(20).position(|b| *b == 3).unwrap() + 20;
    octets[at + 2] = 15;
    assert_eq!(TcpRepr::parse_octets(&octets).unwrap().window_scale, Some(14));
}

#[test]
fn malformed_segments_are_refused() {
    let mut bytes = SYN_PACKET_BYTES;
    bytes[0] = 0;
    bytes[1] = 0;
    assert_eq!(TcpRepr::parse_octets(&bytes), Err(Error));
    let mut bytes = SYN_PACKET_BYTES;
    bytes[13] = 0x03; // SYN and FIN
    assert_eq!(TcpRepr::parse_octets(&bytes), Err(Error));
    assert_eq!(TcpRepr::parse_octets(&SYN_PACKET_BYTES[..19]), Err(Error));
    assert_eq!(TcpOption::parse(&[2, 3, 0], 0), Err(Error));
    assert_eq!(TcpOption::parse(&[4, 2], 0), Ok((2, TcpOption::SackPermitted)));
}

#[test]
fn timestamps_are_echoed() {
    let stamp = TcpTimestampRepr::new(5, 6);
    assert_eq!(stamp.generate_reply(Some(|| 77u32)), Some(TcpTimestampRepr::new(77, 5)));
    assert_eq!(stamp.generate_reply(None::<fn() -> u32>), None);
}

#[test]
fn no_control_never_holds_back() {
    let mut control = NoControl;
    control.set_remote_window(1);
    control.on_loss(Instant::zero(), 10);
    control.set_mss(1);
    assert_eq!(control.window(), usize::MAX);
}

const OUR: Ipv4Address = Ipv4Address([192, 168, 1, 1]);
const PEER: Ipv4Address = Ipv4Address([192, 168, 1, 2]);
const IFACE: IfaceHandle = IfaceHandle(0);

fn stack() -> Stack {
    let mut stack = Stack::new(0x1234_5678_dead_beef);
    let mut caps = IfaceCapabilities::default();
    caps.medium = Medium::Ip;
    caps.max_transmission_unit = 1500;
    let handle = stack.add_iface(caps, HardwareAddress::Ip).unwrap();
    stack.iface(handle).add_ip_addr(IpCidr::new(OUR.into(), 24)).unwrap();
    stack
}

/// Hand a segment from the peer to the stack.
fn inject(stack: &mut Stack, repr: &TcpRepr<'_>) {
    let segment = repr.emit_octets(&PEER.into(), &OUR.into());
    let mut bytes = ipv4::emit_header(PEER, OUR, IpProtocol::Tcp, 64, segment.len(), true);
    bytes.extend_from_slice(&segment);
    stack.iface(IFACE).receive(PacketBuf::with_data(0, &bytes));
    stack.poll(Instant::zero());
}

#[test]
fn unclaimed_segment_is_reset() {
    let mut stack = stack();
    inject(&mut stack, &packet_repr());
    let frame = stack.iface(IFACE).transmit().unwrap().to_vec();
    assert!(stack.iface(IFACE).transmit().is_none());
    let mut segment = frame[20..].to_vec();
    let packet = TcpPacket::new_unchecked(&mut segment[..]);
    assert!(packet.verify_checksum(&OUR.into(), &PEER.into()));
    let reset = TcpRepr::parse(&packet, &OUR.into(), &PEER.into()).unwrap();
    assert_eq!(reset.control, TcpControl::Rst);
    assert_eq!(reset.seq_number, TcpSeqNumber(0));
    // The SYN and its four octets of payload are acknowledged.
    assert_eq!(reset.ack_number, Some(TcpSeqNumber(0x01234567 + 5)));

    // A reset is never answered.
    let mut rst = packet_repr();
    rst.control = TcpControl::Rst;
    inject(&mut stack, &rst);
    assert!(stack.iface(IFACE).transmit().is_none());
}

#[test]
fn listener_records_a_syn_and_accepts_it() {
    let mut stack = stack();
    let handle = stack.add_tcp_listener().unwrap();
    assert_eq!(stack.tcp_listener(handle).listen(0), Err(ListenError::Unaddressable));
    stack.tcp_listener(handle).listen(80).unwrap();
    assert!(stack.tcp_listener(handle).is_open());
    assert_eq!(stack.tcp_listener(handle).local_endpoint(), IpListenEndpoint { addr: None, port: 80 });
    // Listening again on the same endpoint changes nothing, on another it is refused.
    assert_eq!(stack.tcp_listener(handle).listen(80), Ok(()));
    assert_eq!(stack.tcp_listener(handle).listen(81), Err(ListenError::InvalidState));
    let other = stack.add_tcp_listener().unwrap();
    assert_eq!(stack.tcp_listener(other).listen(80), Err(ListenError::InUse));

    inject(&mut stack, &packet_repr());
    // The same SYN again is recorded once.
    inject(&mut stack, &packet_repr());
    assert!(stack.iface(IFACE).transmit().is_none());
    assert!(stack.tcp_listener(handle).can_accept());
    let socket = stack.tcp_listener(handle).accept(4096, 4096).unwrap();
    assert!(!stack.tcp_listener(handle).can_accept());
    assert!(stack.tcp_listener(handle).accept(4096, 4096).is_none());
    let socket = stack.tcp_socket(socket);
    assert_eq!(socket.state(), State::SynReceived);
    assert_eq!(socket.local_endpoint(), Some(IpEndpoint::new(OUR.into(), 80)));
    assert_eq!(socket.remote_endpoint(), Some(IpEndpoint::new(PEER.into(), 48896)));
}

#[test]
fn segment_of_a_connection_reaches_its_socket() {
    let mut stack = stack();
    let handle = stack.add_tcp_listener().unwrap();
    stack.tcp_listener(handle).listen(80).unwrap();
    inject(&mut stack, &packet_repr());
    let socket = stack.tcp_listener(handle).accept(4096, 4096).unwrap();
    let mut ack = packet_repr();
    ack.control = TcpControl::NoFlag;
    ack.ack_number = Some(TcpSeqNumber(1));
    inject(&mut stack, &ack);
    assert!(stack.iface(IFACE).transmit().is_none());
    let segment = stack.tcp_socket(socket).next_segment().unwrap();
    let delivered = TcpRepr::parse_octets(segment.as_slice()).unwrap();
    assert_eq!(delivered.ack_number, Some(TcpSeqNumber(1)));
    assert!(stack.tcp_socket(socket).next_segment().is_none());
    assert_eq!(stack.tcp_socket(socket).take_icmp_error(), None);
}

#[test]
fn most_specific_listener_takes_the_syn() {
    let mut stack = stack();
    let wide = stack.add_tcp_listener().unwrap();
    let exact = stack.add_tcp_listener().unwrap();
    stack.tcp_listener(wide).listen(80).unwrap();
    stack.tcp_listener(exact).listen((OUR, 80)).unwrap();
    inject(&mut stack, &packet_repr());
    assert!(stack.tcp_listener(exact).can_accept());
    assert!(!stack.tcp_listener(wide).can_accept());
    // A reset from the peer takes the SYN back out of the queue.
    let mut rst = packet_repr();
    rst.control = TcpControl::Rst;
    rst.seq_number = TcpSeqNumber(0x01234568);
    inject(&mut stack, &rst);
    assert!(!stack.tcp_listener(exact).can_accept());
    stack.tcp_listener(exact).close();
    assert!(!stack.tcp_listener(exact).is_open());
}

#[test]
fn sequence_numbers_wrap() {
    assert_eq!(TcpSeqNumber(0xffff_ffff).advance(2), TcpSeqNumber(1));
    let addr: IpAddress = OUR.into();
    assert_eq!(addr, IpAddress::Ipv4(OUR));
}
