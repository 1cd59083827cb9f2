use xarxa::host::{device_mtu, interface_name, packet_protocol, time_left, tun_tap_flags};
use xarxa::icmp_error::IcmpError;
use xarxa::iface::{IfaceCapabilities, IfaceHandle, Medium};
use xarxa::stack::AddrOrigin;
use xarxa::time::{Duration, Instant};
use xarxa::udp::{UdpHandle, UdpMetadata};
use xarxa::wire::cidr::IpCidr;
use xarxa::wire::endpoint::{IpEndpoint, IpListenEndpoint};
use xarxa::wire::ethernet::EthernetAddress;
use xarxa::wire::ip::{IpAddress, Ipv4Address, Ipv6Address};
use xarxa::wire::HardwareAddress;
use xarxa::{PacketBuf, Stack};

const IFACE: IfaceHandle = IfaceHandle(0);
const V4: [Ipv4Address; 2] = [Ipv4Address([10, 0, 0, 1]), Ipv4Address([10, 0, 0, 2])];
const V6: [Ipv6Address; 2] = [
    Ipv6Address([0xfd, 0xaa, 0, 0, 0, 0, 0, 0, 0, 0, 0, 0, 0, 0, 0, 1]),
    Ipv6Address([0xfd, 0xaa, 0, 0, 0, 0, 0, 0, 0, 0, 0, 0, 0, 0, 0, 2]),
];

/// Two stacks at the ends of one cable, each with a socket bound to port 1000.
struct Cable {
    stacks: [Stack; 2],
    handles: [UdpHandle; 2],
    frames: usize,
}

fn cable(medium: Medium) -> Cable {
    let build = |n: usize| {
        let mut stack = Stack::new(n as u64 + 1);
        let mut caps = IfaceCapabilities::default();
        caps.medium = medium;
        caps.max_transmission_unit = 1500;
        let hardware_addr = match medium {
            Medium::Ethernet => HardwareAddress::Ethernet(EthernetAddress([2, 0, 0, 0, 0, n as u8])),
            _ => HardwareAddress::Ip,
        };
        stack.add_iface(caps, hardware_addr).unwrap();
        stack
            .iface(IFACE)
            .set_ip_addrs(&[IpCidr::new(V4[n].into(), 24), IpCidr::new(V6[n].into(), 64)])
            .unwrap();
        let handle = stack.add_udp_socket().unwrap();
        stack.udp_socket(handle).bind(1000, IpListenEndpoint::unspecified()).unwrap();
        (stack, handle)
    };
    let (first, second) = (build(0), build(1));
    Cable { stacks: [first.0, second.0], handles: [first.1, second.1], frames: 0 }
}

impl Cable {
    /// Carry frames until there is none left.
    fn settle(&mut self) {
        loop {
            let mut idle = true;
            for n in 0..2 {
                while let Some(buf) = self.stacks[n].iface(IFACE).transmit() {
                    let frame = PacketBuf::with_data(0, buf.as_slice());
                    self.stacks[1 - n].iface(IFACE).receive(frame);
                    self.frames += 1;
                    idle = false;
                }
                self.stacks[1 - n].poll(Instant::zero());
            }
            if idle {
                return;
            }
        }
    }

    fn send(&mut self, payload: &[u8], to: UdpMetadata) {
        let handle = self.handles[0];
        self.stacks[0].udp_socket(handle).send_slice(payload, to).unwrap();
        self.settle();
    }

    fn received(&mut self) -> (Vec<u8>, UdpMetadata) {
        let handle = self.handles[1];
        let mut space = [0; 64];
        let (len, meta) = self.stacks[1].udp_socket(handle).recv_slice(&mut space).unwrap();
        (space[..len].to_vec(), meta)
    }
}

#[test]
fn a_sent_datagram_is_received_over_ethernet() {
    for (from, to) in [
        (IpAddress::from(V4[0]), IpAddress::from(V4[1])),
        (IpAddress::from(V6[0]), IpAddress::from(V6[1])),
    ] {
        let mut cable = cable(Medium::Ethernet);
        cable.send(b"first", IpEndpoint::new(to, 1000).into());
        // A request, its answer, and the datagram that waited for it.
        assert_eq!(cable.frames, 3);
        let (payload, meta) = cable.received();
        assert_eq!(payload, b"first");
        assert_eq!(meta.endpoint, IpEndpoint::new(from, 1000));
        assert_eq!(meta.local_address, Some(to));
        // The neighbor is known now, to both.
        cable.send(b"second", IpEndpoint::new(to, 1000).into());
        assert_eq!(cable.frames, 4);
        assert_eq!(cable.received().0, b"second");
        let handle = cable.handles[1];
        cable.stacks[1].udp_socket(handle).send_slice(b"back", IpEndpoint::new(from, 1000)).unwrap();
        cable.settle();
        assert_eq!(cable.frames, 5);
    }
}

#[test]
fn a_sent_datagram_is_received_over_ip() {
    let mut cable = cable(Medium::Ip);
    cable.send(b"over IPv4", (V4[1], 1000).into());
    cable.send(b"over IPv6", (V6[1], 1000).into());
    assert_eq!(cable.frames, 2);
    assert_eq!(cable.received().0, b"over IPv4");
    assert_eq!(cable.received().0, b"over IPv6");
}

#[test]
fn packets_that_wait_for_one_neighbor_leave_in_order() {
    let mut cable = cable(Medium::Ethernet);
    let handle = cable.handles[0];
    for payload in [b"one", b"two"] {
        cable.stacks[0].udp_socket(handle).send_slice(payload, (V4[1], 1000)).unwrap();
    }
    cable.settle();
    assert_eq!(cable.received().0, b"one");
    assert_eq!(cable.received().0, b"two");
}

#[test]
fn a_closed_port_is_reported_to_the_sender() {
    for to in [IpAddress::from(V4[1]), IpAddress::from(V6[1])] {
        for medium in [Medium::Ethernet, Medium::Ip] {
            let mut cable = cable(medium);
            cable.send(&[7; 1400], IpEndpoint::new(to, 2000).into());
            let handle = cable.handles[0];
            assert_eq!(
                cable.stacks[0].udp_socket(handle).take_icmp_error(),
                Some((IcmpError::PortUnreachable, IpEndpoint::new(to, 2000)))
            );
        }
    }
}

#[test]
fn an_unreachable_ipv6_neighbor_is_reported_to_the_sender() {
    let mut cable = cable(Medium::Ethernet);
    let handle = cable.handles[0];
    let mut dead = V6[1];
    dead.0[15] = 99;
    cable.stacks[0].udp_socket(handle).send_slice(b"anyone?", (dead, 1000)).unwrap();
    for secs in 1..=4 {
        cable.stacks[0].poll(Instant::from_secs(secs));
    }
    assert_eq!(
        cable.stacks[0].udp_socket(handle).take_icmp_error(),
        Some((IcmpError::HostUnreachable, IpEndpoint::new(dead.into(), 1000)))
    );
}

#[test]
fn replacing_the_addresses_keeps_the_derived_one() {
    let mut cable = cable(Medium::Ethernet);
    let new = IpCidr::new(Ipv4Address::new(172, 16, 0, 1).into(), 16);
    let mut iface = cable.stacks[0].iface(IFACE);
    iface.set_ip_addrs(&[new]).unwrap();
    assert_eq!(iface.ip_addrs().len(), 2);
    assert_eq!(iface.ip_addrs()[0].cidr, new);
    assert_eq!(iface.ip_addrs()[0].origin, AddrOrigin::Manual);
    assert_eq!(iface.ip_addrs()[1].origin, AddrOrigin::LinkLocal);
}

#[test]
fn an_interface_without_an_address_can_broadcast() {
    let mut stack = Stack::new(1);
    let hardware_addr = EthernetAddress([2, 0, 0, 0, 0, 9]);
    stack.add_iface(IfaceCapabilities::default(), hardware_addr.into()).unwrap();
    let mut message = vec![0, 68, 0, 67, 0, 9, 0, 0];
    message.push(b'?');
    let packet = PacketBuf::with_data(14 + 20, &message);
    let everyone = Ipv4Address::new(255, 255, 255, 255);
    let iface = stack.net.ifaces.get_mut(0);
    stack.net.inner.transmit_ipv4_on(iface, Ipv4Address::new(0, 0, 0, 0), everyone, packet);
    let frame = stack.iface(IFACE).transmit().unwrap().to_vec();
    assert_eq!(frame[..6], [0xff; 6]);
    assert_eq!(frame[6..14], [2, 0, 0, 0, 0, 9, 8, 0]);
    assert_eq!(frame[26..34], [0, 0, 0, 0, 255, 255, 255, 255]);
    assert_eq!(frame[34..], message);
}

#[test]
fn host_numbers() {
    assert_eq!(device_mtu(Medium::Ethernet, 1500), 1514);
    assert_eq!(device_mtu(Medium::Ip, 1500), 1500);
    assert_eq!(device_mtu(Medium::Ieee802154, 123), 125);
    assert_eq!(tun_tap_flags(Medium::Ip), Some(0x1001));
    assert_eq!(tun_tap_flags(Medium::Ethernet), Some(0x1002));
    assert_eq!(tun_tap_flags(Medium::Ieee802154), None);
    assert_eq!(packet_protocol(Medium::Ethernet), Some(3));
    assert_eq!(packet_protocol(Medium::Ieee802154), Some(0xf6));
    assert_eq!(packet_protocol(Medium::Ip), None);
    assert_eq!(interface_name(b"tap0"), Some(*b"tap0\0\0\0\0\0\0\0\0\0\0\0\0"));
    assert_eq!(interface_name(b"0123456789abcdef"), Some(*b"0123456789abcdef"));
    assert_eq!(interface_name(b"0123456789abcdefg"), None);
    let now = Instant::from_secs(5);
    assert_eq!(time_left(Instant::max(), now), None);
    assert_eq!(time_left(Instant::from_secs(4), now), Some(Duration { micros: 0 }));
    assert_eq!(time_left(Instant::from_secs(7), now), Some(Duration { micros: 2_000_000 }));
}
