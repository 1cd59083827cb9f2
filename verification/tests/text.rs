use xarxa::icmp_error::IcmpError;
use xarxa::storage::Full;
use xarxa::tcp::repr::TcpRepr;
use xarxa::text::{decimal_text, hex_text};
use xarxa::udp::{BindError, RecvError, SendError};
use xarxa::wire::endpoint::IpEndpoint;
use xarxa::wire::icmpv4;
use xarxa::wire::ip::Ipv4Address;
use xarxa::wire::sixlowpan::frag;
use xarxa::wire::tcp::{TcpControl, TcpSeqNumber};
use xarxa::wire::{Error, RawHardwareAddress};

#[test]
fn numbers_and_octets() {
    assert_eq!(decimal_text(0), "0");
    assert_eq!(decimal_text(907), "907");
    assert_eq!(decimal_text(u64::MAX), u64::MAX.to_string());
    assert_eq!(hex_text(&[0x02, 0xab, 0x0f]), "02:ab:0f");
    assert_eq!(hex_text(&[]), "");
    assert_eq!(RawHardwareAddress::from_bytes(&[1, 2, 0xfe]).text(), "01:02:fe");
}

#[test]
fn errors() {
    assert_eq!(BindError::Unaddressable.text(), "unaddressable");
    assert_eq!(SendError::BufferFull.text(), "buffer full");
    assert_eq!(RecvError::Exhausted.text(), "exhausted");
    assert_eq!(RecvError::Truncated.text(), "truncated");
    let remote = IpEndpoint::new(Ipv4Address::new(10, 0, 0, 1).into(), 1);
    assert_eq!(RecvError::IcmpError { error: IcmpError::TimeExceeded, remote }.text(), "icmp error");
    assert_eq!(Full.text(), "full");
    assert_eq!(Error.text(), "wire::Error");
}

#[test]
fn messages() {
    assert_eq!(icmpv4::Message::EchoRequest.text(), "echo request");
    assert_eq!(icmpv4::Message::Unknown(9).text(), "9");
    assert_eq!(icmpv4::DstUnreachable::PortUnreachable.text(), "destination port unreachable");
    assert_eq!(icmpv4::TimeExceeded::TtlExpired.text(), "time-to-live exceeded in transit");
    assert_eq!(frag::Repr::FirstFragment { size: 307, tag: 63 }.text(), "FirstFrag size=307 tag=63");
    assert_eq!(
        frag::Repr::Fragment { size: 307, tag: 63, offset: 17 }.text(),
        "NthFrag size=307 tag=63 offset=17"
    );
}

#[test]
fn segments() {
    let mut repr = TcpRepr {
        src_port: 48896,
        dst_port: 80,
        seq_number: TcpSeqNumber(0x0123),
        ack_number: None,
        window_len: 0x0123,
        window_scale: None,
        control: TcpControl::Syn,
        max_seg_size: Some(1460),
        sack_permitted: false,
        sack_ranges: [None, None, None],
        timestamp: None,
        payload: &[1, 2, 3],
    };
    assert_eq!(repr.text(), "TCP src=48896 dst=80 syn seq=291 win=291 len=3 mss=1460");
    repr.control = TcpControl::NoFlag;
    repr.ack_number = Some(TcpSeqNumber(1));
    repr.max_seg_size = None;
    assert_eq!(repr.text(), "TCP src=48896 dst=80 seq=291 ack=1 win=291 len=3");
}
