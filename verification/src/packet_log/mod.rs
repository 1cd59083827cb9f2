//! Decode a packet for the log, one line per header.
//!
//! [`log_packet`] walks the headers of a packet and gives a [`LogLine`] for each one.

use vstd::prelude::*;

use crate::buf::PacketBuf;
use crate::iface::Medium;
use crate::packet_log::dns::{log_dns, DnsLine, DnsLineView};
use crate::wire::arp;
use crate::wire::arp::{ArpOperation, ArpRepr};
use crate::wire::bytes;
use crate::wire::dns::{DNS_PORT, MDNS_PORT};
use crate::wire::ethernet::{EthernetAddress, EthernetHeader, ETHERNET_HEADER_LEN};
use crate::wire::icmpv4;
use crate::wire::icmpv4::ICMPV4_HEADER_LEN;
use crate::wire::icmpv6;
use crate::wire::ip::{IpVersion, Ipv4Address, Ipv6Address};
use crate::wire::ipv4;
use crate::wire::ipv4::Ipv4Header;
use crate::wire::ipv6;
use crate::wire::ipv6::{Ipv6Header, IPV6_HEADER_LEN};
use crate::wire::ipv6ext;
use crate::wire::ipv6ext::{Ipv6ExtHeader, OPTION_PAD1};
use crate::wire::ndisc;
use crate::wire::protocol::{EthernetProtocol, IpProtocol};
use crate::wire::tcp;
use crate::wire::tcp::{TcpOption, TcpSeqNumber, TCP_HEADER_LEN};
use crate::wire::udp;
use crate::wire::udp::{UdpHeader, UDP_HEADER_LEN};

pub mod dns;
pub mod laws;

verus! {

/// The outermost header of a packet given to [`log_packet`].
#[derive(Debug, Clone, Copy, PartialEq, Eq, Structural)]
pub enum Layer {
    /// An Ethernet frame.
    Ethernet,
    /// An IP packet of either version. The version is read from the first byte.
    Ip,
    /// An IPv4 packet.
    Ipv4,
    /// An IPv6 packet.
    Ipv6,
    /// An ARP packet.
    Arp,
}

impl Layer {
    /// The outermost header of the packets that a medium carries, if it is one that can
    /// be decoded.
    pub fn of_medium(medium: Medium) -> (r: Option<Layer>)
        ensures
            r == match medium {
                Medium::Ethernet => Some(Layer::Ethernet),
                Medium::Ip => Some(Layer::Ip),
                Medium::Ieee802154 => None,
            },
    {
        match medium {
            Medium::Ethernet => Some(Layer::Ethernet),
            Medium::Ip => Some(Layer::Ip),
            Medium::Ieee802154 => None,
        }
    }
}

/// What a line that reports a malformed header is about.
#[derive(Debug, Clone, Copy, PartialEq, Eq, Structural)]
pub enum HeaderKind {
    Ethernet,
    Arp,
    Ipv4,
    Ipv6,
    /// An IPv6 extension header.
    Extension(IpProtocol),
    /// An option in an IPv6 extension header.
    ExtensionOption,
    Udp,
    Tcp,
    TcpOption,
    Icmpv4,
    Icmpv6,
    NdiscOption,
}

/// The flags of a TCP segment.
#[derive(Debug, Clone, Copy, PartialEq, Eq, Structural)]
pub struct TcpFlags {
    pub fin: bool,
    pub syn: bool,
    pub rst: bool,
    pub psh: bool,
    pub ack: bool,
    pub urg: bool,
    pub ece: bool,
    pub cwr: bool,
    pub ns: bool,
}

/// A letter if a flag is set, nothing otherwise.
pub open spec fn letter_if(set: bool, letter: u8) -> Seq<u8> {
    if set {
        seq![letter]
    } else {
        Seq::empty()
    }
}

/// Add a letter if a flag is set.
fn push_letter(out: &mut Vec<u8>, set: bool, letter: u8)
    ensures
        final(out)@ == old(out)@ + letter_if(set, letter),
{
    if set {
        out.push(letter);
    }
    assert(out@ =~= old(out)@ + letter_if(set, letter));
}

impl TcpFlags {
    /// The flags of a segment.
    pub open spec fn of(data: Seq<u8>) -> TcpFlags {
        TcpFlags {
            fin: tcp::flag(data, 1),
            syn: tcp::flag(data, 2),
            rst: tcp::flag(data, 4),
            psh: tcp::flag(data, 8),
            ack: tcp::flag(data, 16),
            urg: tcp::flag(data, 32),
            ece: tcp::flag(data, 64),
            cwr: tcp::flag(data, 128),
            ns: data[12] % 2 == 1,
        }
    }

    /// Read the flags of a segment.
    fn read(data: &[u8]) -> (r: TcpFlags)
        requires
            data@.len() >= TCP_HEADER_LEN,
        ensures
            r == TcpFlags::of(data@),
    {
        TcpFlags {
            fin: data[13] / 1 % 2 == 1,
            syn: data[13] / 2 % 2 == 1,
            rst: data[13] / 4 % 2 == 1,
            psh: data[13] / 8 % 2 == 1,
            ack: data[13] / 16 % 2 == 1,
            urg: data[13] / 32 % 2 == 1,
            ece: data[13] / 64 % 2 == 1,
            cwr: data[13] / 128 % 2 == 1,
            ns: data[12] % 2 == 1,
        }
    }

    /// The flags as a short letter string, e.g. "SA" for SYN and ACK.
    pub open spec fn letters_view(self) -> Seq<u8> {
        letter_if(self.fin, 0x46) + letter_if(self.syn, 0x53) + letter_if(self.rst, 0x52) + letter_if(
            self.psh,
            0x50,
        ) + letter_if(self.ack, 0x41) + letter_if(self.urg, 0x55) + letter_if(self.ece, 0x45) + letter_if(
            self.cwr,
            0x43,
        ) + letter_if(self.ns, 0x4e)
    }

    /// The flags as a short letter string, e.g. "SA" for SYN and ACK.
    pub fn letters(&self) -> (r: Vec<u8>)
        ensures
            r@ == self.letters_view(),
    {
        let mut out: Vec<u8> = Vec::new();
        push_letter(&mut out, self.fin, 0x46);
        push_letter(&mut out, self.syn, 0x53);
        push_letter(&mut out, self.rst, 0x52);
        push_letter(&mut out, self.psh, 0x50);
        push_letter(&mut out, self.ack, 0x41);
        push_letter(&mut out, self.urg, 0x55);
        push_letter(&mut out, self.ece, 0x45);
        push_letter(&mut out, self.cwr, 0x43);
        push_letter(&mut out, self.ns, 0x4e);
        assert(out@ =~= self.letters_view());
        out
    }
}

/// A line about a header.
#[allow(inconsistent_fields)]
#[derive(Debug, Clone, Copy, PartialEq, Eq)]
pub enum HeaderLine {
    Malformed(HeaderKind),
    Ethernet { src: EthernetAddress, dst: EthernetAddress, ethertype: EthernetProtocol },
    /// The payload of a frame that is not looked into.
    Payload { len: usize },
    /// An ARP packet that maps IPv4 addresses to Ethernet addresses.
    Arp {
        operation: ArpOperation,
        source_hardware_addr: EthernetAddress,
        source_protocol_addr: Ipv4Address,
        target_hardware_addr: EthernetAddress,
        target_protocol_addr: Ipv4Address,
    },
    /// Any other ARP packet.
    ArpOther {
        operation: ArpOperation,
        hardware_type: u16,
        protocol_type: EthernetProtocol,
        hardware_len: u8,
        protocol_len: u8,
    },
    IpEmpty,
    IpUnknownVersion { len: usize },
    Ipv4 {
        src: Ipv4Address,
        dst: Ipv4Address,
        proto: IpProtocol,
        len: u16,
        ttl: u8,
        ident: u16,
        dscp: u8,
        ecn: u8,
        dont_frag: bool,
        more_frags: bool,
        /// In octets.
        frag_offset: u16,
    },
    /// A fragment, which is not looked into.
    Fragment { len: usize },
    Ipv6 {
        src: Ipv6Address,
        dst: Ipv6Address,
        next_header: IpProtocol,
        payload_len: u16,
        hop_limit: u8,
        traffic_class: u8,
        flow_label: u32,
    },
    /// An IPv6 extension header.
    Extension { proto: IpProtocol, next_header: IpProtocol, len: usize },
    /// An option in an IPv6 extension header.
    ExtensionOption { option_type: u8, len: usize },
    /// A transport protocol that is not looked into.
    Transport { proto: IpProtocol, len: usize },
    Udp { src_port: u16, dst_port: u16, len: u16, payload: usize },
    Tcp {
        src_port: u16,
        dst_port: u16,
        flags: TcpFlags,
        seq_number: TcpSeqNumber,
        ack_number: TcpSeqNumber,
        window_len: u16,
        urgent_at: u16,
        payload: usize,
    },
    TcpOption(TcpOption),
    Icmpv4Echo { msg_type: icmpv4::Message, ident: u16, seq_no: u16, payload: usize },
    Icmpv4DstUnreachable(icmpv4::DstUnreachable),
    Icmpv4Redirect(icmpv4::Redirect),
    Icmpv4TimeExceeded(icmpv4::TimeExceeded),
    Icmpv4ParamProblem(icmpv4::ParamProblem),
    Icmpv4 { msg_type: icmpv4::Message, code: u8, payload: usize },
    Icmpv6Echo { msg_type: icmpv6::Message, ident: u16, seq_no: u16, payload: usize },
    Icmpv6DstUnreachable(icmpv6::DstUnreachable),
    Icmpv6PktTooBig { mtu: u32 },
    Icmpv6TimeExceeded(icmpv6::TimeExceeded),
    Icmpv6ParamProblem { code: icmpv6::ParamProblem, pointer: u32 },
    RouterSolicit,
    RouterAdvert { hop_limit: u8, flags: u8 },
    NeighborSolicit { target: Ipv6Address },
    NeighborAdvert { target: Ipv6Address, flags: u8 },
    Redirect { target: Ipv6Address, dest: Ipv6Address },
    Icmpv6 { msg_type: icmpv6::Message, code: u8, payload: usize },
    NdiscLinkLayerAddr { option_type: u8, addr: EthernetAddress },
    NdiscPrefix { prefix: Ipv6Address, prefix_len: u8, flags: u8 },
    NdiscMtu { mtu: u32 },
    NdiscOption { option_type: u8, len: usize },
}

/// A line of the log.
#[derive(Debug, PartialEq, Eq)]
pub enum LogLine {
    Header(HeaderLine),
    Dns(DnsLine),
}

/// What a line of the log says.
pub enum LogView {
    Header(HeaderLine),
    Dns(DnsLineView),
}

impl View for LogLine {
    type V = LogView;

    open spec fn view(&self) -> LogView {
        match *self {
            LogLine::Header(line) => LogView::Header(line),
            LogLine::Dns(line) => LogView::Dns(line@),
        }
    }
}

/// What the lines of the log say.
pub open spec fn lines_of(lines: Seq<LogLine>) -> Seq<LogView> {
    lines.map_values(|line: LogLine| line@)
}

/// Add a line to the log.
pub(crate) fn log(out: &mut Vec<LogLine>, line: LogLine)
    ensures
        lines_of(final(out)@) == lines_of(old(out)@).push(line@),
{
    out.push(line);
    assert(lines_of(out@) =~= lines_of(old(out)@).push(line@));
}

/// A single line about a header.
pub open spec fn one(line: HeaderLine) -> Seq<LogView> {
    seq![LogView::Header(line)]
}

/// Add a line about a header to the log.
fn log_header(out: &mut Vec<LogLine>, line: HeaderLine)
    ensures
        lines_of(final(out)@) == lines_of(old(out)@) + one(line),
{
    log(out, LogLine::Header(line));
    assert(lines_of(out@) =~= lines_of(old(out)@) + one(line));
}

/// The length of what is left of a packet.
pub open spec fn len_of(data: Seq<u8>) -> usize {
    data.len() as usize
}

/// The line about an ARP packet.
pub open spec fn arp_line(data: Seq<u8>) -> HeaderLine {
    if !arp::well_formed(data) {
        HeaderLine::Malformed(HeaderKind::Arp)
    } else if arp::ipv4_over_ethernet(data) {
        HeaderLine::Arp {
            operation: ArpOperation::of_number(bytes::be16(data, 6)),
            source_hardware_addr: EthernetAddress::of(data.subrange(8, 14)),
            source_protocol_addr: Ipv4Address::of(data.subrange(14, 18)),
            target_hardware_addr: EthernetAddress::of(data.subrange(18, 24)),
            target_protocol_addr: Ipv4Address::of(data.subrange(24, 28)),
        }
    } else {
        HeaderLine::ArpOther {
            operation: ArpOperation::of_number(bytes::be16(data, 6)),
            hardware_type: bytes::be16(data, 0),
            protocol_type: EthernetProtocol::of_number(bytes::be16(data, 2)),
            hardware_len: data[4],
            protocol_len: data[5],
        }
    }
}

/// The line about an IPv4 header.
pub open spec fn ipv4_line(data: Seq<u8>) -> HeaderLine {
    let word = bytes::be16(data, 6);
    HeaderLine::Ipv4 {
        src: Ipv4Address::of(ipv4::src_octets(data)),
        dst: Ipv4Address::of(ipv4::dst_octets(data)),
        proto: IpProtocol::of_number(data[9]),
        len: bytes::be16(data, 2),
        ttl: data[8],
        ident: bytes::be16(data, 4),
        dscp: data[1] / 4,
        ecn: data[1] % 4,
        dont_frag: (word / 0x4000) % 2 == 1,
        more_frags: (word / 0x2000) % 2 == 1,
        frag_offset: ((word % 0x2000) * 8) as u16,
    }
}

/// The line about an IPv6 header.
pub open spec fn ipv6_line(data: Seq<u8>) -> HeaderLine {
    HeaderLine::Ipv6 {
        src: Ipv6Address::of(ipv6::src_octets(data)),
        dst: Ipv6Address::of(ipv6::dst_octets(data)),
        next_header: IpProtocol::of_number(data[6]),
        payload_len: bytes::be16(data, 4),
        hop_limit: data[7],
        traffic_class: ((data[0] % 16) * 16 + data[1] / 16) as u8,
        flow_label: ((data[1] % 16) * 0x1_0000 + data[2] * 0x100 + data[3]) as u32,
    }
}

/// The lines about the options of an IPv6 extension header from `at` on, and whether
/// all of them are well-formed.
pub open spec fn extension_options(options: Seq<u8>, at: int) -> (Seq<LogView>, bool)
    decreases options.len() - at,
{
    if at < 0 || at >= options.len() {
        (Seq::empty(), true)
    } else if !ipv6ext::option_fits(options, at) {
        (one(HeaderLine::Malformed(HeaderKind::ExtensionOption)), false)
    } else {
        let len = if options[at] == OPTION_PAD1 {
            0usize
        } else {
            options[at + 1] as usize
        };
        let (rest, fine) = extension_options(options, ipv6ext::next_option(options, at));
        (one(HeaderLine::ExtensionOption { option_type: options[at], len }) + rest, fine)
    }
}

/// Whether the protocol is an IPv6 extension header that carries options.
pub open spec fn carries_options(proto: IpProtocol) -> bool {
    proto == IpProtocol::HopByHop || proto == IpProtocol::Ipv6Opts
}

/// Whether the protocol is an IPv6 extension header that is walked over.
pub open spec fn is_extension(proto: IpProtocol) -> bool {
    carries_options(proto) || proto == IpProtocol::Ipv6Route || proto == IpProtocol::Ipv6Frag
}

/// The lines about a UDP datagram.
pub open spec fn udp_lines(data: Seq<u8>) -> Seq<LogView> {
    if !udp::well_formed(data) {
        one(HeaderLine::Malformed(HeaderKind::Udp))
    } else {
        let src_port = udp::src_port(data);
        let dst_port = udp::dst_port(data);
        let payload = data.subrange(UDP_HEADER_LEN as int, udp::udp_len(data));
        one(
            HeaderLine::Udp { src_port, dst_port, len: bytes::be16(data, 4), payload: len_of(payload) },
        ) + if src_port == DNS_PORT || src_port == MDNS_PORT || dst_port == DNS_PORT || dst_port == MDNS_PORT {
            dns::dns_lines(payload)
        } else {
            Seq::empty()
        }
    }
}

/// The lines about the options of a TCP segment from `at` on.
pub open spec fn tcp_options(options: Seq<u8>, at: int) -> Seq<LogView>
    decreases options.len() - at,
{
    if at < 0 || at >= options.len() {
        Seq::empty()
    } else if !tcp::option_ok(options, at) {
        one(HeaderLine::Malformed(HeaderKind::TcpOption))
    } else if options[at] == tcp::OPT_END {
        Seq::empty()
    } else if options[at] == tcp::OPT_NOP {
        tcp_options(options, at + 1)
    } else {
        one(HeaderLine::TcpOption(TcpOption::at(options, at))) + tcp_options(
            options,
            at + tcp::option_len(options, at),
        )
    }
}

/// The lines about a TCP segment.
pub open spec fn tcp_lines(data: Seq<u8>) -> Seq<LogView> {
    if !tcp::well_formed(data) {
        one(HeaderLine::Malformed(HeaderKind::Tcp))
    } else {
        one(
            HeaderLine::Tcp {
                src_port: bytes::be16(data, 0),
                dst_port: bytes::be16(data, 2),
                flags: TcpFlags::of(data),
                seq_number: TcpSeqNumber(bytes::be32(data, 4)),
                ack_number: TcpSeqNumber(bytes::be32(data, 8)),
                window_len: bytes::be16(data, 14),
                urgent_at: bytes::be16(data, 18),
                payload: len_of(data.skip(tcp::header_len(data))),
            },
        ) + tcp_options(data.subrange(TCP_HEADER_LEN as int, tcp::header_len(data)), 0)
    }
}

/// The line about the neighbor discovery option at `at`.
pub open spec fn ndisc_option_line(options: Seq<u8>, at: int) -> HeaderLine {
    let option_type = options[at];
    if option_type == ndisc::SOURCE_LINK_LAYER_ADDR || option_type == ndisc::TARGET_LINK_LAYER_ADDR {
        HeaderLine::NdiscLinkLayerAddr {
            option_type,
            addr: EthernetAddress::of(options.subrange(at + 2, at + 8)),
        }
    } else if option_type == ndisc::PREFIX_INFORMATION {
        HeaderLine::NdiscPrefix {
            prefix: Ipv6Address::of(options.subrange(at + 16, at + 32)),
            prefix_len: options[at + 2],
            flags: options[at + 3],
        }
    } else if option_type == ndisc::MTU {
        HeaderLine::NdiscMtu { mtu: bytes::be32(options, at + 4) }
    } else {
        HeaderLine::NdiscOption { option_type, len: ndisc::option_len(options, at) as usize }
    }
}

/// The lines about the neighbor discovery options from `at` on.
pub open spec fn ndisc_options(options: Seq<u8>, at: int) -> Seq<LogView>
    decreases options.len() - at,
{
    if at < 0 || at >= options.len() {
        Seq::empty()
    } else if !ndisc::option_ok(options, at) {
        one(HeaderLine::Malformed(HeaderKind::NdiscOption))
    } else {
        one(ndisc_option_line(options, at)) + ndisc_options(options, at + ndisc::option_len(options, at))
    }
}

/// The line about an ICMPv4 message.
pub open spec fn icmpv4_line(data: Seq<u8>) -> HeaderLine {
    let msg_type = icmpv4::Message::of_number(data[0]);
    let code = data[1];
    let payload = len_of(data.skip(8));
    match msg_type {
        icmpv4::Message::EchoRequest | icmpv4::Message::EchoReply => HeaderLine::Icmpv4Echo {
            msg_type,
            ident: bytes::be16(data, 4),
            seq_no: bytes::be16(data, 6),
            payload,
        },
        icmpv4::Message::DstUnreachable => HeaderLine::Icmpv4DstUnreachable(icmpv4::DstUnreachable::of_number(code)),
        icmpv4::Message::Redirect => HeaderLine::Icmpv4Redirect(icmpv4::Redirect::of_number(code)),
        icmpv4::Message::TimeExceeded => HeaderLine::Icmpv4TimeExceeded(icmpv4::TimeExceeded::of_number(code)),
        icmpv4::Message::ParamProblem => HeaderLine::Icmpv4ParamProblem(icmpv4::ParamProblem::of_number(code)),
        _ => HeaderLine::Icmpv4 { msg_type, code, payload },
    }
}

/// The line about an ICMPv6 message.
pub open spec fn icmpv6_line(data: Seq<u8>) -> HeaderLine {
    let msg_type = icmpv6::Message::of_number(data[0]);
    let code = data[1];
    let payload = len_of(data.skip(msg_type.header_len_view()));
    match msg_type {
        icmpv6::Message::EchoRequest | icmpv6::Message::EchoReply => HeaderLine::Icmpv6Echo {
            msg_type,
            ident: bytes::be16(data, 4),
            seq_no: bytes::be16(data, 6),
            payload,
        },
        icmpv6::Message::DstUnreachable => HeaderLine::Icmpv6DstUnreachable(icmpv6::DstUnreachable::of_number(code)),
        icmpv6::Message::PktTooBig => HeaderLine::Icmpv6PktTooBig { mtu: bytes::be32(data, 4) },
        icmpv6::Message::TimeExceeded => HeaderLine::Icmpv6TimeExceeded(icmpv6::TimeExceeded::of_number(code)),
        icmpv6::Message::ParamProblem => HeaderLine::Icmpv6ParamProblem {
            code: icmpv6::ParamProblem::of_number(code),
            pointer: bytes::be32(data, 4),
        },
        icmpv6::Message::RouterSolicit => HeaderLine::RouterSolicit,
        icmpv6::Message::RouterAdvert => HeaderLine::RouterAdvert { hop_limit: data[4], flags: data[5] },
        icmpv6::Message::NeighborSolicit => HeaderLine::NeighborSolicit {
            target: Ipv6Address::of(data.subrange(8, 24)),
        },
        icmpv6::Message::NeighborAdvert => HeaderLine::NeighborAdvert {
            target: Ipv6Address::of(data.subrange(8, 24)),
            flags: data[4],
        },
        icmpv6::Message::Redirect => HeaderLine::Redirect {
            target: Ipv6Address::of(data.subrange(8, 24)),
            dest: Ipv6Address::of(data.subrange(24, 40)),
        },
        _ => HeaderLine::Icmpv6 { msg_type, code, payload },
    }
}

/// Whether messages of this type carry neighbor discovery options.
pub open spec fn carries_ndisc_options(msg_type: icmpv6::Message) -> bool {
    match msg_type {
        icmpv6::Message::RouterSolicit => true,
        icmpv6::Message::RouterAdvert => true,
        icmpv6::Message::NeighborSolicit => true,
        icmpv6::Message::NeighborAdvert => true,
        icmpv6::Message::Redirect => true,
        _ => false,
    }
}

/// The lines about an ICMPv4 message. Error messages quote a packet, which is looked
/// into as well.
pub open spec fn icmpv4_lines(data: Seq<u8>) -> Seq<LogView>
    decreases data.len(), 1int,
{
    if data.len() < 8 {
        one(HeaderLine::Malformed(HeaderKind::Icmpv4))
    } else if icmpv4::Message::of_number(data[0]).error_view() {
        one(icmpv4_line(data)) + ipv4_lines(data.skip(8))
    } else {
        one(icmpv4_line(data))
    }
}

/// The lines about an ICMPv6 message. Error messages quote a packet, which is looked
/// into as well.
pub open spec fn icmpv6_lines(data: Seq<u8>) -> Seq<LogView>
    decreases data.len(), 1int,
{
    if !icmpv6::well_formed(data) {
        one(HeaderLine::Malformed(HeaderKind::Icmpv6))
    } else {
        let msg_type = icmpv6::Message::of_number(data[0]);
        let payload = data.skip(msg_type.header_len_view());
        if msg_type.error_view() {
            one(icmpv6_line(data)) + ipv6_lines(payload)
        } else if carries_ndisc_options(msg_type) {
            one(icmpv6_line(data)) + ndisc_options(payload, 0)
        } else {
            one(icmpv6_line(data))
        }
    }
}

/// The lines about what an IP packet carries.
pub open spec fn transport_lines(proto: IpProtocol, version: IpVersion, data: Seq<u8>) -> Seq<LogView>
    decreases data.len(), 2int,
{
    if proto == IpProtocol::Udp {
        udp_lines(data)
    } else if proto == IpProtocol::Tcp {
        tcp_lines(data)
    } else if proto == IpProtocol::Icmp && version == IpVersion::Ipv4 {
        icmpv4_lines(data)
    } else if proto == IpProtocol::Icmpv6 && version == IpVersion::Ipv6 {
        icmpv6_lines(data)
    } else if proto == IpProtocol::Ipv6NoNxt {
        Seq::empty()
    } else {
        one(HeaderLine::Transport { proto, len: len_of(data) })
    }
}

/// The lines about an IPv4 packet.
pub open spec fn ipv4_lines(data: Seq<u8>) -> Seq<LogView>
    decreases data.len(), 4int,
{
    if !ipv4::well_formed(data) {
        one(HeaderLine::Malformed(HeaderKind::Ipv4))
    } else {
        let payload = data.subrange(ipv4::header_len(data), ipv4::total_len(data));
        one(ipv4_line(data)) + if ipv4::is_fragment(data) {
            one(HeaderLine::Fragment { len: len_of(payload) })
        } else {
            transport_lines(IpProtocol::of_number(data[9]), IpVersion::Ipv4, payload)
        }
    }
}

/// The lines about the extension headers of an IPv6 packet, and about what follows.
pub open spec fn extension_lines(proto: IpProtocol, data: Seq<u8>) -> Seq<LogView>
    decreases data.len(), 3int,
{
    if !is_extension(proto) {
        transport_lines(proto, IpVersion::Ipv6, data)
    } else if !ipv6ext::ext_well_formed(data) {
        one(HeaderLine::Malformed(HeaderKind::Extension(proto)))
    } else {
        let n = ipv6ext::ext_header_len(data);
        let next_header = IpProtocol::of_number(data[0]);
        let line = one(HeaderLine::Extension { proto, next_header, len: len_of(data.take(n)) });
        let (options, fine) = if carries_options(proto) {
            extension_options(data.subrange(2, n), 0)
        } else {
            (Seq::empty(), true)
        };
        if fine {
            line + options + extension_lines(next_header, data.skip(n))
        } else {
            line + options
        }
    }
}

/// The lines about an IPv6 packet.
pub open spec fn ipv6_lines(data: Seq<u8>) -> Seq<LogView>
    decreases data.len(), 4int,
{
    if !ipv6::well_formed(data) {
        one(HeaderLine::Malformed(HeaderKind::Ipv6))
    } else {
        one(ipv6_line(data)) + extension_lines(
            IpProtocol::of_number(data[6]),
            data.subrange(40, 40 + ipv6::payload_len(data)),
        )
    }
}

/// The lines about an IP packet of either version.
pub open spec fn ip_lines(data: Seq<u8>) -> Seq<LogView> {
    if data.len() == 0 {
        one(HeaderLine::IpEmpty)
    } else {
        match IpVersion::of_packet_view(data) {
            Some(IpVersion::Ipv4) => ipv4_lines(data),
            Some(IpVersion::Ipv6) => ipv6_lines(data),
            None => one(HeaderLine::IpUnknownVersion { len: len_of(data) }),
        }
    }
}

/// The lines about an Ethernet frame.
pub open spec fn ethernet_lines(data: Seq<u8>) -> Seq<LogView> {
    if data.len() < 14 {
        one(HeaderLine::Malformed(HeaderKind::Ethernet))
    } else {
        let ethertype = EthernetProtocol::of_number(bytes::be16(data, 12));
        let payload = data.skip(14);
        one(
            HeaderLine::Ethernet {
                src: EthernetAddress::of(data.subrange(6, 12)),
                dst: EthernetAddress::of(data.subrange(0, 6)),
                ethertype,
            },
        ) + match ethertype {
            EthernetProtocol::Ipv4 => ipv4_lines(payload),
            EthernetProtocol::Ipv6 => ipv6_lines(payload),
            EthernetProtocol::Arp => one(arp_line(payload)),
            _ => one(HeaderLine::Payload { len: len_of(payload) }),
        }
    }
}

/// The lines about a packet whose outermost header is `layer`.
pub open spec fn packet_lines(data: Seq<u8>, layer: Layer) -> Seq<LogView> {
    match layer {
        Layer::Ethernet => ethernet_lines(data),
        Layer::Ip => ip_lines(data),
        Layer::Ipv4 => ipv4_lines(data),
        Layer::Ipv6 => ipv6_lines(data),
        Layer::Arp => one(arp_line(data)),
    }
}

/// Decode a packet for the log, one line per header.
///
/// `layer` says what the first header in the packet is. Headers are decoded
/// from there down to the transport layer. A header that fails to parse ends
/// the walk with a line saying so.
pub fn log_packet(buf: &PacketBuf, layer: Layer) -> (r: Vec<LogLine>)
    requires
        buf.wf(),
    ensures
        lines_of(r@) == packet_lines(buf@.data, layer),
{
    let mut out: Vec<LogLine> = Vec::new();
    log_layer(buf.as_slice(), layer, &mut out);
    assert(lines_of(out@) =~= packet_lines(buf@.data, layer));
    out
}

fn log_layer(data: &[u8], layer: Layer, out: &mut Vec<LogLine>)
    ensures
        lines_of(final(out)@) == lines_of(old(out)@) + packet_lines(data@, layer),
{
    match layer {
        Layer::Ethernet => log_ethernet(data, out),
        Layer::Ip => log_ip(data, out),
        Layer::Ipv4 => log_ipv4(data, out),
        Layer::Ipv6 => log_ipv6(data, out),
        Layer::Arp => log_arp(data, out),
    }
}

fn log_ethernet(data: &[u8], out: &mut Vec<LogLine>)
    ensures
        lines_of(final(out)@) == lines_of(old(out)@) + ethernet_lines(data@),
{
    let ghost start = lines_of(out@);
    match EthernetHeader::parse(data) {
        Ok(frame) => {
            proof {
                frame.src_addr.lemma_of();
                frame.dst_addr.lemma_of();
            }
            log_header(
                out,
                HeaderLine::Ethernet { src: frame.src_addr, dst: frame.dst_addr, ethertype: frame.ethertype },
            );
            let payload = &data[ETHERNET_HEADER_LEN..data.len()];
            assert(payload@ =~= data@.skip(14));
            match frame.ethertype {
                EthernetProtocol::Ipv4 => log_ipv4(payload, out),
                EthernetProtocol::Ipv6 => log_ipv6(payload, out),
                EthernetProtocol::Arp => log_arp(payload, out),
                _ => log_header(out, HeaderLine::Payload { len: payload.len() }),
            }
        },
        Err(_) => log_header(out, HeaderLine::Malformed(HeaderKind::Ethernet)),
    }
    assert(lines_of(out@) =~= start + ethernet_lines(data@));
}

fn log_arp(data: &[u8], out: &mut Vec<LogLine>)
    ensures
        lines_of(final(out)@) == lines_of(old(out)@) + one(arp_line(data@)),
{
    match ArpRepr::parse(data) {
        Ok(packet) => {
            proof {
                packet.source_hardware_addr.lemma_of();
                packet.source_protocol_addr.lemma_of();
                packet.target_hardware_addr.lemma_of();
                packet.target_protocol_addr.lemma_of();
            }
            log_header(
                out,
                HeaderLine::Arp {
                    operation: packet.operation,
                    source_hardware_addr: packet.source_hardware_addr,
                    source_protocol_addr: packet.source_protocol_addr,
                    target_hardware_addr: packet.target_hardware_addr,
                    target_protocol_addr: packet.target_protocol_addr,
                },
            );
        },
        Err(_) => {
            if data.len() < 8 || 2 * (data[4] as usize + data[5] as usize) > data.len() - 8 {
                log_header(out, HeaderLine::Malformed(HeaderKind::Arp));
            } else {
                log_header(
                    out,
                    HeaderLine::ArpOther {
                        operation: ArpOperation::from_u16(bytes::get_u16(data, 6)),
                        hardware_type: bytes::get_u16(data, 0),
                        protocol_type: EthernetProtocol::from_u16(bytes::get_u16(data, 2)),
                        hardware_len: data[4],
                        protocol_len: data[5],
                    },
                );
            }
        },
    }
}

fn log_ip(data: &[u8], out: &mut Vec<LogLine>)
    ensures
        lines_of(final(out)@) == lines_of(old(out)@) + ip_lines(data@),
{
    if data.len() == 0 {
        log_header(out, HeaderLine::IpEmpty);
        return;
    }
    match IpVersion::of_packet(data) {
        Ok(IpVersion::Ipv4) => log_ipv4(data, out),
        Ok(IpVersion::Ipv6) => log_ipv6(data, out),
        Err(_) => log_header(out, HeaderLine::IpUnknownVersion { len: data.len() }),
    }
}

/// The fields of an IPv4 header that only the log looks at.
fn read_ipv4_line(data: &[u8], h: &Ipv4Header) -> (r: HeaderLine)
    requires
        ipv4::well_formed(data@),
        h.describes(data@),
    ensures
        r == ipv4_line(data@),
{
    proof {
        h.src_addr.lemma_of();
        h.dst_addr.lemma_of();
    }
    let word: u16 = bytes::get_u16(data, 6);
    HeaderLine::Ipv4 {
        src: h.src_addr,
        dst: h.dst_addr,
        proto: h.next_header,
        len: bytes::get_u16(data, 2),
        ttl: h.hop_limit,
        ident: bytes::get_u16(data, 4),
        dscp: data[1] / 4,
        ecn: data[1] % 4,
        dont_frag: word / 0x4000 % 2 == 1,
        more_frags: word / 0x2000 % 2 == 1,
        frag_offset: (word % 0x2000) * 8,
    }
}

fn log_ipv4(data: &[u8], out: &mut Vec<LogLine>)
    ensures
        lines_of(final(out)@) == lines_of(old(out)@) + ipv4_lines(data@),
    decreases data@.len(), 4int,
{
    let ghost start = lines_of(out@);
    match Ipv4Header::parse(data) {
        Ok(packet) => {
            log_header(out, read_ipv4_line(data, &packet));
            let payload = &data[packet.header_len..packet.total_len];
            if packet.fragment {
                log_header(out, HeaderLine::Fragment { len: payload.len() });
            } else {
                log_transport(packet.next_header, IpVersion::Ipv4, payload, out);
            }
        },
        Err(_) => log_header(out, HeaderLine::Malformed(HeaderKind::Ipv4)),
    }
    assert(lines_of(out@) =~= start + ipv4_lines(data@));
}

/// The fields of an IPv6 header that only the log looks at.
fn read_ipv6_line(data: &[u8], h: &Ipv6Header) -> (r: HeaderLine)
    requires
        ipv6::well_formed(data@),
        h.describes(data@),
    ensures
        r == ipv6_line(data@),
{
    proof {
        h.src_addr.lemma_of();
        h.dst_addr.lemma_of();
    }
    HeaderLine::Ipv6 {
        src: h.src_addr,
        dst: h.dst_addr,
        next_header: h.next_header,
        payload_len: bytes::get_u16(data, 4),
        hop_limit: h.hop_limit,
        traffic_class: (data[0] % 16) * 16 + data[1] / 16,
        flow_label: (data[1] % 16) as u32 * 0x1_0000 + data[2] as u32 * 0x100 + data[3] as u32,
    }
}

fn log_ipv6(data: &[u8], out: &mut Vec<LogLine>)
    ensures
        lines_of(final(out)@) == lines_of(old(out)@) + ipv6_lines(data@),
    decreases data@.len(), 4int,
{
    let ghost start = lines_of(out@);
    match Ipv6Header::parse(data) {
        Ok(packet) => {
            log_header(out, read_ipv6_line(data, &packet));
            let payload = &data[IPV6_HEADER_LEN..IPV6_HEADER_LEN + packet.payload_len];
            log_extensions(packet.next_header, payload, out);
        },
        Err(_) => log_header(out, HeaderLine::Malformed(HeaderKind::Ipv6)),
    }
    assert(lines_of(out@) =~= start + ipv6_lines(data@));
}

/// Log the options of an extension header, returning whether all are well-formed.
fn log_extension_options(options: &[u8], out: &mut Vec<LogLine>) -> (fine: bool)
    ensures
        lines_of(final(out)@) == lines_of(old(out)@) + extension_options(options@, 0).0,
        fine == extension_options(options@, 0).1,
{
    let mut at: usize = 0;
    let ghost all = lines_of(out@) + extension_options(options@, 0).0;
    while at < options.len()
        invariant
            at <= options@.len(),
            all == lines_of(old(out)@) + extension_options(options@, 0).0,
            all == lines_of(out@) + extension_options(options@, at as int).0,
            extension_options(options@, 0).1 == extension_options(options@, at as int).1,
        decreases options@.len() - at,
    {
        let ghost before = lines_of(out@);
        let ghost from = at as int;
        match ipv6ext::option_len(options, at) {
            Ok(n) => {
                let len: usize = if options[at] == OPTION_PAD1 {
                    0
                } else {
                    n - 2
                };
                let line = HeaderLine::ExtensionOption { option_type: options[at], len };
                log_header(out, line);
                at += n;
                proof {
                    let rest = extension_options(options@, at as int).0;
                    assert(before + (one(line) + rest) =~= lines_of(out@) + rest);
                }
            },
            Err(_) => {
                log_header(out, HeaderLine::Malformed(HeaderKind::ExtensionOption));
                assert(lines_of(out@) =~= all);
                return false;
            },
        }
    }
    assert(lines_of(out@) =~= all);
    true
}

/// Walk the extension headers. They all share the (next header, length) prefix,
/// except that only Hop-by-Hop and Destination Options carry TLV options.
fn log_extensions(proto: IpProtocol, data: &[u8], out: &mut Vec<LogLine>)
    ensures
        lines_of(final(out)@) == lines_of(old(out)@) + extension_lines(proto, data@),
    decreases data@.len(), 3int,
{
    let ghost start = lines_of(out@);
    let has_options = match proto {
        IpProtocol::HopByHop => true,
        IpProtocol::Ipv6Opts => true,
        IpProtocol::Ipv6Route => false,
        IpProtocol::Ipv6Frag => false,
        _ => {
            log_transport(proto, IpVersion::Ipv6, data, out);
            return;
        },
    };
    match Ipv6ExtHeader::parse(data) {
        Ok(ext) => {
            let len: usize = ext.header_len;
            log_header(out, HeaderLine::Extension { proto, next_header: ext.next_header, len });
            if has_options {
                let fine = log_extension_options(&data[2..len], out);
                if !fine {
                    assert(lines_of(out@) =~= start + extension_lines(proto, data@));
                    return;
                }
            }
            let rest = &data[len..data.len()];
            assert(rest@ =~= data@.skip(len as int));
            log_extensions(ext.next_header, rest, out);
            assert(lines_of(out@) =~= start + extension_lines(proto, data@));
        },
        Err(_) => log_header(out, HeaderLine::Malformed(HeaderKind::Extension(proto))),
    }
}

fn log_transport(proto: IpProtocol, version: IpVersion, data: &[u8], out: &mut Vec<LogLine>)
    ensures
        lines_of(final(out)@) == lines_of(old(out)@) + transport_lines(proto, version, data@),
    decreases data@.len(), 2int,
{
    match (proto, version) {
        (IpProtocol::Udp, _) => log_udp(data, out),
        (IpProtocol::Tcp, _) => log_tcp(data, out),
        (IpProtocol::Icmp, IpVersion::Ipv4) => log_icmpv4(data, out),
        (IpProtocol::Icmpv6, IpVersion::Ipv6) => log_icmpv6(data, out),
        (IpProtocol::Ipv6NoNxt, _) => {
            assert(lines_of(out@) =~= lines_of(old(out)@) + Seq::<LogView>::empty());
        },
        _ => log_header(out, HeaderLine::Transport { proto, len: data.len() }),
    }
}

fn log_udp(data: &[u8], out: &mut Vec<LogLine>)
    ensures
        lines_of(final(out)@) == lines_of(old(out)@) + udp_lines(data@),
{
    let ghost start = lines_of(out@);
    match UdpHeader::parse(data) {
        Ok(p) => {
            let payload = &data[UDP_HEADER_LEN..p.len];
            log_header(
                out,
                HeaderLine::Udp {
                    src_port: p.src_port,
                    dst_port: p.dst_port,
                    len: bytes::get_u16(data, 4),
                    payload: payload.len(),
                },
            );
            if p.src_port == DNS_PORT || p.src_port == MDNS_PORT || p.dst_port == DNS_PORT || p.dst_port
                == MDNS_PORT {
                log_dns(payload, out);
            }
        },
        Err(_) => log_header(out, HeaderLine::Malformed(HeaderKind::Udp)),
    }
    assert(lines_of(out@) =~= start + udp_lines(data@));
}

/// Log the options of a TCP segment.
fn log_tcp_options(options: &[u8], out: &mut Vec<LogLine>)
    ensures
        lines_of(final(out)@) == lines_of(old(out)@) + tcp_options(options@, 0),
{
    let mut at: usize = 0;
    let ghost all = lines_of(out@) + tcp_options(options@, 0);
    while at < options.len()
        invariant
            at <= options@.len(),
            all == lines_of(old(out)@) + tcp_options(options@, 0),
            all == lines_of(out@) + tcp_options(options@, at as int),
        decreases options@.len() - at,
    {
        let ghost before = lines_of(out@);
        match TcpOption::parse(options, at) {
            Ok((n, option)) => {
                match option {
                    TcpOption::EndOfList => {
                        assert(lines_of(out@) =~= all);
                        return;
                    },
                    TcpOption::NoOperation => {},
                    _ => {
                        log_header(out, HeaderLine::TcpOption(option));
                        proof {
                            option.lemma_at(options@, at as int);
                            let rest = tcp_options(options@, at + n);
                            assert(before + (one(HeaderLine::TcpOption(option)) + rest) =~= lines_of(out@)
                                + rest);
                        }
                    },
                }
                at += n;
            },
            Err(_) => {
                log_header(out, HeaderLine::Malformed(HeaderKind::TcpOption));
                assert(lines_of(out@) =~= all);
                return;
            },
        }
    }
    assert(lines_of(out@) =~= all);
}

fn log_tcp(data: &[u8], out: &mut Vec<LogLine>)
    ensures
        lines_of(final(out)@) == lines_of(old(out)@) + tcp_lines(data@),
{
    let ghost start = lines_of(out@);
    if tcp::check(data).is_err() {
        log_header(out, HeaderLine::Malformed(HeaderKind::Tcp));
        return;
    }
    let header_len: usize = (data[12] / 16) as usize * 4;
    log_header(
        out,
        HeaderLine::Tcp {
            src_port: bytes::get_u16(data, 0),
            dst_port: bytes::get_u16(data, 2),
            flags: TcpFlags::read(data),
            seq_number: TcpSeqNumber(bytes::get_u32(data, 4)),
            ack_number: TcpSeqNumber(bytes::get_u32(data, 8)),
            window_len: bytes::get_u16(data, 14),
            urgent_at: bytes::get_u16(data, 18),
            payload: data.len() - header_len,
        },
    );
    log_tcp_options(&data[TCP_HEADER_LEN..header_len], out);
    assert(lines_of(out@) =~= start + tcp_lines(data@));
}

/// Read the line about an ICMPv4 message.
fn read_icmpv4_line(data: &[u8]) -> (r: HeaderLine)
    requires
        data@.len() >= 8,
    ensures
        r == icmpv4_line(data@),
{
    let msg_type = icmpv4::Message::from(data[0]);
    let code: u8 = data[1];
    let payload: usize = data.len() - 8;
    match msg_type {
        icmpv4::Message::EchoRequest | icmpv4::Message::EchoReply => HeaderLine::Icmpv4Echo {
            msg_type,
            ident: bytes::get_u16(data, 4),
            seq_no: bytes::get_u16(data, 6),
            payload,
        },
        icmpv4::Message::DstUnreachable => HeaderLine::Icmpv4DstUnreachable(icmpv4::DstUnreachable::from(code)),
        icmpv4::Message::Redirect => HeaderLine::Icmpv4Redirect(icmpv4::Redirect::from(code)),
        icmpv4::Message::TimeExceeded => HeaderLine::Icmpv4TimeExceeded(icmpv4::TimeExceeded::from(code)),
        icmpv4::Message::ParamProblem => HeaderLine::Icmpv4ParamProblem(icmpv4::ParamProblem::from(code)),
        _ => HeaderLine::Icmpv4 { msg_type, code, payload },
    }
}

fn log_icmpv4(data: &[u8], out: &mut Vec<LogLine>)
    ensures
        lines_of(final(out)@) == lines_of(old(out)@) + icmpv4_lines(data@),
    decreases data@.len(), 1int,
{
    let ghost start = lines_of(out@);
    if data.len() < ICMPV4_HEADER_LEN {
        log_header(out, HeaderLine::Malformed(HeaderKind::Icmpv4));
        return;
    }
    log_header(out, read_icmpv4_line(data));
    if icmpv4::Message::from(data[0]).is_error() {
        let quoted = &data[ICMPV4_HEADER_LEN..data.len()];
        assert(quoted@ =~= data@.skip(8));
        log_ipv4(quoted, out);
    }
    assert(lines_of(out@) =~= start + icmpv4_lines(data@));
}

/// Read the line about an ICMPv6 message.
fn read_icmpv6_line(data: &[u8], msg_type: icmpv6::Message) -> (r: HeaderLine)
    requires
        icmpv6::well_formed(data@),
        msg_type == icmpv6::Message::of_number(data@[0]),
    ensures
        r == icmpv6_line(data@),
{
    let code: u8 = data[1];
    let payload: usize = data.len() - msg_type.header_len();
    match msg_type {
        icmpv6::Message::EchoRequest | icmpv6::Message::EchoReply => HeaderLine::Icmpv6Echo {
            msg_type,
            ident: bytes::get_u16(data, 4),
            seq_no: bytes::get_u16(data, 6),
            payload,
        },
        icmpv6::Message::DstUnreachable => HeaderLine::Icmpv6DstUnreachable(icmpv6::DstUnreachable::from(code)),
        icmpv6::Message::PktTooBig => HeaderLine::Icmpv6PktTooBig { mtu: bytes::get_u32(data, 4) },
        icmpv6::Message::TimeExceeded => HeaderLine::Icmpv6TimeExceeded(icmpv6::TimeExceeded::from(code)),
        icmpv6::Message::ParamProblem => HeaderLine::Icmpv6ParamProblem {
            code: icmpv6::ParamProblem::from(code),
            pointer: bytes::get_u32(data, 4),
        },
        icmpv6::Message::RouterSolicit => HeaderLine::RouterSolicit,
        icmpv6::Message::RouterAdvert => HeaderLine::RouterAdvert { hop_limit: data[4], flags: data[5] },
        icmpv6::Message::NeighborSolicit => HeaderLine::NeighborSolicit {
            target: Ipv6Address::from_bytes(&data[8..24]),
        },
        icmpv6::Message::NeighborAdvert => HeaderLine::NeighborAdvert {
            target: Ipv6Address::from_bytes(&data[8..24]),
            flags: data[4],
        },
        icmpv6::Message::Redirect => HeaderLine::Redirect {
            target: Ipv6Address::from_bytes(&data[8..24]),
            dest: Ipv6Address::from_bytes(&data[24..40]),
        },
        _ => HeaderLine::Icmpv6 { msg_type, code, payload },
    }
}

fn log_icmpv6(data: &[u8], out: &mut Vec<LogLine>)
    ensures
        lines_of(final(out)@) == lines_of(old(out)@) + icmpv6_lines(data@),
    decreases data@.len(), 1int,
{
    let ghost start = lines_of(out@);
    match icmpv6::check(data) {
        Ok(msg_type) => {
            log_header(out, read_icmpv6_line(data, msg_type));
            let header_len: usize = msg_type.header_len();
            let payload = &data[header_len..data.len()];
            assert(payload@ =~= data@.skip(msg_type.header_len_view()));
            if msg_type.is_error() {
                log_ipv6(payload, out);
            } else if matches!(
                msg_type,
                icmpv6::Message::RouterSolicit | icmpv6::Message::RouterAdvert | icmpv6::Message::NeighborSolicit
                | icmpv6::Message::NeighborAdvert | icmpv6::Message::Redirect
            ) {
                log_ndisc_options(payload, out);
            }
        },
        Err(_) => log_header(out, HeaderLine::Malformed(HeaderKind::Icmpv6)),
    }
    assert(lines_of(out@) =~= start + icmpv6_lines(data@));
}

/// Read the line about the neighbor discovery option at `at`.
fn read_ndisc_option(options: &[u8], at: usize) -> (r: HeaderLine)
    requires
        at < options@.len(),
        ndisc::option_ok(options@, at as int),
    ensures
        r == ndisc_option_line(options@, at as int),
{
    assert(options.len() == options@.len());
    let option_type: u8 = options[at];
    if option_type == ndisc::SOURCE_LINK_LAYER_ADDR || option_type == ndisc::TARGET_LINK_LAYER_ADDR {
        HeaderLine::NdiscLinkLayerAddr { option_type, addr: EthernetAddress::from_bytes(&options[at + 2..at + 8]) }
    } else if option_type == ndisc::PREFIX_INFORMATION {
        HeaderLine::NdiscPrefix {
            prefix: Ipv6Address::from_bytes(&options[at + 16..at + 32]),
            prefix_len: options[at + 2],
            flags: options[at + 3],
        }
    } else if option_type == ndisc::MTU {
        HeaderLine::NdiscMtu { mtu: bytes::get_u32(options, at + 4) }
    } else {
        HeaderLine::NdiscOption { option_type, len: options[at + 1] as usize * 8 }
    }
}

fn log_ndisc_options(options: &[u8], out: &mut Vec<LogLine>)
    ensures
        lines_of(final(out)@) == lines_of(old(out)@) + ndisc_options(options@, 0),
{
    let mut at: usize = 0;
    let ghost all = lines_of(out@) + ndisc_options(options@, 0);
    while at < options.len()
        invariant
            at <= options@.len(),
            all == lines_of(old(out)@) + ndisc_options(options@, 0),
            all == lines_of(out@) + ndisc_options(options@, at as int),
        decreases options@.len() - at,
    {
        let ghost before = lines_of(out@);
        match ndisc::option_at(options, at) {
            Ok(len) => {
                let line = read_ndisc_option(options, at);
                log_header(out, line);
                at += len;
                proof {
                    let rest = ndisc_options(options@, at as int);
                    assert(before + (one(line) + rest) =~= lines_of(out@) + rest);
                }
            },
            Err(_) => {
                log_header(out, HeaderLine::Malformed(HeaderKind::NdiscOption));
                assert(lines_of(out@) =~= all);
                return;
            },
        }
    }
    assert(lines_of(out@) =~= all);
}

} // verus!
