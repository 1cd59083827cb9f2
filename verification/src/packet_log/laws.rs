//! What holds of every log.

use vstd::prelude::*;

use crate::packet_log;
use crate::packet_log::dns;
use crate::packet_log::dns::{DnsHeader, DnsLineView, DnsSection};
use crate::packet_log::{HeaderLine, Layer, LogView};
use crate::wire::dns as wire_dns;
use crate::wire::dns::DNS_HEADER_LEN;
use crate::wire::icmpv4;
use crate::wire::icmpv6;
use crate::wire::ip::IpVersion;
use crate::wire::ipv4;
use crate::wire::ipv6;
use crate::wire::ipv6ext;
use crate::wire::ndisc;
use crate::wire::protocol::{EthernetProtocol, IpProtocol};
use crate::wire::tcp;
use crate::wire::udp;
use crate::wire::bytes;

verus! {

/// Whether the line says that something failed to parse.
pub open spec fn reports_malformed(line: LogView) -> bool {
    match line {
        LogView::Header(HeaderLine::Malformed(_)) => true,
        LogView::Dns(DnsLineView::Malformed) => true,
        LogView::Dns(DnsLineView::QuestionMalformed) => true,
        LogView::Dns(DnsLineView::RecordMalformed(_)) => true,
        _ => false,
    }
}

/// Whether no line reports something malformed.
pub open spec fn all_fine(lines: Seq<LogView>) -> bool {
    forall|i: int| 0 <= i < lines.len() ==> !reports_malformed(#[trigger] lines[i])
}

/// Whether no line but the last one reports something malformed.
pub open spec fn stops_at_malformed(lines: Seq<LogView>) -> bool {
    forall|i: int| 0 <= i < lines.len() - 1 ==> !reports_malformed(#[trigger] lines[i])
}

/// Fine lines may stand in front of lines that stop where they have to.
proof fn lemma_join(a: Seq<LogView>, b: Seq<LogView>)
    requires
        all_fine(a),
        stops_at_malformed(b),
    ensures
        stops_at_malformed(a + b),
        all_fine(b) ==> all_fine(a + b),
{
    assert forall|i: int| 0 <= i < (a + b).len() - 1 implies !reports_malformed(#[trigger] (a + b)[i]) by {
        if i >= a.len() {
            assert((a + b)[i] == b[i - a.len()]);
        }
    }
}

proof fn lemma_extension_options(options: Seq<u8>, at: int)
    ensures
        stops_at_malformed(packet_log::extension_options(options, at).0),
        packet_log::extension_options(options, at).1 ==> all_fine(packet_log::extension_options(options, at).0),
    decreases options.len() - at,
{
    if 0 <= at < options.len() && ipv6ext::option_fits(options, at) {
        let next = ipv6ext::next_option(options, at);
        lemma_extension_options(options, next);
        let rest = packet_log::extension_options(options, next).0;
        let lines = packet_log::extension_options(options, at).0;
        lemma_join(seq![lines[0]], rest);
        assert(lines =~= seq![lines[0]] + rest);
    }
}

proof fn lemma_tcp_options(options: Seq<u8>, at: int)
    ensures
        stops_at_malformed(packet_log::tcp_options(options, at)),
    decreases options.len() - at,
{
    if 0 <= at < options.len() && tcp::option_ok(options, at) {
        if options[at] == tcp::OPT_NOP {
            lemma_tcp_options(options, at + 1);
        } else if options[at] != tcp::OPT_END {
            let next = at + tcp::option_len(options, at);
            lemma_tcp_options(options, next);
            let lines = packet_log::tcp_options(options, at);
            lemma_join(seq![lines[0]], packet_log::tcp_options(options, next));
            assert(lines =~= seq![lines[0]] + packet_log::tcp_options(options, next));
        }
    }
}

proof fn lemma_ndisc_options(options: Seq<u8>, at: int)
    ensures
        stops_at_malformed(packet_log::ndisc_options(options, at)),
    decreases options.len() - at,
{
    if 0 <= at < options.len() && ndisc::option_ok(options, at) {
        let next = at + ndisc::option_len(options, at);
        lemma_ndisc_options(options, next);
        lemma_join(
            packet_log::one(packet_log::ndisc_option_line(options, at)),
            packet_log::ndisc_options(options, next),
        );
    }
}

proof fn lemma_questions(data: Seq<u8>, at: int, n: int)
    ensures
        stops_at_malformed(dns::questions(data, at, n).0),
        dns::questions(data, at, n).1 is Some ==> all_fine(dns::questions(data, at, n).0),
    decreases n,
{
    if n > 0 {
        if let Some(end) = wire_dns::question_end(data, at) {
            lemma_questions(data, end, n - 1);
            lemma_join(seq![dns::question_line(data, at)], dns::questions(data, end, n - 1).0);
        }
    }
}

proof fn lemma_records(data: Seq<u8>, section: DnsSection, at: int, n: int)
    ensures
        stops_at_malformed(dns::records(data, section, at, n).0),
        dns::records(data, section, at, n).1 is Some ==> all_fine(dns::records(data, section, at, n).0),
    decreases n,
{
    if n > 0 {
        if let Some(end) = wire_dns::record_end(data, at) {
            lemma_records(data, section, end, n - 1);
            lemma_join(seq![dns::record_line(data, section, at)], dns::records(data, section, end, n - 1).0);
        }
    }
}

proof fn lemma_section(data: Seq<u8>, section: DnsSection, before: (Seq<LogView>, Option<int>), n: int)
    requires
        stops_at_malformed(before.0),
        before.1 is Some ==> all_fine(before.0),
    ensures
        stops_at_malformed(dns::section_after(data, section, before, n).0),
        dns::section_after(data, section, before, n).1 is Some ==> all_fine(
            dns::section_after(data, section, before, n).0,
        ),
{
    if let Some(at) = before.1 {
        lemma_records(data, section, at, n);
        lemma_join(before.0, dns::records(data, section, at, n).0);
    }
}

proof fn lemma_dns(data: Seq<u8>)
    ensures
        stops_at_malformed(dns::dns_lines(data)),
{
    if data.len() >= DNS_HEADER_LEN {
        let header = DnsHeader::of(data);
        let asked = dns::questions(data, DNS_HEADER_LEN as int, header.questions as int);
        let answered = dns::section_after(data, DnsSection::Answer, asked, header.answers as int);
        let vouched = dns::section_after(data, DnsSection::Authority, answered, header.authorities as int);
        let added = dns::section_after(data, DnsSection::Additional, vouched, header.additionals as int);
        lemma_questions(data, DNS_HEADER_LEN as int, header.questions as int);
        lemma_section(data, DnsSection::Answer, asked, header.answers as int);
        lemma_section(data, DnsSection::Authority, answered, header.authorities as int);
        lemma_section(data, DnsSection::Additional, vouched, header.additionals as int);
        lemma_join(seq![LogView::Dns(DnsLineView::Header(header))], added.0);
    }
}

proof fn lemma_udp(data: Seq<u8>)
    ensures
        stops_at_malformed(packet_log::udp_lines(data)),
{
    if udp::well_formed(data) {
        let lines = packet_log::udp_lines(data);
        let payload = data.subrange(8, udp::udp_len(data));
        lemma_dns(payload);
        lemma_join(seq![lines[0]], dns::dns_lines(payload));
        if lines.len() > 1 {
            assert(lines =~= seq![lines[0]] + dns::dns_lines(payload));
        }
    }
}

proof fn lemma_tcp(data: Seq<u8>)
    ensures
        stops_at_malformed(packet_log::tcp_lines(data)),
{
    if tcp::well_formed(data) {
        let lines = packet_log::tcp_lines(data);
        let options = data.subrange(20, tcp::header_len(data));
        lemma_tcp_options(options, 0);
        lemma_join(seq![lines[0]], packet_log::tcp_options(options, 0));
        assert(lines =~= seq![lines[0]] + packet_log::tcp_options(options, 0));
    }
}

proof fn lemma_icmpv4(data: Seq<u8>)
    ensures
        stops_at_malformed(packet_log::icmpv4_lines(data)),
    decreases data.len(), 1int,
{
    if data.len() >= 8 && icmpv4::Message::of_number(data[0]).error_view() {
        lemma_ipv4(data.skip(8));
        lemma_join(packet_log::one(packet_log::icmpv4_line(data)), packet_log::ipv4_lines(data.skip(8)));
    }
}

proof fn lemma_icmpv6(data: Seq<u8>)
    ensures
        stops_at_malformed(packet_log::icmpv6_lines(data)),
    decreases data.len(), 1int,
{
    if icmpv6::well_formed(data) {
        let payload = data.skip(icmpv6::Message::of_number(data[0]).header_len_view());
        lemma_ipv6(payload);
        lemma_ndisc_options(payload, 0);
        lemma_join(packet_log::one(packet_log::icmpv6_line(data)), packet_log::ipv6_lines(payload));
        lemma_join(packet_log::one(packet_log::icmpv6_line(data)), packet_log::ndisc_options(payload, 0));
    }
}

proof fn lemma_transport(proto: IpProtocol, version: IpVersion, data: Seq<u8>)
    ensures
        stops_at_malformed(packet_log::transport_lines(proto, version, data)),
    decreases data.len(), 2int,
{
    lemma_udp(data);
    lemma_tcp(data);
    lemma_icmpv4(data);
    lemma_icmpv6(data);
}

proof fn lemma_extensions(proto: IpProtocol, data: Seq<u8>)
    ensures
        stops_at_malformed(packet_log::extension_lines(proto, data)),
    decreases data.len(), 3int,
{
    if !packet_log::is_extension(proto) {
        lemma_transport(proto, IpVersion::Ipv6, data);
    } else if ipv6ext::ext_well_formed(data) {
        let n = ipv6ext::ext_header_len(data);
        let next_header = IpProtocol::of_number(data[0]);
        let line = packet_log::one(
            HeaderLine::Extension { proto, next_header, len: packet_log::len_of(data.take(n)) },
        );
        let (options, fine) = if packet_log::carries_options(proto) {
            packet_log::extension_options(data.subrange(2, n), 0)
        } else {
            (Seq::empty(), true)
        };
        lemma_extension_options(data.subrange(2, n), 0);
        lemma_join(line, options);
        if fine {
            let rest = packet_log::extension_lines(next_header, data.skip(n));
            lemma_extensions(next_header, data.skip(n));
            lemma_join(line + options, rest);
        }
    }
}

proof fn lemma_ipv4(data: Seq<u8>)
    ensures
        stops_at_malformed(packet_log::ipv4_lines(data)),
    decreases data.len(), 4int,
{
    if ipv4::well_formed(data) {
        let payload = data.subrange(ipv4::header_len(data), ipv4::total_len(data));
        let proto = IpProtocol::of_number(data[9]);
        lemma_transport(proto, IpVersion::Ipv4, payload);
        lemma_join(
            packet_log::one(packet_log::ipv4_line(data)),
            packet_log::transport_lines(proto, IpVersion::Ipv4, payload),
        );
    }
}

proof fn lemma_ipv6(data: Seq<u8>)
    ensures
        stops_at_malformed(packet_log::ipv6_lines(data)),
    decreases data.len(), 4int,
{
    if ipv6::well_formed(data) {
        let payload = data.subrange(40, 40 + ipv6::payload_len(data));
        let proto = IpProtocol::of_number(data[6]);
        lemma_extensions(proto, payload);
        lemma_join(packet_log::one(packet_log::ipv6_line(data)), packet_log::extension_lines(proto, payload));
    }
}

/// Every packet gets a line, and a header that fails to parse ends the walk with a line
/// saying so: no other line reports anything malformed.
pub proof fn law_malformed_header_ends_the_log(data: Seq<u8>, layer: Layer)
    ensures
        packet_log::packet_lines(data, layer).len() > 0,
        stops_at_malformed(packet_log::packet_lines(data, layer)),
{
    lemma_ipv4(data);
    lemma_ipv6(data);
    if data.len() >= 14 {
        let payload = data.skip(14);
        let lines = packet_log::ethernet_lines(data);
        lemma_ipv4(payload);
        lemma_ipv6(payload);
        lemma_join(seq![lines[0]], packet_log::ipv4_lines(payload));
        lemma_join(seq![lines[0]], packet_log::ipv6_lines(payload));
        lemma_join(seq![lines[0]], packet_log::one(packet_log::arp_line(payload)));
        match EthernetProtocol::of_number(bytes::be16(data, 12)) {
            EthernetProtocol::Ipv4 => {
                assert(lines =~= seq![lines[0]] + packet_log::ipv4_lines(payload));
            },
            EthernetProtocol::Ipv6 => {
                assert(lines =~= seq![lines[0]] + packet_log::ipv6_lines(payload));
            },
            EthernetProtocol::Arp => {
                assert(lines =~= seq![lines[0]] + packet_log::one(packet_log::arp_line(payload)));
            },
            _ => {},
        }
    }
}

} // verus!
