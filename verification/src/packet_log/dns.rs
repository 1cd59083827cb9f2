//! Decoding DNS messages for the log.

use vstd::prelude::*;

use crate::packet_log;
use crate::packet_log::{log, LogLine, LogView};
use crate::wire::bytes;
use crate::wire::dns;
use crate::wire::dns::{DnsName, DnsQuestion, DnsRecord, DNS_HEADER_LEN, TYPE_A, TYPE_AAAA, TYPE_CNAME};
use crate::wire::ip::{Ipv4Address, Ipv6Address};

verus! {

/// A section of resource records.
#[derive(Debug, Clone, Copy, PartialEq, Eq, Structural)]
pub enum DnsSection {
    Answer,
    Authority,
    Additional,
}

/// The header of a DNS message.
#[derive(Debug, Clone, Copy, PartialEq, Eq, Structural)]
pub struct DnsHeader {
    pub id: u16,
    pub response: bool,
    pub opcode: u8,
    pub rcode: u8,
    /// The word the flags are in, the operation and response codes included.
    pub flags: u16,
    pub questions: u16,
    pub answers: u16,
    pub authorities: u16,
    pub additionals: u16,
}

impl DnsHeader {
    /// The header that a message starts with.
    pub open spec fn of(data: Seq<u8>) -> DnsHeader {
        let flags = bytes::be16(data, 2);
        DnsHeader {
            id: bytes::be16(data, 0),
            response: flags >= 0x8000,
            opcode: ((flags / 0x800) % 16) as u8,
            rcode: (flags % 16) as u8,
            flags,
            questions: bytes::be16(data, 4),
            answers: bytes::be16(data, 6),
            authorities: bytes::be16(data, 8),
            additionals: bytes::be16(data, 10),
        }
    }

    /// Read the header that a message starts with.
    fn read(data: &[u8]) -> (r: DnsHeader)
        requires
            data@.len() >= DNS_HEADER_LEN,
        ensures
            r == DnsHeader::of(data@),
    {
        let flags: u16 = bytes::get_u16(data, 2);
        DnsHeader {
            id: bytes::get_u16(data, 0),
            response: flags >= 0x8000,
            opcode: (flags / 0x800 % 16) as u8,
            rcode: (flags % 16) as u8,
            flags,
            questions: bytes::get_u16(data, 4),
            answers: bytes::get_u16(data, 6),
            authorities: bytes::get_u16(data, 8),
            additionals: bytes::get_u16(data, 10),
        }
    }
}

/// The data of a resource record. A name is `None` if it is malformed.
#[derive(Debug, PartialEq, Eq)]
pub enum DnsData {
    A(Ipv4Address),
    Aaaa(Ipv6Address),
    Cname(Option<DnsName>),
    Other { type_: u16, len: usize },
}

/// What the data of a resource record says.
pub enum DnsDataView {
    A(Ipv4Address),
    Aaaa(Ipv6Address),
    Cname(Option<Seq<u8>>),
    Other { type_: u16, len: usize },
}

/// A name, or `None` if it is malformed.
pub open spec fn name_view(name: Option<DnsName>) -> Option<Seq<u8>> {
    match name {
        Some(n) => Some(n@),
        None => None,
    }
}

impl View for DnsData {
    type V = DnsDataView;

    open spec fn view(&self) -> DnsDataView {
        match *self {
            DnsData::A(addr) => DnsDataView::A(addr),
            DnsData::Aaaa(addr) => DnsDataView::Aaaa(addr),
            DnsData::Cname(name) => DnsDataView::Cname(name_view(name)),
            DnsData::Other { type_, len } => DnsDataView::Other { type_, len },
        }
    }
}

/// A line about a DNS message. A name is `None` if it is malformed.
#[derive(Debug, PartialEq, Eq)]
pub enum DnsLine {
    Malformed,
    Header(DnsHeader),
    QuestionMalformed,
    Question { name: Option<DnsName>, type_: u16 },
    RecordMalformed(DnsSection),
    Record { section: DnsSection, name: Option<DnsName>, ttl: u32, data: DnsData },
}

/// What a line about a DNS message says.
pub enum DnsLineView {
    Malformed,
    Header(DnsHeader),
    QuestionMalformed,
    Question { name: Option<Seq<u8>>, type_: u16 },
    RecordMalformed(DnsSection),
    Record { section: DnsSection, name: Option<Seq<u8>>, ttl: u32, data: DnsDataView },
}

impl View for DnsLine {
    type V = DnsLineView;

    open spec fn view(&self) -> DnsLineView {
        match *self {
            DnsLine::Malformed => DnsLineView::Malformed,
            DnsLine::Header(header) => DnsLineView::Header(header),
            DnsLine::QuestionMalformed => DnsLineView::QuestionMalformed,
            DnsLine::Question { name, type_ } => DnsLineView::Question { name: name_view(name), type_ },
            DnsLine::RecordMalformed(section) => DnsLineView::RecordMalformed(section),
            DnsLine::Record { section, name, ttl, data } => DnsLineView::Record {
                section,
                name: name_view(name),
                ttl,
                data: data@,
            },
        }
    }
}

/// The line about the question at `at`.
pub open spec fn question_line(data: Seq<u8>, at: int) -> LogView {
    let end = dns::name_end(data, at)->0;
    LogView::Dns(
        DnsLineView::Question { name: DnsName::of(data, data.subrange(at, end)), type_: bytes::be16(data, end) },
    )
}

/// The lines about the `n` questions from `at` on, and where they end, or `None` if
/// one of them is malformed.
pub open spec fn questions(data: Seq<u8>, at: int, n: int) -> (Seq<LogView>, Option<int>)
    decreases n,
{
    if n <= 0 {
        (Seq::empty(), Some(at))
    } else {
        match dns::question_end(data, at) {
            Some(end) => {
                let (rest, stop) = questions(data, end, n - 1);
                (seq![question_line(data, at)] + rest, stop)
            },
            None => (seq![LogView::Dns(DnsLineView::QuestionMalformed)], None),
        }
    }
}

/// What the data of the record at `at` says.
pub open spec fn record_data(data: Seq<u8>, at: int) -> DnsDataView {
    let start = dns::name_end(data, at)->0 + 10;
    let type_ = bytes::be16(data, start - 10);
    let octets = data.subrange(start, dns::record_end(data, at)->0);
    if type_ == TYPE_A {
        DnsDataView::A(Ipv4Address::of(octets))
    } else if type_ == TYPE_AAAA {
        DnsDataView::Aaaa(Ipv6Address::of(octets))
    } else if type_ == TYPE_CNAME {
        DnsDataView::Cname(DnsName::of(data, octets))
    } else {
        DnsDataView::Other { type_, len: octets.len() as usize }
    }
}

/// The line about the record at `at`.
pub open spec fn record_line(data: Seq<u8>, section: DnsSection, at: int) -> LogView {
    let end = dns::name_end(data, at)->0;
    LogView::Dns(
        DnsLineView::Record {
            section,
            name: DnsName::of(data, data.subrange(at, end)),
            ttl: bytes::be32(data, end + 4),
            data: record_data(data, at),
        },
    )
}

/// The lines about the `n` records from `at` on, and where they end, or `None` if one
/// of them is malformed.
pub open spec fn records(data: Seq<u8>, section: DnsSection, at: int, n: int) -> (Seq<LogView>, Option<int>)
    decreases n,
{
    if n <= 0 {
        (Seq::empty(), Some(at))
    } else {
        match dns::record_end(data, at) {
            Some(end) => {
                let (rest, stop) = records(data, section, end, n - 1);
                (seq![record_line(data, section, at)] + rest, stop)
            },
            None => (seq![LogView::Dns(DnsLineView::RecordMalformed(section))], None),
        }
    }
}

/// The lines about the section from `at` on, and where it ends, if the one before it
/// ended somewhere.
pub open spec fn section_after(
    data: Seq<u8>,
    section: DnsSection,
    before: (Seq<LogView>, Option<int>),
    n: int,
) -> (Seq<LogView>, Option<int>) {
    match before.1 {
        Some(at) => {
            let (lines, stop) = records(data, section, at, n);
            (before.0 + lines, stop)
        },
        None => before,
    }
}

/// The lines about a DNS message.
pub open spec fn dns_lines(data: Seq<u8>) -> Seq<LogView> {
    if data.len() < DNS_HEADER_LEN {
        seq![LogView::Dns(DnsLineView::Malformed)]
    } else {
        let header = DnsHeader::of(data);
        let asked = questions(data, DNS_HEADER_LEN as int, header.questions as int);
        let answered = section_after(data, DnsSection::Answer, asked, header.answers as int);
        let vouched = section_after(data, DnsSection::Authority, answered, header.authorities as int);
        let added = section_after(data, DnsSection::Additional, vouched, header.additionals as int);
        seq![LogView::Dns(DnsLineView::Header(header))] + added.0
    }
}

/// Log the questions from `from` on, returning where they end.
fn log_questions(data: &[u8], from: usize, n: u16, out: &mut Vec<LogLine>) -> (r: Option<usize>)
    requires
        from <= data@.len(),
    ensures
        packet_log::lines_of(final(out)@) == packet_log::lines_of(old(out)@) + questions(
            data@,
            from as int,
            n as int,
        ).0,
        (match r {
            Some(end) => Some(end as int),
            None => None,
        }) == questions(data@, from as int, n as int).1,
        r matches Some(end) ==> end <= data@.len(),
{
    let mut at: usize = from;
    let mut left: u16 = n;
    let ghost all = packet_log::lines_of(out@) + questions(data@, from as int, n as int).0;
    let ghost stop = questions(data@, from as int, n as int).1;
    while left > 0
        invariant
            at <= data@.len(),
            all == packet_log::lines_of(old(out)@) + questions(data@, from as int, n as int).0,
            stop == questions(data@, from as int, n as int).1,
            all == packet_log::lines_of(out@) + questions(data@, at as int, left as int).0,
            stop == questions(data@, at as int, left as int).1,
        decreases left,
    {
        let ghost before = packet_log::lines_of(out@);
        match DnsQuestion::parse(data, at) {
            Ok(q) => {
                let name = DnsName::parse(data, &data[at..q.name_end]);
                log(out, LogLine::Dns(DnsLine::Question { name, type_: q.type_ }));
                proof {
                    let rest = questions(data@, q.end as int, left - 1).0;
                    assert(before + (seq![question_line(data@, at as int)] + rest) =~= packet_log::lines_of(out@)
                        + rest);
                }
                at = q.end;
                left -= 1;
            },
            Err(_) => {
                log(out, LogLine::Dns(DnsLine::QuestionMalformed));
                assert(packet_log::lines_of(out@) =~= all);
                return None;
            },
        }
    }
    assert(packet_log::lines_of(out@) =~= all);
    Some(at)
}

/// Read the data of a record.
fn read_data(data: &[u8], at: usize, r: DnsRecord) -> (d: DnsData)
    requires
        at <= data@.len(),
        Some(r.name_end as int) == dns::name_end(data@, at as int),
        Some(r.end as int) == dns::record_end(data@, at as int),
        r.type_ == bytes::be16(data@, r.name_end as int),
        r.name_end + 10 <= r.end <= data@.len(),
        r.type_ == TYPE_A ==> r.end == r.name_end + 14,
        r.type_ == TYPE_AAAA ==> r.end == r.name_end + 26,
    ensures
        d@ == record_data(data@, at as int),
{
    let octets = &data[r.name_end + 10..r.end];
    if r.type_ == TYPE_A {
        DnsData::A(Ipv4Address::from_bytes(octets))
    } else if r.type_ == TYPE_AAAA {
        DnsData::Aaaa(Ipv6Address::from_bytes(octets))
    } else if r.type_ == TYPE_CNAME {
        DnsData::Cname(DnsName::parse(data, octets))
    } else {
        DnsData::Other { type_: r.type_, len: octets.len() }
    }
}

/// Log the records from `from` on, returning where they end.
fn log_records(data: &[u8], section: DnsSection, from: usize, n: u16, out: &mut Vec<LogLine>) -> (r: Option<usize>)
    requires
        from <= data@.len(),
    ensures
        packet_log::lines_of(final(out)@) == packet_log::lines_of(old(out)@) + records(
            data@,
            section,
            from as int,
            n as int,
        ).0,
        (match r {
            Some(end) => Some(end as int),
            None => None,
        }) == records(data@, section, from as int, n as int).1,
        r matches Some(end) ==> end <= data@.len(),
{
    let mut at: usize = from;
    let mut left: u16 = n;
    let ghost all = packet_log::lines_of(out@) + records(data@, section, from as int, n as int).0;
    let ghost stop = records(data@, section, from as int, n as int).1;
    while left > 0
        invariant
            at <= data@.len(),
            all == packet_log::lines_of(old(out)@) + records(data@, section, from as int, n as int).0,
            stop == records(data@, section, from as int, n as int).1,
            all == packet_log::lines_of(out@) + records(data@, section, at as int, left as int).0,
            stop == records(data@, section, at as int, left as int).1,
        decreases left,
    {
        let ghost before = packet_log::lines_of(out@);
        match DnsRecord::parse(data, at) {
            Ok(r) => {
                let name = DnsName::parse(data, &data[at..r.name_end]);
                let d = read_data(data, at, r);
                log(out, LogLine::Dns(DnsLine::Record { section, name, ttl: r.ttl, data: d }));
                proof {
                    let rest = records(data@, section, r.end as int, left - 1).0;
                    assert(before + (seq![record_line(data@, section, at as int)] + rest)
                        =~= packet_log::lines_of(out@) + rest);
                }
                at = r.end;
                left -= 1;
            },
            Err(_) => {
                log(out, LogLine::Dns(DnsLine::RecordMalformed(section)));
                assert(packet_log::lines_of(out@) =~= all);
                return None;
            },
        }
    }
    assert(packet_log::lines_of(out@) =~= all);
    Some(at)
}

/// Log the records of a section, if the one before it ended somewhere.
fn log_section(data: &[u8], section: DnsSection, from: Option<usize>, n: u16, out: &mut Vec<LogLine>) -> (r: Option<
    usize,
>)
    requires
        from matches Some(at) ==> at <= data@.len(),
    ensures
        ({
            let place = match from {
                Some(at) => Some(at as int),
                None => None,
            };
            let (lines, stop) = section_after(data@, section, (Seq::empty(), place), n as int);
            &&& packet_log::lines_of(final(out)@) == packet_log::lines_of(old(out)@) + lines
            &&& (match r {
                Some(end) => Some(end as int),
                None => None,
            }) == stop
        }),
        r matches Some(end) ==> end <= data@.len(),
{
    match from {
        Some(at) => {
            let r = log_records(data, section, at, n, out);
            assert(Seq::<LogView>::empty() + records(data@, section, at as int, n as int).0 =~= records(
                data@,
                section,
                at as int,
                n as int,
            ).0);
            r
        },
        None => {
            assert(packet_log::lines_of(out@) =~= packet_log::lines_of(old(out)@) + Seq::<LogView>::empty());
            None
        },
    }
}

/// A section adds its lines to those before it.
proof fn lemma_section_after(data: Seq<u8>, section: DnsSection, before: (Seq<LogView>, Option<int>), n: int)
    ensures
        ({
            let (lines, stop) = section_after(data, section, (Seq::empty(), before.1), n);
            section_after(data, section, before, n) == (before.0 + lines, stop)
        }),
{
    match before.1 {
        Some(at) => {
            assert(Seq::<LogView>::empty() + records(data, section, at, n).0 =~= records(data, section, at, n).0);
        },
        None => {
            assert(before.0 + Seq::<LogView>::empty() =~= before.0);
        },
    }
}

/// Log a DNS message: its header, its questions and its records. What fails to parse
/// ends the walk with a line saying so.
pub fn log_dns(data: &[u8], out: &mut Vec<LogLine>)
    ensures
        packet_log::lines_of(final(out)@) == packet_log::lines_of(old(out)@) + dns_lines(data@),
{
    let ghost start = packet_log::lines_of(out@);
    if data.len() < DNS_HEADER_LEN {
        log(out, LogLine::Dns(DnsLine::Malformed));
        assert(packet_log::lines_of(out@) =~= start + dns_lines(data@));
        return;
    }
    let header = DnsHeader::read(data);
    log(out, LogLine::Dns(DnsLine::Header(header)));
    let asked = log_questions(data, DNS_HEADER_LEN, header.questions, out);
    let answered = log_section(data, DnsSection::Answer, asked, header.answers, out);
    let vouched = log_section(data, DnsSection::Authority, answered, header.authorities, out);
    let _ = log_section(data, DnsSection::Additional, vouched, header.additionals, out);
    proof {
        let q = questions(data@, DNS_HEADER_LEN as int, header.questions as int);
        let a = section_after(data@, DnsSection::Answer, q, header.answers as int);
        let v = section_after(data@, DnsSection::Authority, a, header.authorities as int);
        lemma_section_after(data@, DnsSection::Answer, q, header.answers as int);
        lemma_section_after(data@, DnsSection::Authority, a, header.authorities as int);
        lemma_section_after(data@, DnsSection::Additional, v, header.additionals as int);
        assert(packet_log::lines_of(out@) =~= start + dns_lines(data@));
    }
}

} // verus!
