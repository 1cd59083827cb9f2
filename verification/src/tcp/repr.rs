//! Socket-internal representation of a TCP segment.
//!
//! The TCP state machine works on whole segments: it inspects most header fields
//! of every ingress segment, and dispatch decides all header fields of an egress
//! segment at transmit time. [`TcpRepr`] is that segment value, parsed from a
//! packet on ingress, and emitted into one on egress.

use vstd::prelude::*;

use crate::text;
use crate::wire::bytes;
use crate::wire::ip::IpAddress;
use crate::wire::tcp;
use crate::wire::tcp::{TcpControl, TcpOption, TcpPacket, TcpSeqNumber};
use crate::wire::Error;

verus! {

/// A high-level representation of a Transmission Control Protocol packet.
#[derive(Debug, PartialEq, Eq, Clone, Copy)]
pub struct TcpRepr<'a> {
    pub src_port: u16,
    pub dst_port: u16,
    pub control: TcpControl,
    pub seq_number: TcpSeqNumber,
    pub ack_number: Option<TcpSeqNumber>,
    pub window_len: u16,
    pub window_scale: Option<u8>,
    pub max_seg_size: Option<u16>,
    pub sack_permitted: bool,
    pub sack_ranges: [Option<(u32, u32)>; 3],
    pub timestamp: Option<TcpTimestampRepr>,
    pub payload: &'a [u8],
}

/// The TCP timestamp option value (RFC 7323).
#[derive(Debug, PartialEq, Eq, Structural, Clone, Copy)]
pub struct TcpTimestampRepr {
    pub tsval: u32,
    pub tsecr: u32,
}

impl TcpTimestampRepr {
    /// A timestamp value and the value it echoes.
    pub fn new(tsval: u32, tsecr: u32) -> (r: Self)
        ensures
            r == (TcpTimestampRepr { tsval, tsecr }),
    {
        TcpTimestampRepr { tsval, tsecr }
    }

    /// The timestamp that answers this one: a fresh value from the generator,
    /// echoing ours. `None` without a generator.
    pub fn generate_reply<F: Fn() -> u32>(&self, generator: Option<F>) -> (r: Option<Self>)
        requires
            generator matches Some(g) ==> call_requires(g, ()),
        ensures
            r is Some <==> generator is Some,
            r matches Some(reply) ==> reply.tsecr == self.tsval && call_ensures(generator->0, (), reply.tsval),
    {
        Self::generate_reply_with_tsval(generator, self.tsval)
    }

    /// The timestamp that answers the value `tsval`: a fresh value from the
    /// generator, echoing it. `None` without a generator.
    pub fn generate_reply_with_tsval<F: Fn() -> u32>(generator: Option<F>, tsval: u32) -> (r: Option<Self>)
        requires
            generator matches Some(g) ==> call_requires(g, ()),
        ensures
            r is Some <==> generator is Some,
            r matches Some(reply) ==> reply.tsecr == tsval && call_ensures(generator->0, (), reply.tsval),
    {
        match generator {
            Some(g) => Some(Self::new(g(), tsval)),
            None => None,
        }
    }
}

/// The values a segment's options carry.
#[verifier::ext_equal]
pub struct TcpOptionsView {
    pub window_scale: Option<u8>,
    pub max_seg_size: Option<u16>,
    pub sack_permitted: bool,
    pub sack_ranges: Seq<Option<(u32, u32)>>,
    pub timestamp: Option<TcpTimestampRepr>,
}

/// No options.
pub open spec fn no_options() -> TcpOptionsView {
    TcpOptionsView {
        window_scale: None,
        max_seg_size: None,
        sack_permitted: false,
        sack_ranges: Seq::new(3, |i: int| None),
        timestamp: None,
    }
}

/// The option values with the one at `at` taken into account. A later option of
/// a kind replaces an earlier one. A window scale over 14 counts as 14 (RFC 7323
/// §2.3).
pub open spec fn apply_option(acc: TcpOptionsView, s: Seq<u8>, at: int) -> TcpOptionsView {
    let kind = s[at];
    let len = s[at + 1] as int;
    if kind == tcp::OPT_MSS {
        TcpOptionsView { max_seg_size: Some(bytes::be16(s, at + 2)), ..acc }
    } else if kind == tcp::OPT_WS {
        TcpOptionsView {
            window_scale: Some(
                if s[at + 2] > 14 {
                    14u8
                } else {
                    s[at + 2]
                },
            ),
            ..acc
        }
    } else if kind == tcp::OPT_SACK_PERM {
        TcpOptionsView { sack_permitted: true, ..acc }
    } else if kind == tcp::OPT_SACK_RANGE {
        TcpOptionsView { sack_ranges: Seq::new(3, |i: int| tcp::sack_range_at(s, at, len, i)), ..acc }
    } else if kind == tcp::OPT_TSTAMP && len == 10 {
        TcpOptionsView {
            timestamp: Some(
                TcpTimestampRepr { tsval: bytes::be32(s, at + 2), tsecr: bytes::be32(s, at + 6) },
            ),
            ..acc
        }
    } else {
        acc
    }
}

/// The values the options from `at` on carry, on top of `acc`. `None` if an
/// option is malformed.
pub open spec fn walk_options(s: Seq<u8>, at: int, acc: TcpOptionsView) -> Option<TcpOptionsView>
    decreases s.len() - at,
{
    if at < 0 || at >= s.len() {
        Some(acc)
    } else if !tcp::option_ok(s, at) {
        None
    } else if s[at] == tcp::OPT_END {
        Some(acc)
    } else {
        walk_options(s, at + tcp::option_len(s, at), apply_option(acc, s, at))
    }
}

/// The options of a segment.
pub open spec fn options_of(data: Seq<u8>) -> Seq<u8> {
    data.subrange(tcp::TCP_HEADER_LEN as int, tcp::header_len(data))
}

/// Whether a segment parses: its header is there in full, it names both ports,
/// its flags make sense and its options are well-formed.
pub open spec fn parses(data: Seq<u8>) -> bool {
    &&& tcp::well_formed(data)
    &&& bytes::be16(data, 0) != 0
    &&& bytes::be16(data, 2) != 0
    &&& tcp::control_of(data) is Some
    &&& walk_options(options_of(data), 0, no_options()) is Some
}

/// What a segment says.
#[verifier::ext_equal]
pub struct SegmentView {
    pub src_port: u16,
    pub dst_port: u16,
    pub control: TcpControl,
    pub seq_number: TcpSeqNumber,
    pub ack_number: Option<TcpSeqNumber>,
    pub window_len: u16,
    pub options: TcpOptionsView,
    pub payload: Seq<u8>,
}

impl SegmentView {
    /// The room the segment takes up in sequence space.
    pub open spec fn len(self) -> int {
        self.payload.len() + self.control.len_view()
    }
}

/// The segment `data` holds, if it parses.
pub open spec fn segment_of(data: Seq<u8>) -> SegmentView {
    SegmentView {
        src_port: bytes::be16(data, 0),
        dst_port: bytes::be16(data, 2),
        control: tcp::control_of(data)->0,
        seq_number: TcpSeqNumber(bytes::be32(data, 4)),
        ack_number: if tcp::flag(data, 16) {
            Some(TcpSeqNumber(bytes::be32(data, 8)))
        } else {
            None
        },
        window_len: bytes::be16(data, 14),
        options: walk_options(options_of(data), 0, no_options())->0,
        payload: data.skip(tcp::header_len(data)),
    }
}

impl<'a> TcpRepr<'a> {
    /// What this segment says.
    pub open spec fn segment(self) -> SegmentView {
        SegmentView {
            src_port: self.src_port,
            dst_port: self.dst_port,
            control: self.control,
            seq_number: self.seq_number,
            ack_number: self.ack_number,
            window_len: self.window_len,
            options: self.options_view(),
            payload: self.payload@,
        }
    }

    /// The values of this segment's options.
    pub open spec fn options_view(self) -> TcpOptionsView {
        TcpOptionsView {
            window_scale: self.window_scale,
            max_seg_size: self.max_seg_size,
            sack_permitted: self.sack_permitted,
            sack_ranges: self.sack_ranges@,
            timestamp: self.timestamp,
        }
    }

    /// Whether this is the segment `data` holds.
    pub open spec fn describes(self, data: Seq<u8>) -> bool {
        &&& self.src_port == bytes::be16(data, 0)
        &&& self.dst_port == bytes::be16(data, 2)
        &&& tcp::control_of(data) == Some(self.control)
        &&& self.seq_number == TcpSeqNumber(bytes::be32(data, 4))
        &&& self.ack_number == if tcp::flag(data, 16) {
            Some(TcpSeqNumber(bytes::be32(data, 8)))
        } else {
            None
        }
        &&& self.window_len == bytes::be16(data, 14)
        &&& walk_options(options_of(data), 0, no_options()) == Some(self.options_view())
        &&& self.payload@ == data.skip(tcp::header_len(data))
    }

    /// The control flag in words.
    pub open spec fn control_text(control: TcpControl) -> Seq<char> {
        match control {
            TcpControl::Syn => " syn"@,
            TcpControl::Fin => " fin"@,
            TcpControl::Rst => " rst"@,
            TcpControl::Psh => " psh"@,
            TcpControl::NoFlag => Seq::empty(),
        }
    }

    /// A number with its label, if there is one.
    pub open spec fn labelled(label: Seq<char>, n: Option<nat>) -> Seq<char> {
        match n {
            Some(n) => label + text::decimal(n),
            None => Seq::empty(),
        }
    }

    /// The segment in words.
    pub open spec fn text_view(self) -> Seq<char> {
        let ack = match self.ack_number {
            Some(n) => Some(n.0 as nat),
            None => None,
        };
        let mss = match self.max_seg_size {
            Some(n) => Some(n as nat),
            None => None,
        };
        "TCP src="@ + text::decimal(self.src_port as nat) + " dst="@ + text::decimal(self.dst_port as nat)
            + Self::control_text(self.control) + " seq="@ + text::decimal(self.seq_number.0 as nat)
            + Self::labelled(" ack="@, ack) + " win="@ + text::decimal(self.window_len as nat) + " len="@
            + text::decimal(self.payload@.len()) + Self::labelled(" mss="@, mss)
    }

    /// The segment in words.
    pub fn text(&self) -> (r: String)
        ensures
            r@ == self.text_view(),
    {
        let mut out = text::owned("TCP src=");
        text::push_decimal(&mut out, self.src_port as u64);
        text::push_str(&mut out, " dst=");
        text::push_decimal(&mut out, self.dst_port as u64);
        match self.control {
            TcpControl::Syn => text::push_str(&mut out, " syn"),
            TcpControl::Fin => text::push_str(&mut out, " fin"),
            TcpControl::Rst => text::push_str(&mut out, " rst"),
            TcpControl::Psh => text::push_str(&mut out, " psh"),
            TcpControl::NoFlag => {},
        }
        text::push_str(&mut out, " seq=");
        text::push_decimal(&mut out, self.seq_number.0 as u64);
        if let Some(n) = self.ack_number {
            text::push_str(&mut out, " ack=");
            text::push_decimal(&mut out, n.0 as u64);
        }
        text::push_str(&mut out, " win=");
        text::push_decimal(&mut out, self.window_len as u64);
        text::push_str(&mut out, " len=");
        text::push_decimal(&mut out, self.payload.len() as u64);
        if let Some(n) = self.max_seg_size {
            text::push_str(&mut out, " mss=");
            text::push_decimal(&mut out, n as u64);
        }
        assert(out@ =~= self.text_view());
        out
    }

    /// Parse a Transmission Control Protocol packet and return a high-level representation.
    ///
    /// The checksum is not verified here. The caller verifies it on the wire packet
    /// before parsing. The addresses the packet travels between make no difference.
    pub fn parse(packet: &'a TcpPacket<'_>, _src_addr: &IpAddress, _dst_addr: &IpAddress) -> (r: Result<
        TcpRepr<'a>,
        Error,
    >)
        ensures
            r is Ok <==> parses(packet.octets()),
            r matches Ok(repr) ==> repr.describes(packet.octets()),
    {
        Self::parse_octets(&*packet.buffer)
    }

    /// Parse the octets of a segment.
    pub fn parse_octets(data: &'a [u8]) -> (r: Result<TcpRepr<'a>, Error>)
        ensures
            r is Ok <==> parses(data@),
            r matches Ok(repr) ==> repr.describes(data@),
    {
        if tcp::check(data).is_err() {
            return Err(Error);
        }
        // Source and destination ports must be present.
        let src_port: u16 = bytes::get_u16(data, 0);
        let dst_port: u16 = bytes::get_u16(data, 2);
        if src_port == 0 || dst_port == 0 {
            return Err(Error);
        }
        let flags: u8 = data[13];
        let fin = flags % 2 == 1;
        let syn = (flags / 2) % 2 == 1;
        let rst = (flags / 4) % 2 == 1;
        let psh = (flags / 8) % 2 == 1;
        let ack = (flags / 16) % 2 == 1;
        let control = match (syn, fin, rst, psh) {
            (false, false, false, false) => TcpControl::NoFlag,
            (false, false, false, true) => TcpControl::Psh,
            (true, false, false, _) => TcpControl::Syn,
            (false, true, false, _) => TcpControl::Fin,
            (false, false, true, _) => TcpControl::Rst,
            _ => return Err(Error),
        };
        assert(tcp::control_of(data@) == Some(control));
        let ack_number = if ack {
            Some(TcpSeqNumber(bytes::get_u32(data, 8)))
        } else {
            None
        };
        // The URG flag and the urgent field are ignored. This behavior is
        // standards-compliant, however, most deployed systems are not, and would cut
        // the byte at the urgent pointer from the stream.

        let header_len: usize = (data[12] / 16) as usize * 4;
        let options = &data[tcp::TCP_HEADER_LEN..header_len];
        let mut max_seg_size: Option<u16> = None;
        let mut window_scale: Option<u8> = None;
        let mut sack_permitted = false;
        let mut sack_ranges: [Option<(u32, u32)>; 3] = [None, None, None];
        let mut timestamp: Option<TcpTimestampRepr> = None;
        let mut at: usize = 0;
        let ghost goal = walk_options(options@, 0, no_options());
        proof {
            assert(sack_ranges@ =~= no_options().sack_ranges);
        }
        while at < options.len()
            invariant
                at <= options@.len(),
                walk_options(
                    options@,
                    at as int,
                    TcpOptionsView {
                        window_scale,
                        max_seg_size,
                        sack_permitted,
                        sack_ranges: sack_ranges@,
                        timestamp,
                    },
                ) == goal,
                parses(data@) ==> goal is Some,
                options@ == options_of(data@),
                goal == walk_options(options_of(data@), 0, no_options()),
            ensures
                goal == Some(
                    TcpOptionsView {
                        window_scale,
                        max_seg_size,
                        sack_permitted,
                        sack_ranges: sack_ranges@,
                        timestamp,
                    },
                ),
            decreases options@.len() - at,
        {
            let ghost acc = TcpOptionsView {
                window_scale,
                max_seg_size,
                sack_permitted,
                sack_ranges: sack_ranges@,
                timestamp,
            };
            let (n, option) = match TcpOption::parse(options, at) {
                Ok(x) => x,
                Err(_) => return Err(Error),
            };
            match option {
                TcpOption::EndOfList => break,
                TcpOption::NoOperation => {},
                TcpOption::MaxSegmentSize(value) => {
                    max_seg_size = Some(value);
                },
                TcpOption::WindowScale(value) => {
                    // RFC 7323: the shift count must be limited to 14. If a larger
                    // value is received, 14 must be used instead.
                    window_scale = if value > 14 {
                        Some(14)
                    } else {
                        Some(value)
                    };
                },
                TcpOption::SackPermitted => {
                    sack_permitted = true;
                },
                TcpOption::SackRange(ranges) => {
                    sack_ranges = ranges;
                    assert(sack_ranges@ =~= apply_option(acc, options@, at as int).sack_ranges);
                },
                TcpOption::TimeStamp { tsval, tsecr } => {
                    timestamp = Some(TcpTimestampRepr::new(tsval, tsecr));
                },
                TcpOption::Unknown(_) => {},
            }
            at += n;
        }

        let payload = &data[header_len..data.len()];
        assert(payload@ =~= data@.skip(header_len as int));
        Ok(
            TcpRepr {
                src_port,
                dst_port,
                control,
                seq_number: TcpSeqNumber(bytes::get_u32(data, 4)),
                ack_number,
                window_len: bytes::get_u16(data, 14),
                window_scale,
                max_seg_size,
                sack_permitted,
                sack_ranges,
                timestamp,
                payload,
            },
        )
    }

    /// The number of selective acknowledgment ranges given.
    pub open spec fn range_count(self) -> int {
        (if self.sack_ranges@[0] is Some {
            1int
        } else {
            0
        }) + (if self.sack_ranges@[1] is Some {
            1int
        } else {
            0
        }) + (if self.sack_ranges@[2] is Some {
            1int
        } else {
            0
        })
    }

    /// The room the options need, before padding.
    pub open spec fn options_room(self) -> int {
        (if self.max_seg_size is Some {
            4int
        } else {
            0
        }) + (if self.window_scale is Some {
            3int
        } else {
            0
        }) + (if self.sack_permitted {
            2int
        } else {
            0
        }) + (if self.timestamp is Some {
            10int
        } else {
            0
        }) + (if self.range_count() > 0 {
            8 * self.range_count() + 2
        } else {
            0
        })
    }

    /// The length of the header: the fixed part and the options, padded to a
    /// multiple of four.
    pub open spec fn header_len_view(self) -> int {
        (tcp::TCP_HEADER_LEN + self.options_room() + 3) / 4 * 4
    }

    /// Whether the header fits its length field.
    pub open spec fn header_fits(self) -> bool {
        self.header_len_view() <= 60
    }

    /// Return the length of a header that will be emitted from this high-level representation.
    ///
    /// This should be used for buffer space calculations.
    /// The TCP header length is a multiple of 4.
    pub fn header_len(&self) -> (r: usize)
        ensures
            r == self.header_len_view(),
            r % 4 == 0,
            tcp::TCP_HEADER_LEN <= r <= 68,
    {
        let mut room: usize = 0;
        if self.max_seg_size.is_some() {
            room += 4;
        }
        if self.window_scale.is_some() {
            room += 3;
        }
        if self.sack_permitted {
            room += 2;
        }
        if self.timestamp.is_some() {
            room += 10;
        }
        let count: u8 = self.count_ranges();
        if count > 0 {
            room += 8 * count as usize + 2;
        }
        assert(room == self.options_room());
        (tcp::TCP_HEADER_LEN + room + 3) / 4 * 4
    }

    /// The number of selective acknowledgment ranges given.
    fn count_ranges(&self) -> (r: u8)
        ensures
            r == self.range_count(),
            r <= 3,
    {
        let a: u8 = if self.sack_ranges[0].is_some() {
            1
        } else {
            0
        };
        let b: u8 = if self.sack_ranges[1].is_some() {
            1
        } else {
            0
        };
        let c: u8 = if self.sack_ranges[2].is_some() {
            1
        } else {
            0
        };
        a + b + c
    }

    /// Return the length of a packet that will be emitted from this high-level representation.
    pub fn buffer_len(&self) -> (r: usize)
        requires
            self.header_len_view() + self.payload@.len() <= usize::MAX,
        ensures
            r == self.header_len_view() + self.payload@.len(),
    {
        self.header_len() + self.payload.len()
    }

    /// The selective acknowledgment ranges given, one after the other.
    pub open spec fn ranges_octets(self, i: int) -> Seq<u8>
        decreases 3 - i,
    {
        if i < 0 || i >= 3 {
            Seq::empty()
        } else {
            match self.sack_ranges@[i] {
                Some(range) => bytes::octets32(range.0) + bytes::octets32(range.1) + self.ranges_octets(i + 1),
                None => self.ranges_octets(i + 1),
            }
        }
    }

    pub open spec fn mss_octets(self) -> Seq<u8> {
        match self.max_seg_size {
            Some(v) => seq![tcp::OPT_MSS, 4u8] + bytes::octets16(v),
            None => Seq::empty(),
        }
    }

    pub open spec fn ws_octets(self) -> Seq<u8> {
        match self.window_scale {
            Some(v) => seq![tcp::OPT_WS, 3u8, v],
            None => Seq::empty(),
        }
    }

    /// The selective acknowledgment option: the permission, or the ranges on a
    /// segment that acknowledges something.
    pub open spec fn sack_octets(self) -> Seq<u8> {
        if self.sack_permitted {
            seq![tcp::OPT_SACK_PERM, 2u8]
        } else if self.ack_number is Some && self.range_count() > 0 {
            seq![tcp::OPT_SACK_RANGE, (8 * self.range_count() + 2) as u8] + self.ranges_octets(0)
        } else {
            Seq::empty()
        }
    }

    pub open spec fn ts_octets(self) -> Seq<u8> {
        match self.timestamp {
            Some(ts) => seq![tcp::OPT_TSTAMP, 10u8] + bytes::octets32(ts.tsval) + bytes::octets32(ts.tsecr),
            None => Seq::empty(),
        }
    }

    /// The options, without padding.
    pub open spec fn options_octets(self) -> Seq<u8> {
        self.mss_octets() + self.ws_octets() + self.sack_octets() + self.ts_octets()
    }

    /// The options, padded with end-of-list octets.
    pub open spec fn padded_options(self) -> Seq<u8> {
        let options = self.options_octets();
        options + Seq::new((self.header_len_view() - tcp::TCP_HEADER_LEN - options.len()) as nat, |i: int| 0u8)
    }

    /// The fixed part of the header, its checksum zero.
    pub open spec fn fixed_octets(self) -> Seq<u8> {
        bytes::octets16(self.src_port) + bytes::octets16(self.dst_port) + bytes::octets32(self.seq_number.0)
            + bytes::octets32(
            match self.ack_number {
                Some(n) => n.0,
                None => 0,
            },
        ) + seq![
            (self.header_len_view() / 4 * 16) as u8,
            (self.control.bit() + (if self.ack_number is Some {
                16int
            } else {
                0
            })) as u8,
        ] + bytes::octets16(self.window_len) + seq![0u8, 0u8, 0u8, 0u8]
    }

    /// The whole segment, its checksum zero.
    pub open spec fn unsummed_octets(self) -> Seq<u8> {
        self.fixed_octets() + self.padded_options() + self.payload@
    }

    /// The whole segment.
    pub open spec fn segment_octets(self, src: Seq<u8>, dst: Seq<u8>) -> Seq<u8> {
        tcp::with_checksum(src, dst, self.unsummed_octets())
    }

    proof fn lemma_ranges_len(self)
        ensures
            self.ranges_octets(3) == Seq::<u8>::empty(),
            self.ranges_octets(2).len() == (if self.sack_ranges@[2] is Some {
                8int
            } else {
                0
            }),
            self.ranges_octets(0).len() == 8 * self.range_count(),
            self.options_octets().len() <= self.options_room(),
            self.options_octets().len() <= self.header_len_view() - tcp::TCP_HEADER_LEN,
    {
        reveal_with_fuel(TcpRepr::ranges_octets, 4);
    }

    /// Append the selective acknowledgment ranges given.
    fn push_ranges(&self, out: &mut Vec<u8>)
        ensures
            final(out)@ == old(out)@ + self.ranges_octets(0),
    {
        let mut i: usize = 0;
        while i < 3
            invariant
                i <= 3,
                out@ + self.ranges_octets(i as int) == old(out)@ + self.ranges_octets(0),
            decreases 3 - i,
        {
            let ghost was = out@;
            if let Some(range) = self.sack_ranges[i] {
                bytes::push_u32(out, range.0);
                bytes::push_u32(out, range.1);
            }
            proof {
                assert(out@ + self.ranges_octets(i + 1) =~= was + self.ranges_octets(i as int));
            }
            i += 1;
        }
        assert(out@ + self.ranges_octets(3) =~= out@);
    }

    /// Append the selective acknowledgment option.
    fn push_sack(&self, out: &mut Vec<u8>)
        ensures
            final(out)@ == old(out)@ + self.sack_octets(),
    {
        let count: u8 = self.count_ranges();
        if self.sack_permitted {
            out.push(tcp::OPT_SACK_PERM);
            out.push(2);
            assert(out@ =~= old(out)@ + self.sack_octets());
        } else if self.ack_number.is_some() && count > 0 {
            out.push(tcp::OPT_SACK_RANGE);
            out.push(8 * count + 2);
            self.push_ranges(out);
            assert(out@ =~= old(out)@ + self.sack_octets());
        } else {
            assert(out@ =~= old(out)@ + self.sack_octets());
        }
    }

    /// Append the maximum segment size and window scale options.
    fn push_syn_options(&self, out: &mut Vec<u8>)
        ensures
            final(out)@ == old(out)@ + self.mss_octets() + self.ws_octets(),
    {
        if let Some(value) = self.max_seg_size {
            out.push(tcp::OPT_MSS);
            out.push(4);
            bytes::push_u16(out, value);
        }
        assert(out@ =~= old(out)@ + self.mss_octets());
        let ghost was = out@;
        if let Some(value) = self.window_scale {
            out.push(tcp::OPT_WS);
            out.push(3);
            out.push(value);
        }
        assert(out@ =~= was + self.ws_octets());
    }

    /// The octets of the options, without padding.
    fn emit_options(&self) -> (r: Vec<u8>)
        ensures
            r@ == self.options_octets(),
    {
        let mut out: Vec<u8> = Vec::new();
        self.push_syn_options(&mut out);
        self.push_sack(&mut out);
        let ghost was = out@;
        assert(was =~= self.mss_octets() + self.ws_octets() + self.sack_octets());
        if let Some(ts) = self.timestamp {
            out.push(tcp::OPT_TSTAMP);
            out.push(10);
            bytes::push_u32(&mut out, ts.tsval);
            bytes::push_u32(&mut out, ts.tsecr);
        }
        assert(out@ =~= was + self.ts_octets());
        out
    }

    /// The octets of the segment, its checksum filled in.
    pub fn emit_octets(&self, src: &IpAddress, dst: &IpAddress) -> (r: Vec<u8>)
        requires
            self.header_fits(),
            self.header_len_view() + self.payload@.len() <= usize::MAX,
        ensures
            r@ == self.segment_octets(src.octets_view(), dst.octets_view()),
            r@.len() == self.header_len_view() + self.payload@.len(),
    {
        let header_len: usize = self.header_len();
        let mut out: Vec<u8> = Vec::new();
        bytes::push_u16(&mut out, self.src_port);
        bytes::push_u16(&mut out, self.dst_port);
        bytes::push_u32(&mut out, self.seq_number.0);
        let ack: u32 = match self.ack_number {
            Some(n) => n.0,
            None => 0,
        };
        bytes::push_u32(&mut out, ack);
        out.push((header_len / 4 * 16) as u8);
        let ack_bit: u8 = if self.ack_number.is_some() {
            16
        } else {
            0
        };
        out.push(self.control.to_bit() + ack_bit);
        bytes::push_u16(&mut out, self.window_len);
        out.push(0);
        out.push(0);
        out.push(0);
        out.push(0);
        assert(out@ =~= self.fixed_octets());
        assert(out@.len() == tcp::TCP_HEADER_LEN);
        let options = self.emit_options();
        proof {
            self.lemma_ranges_len();
        }
        bytes::push_bytes(&mut out, options.as_slice());
        let ghost before = out@;
        assert(before =~= self.fixed_octets() + self.options_octets());
        assert(before.len() <= header_len);
        out.resize(header_len, 0);
        assert(out@.len() == header_len);
        assert(self.padded_options().len() == header_len - tcp::TCP_HEADER_LEN);
        assert(forall|i: int| 0 <= i < before.len() ==> out@[i] == before[i]);
        assert(forall|i: int| before.len() <= i < header_len ==> out@[i] == 0);
        proof {
            let fixed = self.fixed_octets();
            let options = self.options_octets();
            let target = fixed + self.padded_options();
            assert forall|i: int| 0 <= i < header_len implies out@[i] == target[i] by {
                if i < fixed.len() {
                    assert(before[i] == fixed[i]);
                } else if i < fixed.len() + options.len() {
                    assert(before[i] == options[i - fixed.len()]);
                    assert(target[i] == self.padded_options()[i - fixed.len()]);
                } else {
                    assert(target[i] == self.padded_options()[i - fixed.len()]);
                }
            }
            assert(out@ =~= target);
        }
        bytes::push_bytes(&mut out, self.payload);
        assert(out@ =~= self.unsummed_octets());
        tcp::fill_checksum(out.as_mut_slice(), src, dst);
        out
    }

    /// Emit a high-level representation into a Transmission Control Protocol packet.
    ///
    /// The buffer wrapped by `packet` must be exactly [`buffer_len`](Self::buffer_len)
    /// octets long.
    pub fn emit(&self, packet: &mut TcpPacket<'_>, src: &IpAddress, dst: &IpAddress)
        requires
            self.header_fits(),
            old(packet).octets().len() == self.header_len_view() + self.payload@.len(),
        ensures
            final(packet).octets() == self.segment_octets(src.octets_view(), dst.octets_view()),
            final(final(packet).buffer)@ == final(old(packet).buffer)@,
    {
        let len: usize = packet.buffer.len();
        assert(len == self.header_len_view() + self.payload@.len());
        let octets = self.emit_octets(src, dst);
        let ghost before = packet.octets();
        bytes::put_bytes(packet.buffer, 0, octets.as_slice());
        assert(bytes::overwrite(before, 0, octets@) =~= octets@);
    }

    /// The room the segment takes up in sequence space.
    pub open spec fn segment_len_view(self) -> int {
        self.payload@.len() + self.control.len_view()
    }

    /// Return the length of the segment, in terms of sequence space.
    pub fn segment_len(&self) -> (r: usize)
        requires
            self.payload@.len() < usize::MAX,
        ensures
            r == self.segment_len_view(),
    {
        self.payload.len() + self.control.len()
    }

    /// Return whether the segment has no flags set (except PSH) and no data.
    pub fn is_empty(&self) -> (r: bool)
        ensures
            r == (self.payload@.len() == 0 && (self.control == TcpControl::NoFlag || self.control
                == TcpControl::Psh)),
    {
        if !self.payload.is_empty() {
            return false;
        }
        match self.control {
            TcpControl::Syn | TcpControl::Fin | TcpControl::Rst => false,
            TcpControl::NoFlag | TcpControl::Psh => true,
        }
    }

    /// Whether every field of the segment survives being emitted: the ports are
    /// given, the window scale needs no clamping, and ranges stand in the front
    /// slots of a segment that acknowledges something and does not negotiate.
    pub open spec fn representable(self) -> bool {
        &&& self.src_port != 0
        &&& self.dst_port != 0
        &&& self.window_scale matches Some(v) ==> v <= 14
        &&& self.sack_ranges@[1] is Some ==> self.sack_ranges@[0] is Some
        &&& self.sack_ranges@[2] is Some ==> self.sack_ranges@[1] is Some
        &&& self.range_count() > 0 ==> self.ack_number is Some && !self.sack_permitted
        &&& self.header_fits()
    }
}

/// The octets of a piece of `s` are those of `s` from its start on.
proof fn lemma_piece(s: Seq<u8>, at: int, piece: Seq<u8>, k: int)
    requires
        0 <= at,
        at + piece.len() <= s.len(),
        s.subrange(at, at + piece.len()) == piece,
        0 <= k < piece.len(),
    ensures
        s[at + k] == piece[k],
{
    assert(s.subrange(at, at + piece.len())[k] == s[at + k]);
}

/// An emitted maximum segment size option is read back.
proof fn lemma_walk_mss(s: Seq<u8>, at: int, acc: TcpOptionsView, v: u16)
    requires
        0 <= at,
        at + 4 <= s.len(),
        s.subrange(at, at + 4) == seq![tcp::OPT_MSS, 4u8] + bytes::octets16(v),
    ensures
        walk_options(s, at, acc) == walk_options(s, at + 4, TcpOptionsView { max_seg_size: Some(v), ..acc }),
{
    let piece = seq![tcp::OPT_MSS, 4u8] + bytes::octets16(v);
    lemma_piece(s, at, piece, 0);
    lemma_piece(s, at, piece, 1);
    lemma_piece(s, at, piece, 2);
    lemma_piece(s, at, piece, 3);
    assert(bytes::be16(s, at + 2) == v);
    assert(tcp::option_ok(s, at));
}

/// An emitted window scale option is read back.
proof fn lemma_walk_ws(s: Seq<u8>, at: int, acc: TcpOptionsView, v: u8)
    requires
        0 <= at,
        at + 3 <= s.len(),
        v <= 14,
        s.subrange(at, at + 3) == seq![tcp::OPT_WS, 3u8, v],
    ensures
        walk_options(s, at, acc) == walk_options(s, at + 3, TcpOptionsView { window_scale: Some(v), ..acc }),
{
    let piece = seq![tcp::OPT_WS, 3u8, v];
    lemma_piece(s, at, piece, 0);
    lemma_piece(s, at, piece, 1);
    lemma_piece(s, at, piece, 2);
    assert(tcp::option_ok(s, at));
}

/// An emitted timestamp option is read back.
proof fn lemma_walk_ts(s: Seq<u8>, at: int, acc: TcpOptionsView, ts: TcpTimestampRepr)
    requires
        0 <= at,
        at + 10 <= s.len(),
        s.subrange(at, at + 10) == seq![tcp::OPT_TSTAMP, 10u8] + bytes::octets32(ts.tsval) + bytes::octets32(
            ts.tsecr,
        ),
    ensures
        walk_options(s, at, acc) == walk_options(s, at + 10, TcpOptionsView { timestamp: Some(ts), ..acc }),
{
    let piece = seq![tcp::OPT_TSTAMP, 10u8] + bytes::octets32(ts.tsval) + bytes::octets32(ts.tsecr);
    lemma_piece(s, at, piece, 0);
    lemma_piece(s, at, piece, 1);
    assert(bytes::be32(s, at + 2) == ts.tsval) by {
        assert(s.subrange(at + 2, at + 6) =~= s.subrange(at, at + 10).subrange(2, 6));
        assert(piece.subrange(2, 6) =~= bytes::octets32(ts.tsval));
        lemma_be32_piece(s, at + 2, ts.tsval);
    }
    assert(bytes::be32(s, at + 6) == ts.tsecr) by {
        assert(s.subrange(at + 6, at + 10) =~= s.subrange(at, at + 10).subrange(6, 10));
        assert(piece.subrange(6, 10) =~= bytes::octets32(ts.tsecr));
        lemma_be32_piece(s, at + 6, ts.tsecr);
    }
    assert(tcp::option_ok(s, at));
}

/// A 32-bit number is read back from where its octets stand.
proof fn lemma_be32_piece(s: Seq<u8>, at: int, v: u32)
    requires
        0 <= at,
        at + 4 <= s.len(),
        s.subrange(at, at + 4) == bytes::octets32(v),
    ensures
        bytes::be32(s, at) == v,
{
    let piece = bytes::octets32(v);
    lemma_piece(s, at, piece, 0);
    lemma_piece(s, at, piece, 1);
    lemma_piece(s, at, piece, 2);
    lemma_piece(s, at, piece, 3);
}

/// A 16-bit number is read back from where its octets stand.
proof fn lemma_be16_piece(s: Seq<u8>, at: int, v: u16)
    requires
        0 <= at,
        at + 2 <= s.len(),
        s.subrange(at, at + 2) == bytes::octets16(v),
    ensures
        bytes::be16(s, at) == v,
{
    let piece = bytes::octets16(v);
    lemma_piece(s, at, piece, 0);
    lemma_piece(s, at, piece, 1);
}

/// Among the ranges emitted from slot `i` on, that of slot `j` is read back, if
/// no slot between them is empty.
proof fn lemma_range_from<'a>(repr: TcpRepr<'a>, i: int, j: int)
    requires
        0 <= i <= j < 3,
        forall|k: int| i <= k <= j ==> #[trigger] repr.sack_ranges@[k] is Some,
    ensures
        repr.ranges_octets(i).len() >= 8 * (j - i) + 8,
        bytes::be32(repr.ranges_octets(i), 8 * (j - i)) == (repr.sack_ranges@[j]->0).0,
        bytes::be32(repr.ranges_octets(i), 8 * (j - i) + 4) == (repr.sack_ranges@[j]->0).1,
    decreases j - i,
{
    let all = repr.ranges_octets(i);
    let range = repr.sack_ranges@[i]->0;
    let rest = repr.ranges_octets(i + 1);
    assert(all == bytes::octets32(range.0) + bytes::octets32(range.1) + rest);
    if i == j {
        assert(all.subrange(0, 4) =~= bytes::octets32(range.0));
        assert(all.subrange(4, 8) =~= bytes::octets32(range.1));
        lemma_be32_piece(all, 0, range.0);
        lemma_be32_piece(all, 4, range.1);
    } else {
        lemma_range_from(repr, i + 1, j);
        let x = 8 * (j - i - 1);
        assert(all.subrange(x + 8, x + 12) =~= rest.subrange(x, x + 4));
        assert(all.subrange(x + 12, x + 16) =~= rest.subrange(x + 4, x + 8));
        assert(all[x + 8] == rest[x] && all[x + 9] == rest[x + 1] && all[x + 10] == rest[x + 2] && all[x + 11]
            == rest[x + 3]);
        assert(all[x + 12] == rest[x + 4] && all[x + 13] == rest[x + 5] && all[x + 14] == rest[x + 6] && all[x
            + 15] == rest[x + 7]);
    }
}

/// The range in slot `i` of emitted ranges is read back.
proof fn lemma_range_slot<'a>(repr: TcpRepr<'a>, i: int)
    requires
        repr.sack_ranges@[1] is Some ==> repr.sack_ranges@[0] is Some,
        repr.sack_ranges@[2] is Some ==> repr.sack_ranges@[1] is Some,
        0 <= i < 3,
    ensures
        repr.sack_ranges@[i] is Some <==> i < repr.range_count(),
        repr.sack_ranges@[i] matches Some(range) ==> bytes::be32(repr.ranges_octets(0), 8 * i) == range.0
            && bytes::be32(repr.ranges_octets(0), 8 * i + 4) == range.1,
{
    if repr.sack_ranges@[i] is Some {
        assert forall|k: int| 0 <= k <= i implies #[trigger] repr.sack_ranges@[k] is Some by {
            if k == 0 {
            } else if k == 1 {
            } else {
            }
        }
        lemma_range_from(repr, 0, i);
    }
}

/// A range of an emitted selective acknowledgment option is read back.
proof fn lemma_sack_slot<'a>(s: Seq<u8>, at: int, repr: TcpRepr<'a>, i: int)
    requires
        0 <= at,
        0 <= i < 3,
        !repr.sack_permitted,
        repr.range_count() > 0,
        at + repr.sack_octets().len() <= s.len(),
        repr.representable(),
        s.subrange(at, at + repr.sack_octets().len()) == repr.sack_octets(),
    ensures
        repr.sack_ranges@[i] == tcp::sack_range_at(s, at, 8 * repr.range_count() + 2, i),
{
    let piece = repr.sack_octets();
    let all = repr.ranges_octets(0);
    repr.lemma_ranges_len();
    lemma_range_slot(repr, i);
    if i < repr.range_count() {
        let x = 8 * i;
        assert(bytes::be32(s, at + 2 + x) == bytes::be32(all, x)) by {
            lemma_piece(s, at, piece, x + 2);
            lemma_piece(s, at, piece, x + 3);
            lemma_piece(s, at, piece, x + 4);
            lemma_piece(s, at, piece, x + 5);
        }
        assert(bytes::be32(s, at + 6 + x) == bytes::be32(all, x + 4)) by {
            lemma_piece(s, at, piece, x + 6);
            lemma_piece(s, at, piece, x + 7);
            lemma_piece(s, at, piece, x + 8);
            lemma_piece(s, at, piece, x + 9);
        }
    }
}

/// An emitted selective acknowledgment option is read back.
proof fn lemma_walk_sack<'a>(s: Seq<u8>, at: int, acc: TcpOptionsView, repr: TcpRepr<'a>)
    requires
        0 <= at,
        at + repr.sack_octets().len() <= s.len(),
        repr.representable(),
        acc.sack_permitted == false,
        acc.sack_ranges == no_options().sack_ranges,
        s.subrange(at, at + repr.sack_octets().len()) == repr.sack_octets(),
    ensures
        walk_options(s, at, acc) == walk_options(
            s,
            at + repr.sack_octets().len(),
            TcpOptionsView { sack_permitted: repr.sack_permitted, sack_ranges: repr.sack_ranges@, ..acc },
        ),
{
    let piece = repr.sack_octets();
    let n = piece.len();
    let after = TcpOptionsView { sack_permitted: repr.sack_permitted, sack_ranges: repr.sack_ranges@, ..acc };
    repr.lemma_ranges_len();
    if repr.sack_permitted {
        lemma_piece(s, at, piece, 0);
        lemma_piece(s, at, piece, 1);
        assert(tcp::option_ok(s, at));
        assert(apply_option(acc, s, at) =~= after);
    } else if repr.range_count() > 0 {
        lemma_piece(s, at, piece, 0);
        lemma_piece(s, at, piece, 1);
        let count = repr.range_count();
        assert(s[at + 1] == 8 * count + 2);
        assert(n == 8 * count + 2);
        assert(tcp::option_ok(s, at));
        lemma_sack_slot(s, at, repr, 0);
        lemma_sack_slot(s, at, repr, 1);
        lemma_sack_slot(s, at, repr, 2);
        assert(apply_option(acc, s, at).sack_ranges =~= repr.sack_ranges@);
        assert(apply_option(acc, s, at) =~= after);
    } else {
        assert(repr.sack_ranges@ =~= no_options().sack_ranges);
        assert(after =~= acc);
    }
}

/// Where four pieces of a sequence stand.
proof fn lemma_four_pieces(a: Seq<u8>, b: Seq<u8>, c: Seq<u8>, d: Seq<u8>, z: Seq<u8>)
    ensures
        ({
            let s = a + b + c + d + z;
            let a1 = a.len() as int;
            let a2 = a1 + b.len();
            let a3 = a2 + c.len();
            let a4 = a3 + d.len();
            &&& s.subrange(0, a1) == a
            &&& s.subrange(a1, a2) == b
            &&& s.subrange(a2, a3) == c
            &&& s.subrange(a3, a4) == d
        }),
{
    let s = a + b + c + d + z;
    let a1 = a.len() as int;
    let a2 = a1 + b.len();
    let a3 = a2 + c.len();
    let a4 = a3 + d.len();
    assert(s.subrange(0, a1) =~= a);
    assert(s.subrange(a1, a2) =~= b);
    assert(s.subrange(a2, a3) =~= c);
    assert(s.subrange(a3, a4) =~= d);
}

/// The options end at the end of the list.
proof fn lemma_walk_end(s: Seq<u8>, at: int, acc: TcpOptionsView)
    requires
        0 <= at <= s.len(),
        at < s.len() ==> s[at] == 0,
    ensures
        walk_options(s, at, acc) == Some(acc),
{
}

/// Options laid out one after the other, with end-of-list octets behind them, are
/// read back.
#[verifier::spinoff_prover]
proof fn lemma_walk_pieces<'a>(repr: TcpRepr<'a>, s: Seq<u8>, a1: int, a2: int, a3: int, a4: int)
    requires
        repr.representable(),
        a1 == repr.mss_octets().len(),
        a2 == a1 + repr.ws_octets().len(),
        a3 == a2 + repr.sack_octets().len(),
        a4 == a3 + repr.ts_octets().len(),
        a4 <= s.len(),
        s.subrange(0, a1) == repr.mss_octets(),
        s.subrange(a1, a2) == repr.ws_octets(),
        s.subrange(a2, a3) == repr.sack_octets(),
        s.subrange(a3, a4) == repr.ts_octets(),
        a4 < s.len() ==> s[a4] == 0,
    ensures
        walk_options(s, 0, no_options()) == Some(repr.options_view()),
{
    let acc0 = no_options();
    let acc1 = TcpOptionsView { max_seg_size: repr.max_seg_size, ..acc0 };
    let acc2 = TcpOptionsView { window_scale: repr.window_scale, ..acc1 };
    let acc3 = TcpOptionsView { sack_permitted: repr.sack_permitted, sack_ranges: repr.sack_ranges@, ..acc2 };
    let acc4 = TcpOptionsView { timestamp: repr.timestamp, ..acc3 };
    assert(walk_options(s, 0, acc0) == walk_options(s, a1, acc1)) by {
        if let Some(v) = repr.max_seg_size {
            lemma_walk_mss(s, 0, acc0, v);
        }
    }
    assert(walk_options(s, a1, acc1) == walk_options(s, a2, acc2)) by {
        if let Some(v) = repr.window_scale {
            lemma_walk_ws(s, a1, acc1, v);
        }
    }
    assert(walk_options(s, a2, acc2) == walk_options(s, a3, acc3)) by {
        lemma_walk_sack(s, a2, acc2, repr);
    }
    assert(walk_options(s, a3, acc3) == walk_options(s, a4, acc4)) by {
        if let Some(v) = repr.timestamp {
            lemma_walk_ts(s, a3, acc3, v);
        }
    }
    assert(acc4 =~= repr.options_view());
    lemma_walk_end(s, a4, acc4);
}

/// The options of an emitted segment are read back.
proof fn lemma_walk_emitted<'a>(repr: TcpRepr<'a>)
    requires
        repr.representable(),
    ensures
        walk_options(repr.padded_options(), 0, no_options()) == Some(repr.options_view()),
{
    repr.lemma_ranges_len();
    let s = repr.padded_options();
    let mss = repr.mss_octets();
    let ws = repr.ws_octets();
    let sack = repr.sack_octets();
    let ts = repr.ts_octets();
    let a1 = mss.len() as int;
    let a2 = a1 + ws.len();
    let a3 = a2 + sack.len();
    let a4 = a3 + ts.len();
    let z = s.skip(a4);
    assert(s =~= mss + ws + sack + ts + z);
    lemma_four_pieces(mss, ws, sack, ts, z);
    lemma_walk_pieces(repr, s, a1, a2, a3, a4);
}

/// The fields of an emitted header are read back.
proof fn lemma_fixed_fields<'a>(repr: TcpRepr<'a>, data: Seq<u8>)
    requires
        repr.header_fits(),
        data.len() >= 20,
        data.take(16) == repr.fixed_octets().take(16),
    ensures
        bytes::be16(data, 0) == repr.src_port,
        bytes::be16(data, 2) == repr.dst_port,
        bytes::be32(data, 4) == repr.seq_number.0,
        repr.ack_number matches Some(n) ==> bytes::be32(data, 8) == n.0,
        bytes::be16(data, 14) == repr.window_len,
        tcp::header_len(data) == repr.header_len_view(),
        data[13] == repr.control.bit() + (if repr.ack_number is Some {
            16int
        } else {
            0
        }),
{
    let fixed = repr.fixed_octets();
    let f = fixed.take(16);
    assert(fixed.len() == 20);
    assert(bytes::be16(data, 0) == repr.src_port) by {
        assert(data.subrange(0, 2) =~= f.subrange(0, 2));
        assert(f.subrange(0, 2) =~= bytes::octets16(repr.src_port));
        lemma_be16_piece(data, 0, repr.src_port);
    }
    assert(bytes::be16(data, 2) == repr.dst_port) by {
        assert(data.subrange(2, 4) =~= f.subrange(2, 4));
        assert(f.subrange(2, 4) =~= bytes::octets16(repr.dst_port));
        lemma_be16_piece(data, 2, repr.dst_port);
    }
    assert(bytes::be32(data, 4) == repr.seq_number.0) by {
        assert(data.subrange(4, 8) =~= f.subrange(4, 8));
        assert(f.subrange(4, 8) =~= bytes::octets32(repr.seq_number.0));
        lemma_be32_piece(data, 4, repr.seq_number.0);
    }
    assert(repr.ack_number matches Some(n) ==> bytes::be32(data, 8) == n.0) by {
        if let Some(n) = repr.ack_number {
            assert(data.subrange(8, 12) =~= f.subrange(8, 12));
            assert(f.subrange(8, 12) =~= bytes::octets32(n.0));
            lemma_be32_piece(data, 8, n.0);
        }
    }
    assert(bytes::be16(data, 14) == repr.window_len) by {
        assert(data.subrange(14, 16) =~= f.subrange(14, 16));
        assert(f.subrange(14, 16) =~= bytes::octets16(repr.window_len));
        lemma_be16_piece(data, 14, repr.window_len);
    }
    assert(data.take(16)[12] == data[12]);
    assert(data.take(16)[13] == data[13]);
    assert(f[12] == (repr.header_len_view() / 4 * 16) as u8);
}

/// An emitted flags octet is read back.
proof fn lemma_flags<'a>(repr: TcpRepr<'a>, data: Seq<u8>)
    requires
        data[13] == repr.control.bit() + (if repr.ack_number is Some {
            16int
        } else {
            0
        }),
    ensures
        tcp::control_of(data) == Some(repr.control),
        tcp::flag(data, 16) == repr.ack_number is Some,
{
}

/// Filling in a checksum leaves the rest of a segment as it is.
proof fn lemma_summed_parts(fixed: Seq<u8>, options: Seq<u8>, payload: Seq<u8>, src: Seq<u8>, dst: Seq<u8>)
    requires
        fixed.len() == 20,
    ensures
        ({
            let data = tcp::with_checksum(src, dst, fixed + options + payload);
            &&& data.len() == fixed.len() + options.len() + payload.len()
            &&& data.take(16) == fixed.take(16)
            &&& data.subrange(20, 20int + options.len()) == options
            &&& data.skip(20int + options.len()) == payload
        }),
{
    let data = tcp::with_checksum(src, dst, fixed + options + payload);
    assert(data.take(16) =~= fixed.take(16));
    assert(data.subrange(20, 20int + options.len()) =~= options);
    assert(data.skip(20int + options.len()) =~= payload);
}

/// An emitted segment verifies, its header is as long as announced, and it
/// parses back to the segment it was built from. What was in the buffer before
/// makes no difference.
pub proof fn law_tcp_round_trip<'a>(repr: TcpRepr<'a>, src: Seq<u8>, dst: Seq<u8>)
    requires
        repr.representable(),
        src.len() % 2 == 0,
        dst.len() % 2 == 0,
    ensures
        tcp::checksum_ok(src, dst, repr.segment_octets(src, dst)),
        parses(repr.segment_octets(src, dst)),
        tcp::header_len(repr.segment_octets(src, dst)) == repr.header_len_view(),
        repr.describes(repr.segment_octets(src, dst)),
        forall|parsed: TcpRepr<'_>| #[trigger]
            parsed.describes(repr.segment_octets(src, dst)) ==> parsed.segment() == repr.segment(),
{
    let data = repr.segment_octets(src, dst);
    let hl = repr.header_len_view();
    assert(repr.fixed_octets().len() == 20);
    assert(repr.padded_options().len() == hl - 20) by {
        repr.lemma_ranges_len();
    }
    lemma_summed_parts(repr.fixed_octets(), repr.padded_options(), repr.payload@, src, dst);
    assert(tcp::checksum_ok(src, dst, data)) by {
        tcp::law_tcp_filled_checksum_verifies(src, dst, repr.unsummed_octets());
    }
    lemma_fixed_fields(repr, data);
    lemma_flags(repr, data);
    assert(options_of(data) == repr.padded_options());
    lemma_walk_emitted(repr);
}

} // verus!
