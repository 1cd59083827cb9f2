//! TCP segments (RFC 9293) and their options.

use vstd::prelude::*;

use crate::wire::bytes;
use crate::wire::checksum;
use crate::wire::ip::IpAddress;
use crate::wire::Error;

verus! {

/// The length of a TCP header without options.
pub const TCP_HEADER_LEN: usize = 20;

/// The protocol number of TCP.
pub const TCP_PROTOCOL: u8 = 0x06;

/// A sequence number: a position in the cyclic 32-bit sequence space.
#[derive(Debug, Clone, Copy, PartialEq, Eq, Structural, Hash)]
pub struct TcpSeqNumber(pub u32);

impl TcpSeqNumber {
    /// The number `n` positions further along.
    pub open spec fn plus(self, n: int) -> TcpSeqNumber {
        TcpSeqNumber(((self.0 + n) % 0x1_0000_0000) as u32)
    }

    /// The number `n` positions further along.
    pub fn advance(self, n: u32) -> (r: TcpSeqNumber)
        ensures
            r == self.plus(n as int),
    {
        let sum: u64 = (self.0 as u64 + n as u64) % 0x1_0000_0000;
        TcpSeqNumber(sum as u32)
    }
}

/// The control flag of a segment. At most one is meaningful at a time.
#[derive(Debug, Clone, Copy, PartialEq, Eq, Structural, Hash)]
pub enum TcpControl {
    /// None of the flags below.
    NoFlag,
    /// Push.
    Psh,
    /// Synchronize.
    Syn,
    /// Finish.
    Fin,
    /// Reset.
    Rst,
}

impl TcpControl {
    /// The room the flag takes up in sequence space.
    pub open spec fn len_view(self) -> int {
        if self == TcpControl::Syn || self == TcpControl::Fin {
            1
        } else {
            0
        }
    }

    /// The room the flag takes up in sequence space.
    pub fn len(&self) -> (r: usize)
        ensures
            r == self.len_view(),
    {
        match self {
            TcpControl::Syn => 1,
            TcpControl::Fin => 1,
            _ => 0,
        }
    }

    /// The flag's bit in the flags octet.
    pub open spec fn bit(self) -> u8 {
        match self {
            TcpControl::NoFlag => 0,
            TcpControl::Psh => 8,
            TcpControl::Syn => 2,
            TcpControl::Fin => 1,
            TcpControl::Rst => 4,
        }
    }

    /// The flag's bit in the flags octet.
    pub fn to_bit(&self) -> (r: u8)
        ensures
            r == self.bit(),
    {
        match self {
            TcpControl::NoFlag => 0,
            TcpControl::Psh => 8,
            TcpControl::Syn => 2,
            TcpControl::Fin => 1,
            TcpControl::Rst => 4,
        }
    }
}

/// Bit `k` of the flags octet.
pub open spec fn flag(data: Seq<u8>, weight: u8) -> bool {
    (data[13] / weight) % 2 == 1
}

/// The control flag of a segment, or `None` for a combination that makes no
/// sense. The push flag counts only when it stands alone.
pub open spec fn control_of(data: Seq<u8>) -> Option<TcpControl> {
    let fin = flag(data, 1);
    let syn = flag(data, 2);
    let rst = flag(data, 4);
    let psh = flag(data, 8);
    if !syn && !fin && !rst {
        if psh {
            Some(TcpControl::Psh)
        } else {
            Some(TcpControl::NoFlag)
        }
    } else if syn && !fin && !rst {
        Some(TcpControl::Syn)
    } else if !syn && fin && !rst {
        Some(TcpControl::Fin)
    } else if !syn && !fin && rst {
        Some(TcpControl::Rst)
    } else {
        None
    }
}

/// The header length field, in octets.
pub open spec fn header_len(data: Seq<u8>) -> int {
    (data[12] / 16) * 4
}

/// Whether the header is there in full.
pub open spec fn well_formed(data: Seq<u8>) -> bool {
    data.len() >= TCP_HEADER_LEN && TCP_HEADER_LEN <= header_len(data) <= data.len()
}

/// Whether the checksum is right.
pub open spec fn checksum_ok(src: Seq<u8>, dst: Seq<u8>, data: Seq<u8>) -> bool {
    checksum::ones_sum(checksum::pseudo_header(src, dst, TCP_PROTOCOL, data.len()) + data) == 0xffff
}

/// The segment with its checksum field filled in.
pub open spec fn with_checksum(src: Seq<u8>, dst: Seq<u8>, data: Seq<u8>) -> Seq<u8> {
    let zeroed = bytes::overwrite(data, 16, bytes::octets16(0));
    bytes::overwrite(
        zeroed,
        16,
        bytes::octets16(
            checksum::checksum_of(checksum::pseudo_header(src, dst, TCP_PROTOCOL, data.len()) + zeroed),
        ),
    )
}

/// A TCP option. Up to three selective acknowledgment ranges are kept.
#[derive(Debug, Clone, Copy, PartialEq, Eq)]
pub enum TcpOption {
    EndOfList,
    NoOperation,
    MaxSegmentSize(u16),
    WindowScale(u8),
    SackPermitted,
    SackRange([Option<(u32, u32)>; 3]),
    TimeStamp { tsval: u32, tsecr: u32 },
    Unknown(u8),
}

/// The kind octet of each option.
pub const OPT_END: u8 = 0;

pub const OPT_NOP: u8 = 1;

pub const OPT_MSS: u8 = 2;

pub const OPT_WS: u8 = 3;

pub const OPT_SACK_PERM: u8 = 4;

pub const OPT_SACK_RANGE: u8 = 5;

pub const OPT_TSTAMP: u8 = 8;

/// The range in slot `i` of a selective acknowledgment option that starts at
/// `at` and is `len` octets long.
pub open spec fn sack_range_at(s: Seq<u8>, at: int, len: int, i: int) -> Option<(u32, u32)> {
    if 8 * i < len - 2 {
        Some((bytes::be32(s, at + 2 + 8 * i), bytes::be32(s, at + 6 + 8 * i)))
    } else {
        None
    }
}

/// Whether the option at `at` is well-formed: it is there in full, and options of
/// a known kind have their length.
pub open spec fn option_ok(s: Seq<u8>, at: int) -> bool {
    let kind = s[at];
    let len = s[at + 1];
    kind == OPT_END || kind == OPT_NOP || {
        &&& at + 1 < s.len()
        &&& 2 <= len <= s.len() - at
        &&& kind == OPT_MSS ==> len == 4
        &&& kind == OPT_WS ==> len == 3
        &&& kind == OPT_SACK_PERM ==> len == 2
        &&& kind == OPT_SACK_RANGE ==> len >= 10 && (len - 2) % 8 == 0
    }
}

/// The length of the option at `at`.
pub open spec fn option_len(s: Seq<u8>, at: int) -> int {
    if s[at] == OPT_END || s[at] == OPT_NOP {
        1
    } else {
        s[at + 1] as int
    }
}

impl TcpOption {
    /// The option at `at`.
    pub open spec fn at(s: Seq<u8>, at: int) -> TcpOption {
        let kind = s[at];
        let len = s[at + 1];
        if kind == OPT_END {
            TcpOption::EndOfList
        } else if kind == OPT_NOP {
            TcpOption::NoOperation
        } else if kind == OPT_MSS {
            TcpOption::MaxSegmentSize(bytes::be16(s, at + 2))
        } else if kind == OPT_WS {
            TcpOption::WindowScale(s[at + 2])
        } else if kind == OPT_SACK_PERM {
            TcpOption::SackPermitted
        } else if kind == OPT_SACK_RANGE {
            TcpOption::SackRange(
                [
                    sack_range_at(s, at, len as int, 0),
                    sack_range_at(s, at, len as int, 1),
                    sack_range_at(s, at, len as int, 2),
                ],
            )
        } else if kind == OPT_TSTAMP && len == 10 {
            TcpOption::TimeStamp { tsval: bytes::be32(s, at + 2), tsecr: bytes::be32(s, at + 6) }
        } else {
            TcpOption::Unknown(kind)
        }
    }

    /// What is the option at `at` is that one.
    pub proof fn lemma_at(self, s: Seq<u8>, at: int)
        requires
            self.describes(s, at),
        ensures
            self == Self::at(s, at),
    {
        if let TcpOption::SackRange(ranges) = self {
            let other = Self::at(s, at)->SackRange_0;
            assert(ranges@ =~= other@);
            assert(ranges =~= other);
        }
    }

    /// Whether this is the option at `at`.
    pub open spec fn describes(self, s: Seq<u8>, at: int) -> bool {
        let kind = s[at];
        let len = s[at + 1];
        match self {
            TcpOption::EndOfList => kind == OPT_END,
            TcpOption::NoOperation => kind == OPT_NOP,
            TcpOption::MaxSegmentSize(v) => kind == OPT_MSS && v == bytes::be16(s, at + 2),
            TcpOption::WindowScale(v) => kind == OPT_WS && v == s[at + 2],
            TcpOption::SackPermitted => kind == OPT_SACK_PERM,
            TcpOption::SackRange(ranges) => kind == OPT_SACK_RANGE && forall|i: int|
                0 <= i < 3 ==> #[trigger] ranges@[i] == sack_range_at(s, at, len as int, i),
            TcpOption::TimeStamp { tsval, tsecr } => kind == OPT_TSTAMP && len == 10 && tsval == bytes::be32(
                s,
                at + 2,
            ) && tsecr == bytes::be32(s, at + 6),
            TcpOption::Unknown(k) => {
                &&& k == kind
                &&& kind > OPT_SACK_RANGE
                &&& !(kind == OPT_TSTAMP && len == 10)
            },
        }
    }

    /// Read the option at `at`, with its length. Fails exactly when it is not
    /// well-formed.
    pub fn parse(s: &[u8], at: usize) -> (r: Result<(usize, TcpOption), Error>)
        requires
            at < s@.len(),
        ensures
            r is Ok <==> option_ok(s@, at as int),
            r matches Ok((n, option)) ==> {
                &&& n == option_len(s@, at as int)
                &&& 0 < n <= s@.len() - at
                &&& option.describes(s@, at as int)
            },
    {
        let kind: u8 = s[at];
        if kind == OPT_END {
            return Ok((1, TcpOption::EndOfList));
        }
        if kind == OPT_NOP {
            return Ok((1, TcpOption::NoOperation));
        }
        let rest: usize = s.len() - at;
        if rest < 2 {
            return Err(Error);
        }
        let len: usize = s[at + 1] as usize;
        if len < 2 || len > rest {
            return Err(Error);
        }
        let option = if kind == OPT_MSS {
            if len != 4 {
                return Err(Error);
            }
            TcpOption::MaxSegmentSize(bytes::get_u16(s, at + 2))
        } else if kind == OPT_WS {
            if len != 3 {
                return Err(Error);
            }
            TcpOption::WindowScale(s[at + 2])
        } else if kind == OPT_SACK_PERM {
            if len != 2 {
                return Err(Error);
            }
            TcpOption::SackPermitted
        } else if kind == OPT_SACK_RANGE {
            if len < 10 || (len - 2) % 8 != 0 {
                return Err(Error);
            }
            let mut ranges: [Option<(u32, u32)>; 3] = [None, None, None];
            let mut i: usize = 0;
            while i < 3
                invariant
                    i <= 3,
                    at + len <= s@.len(),
                    len == s@[at + 1],
                    len >= 10,
                    (len - 2) % 8 == 0,
                    s.len() == s@.len(),
                    forall|j: int| 0 <= j < i ==> #[trigger] ranges@[j] == sack_range_at(
                        s@,
                        at as int,
                        len as int,
                        j,
                    ),
                    forall|j: int| i <= j < 3 ==> #[trigger] ranges@[j] is None,
                decreases 3 - i,
            {
                if 8 * i < len - 2 {
                    let first: u32 = bytes::get_u32(s, at + 2 + 8 * i);
                    let second: u32 = bytes::get_u32(s, at + 6 + 8 * i);
                    ranges[i] = Some((first, second));
                }
                i += 1;
            }
            TcpOption::SackRange(ranges)
        } else if kind == OPT_TSTAMP && len == 10 {
            TcpOption::TimeStamp { tsval: bytes::get_u32(s, at + 2), tsecr: bytes::get_u32(s, at + 6) }
        } else {
            TcpOption::Unknown(kind)
        };
        Ok((len, option))
    }
}

/// A read/write wrapper around a Transmission Control Protocol packet buffer.
#[derive(Debug, PartialEq, Eq)]
pub struct TcpPacket<'a> {
    pub buffer: &'a mut [u8],
}

impl<'a> TcpPacket<'a> {
    /// The octets the wrapped buffer holds.
    pub open spec fn octets(&self) -> Seq<u8> {
        self.buffer@
    }

    /// Imbue a raw octet buffer with TCP packet structure.
    pub fn new_unchecked(buffer: &'a mut [u8]) -> (r: TcpPacket<'a>)
        ensures
            r.octets() == old(buffer)@,
            final(r.buffer)@ == final(buffer)@,
    {
        TcpPacket { buffer }
    }

    /// Ensure that no accessor method will panic if called.
    pub fn check_len(&self) -> (r: Result<(), Error>)
        ensures
            r is Ok <==> well_formed(self.octets()),
    {
        check(self.buffer)
    }

    /// Validate the packet checksum.
    pub fn verify_checksum(&self, src: &IpAddress, dst: &IpAddress) -> (r: bool)
        ensures
            r == checksum_ok(src.octets_view(), dst.octets_view(), self.octets()),
    {
        verify_checksum(self.buffer, src, dst)
    }
}

/// Check that the header of a segment is there in full.
pub fn check(data: &[u8]) -> (r: Result<(), Error>)
    ensures
        r is Ok <==> well_formed(data@),
{
    if data.len() < TCP_HEADER_LEN {
        return Err(Error);
    }
    let n: usize = (data[12] / 16) as usize * 4;
    if n < TCP_HEADER_LEN || n > data.len() {
        return Err(Error);
    }
    Ok(())
}

/// Validate the checksum of a segment.
pub fn verify_checksum(data: &[u8], src: &IpAddress, dst: &IpAddress) -> (r: bool)
    ensures
        r == checksum_ok(src.octets_view(), dst.octets_view(), data@),
{
    checksum::with_pseudo_header(src, dst, TCP_PROTOCOL, data) == 0xffff
}

/// Compute and fill in the checksum of a segment.
pub fn fill_checksum(data: &mut [u8], src: &IpAddress, dst: &IpAddress)
    requires
        18 <= old(data)@.len(),
    ensures
        final(data)@ == with_checksum(src.octets_view(), dst.octets_view(), old(data)@),
{
    bytes::put_u16(data, 16, 0);
    let sum: u16 = 0xffff - checksum::with_pseudo_header(src, dst, TCP_PROTOCOL, data);
    bytes::put_u16(data, 16, sum);
}

/// A segment whose checksum was filled in verifies.
pub proof fn law_tcp_filled_checksum_verifies(src: Seq<u8>, dst: Seq<u8>, data: Seq<u8>)
    requires
        data.len() >= 18,
        src.len() % 2 == 0,
        dst.len() % 2 == 0,
    ensures
        checksum_ok(src, dst, with_checksum(src, dst, data)),
{
    let zeroed = bytes::overwrite(data, 16, bytes::octets16(0));
    checksum::lemma_filled_zero_field(
        checksum::pseudo_header(src, dst, TCP_PROTOCOL, data.len()),
        zeroed,
        16,
    );
}

} // verus!
