//! ICMPv6 messages (RFC 4443).

use vstd::prelude::*;
use vstd::std_specs::convert::FromSpecImpl;

use crate::wire::bytes;
use crate::wire::checksum;
use crate::wire::ip::{IpAddress, Ipv6Address};
use crate::wire::Error;

verus! {

/// The length of the header every ICMPv6 message starts with.
pub const ICMPV6_HEADER_LEN: usize = 8;

/// The length of a neighbor solicitation or advertisement, without its options.
pub const NEIGHBOR_HEADER_LEN: usize = 24;

/// The length of a router advertisement, without its options.
pub const ROUTER_ADVERT_HEADER_LEN: usize = 16;

/// The length of a redirect, without its options.
pub const REDIRECT_HEADER_LEN: usize = 40;

/// The protocol number of ICMPv6.
pub const ICMPV6_PROTOCOL: u8 = 0x3a;

/// Internet protocol control message type.
#[derive(Debug, Clone, Copy, PartialEq, Eq, Structural, Hash)]
pub enum Message {
    /// Destination unreachable
    DstUnreachable,
    /// Packet too big
    PktTooBig,
    /// Time exceeded
    TimeExceeded,
    /// Parameter problem
    ParamProblem,
    /// Echo request
    EchoRequest,
    /// Echo reply
    EchoReply,
    /// Multicast listener query
    MldQuery,
    /// Router solicitation
    RouterSolicit,
    /// Router advertisement
    RouterAdvert,
    /// Neighbor solicitation
    NeighborSolicit,
    /// Neighbor advertisement
    NeighborAdvert,
    /// Redirect
    Redirect,
    /// Multicast listener report
    MldReport,
    /// Any other number.
    Unknown(u8),
}

impl Message {
    /// The number that stands for the value on the wire.
    pub open spec fn number(self) -> u8 {
        match self {
            Message::DstUnreachable => 0x01,
            Message::PktTooBig => 0x02,
            Message::TimeExceeded => 0x03,
            Message::ParamProblem => 0x04,
            Message::EchoRequest => 0x80,
            Message::EchoReply => 0x81,
            Message::MldQuery => 0x82,
            Message::RouterSolicit => 0x85,
            Message::RouterAdvert => 0x86,
            Message::NeighborSolicit => 0x87,
            Message::NeighborAdvert => 0x88,
            Message::Redirect => 0x89,
            Message::MldReport => 0x8f,
            Message::Unknown(n) => n,
        }
    }

    /// The value a number stands for.
    pub open spec fn of_number(n: u8) -> Message {
        if n == 0x01 {
            Message::DstUnreachable
        } else if n == 0x02 {
            Message::PktTooBig
        } else if n == 0x03 {
            Message::TimeExceeded
        } else if n == 0x04 {
            Message::ParamProblem
        } else if n == 0x80 {
            Message::EchoRequest
        } else if n == 0x81 {
            Message::EchoReply
        } else if n == 0x82 {
            Message::MldQuery
        } else if n == 0x85 {
            Message::RouterSolicit
        } else if n == 0x86 {
            Message::RouterAdvert
        } else if n == 0x87 {
            Message::NeighborSolicit
        } else if n == 0x88 {
            Message::NeighborAdvert
        } else if n == 0x89 {
            Message::Redirect
        } else if n == 0x8f {
            Message::MldReport
        } else {
            Message::Unknown(n)
        }
    }
}

impl From<u8> for Message {
    fn from(n: u8) -> (r: Self) {
        if n == 0x01 {
            Message::DstUnreachable
        } else if n == 0x02 {
            Message::PktTooBig
        } else if n == 0x03 {
            Message::TimeExceeded
        } else if n == 0x04 {
            Message::ParamProblem
        } else if n == 0x80 {
            Message::EchoRequest
        } else if n == 0x81 {
            Message::EchoReply
        } else if n == 0x82 {
            Message::MldQuery
        } else if n == 0x85 {
            Message::RouterSolicit
        } else if n == 0x86 {
            Message::RouterAdvert
        } else if n == 0x87 {
            Message::NeighborSolicit
        } else if n == 0x88 {
            Message::NeighborAdvert
        } else if n == 0x89 {
            Message::Redirect
        } else if n == 0x8f {
            Message::MldReport
        } else {
            Message::Unknown(n)
        }
    }
}

impl FromSpecImpl<u8> for Message {
    open spec fn obeys_from_spec() -> bool {
        true
    }

    open spec fn from_spec(n: u8) -> Self {
        Message::of_number(n)
    }
}

impl From<Message> for u8 {
    fn from(value: Message) -> (r: Self) {
        match value {
            Message::DstUnreachable => 0x01,
            Message::PktTooBig => 0x02,
            Message::TimeExceeded => 0x03,
            Message::ParamProblem => 0x04,
            Message::EchoRequest => 0x80,
            Message::EchoReply => 0x81,
            Message::MldQuery => 0x82,
            Message::RouterSolicit => 0x85,
            Message::RouterAdvert => 0x86,
            Message::NeighborSolicit => 0x87,
            Message::NeighborAdvert => 0x88,
            Message::Redirect => 0x89,
            Message::MldReport => 0x8f,
            Message::Unknown(n) => n,
        }
    }
}

impl FromSpecImpl<Message> for u8 {
    open spec fn obeys_from_spec() -> bool {
        true
    }

    open spec fn from_spec(value: Message) -> Self {
        value.number()
    }
}

/// Internet protocol control message subtype for type "Destination Unreachable".
#[derive(Debug, Clone, Copy, PartialEq, Eq, Structural, Hash)]
pub enum DstUnreachable {
    /// No route to the destination
    NoRoute,
    /// Communication administratively prohibited
    AdminProhibit,
    /// Beyond the scope of the source address
    BeyondScope,
    /// Address unreachable
    AddrUnreachable,
    /// Port unreachable
    PortUnreachable,
    /// Source address failed ingress/egress policy
    FailedPolicy,
    /// Reject route to the destination
    RejectRoute,
    /// Any other number.
    Unknown(u8),
}

impl DstUnreachable {
    /// The number that stands for the value on the wire.
    pub open spec fn number(self) -> u8 {
        match self {
            DstUnreachable::NoRoute => 0,
            DstUnreachable::AdminProhibit => 1,
            DstUnreachable::BeyondScope => 2,
            DstUnreachable::AddrUnreachable => 3,
            DstUnreachable::PortUnreachable => 4,
            DstUnreachable::FailedPolicy => 5,
            DstUnreachable::RejectRoute => 6,
            DstUnreachable::Unknown(n) => n,
        }
    }

    /// The value a number stands for.
    pub open spec fn of_number(n: u8) -> DstUnreachable {
        if n == 0 {
            DstUnreachable::NoRoute
        } else if n == 1 {
            DstUnreachable::AdminProhibit
        } else if n == 2 {
            DstUnreachable::BeyondScope
        } else if n == 3 {
            DstUnreachable::AddrUnreachable
        } else if n == 4 {
            DstUnreachable::PortUnreachable
        } else if n == 5 {
            DstUnreachable::FailedPolicy
        } else if n == 6 {
            DstUnreachable::RejectRoute
        } else {
            DstUnreachable::Unknown(n)
        }
    }
}

impl From<u8> for DstUnreachable {
    fn from(n: u8) -> (r: Self) {
        if n == 0 {
            DstUnreachable::NoRoute
        } else if n == 1 {
            DstUnreachable::AdminProhibit
        } else if n == 2 {
            DstUnreachable::BeyondScope
        } else if n == 3 {
            DstUnreachable::AddrUnreachable
        } else if n == 4 {
            DstUnreachable::PortUnreachable
        } else if n == 5 {
            DstUnreachable::FailedPolicy
        } else if n == 6 {
            DstUnreachable::RejectRoute
        } else {
            DstUnreachable::Unknown(n)
        }
    }
}

impl FromSpecImpl<u8> for DstUnreachable {
    open spec fn obeys_from_spec() -> bool {
        true
    }

    open spec fn from_spec(n: u8) -> Self {
        DstUnreachable::of_number(n)
    }
}

impl From<DstUnreachable> for u8 {
    fn from(value: DstUnreachable) -> (r: Self) {
        match value {
            DstUnreachable::NoRoute => 0,
            DstUnreachable::AdminProhibit => 1,
            DstUnreachable::BeyondScope => 2,
            DstUnreachable::AddrUnreachable => 3,
            DstUnreachable::PortUnreachable => 4,
            DstUnreachable::FailedPolicy => 5,
            DstUnreachable::RejectRoute => 6,
            DstUnreachable::Unknown(n) => n,
        }
    }
}

impl FromSpecImpl<DstUnreachable> for u8 {
    open spec fn obeys_from_spec() -> bool {
        true
    }

    open spec fn from_spec(value: DstUnreachable) -> Self {
        value.number()
    }
}

/// Internet protocol control message subtype for type "Parameter Problem".
#[derive(Debug, Clone, Copy, PartialEq, Eq, Structural, Hash)]
pub enum ParamProblem {
    /// Erroneous header field
    ErroneousHdrField,
    /// Unrecognized next header
    UnrecognizedNxtHdr,
    /// Unrecognized IPv6 option
    UnrecognizedOption,
    /// Any other number.
    Unknown(u8),
}

impl ParamProblem {
    /// The number that stands for the value on the wire.
    pub open spec fn number(self) -> u8 {
        match self {
            ParamProblem::ErroneousHdrField => 0,
            ParamProblem::UnrecognizedNxtHdr => 1,
            ParamProblem::UnrecognizedOption => 2,
            ParamProblem::Unknown(n) => n,
        }
    }

    /// The value a number stands for.
    pub open spec fn of_number(n: u8) -> ParamProblem {
        if n == 0 {
            ParamProblem::ErroneousHdrField
        } else if n == 1 {
            ParamProblem::UnrecognizedNxtHdr
        } else if n == 2 {
            ParamProblem::UnrecognizedOption
        } else {
            ParamProblem::Unknown(n)
        }
    }
}

impl From<u8> for ParamProblem {
    fn from(n: u8) -> (r: Self) {
        if n == 0 {
            ParamProblem::ErroneousHdrField
        } else if n == 1 {
            ParamProblem::UnrecognizedNxtHdr
        } else if n == 2 {
            ParamProblem::UnrecognizedOption
        } else {
            ParamProblem::Unknown(n)
        }
    }
}

impl FromSpecImpl<u8> for ParamProblem {
    open spec fn obeys_from_spec() -> bool {
        true
    }

    open spec fn from_spec(n: u8) -> Self {
        ParamProblem::of_number(n)
    }
}

impl From<ParamProblem> for u8 {
    fn from(value: ParamProblem) -> (r: Self) {
        match value {
            ParamProblem::ErroneousHdrField => 0,
            ParamProblem::UnrecognizedNxtHdr => 1,
            ParamProblem::UnrecognizedOption => 2,
            ParamProblem::Unknown(n) => n,
        }
    }
}

impl FromSpecImpl<ParamProblem> for u8 {
    open spec fn obeys_from_spec() -> bool {
        true
    }

    open spec fn from_spec(value: ParamProblem) -> Self {
        value.number()
    }
}

/// Internet protocol control message subtype for type "Time Exceeded".
#[derive(Debug, Clone, Copy, PartialEq, Eq, Structural, Hash)]
pub enum TimeExceeded {
    /// Hop limit exceeded in transit
    HopLimitExceeded,
    /// Fragment reassembly time exceeded
    FragReassemTimeExceeded,
    /// Any other number.
    Unknown(u8),
}

impl TimeExceeded {
    /// The number that stands for the value on the wire.
    pub open spec fn number(self) -> u8 {
        match self {
            TimeExceeded::HopLimitExceeded => 0,
            TimeExceeded::FragReassemTimeExceeded => 1,
            TimeExceeded::Unknown(n) => n,
        }
    }

    /// The value a number stands for.
    pub open spec fn of_number(n: u8) -> TimeExceeded {
        if n == 0 {
            TimeExceeded::HopLimitExceeded
        } else if n == 1 {
            TimeExceeded::FragReassemTimeExceeded
        } else {
            TimeExceeded::Unknown(n)
        }
    }
}

impl From<u8> for TimeExceeded {
    fn from(n: u8) -> (r: Self) {
        if n == 0 {
            TimeExceeded::HopLimitExceeded
        } else if n == 1 {
            TimeExceeded::FragReassemTimeExceeded
        } else {
            TimeExceeded::Unknown(n)
        }
    }
}

impl FromSpecImpl<u8> for TimeExceeded {
    open spec fn obeys_from_spec() -> bool {
        true
    }

    open spec fn from_spec(n: u8) -> Self {
        TimeExceeded::of_number(n)
    }
}

impl From<TimeExceeded> for u8 {
    fn from(value: TimeExceeded) -> (r: Self) {
        match value {
            TimeExceeded::HopLimitExceeded => 0,
            TimeExceeded::FragReassemTimeExceeded => 1,
            TimeExceeded::Unknown(n) => n,
        }
    }
}

impl FromSpecImpl<TimeExceeded> for u8 {
    open spec fn obeys_from_spec() -> bool {
        true
    }

    open spec fn from_spec(value: TimeExceeded) -> Self {
        value.number()
    }
}

impl Message {
    /// Whether messages of this type report an error: their high bit is clear.
    pub open spec fn error_view(self) -> bool {
        self.number() < 0x80
    }

    /// Whether messages of this type report an error.
    pub fn is_error(&self) -> (r: bool)
        ensures
            r == self.error_view(),
    {
        let number: u8 = u8::from(*self);
        number < 0x80
    }

    /// The length of the fixed part of messages of this type.
    pub open spec fn header_len_view(self) -> int {
        match self {
            Message::NeighborSolicit => NEIGHBOR_HEADER_LEN as int,
            Message::NeighborAdvert => NEIGHBOR_HEADER_LEN as int,
            Message::RouterAdvert => ROUTER_ADVERT_HEADER_LEN as int,
            Message::Redirect => REDIRECT_HEADER_LEN as int,
            _ => ICMPV6_HEADER_LEN as int,
        }
    }

    /// The length of the fixed part of messages of this type.
    pub fn header_len(&self) -> (r: usize)
        ensures
            r == self.header_len_view(),
    {
        match self {
            Message::NeighborSolicit => NEIGHBOR_HEADER_LEN,
            Message::NeighborAdvert => NEIGHBOR_HEADER_LEN,
            Message::RouterAdvert => ROUTER_ADVERT_HEADER_LEN,
            Message::Redirect => REDIRECT_HEADER_LEN,
            _ => ICMPV6_HEADER_LEN,
        }
    }
}

/// Whether the fixed part of the message is there in full.
pub open spec fn well_formed(data: Seq<u8>) -> bool {
    data.len() >= ICMPV6_HEADER_LEN && Message::of_number(data[0]).header_len_view() <= data.len()
}

/// The data the checksum covers in front of a message.
pub open spec fn pseudo_header(src: Seq<u8>, dst: Seq<u8>, len: nat) -> Seq<u8> {
    checksum::pseudo_header(src, dst, ICMPV6_PROTOCOL, len)
}

/// Whether the checksum of a message is right.
pub open spec fn checksum_ok(src: Seq<u8>, dst: Seq<u8>, data: Seq<u8>) -> bool {
    checksum::ones_sum(pseudo_header(src, dst, data.len()) + data) == 0xffff
}

/// The message with its checksum field filled in.
pub open spec fn with_checksum(src: Seq<u8>, dst: Seq<u8>, data: Seq<u8>) -> Seq<u8> {
    let zeroed = bytes::overwrite(data, 2, bytes::octets16(0));
    bytes::overwrite(
        zeroed,
        2,
        bytes::octets16(checksum::checksum_of(pseudo_header(src, dst, data.len()) + zeroed)),
    )
}

/// Check that the fixed part of a message is there, returning its type.
pub fn check(data: &[u8]) -> (r: Result<Message, Error>)
    ensures
        r is Ok <==> well_formed(data@),
        r matches Ok(m) ==> m == Message::of_number(data@[0]),
{
    if data.len() < ICMPV6_HEADER_LEN {
        return Err(Error);
    }
    let message = Message::from(data[0]);
    if data.len() < message.header_len() {
        return Err(Error);
    }
    Ok(message)
}

/// Validate the checksum of a message.
pub fn verify_checksum(data: &[u8], src: &Ipv6Address, dst: &Ipv6Address) -> (r: bool)
    ensures
        r == checksum_ok(src.0@, dst.0@, data@),
{
    checksum::with_pseudo_header(&IpAddress::Ipv6(*src), &IpAddress::Ipv6(*dst), ICMPV6_PROTOCOL, data) == 0xffff
}

/// Compute and fill in the checksum of a message.
pub fn fill_checksum(data: &mut [u8], src: &Ipv6Address, dst: &Ipv6Address)
    requires
        4 <= old(data)@.len(),
    ensures
        final(data)@ == with_checksum(src.0@, dst.0@, old(data)@),
{
    bytes::put_u16(data, 2, 0);
    let sum: u16 = 0xffff - checksum::with_pseudo_header(
        &IpAddress::Ipv6(*src),
        &IpAddress::Ipv6(*dst),
        ICMPV6_PROTOCOL,
        data,
    );
    bytes::put_u16(data, 2, sum);
}

/// A message whose checksum was filled in verifies.
pub proof fn law_icmpv6_filled_checksum_verifies(src: Seq<u8>, dst: Seq<u8>, data: Seq<u8>)
    requires
        src.len() == 16,
        dst.len() == 16,
        data.len() >= 4,
    ensures
        checksum_ok(src, dst, with_checksum(src, dst, data)),
{
    let zeroed = bytes::overwrite(data, 2, bytes::octets16(0));
    checksum::lemma_filled_zero_field(pseudo_header(src, dst, data.len()), zeroed, 2);
}

} // verus!
