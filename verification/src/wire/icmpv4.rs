//! ICMPv4 messages (RFC 792).

use vstd::prelude::*;
use vstd::std_specs::convert::FromSpecImpl;

use crate::text;
use crate::wire::bytes;
use crate::wire::checksum;
use crate::wire::Error;

verus! {

/// The length of the header every ICMPv4 message starts with.
pub const ICMPV4_HEADER_LEN: usize = 8;

/// Internet protocol control message type.
#[derive(Debug, Clone, Copy, PartialEq, Eq, Structural, Hash)]
pub enum Message {
    /// Echo reply
    EchoReply,
    /// Destination unreachable
    DstUnreachable,
    /// Message redirect
    Redirect,
    /// Echo request
    EchoRequest,
    /// Router advertisement
    RouterAdvert,
    /// Router solicitation
    RouterSolicit,
    /// Time exceeded
    TimeExceeded,
    /// Parameter problem
    ParamProblem,
    /// Timestamp
    Timestamp,
    /// Timestamp reply
    TimestampReply,
    /// Any other number.
    Unknown(u8),
}

impl Message {
    /// The number that stands for the value on the wire.
    pub open spec fn number(self) -> u8 {
        match self {
            Message::EchoReply => 0,
            Message::DstUnreachable => 3,
            Message::Redirect => 5,
            Message::EchoRequest => 8,
            Message::RouterAdvert => 9,
            Message::RouterSolicit => 10,
            Message::TimeExceeded => 11,
            Message::ParamProblem => 12,
            Message::Timestamp => 13,
            Message::TimestampReply => 14,
            Message::Unknown(n) => n,
        }
    }

    /// The value a number stands for.
    pub open spec fn of_number(n: u8) -> Message {
        if n == 0 {
            Message::EchoReply
        } else if n == 3 {
            Message::DstUnreachable
        } else if n == 5 {
            Message::Redirect
        } else if n == 8 {
            Message::EchoRequest
        } else if n == 9 {
            Message::RouterAdvert
        } else if n == 10 {
            Message::RouterSolicit
        } else if n == 11 {
            Message::TimeExceeded
        } else if n == 12 {
            Message::ParamProblem
        } else if n == 13 {
            Message::Timestamp
        } else if n == 14 {
            Message::TimestampReply
        } else {
            Message::Unknown(n)
        }
    }
}

impl From<u8> for Message {
    fn from(n: u8) -> (r: Self) {
        if n == 0 {
            Message::EchoReply
        } else if n == 3 {
            Message::DstUnreachable
        } else if n == 5 {
            Message::Redirect
        } else if n == 8 {
            Message::EchoRequest
        } else if n == 9 {
            Message::RouterAdvert
        } else if n == 10 {
            Message::RouterSolicit
        } else if n == 11 {
            Message::TimeExceeded
        } else if n == 12 {
            Message::ParamProblem
        } else if n == 13 {
            Message::Timestamp
        } else if n == 14 {
            Message::TimestampReply
        } else {
            Message::Unknown(n)
        }
    }
}

impl FromSpecImpl<u8> for Message {
    open spec fn obeys_from_spec() -> bool {
        true
    }

    open spec fn from_spec(n: u8) -> Self {
        Message::of_number(n)
    }
}

impl From<Message> for u8 {
    fn from(value: Message) -> (r: Self) {
        match value {
            Message::EchoReply => 0,
            Message::DstUnreachable => 3,
            Message::Redirect => 5,
            Message::EchoRequest => 8,
            Message::RouterAdvert => 9,
            Message::RouterSolicit => 10,
            Message::TimeExceeded => 11,
            Message::ParamProblem => 12,
            Message::Timestamp => 13,
            Message::TimestampReply => 14,
            Message::Unknown(n) => n,
        }
    }
}

impl FromSpecImpl<Message> for u8 {
    open spec fn obeys_from_spec() -> bool {
        true
    }

    open spec fn from_spec(value: Message) -> Self {
        value.number()
    }
}

impl Message {
    /// Whether messages of this type report an error about a packet they quote.
    pub open spec fn error_view(self) -> bool {
        ||| self == Message::DstUnreachable
        ||| self == Message::Redirect
        ||| self == Message::TimeExceeded
        ||| self == Message::ParamProblem
    }

    /// Whether messages of this type report an error about a packet they quote.
    pub fn is_error(&self) -> (r: bool)
        ensures
            r == self.error_view(),
    {
        match self {
            Message::DstUnreachable => true,
            Message::Redirect => true,
            Message::TimeExceeded => true,
            Message::ParamProblem => true,
            _ => false,
        }
    }
}

/// Internet protocol control message subtype for type "Destination Unreachable".
#[derive(Debug, Clone, Copy, PartialEq, Eq, Structural, Hash)]
pub enum DstUnreachable {
    /// Destination network unreachable
    NetUnreachable,
    /// Destination host unreachable
    HostUnreachable,
    /// Destination protocol unreachable
    ProtoUnreachable,
    /// Destination port unreachable
    PortUnreachable,
    /// Fragmentation required, and DF flag set
    FragRequired,
    /// Source route failed
    SrcRouteFailed,
    /// Destination network unknown
    DstNetUnknown,
    /// Destination host unknown
    DstHostUnknown,
    /// Source host isolated
    SrcHostIsolated,
    /// Network administratively prohibited
    NetProhibited,
    /// Host administratively prohibited
    HostProhibited,
    /// Network unreachable for ToS
    NetUnreachToS,
    /// Host unreachable for ToS
    HostUnreachToS,
    /// Communication administratively prohibited
    CommProhibited,
    /// Host precedence violation
    HostPrecedViol,
    /// Precedence cutoff in effect
    PrecedCutoff,
    /// Any other number.
    Unknown(u8),
}

impl DstUnreachable {
    /// The number that stands for the value on the wire.
    pub open spec fn number(self) -> u8 {
        match self {
            DstUnreachable::NetUnreachable => 0,
            DstUnreachable::HostUnreachable => 1,
            DstUnreachable::ProtoUnreachable => 2,
            DstUnreachable::PortUnreachable => 3,
            DstUnreachable::FragRequired => 4,
            DstUnreachable::SrcRouteFailed => 5,
            DstUnreachable::DstNetUnknown => 6,
            DstUnreachable::DstHostUnknown => 7,
            DstUnreachable::SrcHostIsolated => 8,
            DstUnreachable::NetProhibited => 9,
            DstUnreachable::HostProhibited => 10,
            DstUnreachable::NetUnreachToS => 11,
            DstUnreachable::HostUnreachToS => 12,
            DstUnreachable::CommProhibited => 13,
            DstUnreachable::HostPrecedViol => 14,
            DstUnreachable::PrecedCutoff => 15,
            DstUnreachable::Unknown(n) => n,
        }
    }

    /// The value a number stands for.
    pub open spec fn of_number(n: u8) -> DstUnreachable {
        if n == 0 {
            DstUnreachable::NetUnreachable
        } else if n == 1 {
            DstUnreachable::HostUnreachable
        } else if n == 2 {
            DstUnreachable::ProtoUnreachable
        } else if n == 3 {
            DstUnreachable::PortUnreachable
        } else if n == 4 {
            DstUnreachable::FragRequired
        } else if n == 5 {
            DstUnreachable::SrcRouteFailed
        } else if n == 6 {
            DstUnreachable::DstNetUnknown
        } else if n == 7 {
            DstUnreachable::DstHostUnknown
        } else if n == 8 {
            DstUnreachable::SrcHostIsolated
        } else if n == 9 {
            DstUnreachable::NetProhibited
        } else if n == 10 {
            DstUnreachable::HostProhibited
        } else if n == 11 {
            DstUnreachable::NetUnreachToS
        } else if n == 12 {
            DstUnreachable::HostUnreachToS
        } else if n == 13 {
            DstUnreachable::CommProhibited
        } else if n == 14 {
            DstUnreachable::HostPrecedViol
        } else if n == 15 {
            DstUnreachable::PrecedCutoff
        } else {
            DstUnreachable::Unknown(n)
        }
    }
}

impl From<u8> for DstUnreachable {
    fn from(n: u8) -> (r: Self) {
        if n == 0 {
            DstUnreachable::NetUnreachable
        } else if n == 1 {
            DstUnreachable::HostUnreachable
        } else if n == 2 {
            DstUnreachable::ProtoUnreachable
        } else if n == 3 {
            DstUnreachable::PortUnreachable
        } else if n == 4 {
            DstUnreachable::FragRequired
        } else if n == 5 {
            DstUnreachable::SrcRouteFailed
        } else if n == 6 {
            DstUnreachable::DstNetUnknown
        } else if n == 7 {
            DstUnreachable::DstHostUnknown
        } else if n == 8 {
            DstUnreachable::SrcHostIsolated
        } else if n == 9 {
            DstUnreachable::NetProhibited
        } else if n == 10 {
            DstUnreachable::HostProhibited
        } else if n == 11 {
            DstUnreachable::NetUnreachToS
        } else if n == 12 {
            DstUnreachable::HostUnreachToS
        } else if n == 13 {
            DstUnreachable::CommProhibited
        } else if n == 14 {
            DstUnreachable::HostPrecedViol
        } else if n == 15 {
            DstUnreachable::PrecedCutoff
        } else {
            DstUnreachable::Unknown(n)
        }
    }
}

impl FromSpecImpl<u8> for DstUnreachable {
    open spec fn obeys_from_spec() -> bool {
        true
    }

    open spec fn from_spec(n: u8) -> Self {
        DstUnreachable::of_number(n)
    }
}

impl From<DstUnreachable> for u8 {
    fn from(value: DstUnreachable) -> (r: Self) {
        match value {
            DstUnreachable::NetUnreachable => 0,
            DstUnreachable::HostUnreachable => 1,
            DstUnreachable::ProtoUnreachable => 2,
            DstUnreachable::PortUnreachable => 3,
            DstUnreachable::FragRequired => 4,
            DstUnreachable::SrcRouteFailed => 5,
            DstUnreachable::DstNetUnknown => 6,
            DstUnreachable::DstHostUnknown => 7,
            DstUnreachable::SrcHostIsolated => 8,
            DstUnreachable::NetProhibited => 9,
            DstUnreachable::HostProhibited => 10,
            DstUnreachable::NetUnreachToS => 11,
            DstUnreachable::HostUnreachToS => 12,
            DstUnreachable::CommProhibited => 13,
            DstUnreachable::HostPrecedViol => 14,
            DstUnreachable::PrecedCutoff => 15,
            DstUnreachable::Unknown(n) => n,
        }
    }
}

impl FromSpecImpl<DstUnreachable> for u8 {
    open spec fn obeys_from_spec() -> bool {
        true
    }

    open spec fn from_spec(value: DstUnreachable) -> Self {
        value.number()
    }
}

/// Internet protocol control message subtype for type "Redirect Message".
#[derive(Debug, Clone, Copy, PartialEq, Eq, Structural, Hash)]
pub enum Redirect {
    /// Redirect Datagram for the Network
    Net,
    /// Redirect Datagram for the Host
    Host,
    /// Redirect Datagram for the ToS & network
    NetToS,
    /// Redirect Datagram for the ToS & host
    HostToS,
    /// Any other number.
    Unknown(u8),
}

impl Redirect {
    /// The number that stands for the value on the wire.
    pub open spec fn number(self) -> u8 {
        match self {
            Redirect::Net => 0,
            Redirect::Host => 1,
            Redirect::NetToS => 2,
            Redirect::HostToS => 3,
            Redirect::Unknown(n) => n,
        }
    }

    /// The value a number stands for.
    pub open spec fn of_number(n: u8) -> Redirect {
        if n == 0 {
            Redirect::Net
        } else if n == 1 {
            Redirect::Host
        } else if n == 2 {
            Redirect::NetToS
        } else if n == 3 {
            Redirect::HostToS
        } else {
            Redirect::Unknown(n)
        }
    }
}

impl From<u8> for Redirect {
    fn from(n: u8) -> (r: Self) {
        if n == 0 {
            Redirect::Net
        } else if n == 1 {
            Redirect::Host
        } else if n == 2 {
            Redirect::NetToS
        } else if n == 3 {
            Redirect::HostToS
        } else {
            Redirect::Unknown(n)
        }
    }
}

impl FromSpecImpl<u8> for Redirect {
    open spec fn obeys_from_spec() -> bool {
        true
    }

    open spec fn from_spec(n: u8) -> Self {
        Redirect::of_number(n)
    }
}

impl From<Redirect> for u8 {
    fn from(value: Redirect) -> (r: Self) {
        match value {
            Redirect::Net => 0,
            Redirect::Host => 1,
            Redirect::NetToS => 2,
            Redirect::HostToS => 3,
            Redirect::Unknown(n) => n,
        }
    }
}

impl FromSpecImpl<Redirect> for u8 {
    open spec fn obeys_from_spec() -> bool {
        true
    }

    open spec fn from_spec(value: Redirect) -> Self {
        value.number()
    }
}

/// Internet protocol control message subtype for type "Time Exceeded".
#[derive(Debug, Clone, Copy, PartialEq, Eq, Structural, Hash)]
pub enum TimeExceeded {
    /// TTL expired in transit
    TtlExpired,
    /// Fragment reassembly time exceeded
    FragExpired,
    /// Any other number.
    Unknown(u8),
}

impl TimeExceeded {
    /// The number that stands for the value on the wire.
    pub open spec fn number(self) -> u8 {
        match self {
            TimeExceeded::TtlExpired => 0,
            TimeExceeded::FragExpired => 1,
            TimeExceeded::Unknown(n) => n,
        }
    }

    /// The value a number stands for.
    pub open spec fn of_number(n: u8) -> TimeExceeded {
        if n == 0 {
            TimeExceeded::TtlExpired
        } else if n == 1 {
            TimeExceeded::FragExpired
        } else {
            TimeExceeded::Unknown(n)
        }
    }
}

impl From<u8> for TimeExceeded {
    fn from(n: u8) -> (r: Self) {
        if n == 0 {
            TimeExceeded::TtlExpired
        } else if n == 1 {
            TimeExceeded::FragExpired
        } else {
            TimeExceeded::Unknown(n)
        }
    }
}

impl FromSpecImpl<u8> for TimeExceeded {
    open spec fn obeys_from_spec() -> bool {
        true
    }

    open spec fn from_spec(n: u8) -> Self {
        TimeExceeded::of_number(n)
    }
}

impl From<TimeExceeded> for u8 {
    fn from(value: TimeExceeded) -> (r: Self) {
        match value {
            TimeExceeded::TtlExpired => 0,
            TimeExceeded::FragExpired => 1,
            TimeExceeded::Unknown(n) => n,
        }
    }
}

impl FromSpecImpl<TimeExceeded> for u8 {
    open spec fn obeys_from_spec() -> bool {
        true
    }

    open spec fn from_spec(value: TimeExceeded) -> Self {
        value.number()
    }
}

/// Internet protocol control message subtype for type "Parameter Problem".
#[derive(Debug, Clone, Copy, PartialEq, Eq, Structural, Hash)]
pub enum ParamProblem {
    /// Pointer indicates the error
    AtPointer,
    /// Missing a required option
    MissingOption,
    /// Bad length
    BadLength,
    /// Any other number.
    Unknown(u8),
}

impl ParamProblem {
    /// The number that stands for the value on the wire.
    pub open spec fn number(self) -> u8 {
        match self {
            ParamProblem::AtPointer => 0,
            ParamProblem::MissingOption => 1,
            ParamProblem::BadLength => 2,
            ParamProblem::Unknown(n) => n,
        }
    }

    /// The value a number stands for.
    pub open spec fn of_number(n: u8) -> ParamProblem {
        if n == 0 {
            ParamProblem::AtPointer
        } else if n == 1 {
            ParamProblem::MissingOption
        } else if n == 2 {
            ParamProblem::BadLength
        } else {
            ParamProblem::Unknown(n)
        }
    }
}

impl From<u8> for ParamProblem {
    fn from(n: u8) -> (r: Self) {
        if n == 0 {
            ParamProblem::AtPointer
        } else if n == 1 {
            ParamProblem::MissingOption
        } else if n == 2 {
            ParamProblem::BadLength
        } else {
            ParamProblem::Unknown(n)
        }
    }
}

impl FromSpecImpl<u8> for ParamProblem {
    open spec fn obeys_from_spec() -> bool {
        true
    }

    open spec fn from_spec(n: u8) -> Self {
        ParamProblem::of_number(n)
    }
}

impl From<ParamProblem> for u8 {
    fn from(value: ParamProblem) -> (r: Self) {
        match value {
            ParamProblem::AtPointer => 0,
            ParamProblem::MissingOption => 1,
            ParamProblem::BadLength => 2,
            ParamProblem::Unknown(n) => n,
        }
    }
}

impl FromSpecImpl<ParamProblem> for u8 {
    open spec fn obeys_from_spec() -> bool {
        true
    }

    open spec fn from_spec(value: ParamProblem) -> Self {
        value.number()
    }
}

impl Message {
    /// The message type in words.
    pub open spec fn text_view(self) -> Seq<char> {
        match self {
            Message::EchoReply => "echo reply"@,
            Message::DstUnreachable => "destination unreachable"@,
            Message::Redirect => "message redirect"@,
            Message::EchoRequest => "echo request"@,
            Message::RouterAdvert => "router advertisement"@,
            Message::RouterSolicit => "router solicitation"@,
            Message::TimeExceeded => "time exceeded"@,
            Message::ParamProblem => "parameter problem"@,
            Message::Timestamp => "timestamp"@,
            Message::TimestampReply => "timestamp reply"@,
            Message::Unknown(id) => text::decimal(id as nat),
        }
    }

    /// The message type in words.
    pub fn text(&self) -> (r: String)
        ensures
            r@ == self.text_view(),
    {
        match self {
            Message::EchoReply => text::owned("echo reply"),
            Message::DstUnreachable => text::owned("destination unreachable"),
            Message::Redirect => text::owned("message redirect"),
            Message::EchoRequest => text::owned("echo request"),
            Message::RouterAdvert => text::owned("router advertisement"),
            Message::RouterSolicit => text::owned("router solicitation"),
            Message::TimeExceeded => text::owned("time exceeded"),
            Message::ParamProblem => text::owned("parameter problem"),
            Message::Timestamp => text::owned("timestamp"),
            Message::TimestampReply => text::owned("timestamp reply"),
            Message::Unknown(id) => text::decimal_text(*id as u64),
        }
    }
}

impl DstUnreachable {
    /// The reason in words.
    pub open spec fn text_view(self) -> Seq<char> {
        match self {
            DstUnreachable::NetUnreachable => "destination network unreachable"@,
            DstUnreachable::HostUnreachable => "destination host unreachable"@,
            DstUnreachable::ProtoUnreachable => "destination protocol unreachable"@,
            DstUnreachable::PortUnreachable => "destination port unreachable"@,
            DstUnreachable::FragRequired => "fragmentation required, and DF flag set"@,
            DstUnreachable::SrcRouteFailed => "source route failed"@,
            DstUnreachable::DstNetUnknown => "destination network unknown"@,
            DstUnreachable::DstHostUnknown => "destination host unknown"@,
            DstUnreachable::SrcHostIsolated => "source host isolated"@,
            DstUnreachable::NetProhibited => "network administratively prohibited"@,
            DstUnreachable::HostProhibited => "host administratively prohibited"@,
            DstUnreachable::NetUnreachToS => "network unreachable for ToS"@,
            DstUnreachable::HostUnreachToS => "host unreachable for ToS"@,
            DstUnreachable::CommProhibited => "communication administratively prohibited"@,
            DstUnreachable::HostPrecedViol => "host precedence violation"@,
            DstUnreachable::PrecedCutoff => "precedence cutoff in effect"@,
            DstUnreachable::Unknown(id) => text::decimal(id as nat),
        }
    }

    /// The reason in words.
    pub fn text(&self) -> (r: String)
        ensures
            r@ == self.text_view(),
    {
        match self {
            DstUnreachable::NetUnreachable => text::owned("destination network unreachable"),
            DstUnreachable::HostUnreachable => text::owned("destination host unreachable"),
            DstUnreachable::ProtoUnreachable => text::owned("destination protocol unreachable"),
            DstUnreachable::PortUnreachable => text::owned("destination port unreachable"),
            DstUnreachable::FragRequired => text::owned("fragmentation required, and DF flag set"),
            DstUnreachable::SrcRouteFailed => text::owned("source route failed"),
            DstUnreachable::DstNetUnknown => text::owned("destination network unknown"),
            DstUnreachable::DstHostUnknown => text::owned("destination host unknown"),
            DstUnreachable::SrcHostIsolated => text::owned("source host isolated"),
            DstUnreachable::NetProhibited => text::owned("network administratively prohibited"),
            DstUnreachable::HostProhibited => text::owned("host administratively prohibited"),
            DstUnreachable::NetUnreachToS => text::owned("network unreachable for ToS"),
            DstUnreachable::HostUnreachToS => text::owned("host unreachable for ToS"),
            DstUnreachable::CommProhibited => text::owned("communication administratively prohibited"),
            DstUnreachable::HostPrecedViol => text::owned("host precedence violation"),
            DstUnreachable::PrecedCutoff => text::owned("precedence cutoff in effect"),
            DstUnreachable::Unknown(id) => text::decimal_text(*id as u64),
        }
    }
}

impl TimeExceeded {
    /// The reason in words.
    pub open spec fn text_view(self) -> Seq<char> {
        match self {
            TimeExceeded::TtlExpired => "time-to-live exceeded in transit"@,
            TimeExceeded::FragExpired => "fragment reassembly time exceeded"@,
            TimeExceeded::Unknown(id) => text::decimal(id as nat),
        }
    }

    /// The reason in words.
    pub fn text(&self) -> (r: String)
        ensures
            r@ == self.text_view(),
    {
        match self {
            TimeExceeded::TtlExpired => text::owned("time-to-live exceeded in transit"),
            TimeExceeded::FragExpired => text::owned("fragment reassembly time exceeded"),
            TimeExceeded::Unknown(id) => text::decimal_text(*id as u64),
        }
    }
}

/// Whether the checksum of a message is right.
pub open spec fn checksum_ok(data: Seq<u8>) -> bool {
    checksum::ones_sum(data) == 0xffff
}

/// The message with its checksum field filled in.
pub open spec fn with_checksum(data: Seq<u8>) -> Seq<u8> {
    let zeroed = bytes::overwrite(data, 2, bytes::octets16(0));
    bytes::overwrite(zeroed, 2, bytes::octets16(checksum::checksum_of(zeroed)))
}

/// Validate the checksum of a message.
pub fn verify_checksum(data: &[u8]) -> (r: bool)
    ensures
        r == checksum_ok(data@),
{
    checksum::data(data) == 0xffff
}

/// A read/write wrapper around an Internet Control Message Protocol version 4 packet buffer.
#[derive(Debug, PartialEq, Eq)]
pub struct Packet<'a> {
    pub buffer: &'a mut [u8],
}

impl<'a> Packet<'a> {
    /// The octets the wrapped buffer holds.
    pub open spec fn octets(&self) -> Seq<u8> {
        self.buffer@
    }

    /// Imbue a raw octet buffer with ICMPv4 packet structure.
    pub fn new_unchecked(buffer: &'a mut [u8]) -> (r: Packet<'a>)
        ensures
            r.octets() == old(buffer)@,
            final(r.buffer)@ == final(buffer)@,
    {
        Packet { buffer }
    }

    /// Shorthand for a combination of [new_unchecked](Self::new_unchecked) and
    /// [check_len](Self::check_len).
    pub fn new_checked(buffer: &'a mut [u8]) -> (r: Result<Packet<'a>, Error>)
        ensures
            r is Ok <==> old(buffer)@.len() >= ICMPV4_HEADER_LEN,
            r matches Ok(p) ==> p.octets() == old(buffer)@ && final(p.buffer)@ == final(buffer)@,
            r is Err ==> final(buffer)@ == old(buffer)@,
    {
        let packet = Self::new_unchecked(buffer);
        if packet.check_len().is_err() {
            return Err(Error);
        }
        Ok(packet)
    }

    /// Ensure that no accessor method will panic if called.
    /// Returns `Err(Error)` if the buffer is too short.
    pub fn check_len(&self) -> (r: Result<(), Error>)
        ensures
            r is Ok <==> self.octets().len() >= ICMPV4_HEADER_LEN,
    {
        if self.buffer.len() < ICMPV4_HEADER_LEN {
            Err(Error)
        } else {
            Ok(())
        }
    }

    /// Return the message type field.
    pub fn msg_type(&self) -> (r: Message)
        requires
            self.octets().len() >= 1,
        ensures
            r == Message::of_number(self.octets()[0]),
    {
        Message::from(self.buffer[0])
    }

    /// Return the message code field.
    pub fn msg_code(&self) -> (r: u8)
        requires
            self.octets().len() >= 2,
        ensures
            r == self.octets()[1],
    {
        self.buffer[1]
    }

    /// Return the checksum field.
    pub fn checksum(&self) -> (r: u16)
        requires
            self.octets().len() >= 4,
        ensures
            r == bytes::be16(self.octets(), 2),
    {
        bytes::get_u16(self.buffer, 2)
    }

    /// Return the identifier field (for echo request and reply packets).
    pub fn echo_ident(&self) -> (r: u16)
        requires
            self.octets().len() >= 6,
        ensures
            r == bytes::be16(self.octets(), 4),
    {
        bytes::get_u16(self.buffer, 4)
    }

    /// Return the sequence number field (for echo request and reply packets).
    pub fn echo_seq_no(&self) -> (r: u16)
        requires
            self.octets().len() >= 8,
        ensures
            r == bytes::be16(self.octets(), 6),
    {
        bytes::get_u16(self.buffer, 6)
    }

    /// Return the header length.
    pub fn header_len(&self) -> (r: usize)
        requires
            self.octets().len() >= 1,
        ensures
            r == ICMPV4_HEADER_LEN,
    {
        // Every message type has the same header length; unknown ones are
        // assumed to.
        match self.msg_type() {
            Message::EchoRequest => 8,
            Message::EchoReply => 8,
            Message::DstUnreachable => 8,
            _ => 8,
        }
    }

    /// Validate the header checksum.
    pub fn verify_checksum(&self) -> (r: bool)
        ensures
            r == checksum_ok(self.octets()),
    {
        verify_checksum(self.buffer)
    }

    /// Return a pointer to the type-specific data.
    pub fn data(&self) -> (r: &[u8])
        requires
            self.octets().len() >= ICMPV4_HEADER_LEN,
        ensures
            r@ == self.octets().skip(ICMPV4_HEADER_LEN as int),
    {
        let start: usize = self.header_len();
        let r = &self.buffer[start..self.buffer.len()];
        assert(r@ =~= self.octets().skip(ICMPV4_HEADER_LEN as int));
        r
    }

    /// Set the message type field.
    pub fn set_msg_type(&mut self, value: Message)
        requires
            old(self).octets().len() >= 1,
        ensures
            final(self).octets() == old(self).octets().update(0, value.number()),
            final(final(self).buffer)@ == final(old(self).buffer)@,
    {
        let number: u8 = u8::from(value);
        self.buffer[0] = number;
    }

    /// Set the message code field.
    pub fn set_msg_code(&mut self, value: u8)
        requires
            old(self).octets().len() >= 2,
        ensures
            final(self).octets() == old(self).octets().update(1, value),
            final(final(self).buffer)@ == final(old(self).buffer)@,
    {
        self.buffer[1] = value;
    }

    /// Set the checksum field.
    pub fn set_checksum(&mut self, value: u16)
        requires
            old(self).octets().len() >= 4,
        ensures
            final(self).octets() == bytes::overwrite(old(self).octets(), 2, bytes::octets16(value)),
            final(final(self).buffer)@ == final(old(self).buffer)@,
    {
        bytes::put_u16(self.buffer, 2, value);
    }

    /// Set the identifier field (for echo request and reply packets).
    pub fn set_echo_ident(&mut self, value: u16)
        requires
            old(self).octets().len() >= 6,
        ensures
            final(self).octets() == bytes::overwrite(old(self).octets(), 4, bytes::octets16(value)),
            final(final(self).buffer)@ == final(old(self).buffer)@,
    {
        bytes::put_u16(self.buffer, 4, value);
    }

    /// Set the sequence number field (for echo request and reply packets).
    pub fn set_echo_seq_no(&mut self, value: u16)
        requires
            old(self).octets().len() >= 8,
        ensures
            final(self).octets() == bytes::overwrite(old(self).octets(), 6, bytes::octets16(value)),
            final(final(self).buffer)@ == final(old(self).buffer)@,
    {
        bytes::put_u16(self.buffer, 6, value);
    }

    /// Zero the part of the header that error messages do not use.
    pub fn clear_unused(&mut self)
        requires
            old(self).octets().len() >= 8,
        ensures
            final(self).octets() == bytes::overwrite(old(self).octets(), 4, bytes::octets32(0)),
            final(final(self).buffer)@ == final(old(self).buffer)@,
    {
        bytes::put_u32(self.buffer, 4, 0);
    }

    /// Compute and fill in the header checksum.
    pub fn fill_checksum(&mut self)
        requires
            old(self).octets().len() >= 4,
        ensures
            final(self).octets() == with_checksum(old(self).octets()),
            final(final(self).buffer)@ == final(old(self).buffer)@,
    {
        self.set_checksum(0);
        let sum: u16 = 0xffff - checksum::data(self.buffer);
        self.set_checksum(sum);
    }

    /// Return a mutable pointer to the type-specific data.
    pub fn data_mut(&mut self) -> (r: &mut [u8])
        requires
            old(self).octets().len() >= ICMPV4_HEADER_LEN,
        ensures
            r@ == old(self).octets().skip(ICMPV4_HEADER_LEN as int),
            final(self).octets() == old(self).octets().take(ICMPV4_HEADER_LEN as int) + final(r)@,
            final(final(self).buffer)@ == final(old(self).buffer)@,
    {
        let start: usize = self.header_len();
        let (head, tail) = self.buffer.split_at_mut(start);
        assert(tail@ =~= old(self).octets().skip(ICMPV4_HEADER_LEN as int));
        assert(head@ =~= old(self).octets().take(ICMPV4_HEADER_LEN as int));
        tail
    }

    /// The whole message.
    pub fn as_ref(&self) -> (r: &[u8])
        ensures
            r@ == self.octets(),
    {
        &*self.buffer
    }
}

/// A message whose checksum was filled in verifies.
pub proof fn law_icmpv4_filled_checksum_verifies(data: Seq<u8>)
    requires
        data.len() >= 4,
    ensures
        checksum_ok(with_checksum(data)),
{
    let zeroed = bytes::overwrite(data, 2, bytes::octets16(0));
    let none = Seq::<u8>::empty();
    checksum::lemma_filled_zero_field(none, zeroed, 2);
    assert(none + zeroed =~= zeroed);
    assert(none + with_checksum(data) =~= with_checksum(data));
}

} // verus!
