//! IPv6 extension headers carrying options (RFC 8200 §4.2).

use vstd::prelude::*;

use crate::wire::protocol::IpProtocol;
use crate::wire::Error;

verus! {

/// The Pad1 option: a single octet without a length.
pub const OPTION_PAD1: u8 = 0;

/// The PadN option.
pub const OPTION_PADN: u8 = 1;

/// The router alert option (RFC 2711).
pub const OPTION_ROUTER_ALERT: u8 = 5;

/// The length of the extension header `data` starts with.
pub open spec fn ext_header_len(data: Seq<u8>) -> int {
    (data[1] + 1) * 8
}

/// Whether the extension header is there in full.
pub open spec fn ext_well_formed(data: Seq<u8>) -> bool {
    data.len() >= 2 && ext_header_len(data) <= data.len()
}

/// The fields of an extension header.
#[derive(Debug, Clone, Copy)]
pub struct Ipv6ExtHeader {
    pub next_header: IpProtocol,
    pub header_len: usize,
}

impl Ipv6ExtHeader {
    /// Read an extension header. Fails exactly when it is not there in full.
    pub fn parse(data: &[u8]) -> (r: Result<Self, Error>)
        ensures
            r is Ok <==> ext_well_formed(data@),
            r matches Ok(h) ==> {
                &&& h.next_header == IpProtocol::of_number(data@[0])
                &&& h.header_len == ext_header_len(data@)
            },
    {
        if data.len() < 2 {
            return Err(Error);
        }
        let header_len: usize = (data[1] as usize + 1) * 8;
        if header_len > data.len() {
            return Err(Error);
        }
        Ok(Ipv6ExtHeader { next_header: IpProtocol::from_u8(data[0]), header_len })
    }
}

/// What to do about an option the node does not recognize, from the two high
/// bits of its type.
#[derive(Debug, Clone, Copy, PartialEq, Eq, Structural)]
pub enum OptionFailureAction {
    /// Skip over it.
    Skip,
    /// Discard the packet.
    Discard,
    /// Discard the packet and send a parameter problem.
    DiscardSendError,
    /// Discard the packet and send a parameter problem, unless the packet was
    /// sent to a multicast group.
    DiscardSendErrorIfUnicast,
}

impl OptionFailureAction {
    /// The action the type of an unrecognized option asks for.
    pub open spec fn of_type(option_type: u8) -> OptionFailureAction {
        if option_type / 64 == 0 {
            OptionFailureAction::Skip
        } else if option_type / 64 == 1 {
            OptionFailureAction::Discard
        } else if option_type / 64 == 2 {
            OptionFailureAction::DiscardSendError
        } else {
            OptionFailureAction::DiscardSendErrorIfUnicast
        }
    }

    /// The action the type of an unrecognized option asks for.
    pub fn from_type(option_type: u8) -> (r: OptionFailureAction)
        ensures
            r == Self::of_type(option_type),
    {
        let high: u8 = option_type / 64;
        if high == 0 {
            OptionFailureAction::Skip
        } else if high == 1 {
            OptionFailureAction::Discard
        } else if high == 2 {
            OptionFailureAction::DiscardSendError
        } else {
            OptionFailureAction::DiscardSendErrorIfUnicast
        }
    }
}

/// Whether the option at `at` is there in full.
pub open spec fn option_fits(options: Seq<u8>, at: int) -> bool {
    options[at] == OPTION_PAD1 || (at + 1 < options.len() && at + 2 + options[at + 1] <= options.len())
}

/// Where the option after the one at `at` starts.
pub open spec fn next_option(options: Seq<u8>, at: int) -> int {
    if options[at] == OPTION_PAD1 {
        at + 1
    } else {
        at + 2 + options[at + 1]
    }
}

/// Whether the node recognizes options of this type.
pub open spec fn option_recognized(option_type: u8) -> bool {
    option_type == OPTION_PAD1 || option_type == OPTION_PADN || option_type == OPTION_ROUTER_ALERT
}

/// The length of the option at the start of the slice, or an error if it is not
/// there in full.
pub fn option_len(options: &[u8], at: usize) -> (r: Result<usize, Error>)
    requires
        at < options@.len(),
    ensures
        r is Ok <==> option_fits(options@, at as int),
        r matches Ok(n) ==> at + n == next_option(options@, at as int) && n > 0 && at + n <= options@.len(),
{
    if options[at] == OPTION_PAD1 {
        return Ok(1);
    }
    if options.len() - at < 2 {
        return Err(Error);
    }
    let n: usize = 2 + options[at + 1] as usize;
    if n > options.len() - at {
        return Err(Error);
    }
    Ok(n)
}

} // verus!
