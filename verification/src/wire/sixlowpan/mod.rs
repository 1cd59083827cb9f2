//! 6LoWPAN: IPv6 over IEEE 802.15.4 (RFC 4944, RFC 6282).

use vstd::prelude::*;

use crate::wire::protocol::IpProtocol;

pub mod frag;
pub mod nhc;

verus! {

/// The dispatch bits of a first fragment header.
pub const DISPATCH_FIRST_FRAGMENT_HEADER: u8 = 0b11000;

/// The dispatch bits of a subsequent fragment header.
pub const DISPATCH_FRAGMENT_HEADER: u8 = 0b11100;

/// The dispatch bits of a compressed extension header.
pub const DISPATCH_EXT_HEADER: u8 = 0b1110;

/// The dispatch bits of a compressed UDP header.
pub const DISPATCH_UDP_HEADER: u8 = 0b11110;

/// The next header field of a compressed header.
#[derive(Debug, Clone, Copy, PartialEq, Eq, Structural)]
pub enum NextHeader {
    /// The next header is compressed too, and says itself what it is.
    Compressed,
    /// The next header is carried as it is.
    Uncompressed(IpProtocol),
}

} // verus!
