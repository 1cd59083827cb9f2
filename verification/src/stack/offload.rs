//! Checksums left to the device.

use vstd::prelude::*;

use crate::buf::{PacketBuf, PacketView};
use crate::iface::ChecksumCapabilities;
use crate::wire::bytes;
use crate::wire::protocol::IpProtocol;

verus! {

/// Where the checksum stands in the messages of a protocol the stack sends.
pub open spec fn checksum_at(protocol: IpProtocol) -> int {
    match protocol {
        IpProtocol::Udp => 6,
        IpProtocol::Tcp => 16,
        _ => 2,
    }
}

/// Whether the stack, rather than the device, computes a protocol's checksum.
pub open spec fn stack_computes(caps: ChecksumCapabilities, protocol: IpProtocol) -> bool {
    match protocol {
        IpProtocol::Icmp => caps.icmpv4.tx_view(),
        IpProtocol::Icmpv6 => caps.icmpv6.tx_view(),
        IpProtocol::Udp => caps.udp.tx_view(),
        IpProtocol::Tcp => caps.tcp.tx_view(),
        _ => true,
    }
}

/// A message as it is sent: its checksum is zero if the device computes it.
pub open spec fn emitted(caps: ChecksumCapabilities, protocol: IpProtocol, message: Seq<u8>) -> Seq<u8> {
    if stack_computes(caps, protocol) || message.len() < checksum_at(protocol) + 2 {
        message
    } else {
        bytes::overwrite(message, checksum_at(protocol), bytes::octets16(0))
    }
}

/// Blank the checksum of a message if the device computes it.
pub fn blank_checksum(buf: &mut PacketBuf, caps: &ChecksumCapabilities, protocol: IpProtocol)
    requires
        old(buf).wf(),
    ensures
        final(buf).wf(),
        final(buf)@ == (PacketView { data: emitted(*caps, protocol, old(buf)@.data), ..old(buf)@ }),
{
    let computes = match protocol {
        IpProtocol::Icmp => caps.icmpv4.tx(),
        IpProtocol::Icmpv6 => caps.icmpv6.tx(),
        IpProtocol::Udp => caps.udp.tx(),
        IpProtocol::Tcp => caps.tcp.tx(),
        _ => true,
    };
    let at: usize = match protocol {
        IpProtocol::Udp => 6,
        IpProtocol::Tcp => 16,
        _ => 2,
    };
    if !computes && buf.len() >= at + 2 {
        bytes::put_u16(buf.as_mut_slice(), at, 0);
    }
}

} // verus!
