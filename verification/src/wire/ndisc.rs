//! Neighbor discovery messages and their options (RFC 4861).

use vstd::prelude::*;

use crate::wire::bytes;
use crate::wire::ethernet::EthernetAddress;
use crate::wire::ip::Ipv6Address;
use crate::wire::Error;
use crate::wire::RawHardwareAddress;

verus! {

/// Option: the sender's link-layer address.
pub const SOURCE_LINK_LAYER_ADDR: u8 = 1;

/// Option: the target's link-layer address.
pub const TARGET_LINK_LAYER_ADDR: u8 = 2;

/// Option: a prefix on the link.
pub const PREFIX_INFORMATION: u8 = 3;

/// Option: the redirected packet.
pub const REDIRECTED_HEADER: u8 = 4;

/// Option: the link's MTU.
pub const MTU: u8 = 5;

/// Flag of a neighbor advertisement: the sender is a router.
pub const FLAG_ROUTER: u8 = 0x80;

/// Flag of a neighbor advertisement: it answers a solicitation.
pub const FLAG_SOLICITED: u8 = 0x40;

/// Flag of a neighbor advertisement: it should replace a cached address.
pub const FLAG_OVERRIDE: u8 = 0x20;

/// The length of the option at `at`, in octets.
pub open spec fn option_len(options: Seq<u8>, at: int) -> int {
    options[at + 1] * 8
}

/// Whether the option at `at` is there in full and long enough for its type.
pub open spec fn option_ok(options: Seq<u8>, at: int) -> bool {
    let len = option_len(options, at);
    &&& options.len() - at >= 8
    &&& 8 <= len <= options.len() - at
    &&& options[at] == PREFIX_INFORMATION ==> len >= 32
}

/// Check that the option at `at` is well-formed, returning its length.
pub fn option_at(options: &[u8], at: usize) -> (r: Result<usize, Error>)
    requires
        at < options@.len(),
    ensures
        r is Ok <==> option_ok(options@, at as int),
        r matches Ok(len) ==> len == option_len(options@, at as int) && 0 < len <= options@.len() - at,
{
    let rest: usize = options.len() - at;
    if rest < 8 {
        return Err(Error);
    }
    let len: usize = options[at + 1] as usize * 8;
    if len > rest || len == 0 || (options[at] == PREFIX_INFORMATION && len < 32) {
        return Err(Error);
    }
    Ok(len)
}

/// The link-layer address carried by the last option of type `wanted` among the
/// options from `at` on, or `found` if there is none. `None` if the options are
/// malformed.
pub open spec fn lladdr_walk(options: Seq<u8>, wanted: u8, at: int, found: Option<Seq<u8>>) -> Option<
    Option<Seq<u8>>,
>
    decreases options.len() - at,
{
    if at >= options.len() || at < 0 {
        Some(found)
    } else if !option_ok(options, at) {
        None
    } else {
        let next = if options[at] == wanted {
            Some(options.subrange(at + 2, at + 8))
        } else {
            found
        };
        lladdr_walk(options, wanted, at + option_len(options, at), next)
    }
}

/// The link-layer address the options of a neighbor solicitation or
/// advertisement carry. `None` if the options are malformed.
pub open spec fn lladdr_option_view(options: Seq<u8>, wanted: u8) -> Option<Option<Seq<u8>>> {
    lladdr_walk(options, wanted, 0, None)
}

/// Scan the options of a neighbor solicitation or advertisement for the (source or
/// target) link-layer address option.
pub fn lladdr_option(options: &[u8], wanted: u8) -> (r: Result<Option<RawHardwareAddress>, Error>)
    ensures
        r is Err <==> lladdr_option_view(options@, wanted) is None,
        r matches Ok(found) ==> lladdr_option_view(options@, wanted) == Some(
            match found {
                Some(addr) => Some(addr.octets()),
                None => None,
            },
        ),
        r matches Ok(Some(addr)) ==> addr.wf() && addr.octets().len() == 6,
{
    let mut lladdr: Option<RawHardwareAddress> = None;
    let mut at: usize = 0;
    while at < options.len()
        invariant
            at <= options@.len(),
            lladdr_walk(
                options@,
                wanted,
                at as int,
                match lladdr {
                    Some(addr) => Some(addr.octets()),
                    None => None,
                },
            ) == lladdr_option_view(options@, wanted),
            lladdr matches Some(addr) ==> addr.wf() && addr.octets().len() == 6,
        decreases options@.len() - at,
    {
        match option_at(options, at) {
            Ok(len) => {
                if options[at] == wanted {
                    let addr = RawHardwareAddress::from_bytes(&options[at + 2..at + 8]);
                    lladdr = Some(addr);
                }
                at += len;
            },
            Err(_) => {
                return Err(Error);
            },
        }
    }
    Ok(lladdr)
}

/// The octets of a neighbor solicitation or advertisement with one link-layer
/// address option, its checksum zero.
pub open spec fn neighbor_message_octets(
    msg_type: u8,
    flags: u8,
    target: Seq<u8>,
    option_type: u8,
    lladdr: Seq<u8>,
) -> Seq<u8> {
    seq![msg_type, 0u8, 0u8, 0u8, flags, 0u8, 0u8, 0u8] + target + seq![option_type, 1u8] + lladdr
}

/// The octets of a neighbor solicitation or advertisement with one link-layer
/// address option, its checksum zero.
pub fn neighbor_message(
    msg_type: u8,
    flags: u8,
    target: Ipv6Address,
    option_type: u8,
    lladdr: EthernetAddress,
) -> (r: Vec<u8>)
    ensures
        r@ == neighbor_message_octets(msg_type, flags, target.0@, option_type, lladdr.0@),
        r@.len() == 32,
{
    let mut out: Vec<u8> = Vec::new();
    out.push(msg_type);
    out.push(0);
    out.push(0);
    out.push(0);
    out.push(flags);
    out.push(0);
    out.push(0);
    out.push(0);
    bytes::push_bytes(&mut out, &target.0);
    out.push(option_type);
    out.push(1);
    bytes::push_bytes(&mut out, lladdr.as_bytes());
    assert(out@ =~= neighbor_message_octets(msg_type, flags, target.0@, option_type, lladdr.0@));
    out
}

/// The link-layer address put into a solicitation or advertisement is read back
/// out of it.
pub proof fn law_lladdr_round_trip(
    msg_type: u8,
    flags: u8,
    target: Seq<u8>,
    option_type: u8,
    lladdr: Seq<u8>,
)
    requires
        target.len() == 16,
        lladdr.len() == 6,
        option_type == SOURCE_LINK_LAYER_ADDR || option_type == TARGET_LINK_LAYER_ADDR,
    ensures
        ({
            let message = neighbor_message_octets(msg_type, flags, target, option_type, lladdr);
            &&& message.subrange(8, 24) == target
            &&& lladdr_option_view(message.skip(24), option_type) == Some(Some(lladdr))
        }),
{
    let message = neighbor_message_octets(msg_type, flags, target, option_type, lladdr);
    let options = message.skip(24);
    assert(message.subrange(8, 24) =~= target);
    assert(options =~= seq![option_type, 1u8] + lladdr);
    assert(options.subrange(2, 8) =~= lladdr);
    reveal_with_fuel(lladdr_walk, 3);
}

} // verus!
