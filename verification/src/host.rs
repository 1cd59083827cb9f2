//! What the devices of a host operating system ask for: the numbers and names its
//! interfaces go by, and how long to wait for them.

use vstd::prelude::*;

use crate::iface::Medium;
use crate::time::{Duration, Instant};
use crate::wire::ethernet::ETHERNET_HEADER_LEN;

verus! {

/// The mode of a TUN interface: its frames are IP packets.
pub const IFF_TUN: i32 = 0x0001;

/// The mode of a TAP interface: its frames are Ethernet frames.
pub const IFF_TAP: i32 = 0x0002;

/// The flag of a TUN/TAP interface that puts nothing in front of its frames.
pub const IFF_NO_PI: i32 = 0x1000;

/// The protocol of a packet socket that gets every Ethernet frame.
pub const ETH_P_ALL: i16 = 0x0003;

/// The protocol of a packet socket that gets IEEE 802.15.4 frames.
pub const ETH_P_IEEE802154: i16 = 0x00f6;

/// How many octets an interface's name takes up, the unused ones zero.
pub const IF_NAMESIZE: usize = 16;

/// How much longer a frame is than what the host counts as an interface's MTU: on
/// Ethernet by the Ethernet header, on IEEE 802.15.4 by what an acknowledgement counts
/// for in the host's link-layer header.
pub open spec fn frame_overhead(medium: Medium) -> int {
    match medium {
        Medium::Ethernet => ETHERNET_HEADER_LEN as int,
        Medium::Ip => 0,
        Medium::Ieee802154 => 2,
    }
}

/// The longest frame of an interface whose MTU the host gives as `mtu`.
pub fn device_mtu(medium: Medium, mtu: usize) -> (r: usize)
    requires
        mtu + frame_overhead(medium) <= usize::MAX,
    ensures
        r == mtu + frame_overhead(medium),
{
    match medium {
        Medium::Ethernet => mtu + ETHERNET_HEADER_LEN,
        Medium::Ip => mtu,
        Medium::Ieee802154 => mtu + 2,
    }
}

/// The flags a TUN/TAP interface is attached with. There is none for IEEE 802.15.4.
pub fn tun_tap_flags(medium: Medium) -> (r: Option<i32>)
    ensures
        r == (match medium {
            Medium::Ip => Some(0x1001i32),
            Medium::Ethernet => Some(0x1002i32),
            Medium::Ieee802154 => None,
        }),
{
    match medium {
        Medium::Ip => Some(IFF_TUN + IFF_NO_PI),
        Medium::Ethernet => Some(IFF_TAP + IFF_NO_PI),
        Medium::Ieee802154 => None,
    }
}

/// The protocol a packet socket is opened for. Packet sockets carry link-layer frames,
/// not bare IP packets.
pub fn packet_protocol(medium: Medium) -> (r: Option<i16>)
    ensures
        r == (match medium {
            Medium::Ethernet => Some(ETH_P_ALL),
            Medium::Ieee802154 => Some(ETH_P_IEEE802154),
            Medium::Ip => None,
        }),
{
    match medium {
        Medium::Ethernet => Some(ETH_P_ALL),
        Medium::Ieee802154 => Some(ETH_P_IEEE802154),
        Medium::Ip => None,
    }
}

/// The name of an interface as the host takes it: its octets, then zeros. `None` if it is
/// too long.
pub fn interface_name(name: &[u8]) -> (r: Option<[u8; 16]>)
    ensures
        r is Some <==> name@.len() <= IF_NAMESIZE,
        r matches Some(octets) ==> octets@ == name@ + Seq::new((IF_NAMESIZE - name@.len()) as nat, |i: int| 0u8),
{
    if name.len() > IF_NAMESIZE {
        return None;
    }
    let mut octets: [u8; 16] = [0u8; 16];
    let mut i: usize = 0;
    while i < name.len()
        invariant
            i <= name@.len() <= IF_NAMESIZE,
            forall|k: int| 0 <= k < i ==> octets@[k] == name@[k],
            forall|k: int| i <= k < IF_NAMESIZE ==> octets@[k] == 0,
        decreases name@.len() - i,
    {
        octets[i] = name[i];
        i += 1;
    }
    assert(octets@ =~= name@ + Seq::new((IF_NAMESIZE - name@.len()) as nat, |i: int| 0u8));
    Some(octets)
}

/// How long to wait until `deadline`: not at all if it is past, and `None`, for as long
/// as it takes, if it never comes.
pub fn time_left(deadline: Instant, now: Instant) -> (r: Option<Duration>)
    requires
        0 <= now.micros,
    ensures
        r is None <==> deadline.micros == i64::MAX,
        r matches Some(d) ==> d.micros == if deadline.micros <= now.micros {
            0
        } else {
            deadline.micros - now.micros
        },
{
    if deadline.micros == i64::MAX {
        None
    } else if deadline.micros <= now.micros {
        Some(Duration { micros: 0 })
    } else {
        Some(Duration { micros: (deadline.micros - now.micros) as u64 })
    }
}

} // verus!
