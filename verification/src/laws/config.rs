//! Interfaces, their addresses, routes and clocks.

use vstd::arithmetic::power2::pow2;
use vstd::prelude::*;

use crate::buf::PacketView;
use crate::iface::{IfaceCapabilities, IfaceHandle, Medium};
use crate::neighbor;
use crate::pending;
use crate::pending::PendingView;
use crate::rand::Rand;
use crate::route;
use crate::route::Route;
use crate::stack::api;
use crate::stack::iface;
use crate::stack::iface_state;
use crate::stack::iface_state::{AddrOrigin, IfaceAddr, IfaceModel};
use crate::stack::network::NetModel;
use crate::stack::poll;
use crate::stack::state::StackModel;
use crate::storage::slab;
use crate::time::Instant;
use crate::wire::cidr::IpCidr;
use crate::wire::ethernet::EthernetAddress;
use crate::wire::ip::IpAddress;
use crate::wire::HardwareAddress;

verus! {

proof fn lemma_flipped(x: u8)
    by (bit_vector)
    ensures
        (x ^ 2u8) == if x / 2 % 2 == 0 {
            x + 2
        } else {
            x - 2
        },
{
}

/// The address that an interface makes up for itself: fe80::/64, and its hardware address
/// with ff:fe in the middle and the bit of 2 in the first octet turned over.
pub proof fn law_link_local_address(mac: EthernetAddress)
    ensures
        iface_state::link_local_of(HardwareAddress::Ip) is None,
        iface_state::link_local_of(HardwareAddress::Ethernet(mac)) is Some,
        ({
            let addr = iface_state::link_local_of(HardwareAddress::Ethernet(mac))->0;
            let o = addr.cidr.address_view().octets_view();
            &&& addr.origin == AddrOrigin::LinkLocal
            &&& addr.cidr is Ipv6
            &&& addr.cidr.prefix_len_view() == 64
            &&& o[0] == 0xfe && o[1] == 0x80
            &&& forall|k: int| 2 <= k < 8 ==> #[trigger] o[k] == 0
            &&& o[8] == if mac.0@[0] / 2 % 2 == 0 {
                mac.0@[0] + 2
            } else {
                mac.0@[0] - 2
            }
            &&& o[9] == mac.0@[1] && o[10] == mac.0@[2]
            &&& o[11] == 0xff && o[12] == 0xfe
            &&& o[13] == mac.0@[3] && o[14] == mac.0@[4] && o[15] == mac.0@[5]
        }),
{
    lemma_flipped(mac.0@[0]);
}

/// Whether none of the addresses is the given one.
pub open spec fn lacks(addrs: Seq<IfaceAddr>, addr: IpAddress) -> bool {
    forall|i: int| 0 <= i < addrs.len() ==> (#[trigger] addrs[i]).cidr.address_view() != addr
}

proof fn lemma_first(addrs: Seq<IfaceAddr>, addr: IpAddress, i: int)
    requires
        0 <= i < addrs.len(),
        addrs[i].cidr.address_view() == addr,
        lacks(addrs.take(i), addr),
    ensures
        iface::addr_index(addrs, addr, 0) == Some(i),
{
    iface::lemma_addr_index(addrs, addr, 0);
    assert forall|k: int| 0 <= k < i implies (#[trigger] addrs[k]).cidr.address_view() != addr by {
        assert(addrs.take(i)[k] == addrs[k]);
    }
    iface::lemma_index_at(addrs, addr, 0, i);
}

/// A new address is added behind the others, of which there are eight at most; nothing else
/// about the interface or its neighbors changes but the count of changes, which goes up by one.
pub proof fn law_new_address_is_added(net: NetModel, iface: IfaceHandle, cidr: IpCidr)
    requires
        net.has_iface(iface),
        lacks(net.iface(iface).ip_addrs, cidr.address_view()),
    ensures
        ({
            let before = net.iface(iface);
            let after = iface::addr_added(net, iface, cidr);
            if before.ip_addrs.len() >= 8 {
                after is None
            } else {
                &&& after is Some
                &&& after->0.inner == net.inner
                &&& after->0.iface(iface).ip_addrs == before.ip_addrs.push(
                    IfaceAddr { cidr, origin: AddrOrigin::Manual },
                )
                &&& after->0.iface(iface).config_generation == (before.config_generation + 1) % 0x1_0000_0000
                &&& after->0.iface(iface).tx == before.tx
                &&& after->0.iface(iface).rx == before.rx
                &&& forall|j: int|
                    0 <= j < net.ifaces.len() && j != iface.0 ==> #[trigger] after->0.ifaces[j] == net.ifaces[j]
            }
        }),
{
    iface::lemma_addr_index(net.iface(iface).ip_addrs, cidr.address_view(), 0);
}

/// An address that is there with another prefix gets the new one, in its place, and what is
/// known of neighbors on the interface is forgotten. One that is there with the same prefix
/// makes no difference.
pub proof fn law_address_gets_new_prefix(net: NetModel, iface: IfaceHandle, cidr: IpCidr, i: int)
    requires
        net.has_iface(iface),
        0 <= i < net.iface(iface).ip_addrs.len(),
        net.iface(iface).ip_addrs[i].cidr.address_view() == cidr.address_view(),
        lacks(net.iface(iface).ip_addrs.take(i), cidr.address_view()),
    ensures
        ({
            let before = net.iface(iface);
            let after = iface::addr_added(net, iface, cidr);
            &&& after is Some
            &&& if before.ip_addrs[i].cidr == cidr {
                after->0 == net
            } else {
                &&& after->0.iface(iface).ip_addrs.len() == before.ip_addrs.len()
                &&& after->0.iface(iface).ip_addrs[i].cidr == cidr
                &&& forall|j: int|
                    0 <= j < before.ip_addrs.len() && j != i ==> #[trigger] after->0.iface(iface).ip_addrs[j]
                        == before.ip_addrs[j]
                &&& after->0.iface(iface).config_generation == (before.config_generation + 1) % 0x1_0000_0000
                &&& forgotten(net, after->0, iface)
            }
        }),
{
    lemma_first(net.iface(iface).ip_addrs, cidr.address_view(), i);
    let ip_addrs = iface::addr_put(net.iface(iface).ip_addrs, cidr);
    lemma_forgotten(net, iface, IfaceModel { ip_addrs, ..net.iface(iface) });
}

/// Whether all that is known of neighbors on an interface is forgotten, and the packets that
/// wait for them, and nothing of other interfaces.
pub open spec fn forgotten(before: NetModel, after: NetModel, iface: IfaceHandle) -> bool {
    &&& after.inner.cache == before.inner.cache.filter(|e: (neighbor::Key, neighbor::State)| e.0.0 != iface)
    &&& after.inner.pending == before.inner.pending.filter(|p: PendingView| p.key.0 != iface)
    &&& after.inner.now == before.inner.now
    &&& after.inner.rand == before.inner.rand
}

proof fn lemma_forgotten(net: NetModel, iface: IfaceHandle, state: IfaceModel)
    ensures
        forgotten(net, iface::invalidated(net, iface, state), iface),
{
    assert((|e: (neighbor::Key, neighbor::State)| e.0.0 != iface) =~= neighbor::off_iface(iface));
    assert((|p: PendingView| p.key.0 != iface) =~= pending::off_iface(iface));
}

/// An address that is removed is gone, the others stay in their order, and what is known of
/// neighbors on the interface is forgotten. To remove one that is not there makes no difference.
pub proof fn law_removed_address_is_gone(net: NetModel, iface: IfaceHandle, addr: IpAddress, i: int)
    requires
        net.has_iface(iface),
    ensures
        lacks(net.iface(iface).ip_addrs, addr) ==> iface::addr_removed(net, iface, addr) == net,
        0 <= i < net.iface(iface).ip_addrs.len() && net.iface(iface).ip_addrs[i].cidr.address_view() == addr && lacks(
            net.iface(iface).ip_addrs.take(i),
            addr,
        ) ==> {
            let before = net.iface(iface);
            let after = iface::addr_removed(net, iface, addr);
            &&& after.iface(iface).ip_addrs == before.ip_addrs.take(i) + before.ip_addrs.skip(i + 1)
            &&& after.iface(iface).config_generation == (before.config_generation + 1) % 0x1_0000_0000
            &&& forgotten(net, after, iface)
        },
{
    let addrs = net.iface(iface).ip_addrs;
    iface::lemma_addr_index(addrs, addr, 0);
    if 0 <= i < addrs.len() && addrs[i].cidr.address_view() == addr && lacks(addrs.take(i), addr) {
        lemma_first(addrs, addr, i);
        lemma_forgotten(net, iface, IfaceModel { ip_addrs: addrs.remove(i), ..net.iface(iface) });
        assert(addrs.remove(i) =~= addrs.take(i) + addrs.skip(i + 1));
    }
}

/// With a new hardware address an interface drops the address that it made up from the old
/// one, keeps those that it was given, and makes up a new one if there is room.
pub proof fn law_new_hardware_address(net: NetModel, iface: IfaceHandle, mac: EthernetAddress)
    requires
        net.has_iface(iface),
    ensures
        ({
            let hardware = HardwareAddress::Ethernet(mac);
            let after = iface::hardware_addr_set(net, iface, hardware).iface(iface);
            let kept = net.iface(iface).ip_addrs.filter(|a: IfaceAddr| a.origin != AddrOrigin::LinkLocal);
            &&& after.hardware_addr == hardware
            &&& after.ip_addrs == if kept.len() < 8 {
                kept.push(iface_state::link_local_of(hardware)->0)
            } else {
                kept
            }
            &&& forgotten(net, iface::hardware_addr_set(net, iface, hardware), iface)
        }),
{
    let hardware = HardwareAddress::Ethernet(mac);
    let given = |a: IfaceAddr| a.origin != AddrOrigin::LinkLocal;
    assert(given =~= iface::not_derived());
    let state = net.iface(iface);
    lemma_forgotten(
        net,
        iface,
        IfaceModel {
            hardware_addr: hardware,
            ip_addrs: iface::addrs_rederived(state.ip_addrs, hardware),
            ..state
        },
    );
}

/// With an interface go its neighbors, the packets that wait for them, and the routes through
/// it; all other routes stay in their order.
pub proof fn law_removed_interface_is_gone(net: NetModel, iface: IfaceHandle)
    requires
        net.has_iface(iface),
    ensures
        ({
            let after = api::iface_removed(net, iface);
            &&& after.ifaces.len() == net.ifaces.len()
            &&& after.ifaces[iface.0 as int] is None
            &&& forall|j: int|
                0 <= j < net.ifaces.len() && j != iface.0 ==> #[trigger] after.ifaces[j] == net.ifaces[j]
            &&& after.inner.routes == net.inner.routes.filter(|r: Route| r.iface != iface)
            &&& forgotten(net, after, iface)
        }),
{
    lemma_forgotten(net, iface, net.iface(iface));
    assert((|r: Route| r.iface != iface) =~= route::off_iface(iface));
}

/// A new interface has the address that it makes up for itself and no other, nothing received
/// and nothing to send.
pub proof fn law_new_interface(
    net: NetModel,
    handle: IfaceHandle,
    caps: IfaceCapabilities,
    hardware_addr: HardwareAddress,
)
    requires
        slab::is_next_slot(net.ifaces, handle.0 as int),
    ensures
        ({
            let after = api::iface_added(net, handle, caps, hardware_addr);
            let state = after.iface(handle);
            &&& after.inner == net.inner
            &&& after.ifaces[handle.0 as int] is Some
            &&& forall|j: int|
                0 <= j < net.ifaces.len() && j != handle.0 ==> #[trigger] after.ifaces[j] == net.ifaces[j]
            &&& state.handle == handle
            &&& state.caps == caps
            &&& state.hardware_addr == hardware_addr
            &&& state.rx.len() == 0
            &&& state.tx.len() == 0
            &&& hardware_addr is Ip ==> state.ip_addrs.len() == 0
            &&& hardware_addr is Ethernet ==> state.ip_addrs.len() == 1 && Some(state.ip_addrs[0])
                == iface_state::link_local_of(hardware_addr)
        }),
{
}

/// An IP packet may be as long as the device takes, less the 14 octets of a frame's header on
/// Ethernet, and 1522 octets at most.
pub proof fn law_longest_packet(state: IfaceModel)
    ensures
        ({
            let most = if state.caps.medium == Medium::Ethernet {
                state.caps.max_transmission_unit - 14
            } else {
                state.caps.max_transmission_unit as int
            };
            state.ip_mtu() == if most < 1522 {
                most
            } else {
                1522
            }
        }),
{
}

/// A default route set anew takes the place of every default route of its IP version, and of
/// no other route.
pub proof fn law_default_route_is_replaced(routes: Seq<Route>, v4: bool, r: Route)
    ensures
        r.is_default(v4) == (r.cidr is Ipv4 == v4 && r.cidr.prefix_len_view() == 0),
        routes.filter(route::not_default(v4)) == routes.filter(
            |r: Route| !(r.cidr is Ipv4 == v4 && r.cidr.prefix_len_view() == 0),
        ),
        match route::last_default(routes, v4, routes.len() as int) {
            Some(last) => exists|i: int|
                {
                    &&& 0 <= i < routes.len()
                    &&& #[trigger] routes[i] == last
                    &&& last.cidr is Ipv4 == v4
                    &&& last.cidr.prefix_len_view() == 0
                    &&& forall|j: int|
                        i < j < routes.len() ==> !((#[trigger] routes[j]).cidr is Ipv4 == v4
                            && routes[j].cidr.prefix_len_view() == 0)
                },
            None => forall|i: int|
                0 <= i < routes.len() ==> !((#[trigger] routes[i]).cidr is Ipv4 == v4
                    && routes[i].cidr.prefix_len_view() == 0),
        },
{
    let other = |r: Route| !(r.cidr is Ipv4 == v4 && r.cidr.prefix_len_view() == 0);
    assert(other =~= route::not_default(v4));
    lemma_last_default(routes, v4, routes.len() as int);
}

proof fn lemma_last_default(routes: Seq<Route>, v4: bool, n: int)
    requires
        0 <= n <= routes.len(),
    ensures
        match route::last_default(routes, v4, n) {
            Some(last) => exists|i: int|
                {
                    &&& 0 <= i < n
                    &&& #[trigger] routes[i] == last
                    &&& last.is_default(v4)
                    &&& forall|j: int| i < j < n ==> !(#[trigger] routes[j]).is_default(v4)
                },
            None => forall|i: int| 0 <= i < n ==> !(#[trigger] routes[i]).is_default(v4),
        },
    decreases n,
{
    if n > 0 {
        if routes[n - 1].is_default(v4) {
            assert(routes[n - 1] == route::last_default(routes, v4, n)->0);
        } else {
            lemma_last_default(routes, v4, n - 1);
            if let Some(last) = route::last_default(routes, v4, n - 1) {
                let i = choose|i: int|
                    {
                        &&& 0 <= i < n - 1
                        &&& #[trigger] routes[i] == last
                        &&& last.is_default(v4)
                        &&& forall|j: int| i < j < n - 1 ==> !(#[trigger] routes[j]).is_default(v4)
                    };
                assert(routes[i] == last);
            }
        }
    }
}

/// When time goes on, the packets that have waited until their time are dropped, and no others.
pub proof fn law_time_goes_on(stack: StackModel, now: Instant)
    ensures
        ({
            let after = poll::advanced(stack, now);
            &&& after.net.inner.now == now
            &&& after.net.inner.pending == stack.net.inner.pending.filter(
                |p: PendingView| p.expires_at.micros > now.micros,
            )
            &&& after.net.inner.cache == stack.net.inner.cache
            &&& after.net.inner.routes == stack.net.inner.routes
            &&& after.net.ifaces == stack.net.ifaces
            &&& after.udp == stack.udp
            &&& after.tcp == stack.tcp
            &&& after.raw == stack.raw
            &&& after.listeners == stack.listeners
        }),
{
    assert((|p: PendingView| p.expires_at.micros > now.micros) =~= pending::still_waits(now));
}

/// Frames are taken in the order in which they came: the last one finds the stack as the
/// earlier ones left it, and none of those that come later makes a difference to them.
pub proof fn law_frames_are_taken_in_turn(
    stack: StackModel,
    iface: IfaceHandle,
    frames: Seq<PacketView>,
    last: PacketView,
)
    ensures
        poll::frames_processed(stack, iface, frames.push(last), frames.len() as int + 1)
            == crate::stack::ingress::frame_processed(
            poll::frames_processed(stack, iface, frames, frames.len() as int),
            iface,
            last,
        ),
        poll::frames_processed(stack, iface, frames, 0) == stack,
{
    lemma_prefix(stack, iface, frames, frames.push(last), frames.len() as int);
}

proof fn lemma_prefix(stack: StackModel, iface: IfaceHandle, a: Seq<PacketView>, b: Seq<PacketView>, n: int)
    requires
        0 <= n <= a.len(),
        n <= b.len(),
        forall|i: int| 0 <= i < n ==> #[trigger] a[i] == b[i],
    ensures
        poll::frames_processed(stack, iface, a, n) == poll::frames_processed(stack, iface, b, n),
    decreases n,
{
    if n > 0 {
        lemma_prefix(stack, iface, a, b, n - 1);
        assert(a[n - 1] == b[n - 1]);
    }
}

/// The frames that came in by an interface are taken once its timers have been looked after,
/// and are then gone.
pub proof fn law_frames_are_taken_once(stack: StackModel, iface: IfaceHandle)
    ensures
        ({
            let looked = crate::stack::timers::timers_polled(stack, iface);
            let frames = looked.net.iface(iface).rx;
            let taken = poll::rx_taken(looked.net, iface);
            &&& poll::iface_polled(stack, iface) == poll::frames_processed(
                looked.with_net(taken),
                iface,
                frames,
                frames.len() as int,
            )
            &&& looked.net.has_iface(iface) ==> taken.iface(iface).rx.len() == 0
            &&& looked.net.has_iface(iface) ==> taken.iface(iface).tx == looked.net.iface(iface).tx
            &&& taken.inner == looked.net.inner
        }),
{
}

proof fn lemma_low_half(x: u64)
    by (bit_vector)
    ensures
        x as u32 == x % 0x1_0000_0000,
{
}

/// The random numbers: a linear recurrence, of which each number takes 32 bits, further down
/// the larger the three top bits.
pub proof fn law_random_numbers(rand: Rand)
    ensures
        ({
            let s = rand.next().state;
            let top = s as int / 0x2000_0000_0000_0000;
            &&& s == (rand.state * 0xbb2e_fcec_3c39_611d + 0x7590_ef39) % 0x1_0000_0000_0000_0000
            &&& rand.value() == s as int / (pow2((29 - top) as nat) as int) % 0x1_0000_0000
        }),
{
    lemma_recurrence(rand);
    lemma_taken_bits(rand.next().state);
}

proof fn lemma_recurrence(rand: Rand)
    ensures
        rand.next().state == (rand.state * 0xbb2e_fcec_3c39_611d + 0x7590_ef39) % 0x1_0000_0000_0000_0000,
{
    let m = rand.state.wrapping_mul(0xbb2e_fcec_3c39_611d);
    let p = rand.state * 0xbb2e_fcec_3c39_611d;
    assert(m == p % 0x1_0000_0000_0000_0000);
    lemma_late_carry(p);
    assert(rand.next().state == (m + 0x7590_ef39) % 0x1_0000_0000_0000_0000);
}

proof fn lemma_late_carry(p: int)
    ensures
        (p % 0x1_0000_0000_0000_0000 + 0x7590_ef39) % 0x1_0000_0000_0000_0000 == (p + 0x7590_ef39)
            % 0x1_0000_0000_0000_0000,
{
}

proof fn lemma_taken_bits(s: u64)
    ensures
        (s >> ((29 - (s >> 61)) as u64)) as u32 == s as int / (pow2(
            (29 - s as int / 0x2000_0000_0000_0000) as nat,
        ) as int) % 0x1_0000_0000,
{
    assert(s >> 61u64 == s / 0x2000_0000_0000_0000u64) by (bit_vector);
    let shift = (29 - (s >> 61)) as u64;
    assert(shift <= 29);
    vstd::bits::lemma_u64_shr_is_div(s, shift);
    lemma_low_half(s >> shift);
}

/// A new stack holds nothing, and its time starts at zero.
pub proof fn law_new_stack_is_empty(seed: u64)
    ensures
        ({
            let stack = api::empty_stack(seed);
            &&& stack.net.ifaces.len() == 0
            &&& stack.net.inner.cache.len() == 0
            &&& stack.net.inner.pending.len() == 0
            &&& stack.net.inner.routes.len() == 0
            &&& stack.net.inner.now.micros == 0
            &&& stack.net.inner.rand.state == seed
            &&& stack.udp.len() == 0
            &&& stack.tcp.len() == 0
            &&& stack.raw.len() == 0
            &&& stack.listeners.len() == 0
        }),
{
}

/// Polling sets the time and then polls the interfaces there are, from the first slot to the
/// last: each finds the stack as those before it left it.
pub proof fn law_interfaces_are_polled_in_turn(stack: StackModel, now: Instant, n: int)
    requires
        0 <= n < stack.net.ifaces.len(),
    ensures
        ({
            let before = poll::ifaces_polled(stack, n);
            &&& poll::ifaces_polled(stack, 0) == stack
            &&& stack.net.ifaces[n] is None ==> poll::ifaces_polled(stack, n + 1) == before
            &&& stack.net.ifaces[n] is Some ==> poll::ifaces_polled(stack, n + 1) == poll::iface_polled(
                before,
                IfaceHandle(n as usize),
            )
            &&& poll::polled(stack, now) == poll::ifaces_polled(
                poll::advanced(stack, now),
                stack.net.ifaces.len() as int,
            )
        }),
{
}

/// A frame is longer than what it carries by 14 octets on Ethernet and by 2 on a low-power
/// link.
pub proof fn law_frames_are_longer_than_packets()
    ensures
        crate::host::frame_overhead(Medium::Ethernet) == 14,
        crate::host::frame_overhead(Medium::Ip) == 0,
        crate::host::frame_overhead(Medium::Ieee802154) == 2,
{
}

} // verus!
