//! The stack as the application sees it: what can be added to it, removed from it and
//! borrowed from it.

use vstd::prelude::*;

use crate::config::{
    IFACE_COUNT, RAW_SOCKET_COUNT, TCP_LISTENER_COUNT, TCP_SOCKET_COUNT, UDP_SOCKET_COUNT,
};
use crate::iface::{IfaceCapabilities, IfaceHandle, Medium};
use crate::neighbor;
use crate::neighbor::Cache;
use crate::pending::PendingQueue;
use crate::rand::Rand;
use crate::raw;
use crate::raw::{RawHandle, RawModel, RawSocket, RawSocketState};
use crate::route;
use crate::route::Routes;
use crate::stack::iface::Iface;
use crate::stack::iface_state;
use crate::stack::iface_state::{link_local_addr, IfaceAddr, IfaceModel, IfaceState};
use crate::stack::link;
use crate::stack::link::{InnerModel, StackInner};
use crate::stack::network;
use crate::stack::network::{NetModel, Network};
use crate::stack::state::{Sockets, Stack, StackModel};
use crate::storage::slab;
use crate::storage::slab::Slab;
use crate::storage::Full;
use crate::tcp;
use crate::tcp::listener::{ListenerModel, TcpListener, TcpListenerHandle, TcpListenerState};
use crate::tcp::socket::{TcpHandle, TcpModel, TcpSocket, TcpSocketState, MAX_RX_CAPACITY};
use crate::time::Instant;
use crate::udp;
use crate::udp::demux;
use crate::udp::demux::UdpModel;
use crate::udp::socket::{UdpHandle, UdpSocket, UdpSocketState};
use crate::waker::WakerRegistration;
use crate::wire::ethernet::ETHERNET_HEADER_LEN;
use crate::wire::HardwareAddress;

verus! {

/// A stack without interfaces and sockets.
pub open spec fn empty_stack(random_seed: u64) -> StackModel {
    StackModel {
        net: NetModel {
            inner: InnerModel {
                now: Instant { micros: 0 },
                rand: Rand { state: random_seed },
                cache: Seq::empty(),
                pending: Seq::empty(),
                routes: Seq::empty(),
            },
            ifaces: Seq::empty(),
        },
        udp: Seq::empty(),
        raw: Seq::empty(),
        tcp: Seq::empty(),
        listeners: Seq::empty(),
    }
}

/// The addresses an interface starts with: the derived one, if there is one.
pub open spec fn initial_addrs(hardware_addr: HardwareAddress) -> Seq<IfaceAddr> {
    match iface_state::link_local_of(hardware_addr) {
        Some(addr) => seq![addr],
        None => Seq::empty(),
    }
}

/// An interface that was just added.
pub open spec fn fresh_iface(
    handle: IfaceHandle,
    caps: IfaceCapabilities,
    hardware_addr: HardwareAddress,
) -> IfaceModel {
    IfaceModel {
        handle,
        caps,
        hardware_addr,
        ip_addrs: initial_addrs(hardware_addr),
        config_generation: 0,
        config_waker: None,
        rx: Seq::empty(),
        tx: Seq::empty(),
        stamps: Seq::empty(),
    }
}

/// The network side after an interface was added.
pub open spec fn iface_added(
    net: NetModel,
    handle: IfaceHandle,
    caps: IfaceCapabilities,
    hardware_addr: HardwareAddress,
) -> NetModel {
    NetModel {
        ifaces: slab::with_item(net.ifaces, handle.0 as int, fresh_iface(handle, caps, hardware_addr)),
        ..net
    }
}

/// The network side after an interface was removed: its neighbors, the packets waiting
/// for them, and the routes through it are gone too.
pub open spec fn iface_removed(net: NetModel, handle: IfaceHandle) -> NetModel {
    let purged = link::link_state_purged(net.inner, handle);
    NetModel {
        inner: InnerModel { routes: net.inner.routes.filter(route::off_iface(handle)), ..purged },
        ifaces: net.ifaces.update(handle.0 as int, None),
    }
}

/// Adding an interface keeps the network side well-formed.
proof fn lemma_iface_added(
    net: NetModel,
    handle: IfaceHandle,
    caps: IfaceCapabilities,
    hardware_addr: HardwareAddress,
)
    requires
        net.wf(),
        slab::is_next_slot(net.ifaces, handle.0 as int),
        fresh_iface(handle, caps, hardware_addr).wf(),
    ensures
        iface_added(net, handle, caps, hardware_addr).wf(),
        net.routes_attached() ==> iface_added(net, handle, caps, hardware_addr).routes_attached(),
{
    let after = iface_added(net, handle, caps, hardware_addr);
    assert forall|i: int| slab::occupied(net.ifaces, i) implies slab::occupied(after.ifaces, i) && #[trigger] after.ifaces[i]
        == net.ifaces[i] by {}
    assert forall|i: int| slab::occupied(after.ifaces, i) implies network::iface_ok(
        #[trigger] after.ifaces[i]->0,
        i,
    ) by {
        if i != handle.0 {
            assert(after.ifaces[i] == net.ifaces[i]);
            assert(slab::occupied(net.ifaces, i));
            assert(network::iface_ok(net.ifaces[i]->0, i));
        }
    }
    assert forall|i: int| 0 <= i < after.inner.cache.len() implies network::ethernet_at(
        after.ifaces,
        (#[trigger] after.inner.cache[i]).0.0,
    ) by {
        assert(network::ethernet_at(net.ifaces, net.inner.cache[i].0.0));
        assert(after.ifaces[net.inner.cache[i].0.0.0 as int] == net.ifaces[net.inner.cache[i].0.0.0 as int]);
    }
    if net.routes_attached() {
        assert forall|i: int| 0 <= i < after.inner.routes.len() implies slab::occupied(
            after.ifaces,
            (#[trigger] after.inner.routes[i]).iface.0 as int,
        ) by {
            assert(slab::occupied(net.ifaces, net.inner.routes[i].iface.0 as int));
            assert(after.ifaces[net.inner.routes[i].iface.0 as int] is Some);
        }
    }
}

/// Removing an interface keeps the network side well-formed.
proof fn lemma_iface_removed(net: NetModel, handle: IfaceHandle)
    requires
        net.wf(),
        net.has_iface(handle),
        iface_removed(net, handle).inner.wf(),
    ensures
        iface_removed(net, handle).wf(),
        net.routes_attached() ==> iface_removed(net, handle).routes_attached(),
{
    let after = iface_removed(net, handle);
    assert forall|i: int| slab::occupied(after.ifaces, i) implies network::iface_ok(
        #[trigger] after.ifaces[i]->0,
        i,
    ) by {
        assert(i != handle.0);
        assert(after.ifaces[i] == net.ifaces[i]);
        assert(slab::occupied(net.ifaces, i));
        assert(network::iface_ok(net.ifaces[i]->0, i));
    }
    neighbor::lemma_filter_subset(net.inner.cache, neighbor::off_iface(handle));
    assert forall|i: int| 0 <= i < after.inner.cache.len() implies network::ethernet_at(
        after.ifaces,
        (#[trigger] after.inner.cache[i]).0.0,
    ) by {
        let entry = after.inner.cache[i];
        assert(net.inner.cache.contains(entry));
        let k = choose|k: int| 0 <= k < net.inner.cache.len() && net.inner.cache[k] == entry;
        assert(network::ethernet_at(net.ifaces, net.inner.cache[k].0.0));
        assert(neighbor::off_iface(handle)(entry));
    }
    if net.routes_attached() {
        neighbor::lemma_filter_subset(net.inner.routes, route::off_iface(handle));
        assert forall|i: int| 0 <= i < after.inner.routes.len() implies slab::occupied(
            after.ifaces,
            (#[trigger] after.inner.routes[i]).iface.0 as int,
        ) by {
            let r = after.inner.routes[i];
            assert(net.inner.routes.contains(r));
            let k = choose|k: int| 0 <= k < net.inner.routes.len() && net.inner.routes[k] == r;
            assert(slab::occupied(net.ifaces, net.inner.routes[k].iface.0 as int));
            assert(route::off_iface(handle)(r));
        }
    }
}

/// Nothing of a removed interface is left: no neighbor on it, no packet waiting for one,
/// no route through it.
pub proof fn law_removed_iface_leaves_nothing(net: NetModel, handle: IfaceHandle)
    ensures
        forall|i: int|
            0 <= i < iface_removed(net, handle).inner.cache.len() ==> (
            #[trigger] iface_removed(net, handle).inner.cache[i]).0.0 != handle,
        forall|i: int|
            0 <= i < iface_removed(net, handle).inner.pending.len() ==> (
            #[trigger] iface_removed(net, handle).inner.pending[i]).key.0 != handle,
        forall|i: int|
            0 <= i < iface_removed(net, handle).inner.routes.len() ==> (
            #[trigger] iface_removed(net, handle).inner.routes[i]).iface != handle,
{
    let after = iface_removed(net, handle);
    neighbor::lemma_filter_subset(net.inner.cache, neighbor::off_iface(handle));
    neighbor::lemma_filter_subset(net.inner.pending, crate::pending::off_iface(handle));
    neighbor::lemma_filter_subset(net.inner.routes, route::off_iface(handle));
    assert forall|i: int| 0 <= i < after.inner.cache.len() implies (#[trigger] after.inner.cache[i]).0.0 != handle by {
        assert(neighbor::off_iface(handle)(after.inner.cache[i]));
    }
    assert forall|i: int| 0 <= i < after.inner.pending.len() implies (#[trigger] after.inner.pending[i]).key.0
        != handle by {
        assert(crate::pending::off_iface(handle)(after.inner.pending[i]));
    }
    assert forall|i: int| 0 <= i < after.inner.routes.len() implies (#[trigger] after.inner.routes[i]).iface
        != handle by {
        assert(route::off_iface(handle)(after.inner.routes[i]));
    }
}

impl Stack {
    /// Create a network stack.
    ///
    /// `random_seed` seeds the stack's PRNG, which picks TCP initial sequence
    /// numbers and ephemeral ports. This should be random, or at least different
    /// at every boot.
    pub fn new(random_seed: u64) -> (r: Self)
        ensures
            r.ready(),
            r@ == empty_stack(random_seed),
    {
        let r = Stack {
            net: Network {
                inner: StackInner {
                    now: Instant::zero(),
                    rand: Rand::new(random_seed),
                    neighbor_cache: Cache::new(),
                    pending: PendingQueue::new(),
                    routes: Routes::new(),
                },
                ifaces: Slab::new(),
            },
            sockets: Sockets::new(),
        };
        assert(r@ =~= empty_stack(random_seed));
        r
    }

    /// Add an interface to the stack, returning a handle to it.
    ///
    /// `caps` and `hardware_addr` are what the interface's device reports. The address
    /// must be of the kind the device's medium uses.
    ///
    /// Configure the interface after adding it. At minimum, you will want to
    /// add an IP address to it.
    ///
    /// Errors:
    /// - `Full` if the stack has no room for another interface.
    pub fn add_iface(&mut self, caps: IfaceCapabilities, hardware_addr: HardwareAddress) -> (r: Result<IfaceHandle, Full>)
        requires
            old(self).wf(),
            hardware_addr.medium_view() == caps.medium,
            caps.medium == Medium::Ethernet ==> caps.max_transmission_unit >= ETHERNET_HEADER_LEN,
        ensures
            final(self).wf(),
            old(self).ready() ==> final(self).ready(),
            r is Err <==> slab::no_room(old(self)@.net.ifaces, IFACE_COUNT as int),
            r is Err ==> final(self)@ == old(self)@,
            r matches Ok(handle) ==> {
                &&& slab::is_next_slot(old(self)@.net.ifaces, handle.0 as int)
                &&& final(self)@ == old(self)@.with_net(
                    iface_added(old(self)@.net, handle, caps, hardware_addr),
                )
            },
    {
        vstd::pervasive::runtime_assert(hardware_addr.medium() == caps.medium);
        let mut ip_addrs: Vec<IfaceAddr> = Vec::new();
        if let Some(ll) = link_local_addr(hardware_addr) {
            ip_addrs.push(ll);
        }
        assert(ip_addrs@ =~= initial_addrs(hardware_addr));
        let ghost slots = self.net.ifaces@;
        let ghost addrs = ip_addrs@;
        let config_waker = WakerRegistration::new();
        let f = |index: usize| -> (state: IfaceState)
            ensures
                state@ == fresh_iface(IfaceHandle(index), caps, hardware_addr),
                iface_state::packets_ok(state.rx@),
                iface_state::packets_ok(state.tx@),
            {
                let state = IfaceState {
                    handle: IfaceHandle(index),
                    caps,
                    hardware_addr,
                    ip_addrs,
                    config_generation: 0,
                    config_waker,
                    rx: Vec::new(),
                    tx: Vec::new(),
                    stamps: Vec::new(),
                };
                assert(state@ =~= fresh_iface(IfaceHandle(index), caps, hardware_addr));
                state
            };
        proof {
            slab::lemma_views_room(slots, IFACE_COUNT as int);
        }
        match self.net.ifaces.add_with(f) {
            Ok(index) => {
                proof {
                    let handle = IfaceHandle(index);
                    let state = self.net.ifaces@[index as int]->0;
                    slab::lemma_views_with_item(slots, index as int, state);
                    assert(fresh_iface(handle, caps, hardware_addr).wf());
                    lemma_iface_added(old(self)@.net, handle, caps, hardware_addr);
                    assert forall|i: int| slab::occupied(self.net.ifaces@, i) implies (
                    #[trigger] self.net.ifaces@[i])->0.wf() by {
                        if i != index {
                            assert(slots[i]->0.wf());
                        }
                    }
                    assert(self@.net =~= iface_added(old(self)@.net, handle, caps, hardware_addr));
                }
                Ok(IfaceHandle(index))
            },
            Err(_) => {
                assert(self@ =~= old(self)@);
                Err(Full)
            },
        }
    }

    /// Borrow an interface from the stack.
    ///
    /// The handle must not be stale (the interface must not have been removed).
    pub fn iface(&mut self, handle: IfaceHandle) -> (r: Iface<'_>)
        requires
            old(self).wf(),
            old(self)@.net.has_iface(handle),
        ensures
            r.wf(),
            r.index == handle.0,
            *r.net == old(self).net,
            final(self).net == *final(r.net),
            final(self).sockets == old(self).sockets,
    {
        Iface { net: &mut self.net, index: handle.0 }
    }

    /// Remove an interface from the stack.
    ///
    /// The handle must not be stale (the interface must not have been removed).
    pub fn remove_iface(&mut self, handle: IfaceHandle)
        requires
            old(self).wf(),
            old(self)@.net.has_iface(handle),
        ensures
            final(self).wf(),
            old(self).ready() ==> final(self).ready(),
            final(self)@ == old(self)@.with_net(iface_removed(old(self)@.net, handle)),
    {
        let ghost slots = self.net.ifaces@;
        let _ = self.net.ifaces.remove(handle.0);
        self.net.inner.purge_iface_link_state(handle);
        self.net.inner.routes.purge_iface(handle);
        proof {
            let after = iface_removed(old(self)@.net, handle);
            slab::lemma_views_removed(slots, handle.0 as int);
            assert(self@.net =~= after);
            assert(after.inner.wf()) by {
                neighbor::lemma_filter_subset(old(self)@.net.inner.routes, route::off_iface(handle));
            }
            lemma_iface_removed(old(self)@.net, handle);
            assert forall|i: int| slab::occupied(self.net.ifaces@, i) implies (
            #[trigger] self.net.ifaces@[i])->0.wf() by {
                assert(slots[i]->0.wf());
            }
        }
    }

    /// Access the routing table.
    pub fn routes(&self) -> (r: &Routes)
        ensures
            *r == self.net.inner.routes,
            r@ == self@.net.inner.routes,
    {
        &self.net.inner.routes
    }

    /// Access the routing table for modification.
    pub fn routes_mut(&mut self) -> (r: &mut Routes)
        requires
            old(self).wf(),
        ensures
            *r == old(self).net.inner.routes,
            route::routes_ok(r@),
            route::routes_ok(final(r)@) ==> final(self).wf(),
            final(self).net.inner.routes == *final(r),
            final(self)@ == old(self)@.with_net(
                NetModel {
                    inner: InnerModel { routes: final(r)@, ..old(self)@.net.inner },
                    ..old(self)@.net
                },
            ),
    {
        &mut self.net.inner.routes
    }

    /// Add a UDP socket to the stack, returning a handle to it.
    ///
    /// Errors:
    /// - `Full` if the stack has no room for another UDP socket.
    pub fn add_udp_socket(&mut self) -> (r: Result<UdpHandle, Full>)
        requires
            old(self).wf(),
        ensures
            final(self).wf(),
            old(self).ready() ==> final(self).ready(),
            r is Err <==> slab::no_room(old(self)@.udp, UDP_SOCKET_COUNT as int),
            r is Err ==> final(self)@ == old(self)@,
            r matches Ok(handle) ==> {
                &&& slab::is_next_slot(old(self)@.udp, handle.0 as int)
                &&& final(self)@ == (StackModel {
                    udp: slab::with_item(old(self)@.udp, handle.0 as int, UdpModel::unbound()),
                    ..old(self)@
                })
            },
    {
        let ghost slots = self.sockets.udp@;
        let f = |index: usize| -> (state: UdpSocketState)
            ensures
                state.wf(),
                state@ == UdpModel::unbound(),
            { UdpSocketState::new() };
        proof {
            slab::lemma_views_room(slots, UDP_SOCKET_COUNT as int);
        }
        match self.sockets.udp.add_with(f) {
            Ok(index) => {
                proof {
                    slab::lemma_views_with_item(slots, index as int, self.sockets.udp@[index as int]->0);
                    demux::lemma_distinct_added(slab::views(slots), index as int, UdpModel::unbound());
                    assert forall|i: int| slab::occupied(self.sockets.udp@, i) implies (
                    #[trigger] self.sockets.udp@[i])->0.wf() by {
                        if i != index {
                            assert(slots[i]->0.wf());
                        }
                    }
                }
                Ok(UdpHandle(index))
            },
            Err(_) => Err(Full),
        }
    }

    /// Remove a UDP socket from the stack.
    ///
    /// The handle must not be stale (the socket must not have been removed).
    pub fn remove_udp_socket(&mut self, handle: UdpHandle)
        requires
            old(self).wf(),
            slab::occupied(old(self)@.udp, handle.0 as int),
        ensures
            final(self).wf(),
            old(self).ready() ==> final(self).ready(),
            final(self)@ == (StackModel { udp: old(self)@.udp.update(handle.0 as int, None), ..old(self)@ }),
    {
        let ghost slots = self.sockets.udp@;
        proof {
            slab::lemma_views_room(slots, 0);
        }
        let _ = self.sockets.udp.remove(handle.0);
        proof {
            slab::lemma_views_removed(slots, handle.0 as int);
            demux::lemma_distinct_removed(slab::views(slots), handle.0 as int);
            assert forall|i: int| slab::occupied(self.sockets.udp@, i) implies (
            #[trigger] self.sockets.udp@[i])->0.wf() by {
                assert(slots[i]->0.wf());
            }
        }
    }

    /// Borrow a UDP socket from the stack.
    ///
    /// The handle must not be stale (the socket must not have been removed).
    pub fn udp_socket(&mut self, handle: UdpHandle) -> (r: UdpSocket<'_>)
        requires
            old(self).wf(),
            slab::occupied(old(self)@.udp, handle.0 as int),
        ensures
            r.wf(),
            r.index == handle.0,
            *r.sockets == old(self).sockets.udp,
            *r.tx == old(self).net,
            final(self).net == *final(r.tx),
            final(self).sockets == (Sockets { udp: *final(r.sockets), ..old(self).sockets }),
    {
        proof {
            slab::lemma_views_room(self.sockets.udp@, 0);
        }
        UdpSocket { sockets: &mut self.sockets.udp, index: handle.0, tx: &mut self.net }
    }

    /// Add a raw socket to the stack, returning a handle to it.
    ///
    /// Errors:
    /// - `Full` if the stack has no room for another raw socket.
    pub fn add_raw_socket(&mut self) -> (r: Result<RawHandle, Full>)
        requires
            old(self).wf(),
        ensures
            final(self).wf(),
            old(self).ready() ==> final(self).ready(),
            r is Err <==> slab::no_room(old(self)@.raw, RAW_SOCKET_COUNT as int),
            r is Err ==> final(self)@ == old(self)@,
            r matches Ok(handle) ==> {
                &&& slab::is_next_slot(old(self)@.raw, handle.0 as int)
                &&& final(self)@ == (StackModel {
                    raw: slab::with_item(old(self)@.raw, handle.0 as int, RawModel::unbound()),
                    ..old(self)@
                })
            },
    {
        let ghost slots = self.sockets.raw@;
        let f = |index: usize| -> (state: RawSocketState)
            ensures
                state.wf(),
                state@ == RawModel::unbound(),
            { RawSocketState::new() };
        proof {
            slab::lemma_views_room(slots, RAW_SOCKET_COUNT as int);
        }
        match self.sockets.raw.add_with(f) {
            Ok(index) => {
                proof {
                    slab::lemma_views_with_item(slots, index as int, self.sockets.raw@[index as int]->0);
                    assert forall|i: int| slab::occupied(self.sockets.raw@, i) implies (
                    #[trigger] self.sockets.raw@[i])->0.wf() by {
                        if i != index {
                            assert(slots[i]->0.wf());
                        }
                    }
                }
                Ok(RawHandle(index))
            },
            Err(_) => Err(Full),
        }
    }

    /// Remove a raw socket from the stack.
    ///
    /// The handle must not be stale (the socket must not have been removed).
    pub fn remove_raw_socket(&mut self, handle: RawHandle)
        requires
            old(self).wf(),
            slab::occupied(old(self)@.raw, handle.0 as int),
        ensures
            final(self).wf(),
            old(self).ready() ==> final(self).ready(),
            final(self)@ == (StackModel { raw: old(self)@.raw.update(handle.0 as int, None), ..old(self)@ }),
    {
        let ghost slots = self.sockets.raw@;
        proof {
            slab::lemma_views_room(slots, 0);
        }
        let _ = self.sockets.raw.remove(handle.0);
        proof {
            slab::lemma_views_removed(slots, handle.0 as int);
            assert forall|i: int| slab::occupied(self.sockets.raw@, i) implies (
            #[trigger] self.sockets.raw@[i])->0.wf() by {
                assert(slots[i]->0.wf());
            }
        }
    }

    /// Borrow a raw socket from the stack.
    ///
    /// The handle must not be stale (the socket must not have been removed).
    pub fn raw_socket(&mut self, handle: RawHandle) -> (r: RawSocket<'_>)
        requires
            old(self).wf(),
            slab::occupied(old(self)@.raw, handle.0 as int),
        ensures
            r.wf(),
            r.model() == old(self)@.raw[handle.0 as int]->0,
            *r.tx == old(self).net,
            final(self).net == *final(r.tx),
            final(self)@.raw == old(self)@.raw.update(handle.0 as int, Some(final(r.state)@)),
            final(r.state).wf() && final(r.tx).wf() ==> final(self).wf(),
            final(self)@.udp == old(self)@.udp,
            final(self)@.tcp == old(self)@.tcp,
            final(self)@.listeners == old(self)@.listeners,
    {
        let ghost slots = self.sockets.raw@;
        proof {
            slab::lemma_views_room(slots, 0);
            assert(slots[handle.0 as int]->0.wf());
            assert(self@.raw[handle.0 as int] == Some(slots[handle.0 as int]->0@));
            assert forall|state: RawSocketState|
                slab::views(#[trigger] slots.update(handle.0 as int, Some(state))) == slab::views(slots).update(
                    handle.0 as int,
                    Some(state@),
                ) by {
                slab::lemma_views_update(slots, handle.0 as int, state);
            }
        }
        RawSocket { state: self.sockets.raw.get_mut(handle.0), tx: &mut self.net }
    }

    /// Add a TCP socket to the stack, with receive and transmit buffers of the
    /// given capacities, returning a handle to it.
    ///
    /// The receive buffer must not be larger than 1 GiB.
    ///
    /// Errors:
    /// - `Full` if the stack has no room for another TCP socket.
    pub fn add_tcp_socket(&mut self, rx_capacity: usize, tx_capacity: usize) -> (r: Result<TcpHandle, Full>)
        requires
            old(self).wf(),
            rx_capacity <= MAX_RX_CAPACITY,
        ensures
            final(self).wf(),
            old(self).ready() ==> final(self).ready(),
            r is Err <==> slab::no_room(old(self)@.tcp, TCP_SOCKET_COUNT as int),
            r is Err ==> final(self)@ == old(self)@,
            r matches Ok(handle) ==> {
                &&& slab::is_next_slot(old(self)@.tcp, handle.0 as int)
                &&& final(self)@ == (StackModel {
                    tcp: slab::with_item(
                        old(self)@.tcp,
                        handle.0 as int,
                        TcpModel::closed(rx_capacity, tx_capacity),
                    ),
                    ..old(self)@
                })
            },
    {
        let ghost slots = self.sockets.tcp@;
        let f = |index: usize| -> (state: TcpSocketState)
            ensures
                state.wf(),
                state@ == TcpModel::closed(rx_capacity, tx_capacity),
            { TcpSocketState::new(rx_capacity, tx_capacity) };
        proof {
            slab::lemma_views_room(slots, TCP_SOCKET_COUNT as int);
        }
        match self.sockets.tcp.add_with(f) {
            Ok(index) => {
                proof {
                    slab::lemma_views_with_item(slots, index as int, self.sockets.tcp@[index as int]->0);
                    assert(self.sockets.tcp@[index as int]->0@.rx_capacity == rx_capacity);
                    assert forall|i: int| slab::occupied(self.sockets.tcp@, i) implies (
                    #[trigger] self.sockets.tcp@[i])->0.wf() && self.sockets.tcp@[i]->0.rx_capacity
                        <= MAX_RX_CAPACITY by {
                        if i != index {
                            assert(slots[i]->0.wf());
                        }
                    }
                }
                Ok(TcpHandle(index))
            },
            Err(_) => Err(Full),
        }
    }

    /// Remove a TCP socket from the stack.
    ///
    /// No RST is sent, and any buffered data is lost.
    ///
    /// The handle must not be stale (the socket must not have been removed).
    pub fn remove_tcp_socket(&mut self, handle: TcpHandle)
        requires
            old(self).wf(),
            slab::occupied(old(self)@.tcp, handle.0 as int),
        ensures
            final(self).wf(),
            old(self).ready() ==> final(self).ready(),
            final(self)@ == (StackModel { tcp: old(self)@.tcp.update(handle.0 as int, None), ..old(self)@ }),
    {
        let ghost slots = self.sockets.tcp@;
        proof {
            slab::lemma_views_room(slots, 0);
        }
        let _ = self.sockets.tcp.remove(handle.0);
        proof {
            slab::lemma_views_removed(slots, handle.0 as int);
            assert forall|i: int| slab::occupied(self.sockets.tcp@, i) implies (
            #[trigger] self.sockets.tcp@[i])->0.wf() && self.sockets.tcp@[i]->0.rx_capacity <= MAX_RX_CAPACITY by {
                assert(slots[i]->0.wf());
            }
        }
    }

    /// Borrow a TCP socket from the stack.
    ///
    /// The handle must not be stale (the socket must not have been removed).
    pub fn tcp_socket(&mut self, handle: TcpHandle) -> (r: TcpSocket<'_>)
        requires
            old(self).wf(),
            slab::occupied(old(self)@.tcp, handle.0 as int),
        ensures
            r.wf(),
            r.index == handle.0,
            *r.sockets == old(self).sockets.tcp,
            *r.tx == old(self).net,
            final(self).net == *final(r.tx),
            final(self).sockets == (Sockets { tcp: *final(r.sockets), ..old(self).sockets }),
    {
        proof {
            slab::lemma_views_room(self.sockets.tcp@, 0);
        }
        TcpSocket { sockets: &mut self.sockets.tcp, index: handle.0, tx: &mut self.net }
    }

    /// Add a TCP listener to the stack, returning a handle to it.
    ///
    /// Errors:
    /// - `Full` if the stack has no room for another listener.
    pub fn add_tcp_listener(&mut self) -> (r: Result<TcpListenerHandle, Full>)
        requires
            old(self).wf(),
        ensures
            final(self).wf(),
            old(self).ready() ==> final(self).ready(),
            r is Err <==> slab::no_room(old(self)@.listeners, TCP_LISTENER_COUNT as int),
            r is Err ==> final(self)@ == old(self)@,
            r matches Ok(handle) ==> {
                &&& slab::is_next_slot(old(self)@.listeners, handle.0 as int)
                &&& final(self)@ == (StackModel {
                    listeners: slab::with_item(old(self)@.listeners, handle.0 as int, ListenerModel::closed()),
                    ..old(self)@
                })
            },
    {
        let ghost slots = self.sockets.tcp_listeners@;
        let f = |index: usize| -> (state: TcpListenerState)
            ensures
                state.wf(),
                state@ == ListenerModel::closed(),
            { TcpListenerState::new() };
        proof {
            slab::lemma_views_room(slots, TCP_LISTENER_COUNT as int);
        }
        match self.sockets.tcp_listeners.add_with(f) {
            Ok(index) => {
                proof {
                    slab::lemma_views_with_item(slots, index as int, self.sockets.tcp_listeners@[index as int]->0);
                    assert forall|i: int| slab::occupied(self.sockets.tcp_listeners@, i) implies (
                    #[trigger] self.sockets.tcp_listeners@[i])->0.wf() by {
                        if i != index {
                            assert(slots[i]->0.wf());
                        }
                    }
                }
                Ok(TcpListenerHandle(index))
            },
            Err(_) => Err(Full),
        }
    }

    /// Remove a TCP listener from the stack.
    ///
    /// The handle must not be stale (the listener must not have been removed).
    pub fn remove_tcp_listener(&mut self, handle: TcpListenerHandle)
        requires
            old(self).wf(),
            slab::occupied(old(self)@.listeners, handle.0 as int),
        ensures
            final(self).wf(),
            old(self).ready() ==> final(self).ready(),
            final(self)@ == (StackModel {
                listeners: old(self)@.listeners.update(handle.0 as int, None),
                ..old(self)@
            }),
    {
        let ghost slots = self.sockets.tcp_listeners@;
        proof {
            slab::lemma_views_room(slots, 0);
        }
        let _ = self.sockets.tcp_listeners.remove(handle.0);
        proof {
            slab::lemma_views_removed(slots, handle.0 as int);
            assert forall|i: int| slab::occupied(self.sockets.tcp_listeners@, i) implies (
            #[trigger] self.sockets.tcp_listeners@[i])->0.wf() by {
                assert(slots[i]->0.wf());
            }
        }
    }

    /// Borrow a TCP listener from the stack.
    ///
    /// The handle must not be stale (the listener must not have been removed).
    pub fn tcp_listener(&mut self, handle: TcpListenerHandle) -> (r: TcpListener<'_>)
        requires
            old(self).wf(),
            slab::occupied(old(self)@.listeners, handle.0 as int),
        ensures
            r.wf(),
            r.index == handle.0,
            *r.listeners == old(self).sockets.tcp_listeners,
            *r.tcp == old(self).sockets.tcp,
            *r.rand == old(self).net.inner.rand,
            final(self).sockets == (Sockets {
                tcp: *final(r.tcp),
                tcp_listeners: *final(r.listeners),
                ..old(self).sockets
            }),
            final(self).net == (Network {
                inner: StackInner { rand: *final(r.rand), ..old(self).net.inner },
                ..old(self).net
            }),
            final(self).net.wf(),
    {
        proof {
            slab::lemma_views_room(self.sockets.tcp_listeners@, 0);
        }
        TcpListener {
            listeners: &mut self.sockets.tcp_listeners,
            index: handle.0,
            tcp: &mut self.sockets.tcp,
            rand: &mut self.net.inner.rand,
        }
    }
}

} // verus!
