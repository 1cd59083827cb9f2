//! The routing table.

use vstd::prelude::*;

use crate::iface::IfaceHandle;
use crate::time::Instant;
use crate::wire::cidr::{IpCidr, Ipv4Cidr, Ipv6Cidr};
use crate::wire::ip::{IpAddress, Ipv4Address, Ipv6Address};

verus! {

/// Where a route came from.
#[derive(Debug, Clone, Copy, PartialEq, Eq, Structural)]
#[non_exhaustive]
pub enum RouteOrigin {
    /// Added by the application.
    Manual,
}

/// A route: how to reach the addresses of a subnet.
#[derive(Debug, Clone, Copy)]
pub struct Route {
    /// The subnet.
    pub cidr: IpCidr,
    /// The router to send through.
    pub via_router: IpAddress,
    /// The interface the router is on.
    pub iface: IfaceHandle,
    /// Where the route came from.
    pub origin: RouteOrigin,
    /// When the route goes away, if it does.
    pub expires_at: Option<Instant>,
}

impl Route {
    /// Whether the route may be used to reach `dst` at time `now`.
    pub open spec fn applies(self, dst: IpAddress, now: Instant) -> bool {
        self.cidr.contains(dst) && (self.expires_at matches Some(t) ==> now.micros <= t.micros)
    }

    /// A route is usable if its prefix is no longer than an address and its router
    /// is a single host.
    pub open spec fn wf(self) -> bool {
        self.cidr.wf() && self.via_router.unicast_view()
    }

    /// Whether this is the default route of the IPv4 (or else IPv6) address space.
    pub open spec fn is_default(self, v4: bool) -> bool {
        match self.cidr {
            IpCidr::Ipv4(c) => v4 && c.prefix_len == 0,
            IpCidr::Ipv6(c) => !v4 && c.prefix_len == 0,
        }
    }

    /// The IPv4 default route through a router that the application set.
    pub open spec fn default_v4(gateway: Ipv4Address, iface: IfaceHandle) -> Route {
        Route {
            cidr: IpCidr::Ipv4(Ipv4Cidr { address: Ipv4Address([0u8, 0, 0, 0]), prefix_len: 0 }),
            via_router: IpAddress::Ipv4(gateway),
            iface,
            origin: RouteOrigin::Manual,
            expires_at: None,
        }
    }

    /// The IPv6 default route through a router that the application set.
    pub open spec fn default_v6(gateway: Ipv6Address, iface: IfaceHandle) -> Route {
        Route {
            cidr: IpCidr::Ipv6(
                Ipv6Cidr {
                    address: Ipv6Address([0u8, 0, 0, 0, 0, 0, 0, 0, 0, 0, 0, 0, 0, 0, 0, 0]),
                    prefix_len: 0,
                },
            ),
            via_router: IpAddress::Ipv6(gateway),
            iface,
            origin: RouteOrigin::Manual,
            expires_at: None,
        }
    }

    fn usable(&self, dst: &IpAddress, now: Instant) -> (r: bool)
        requires
            self.cidr.wf(),
        ensures
            r == self.applies(*dst, now),
    {
        let live = match self.expires_at {
            Some(t) => now.micros <= t.micros,
            None => true,
        };
        self.cidr.contains_addr(dst) && live
    }

    fn default_of(&self, v4: bool) -> (r: bool)
        ensures
            r == self.is_default(v4),
    {
        match self.cidr {
            IpCidr::Ipv4(c) => v4 && c.prefix_len == 0,
            IpCidr::Ipv6(c) => !v4 && c.prefix_len == 0,
        }
    }
}

/// The route to use among the first `n`: the most specific one that applies, the
/// latest among equally specific ones.
pub open spec fn best_route(routes: Seq<Route>, dst: IpAddress, now: Instant, n: int) -> Option<int>
    decreases n,
{
    if n <= 0 {
        None
    } else {
        let best = best_route(routes, dst, now, n - 1);
        if !routes[n - 1].applies(dst, now) {
            best
        } else {
            match best {
                Some(b) => if routes[b].cidr.prefix_len_view() <= routes[n - 1].cidr.prefix_len_view() {
                    Some(n - 1)
                } else {
                    Some(b)
                },
                None => Some(n - 1),
            }
        }
    }
}

/// The route to use for a destination.
pub open spec fn lookup_view(routes: Seq<Route>, dst: IpAddress, now: Instant) -> Option<Route> {
    match best_route(routes, dst, now, routes.len() as int) {
        Some(i) => Some(routes[i]),
        None => None,
    }
}

proof fn lemma_best_route(routes: Seq<Route>, dst: IpAddress, now: Instant, n: int)
    requires
        0 <= n <= routes.len(),
    ensures
        match best_route(routes, dst, now, n) {
            Some(b) => 0 <= b < n && routes[b].applies(dst, now) && forall|i: int|
                0 <= i < n && (#[trigger] routes[i]).applies(dst, now) ==> routes[i].cidr.prefix_len_view()
                    <= routes[b].cidr.prefix_len_view(),
            None => forall|i: int| 0 <= i < n ==> !(#[trigger] routes[i]).applies(dst, now),
        },
    decreases n,
{
    if n > 0 {
        lemma_best_route(routes, dst, now, n - 1);
    }
}

/// A lookup finds a route whenever one applies, and none that applies is more
/// specific.
pub proof fn law_lookup_is_most_specific(routes: Seq<Route>, dst: IpAddress, now: Instant, i: int)
    requires
        0 <= i < routes.len(),
        routes[i].applies(dst, now),
    ensures
        lookup_view(routes, dst, now) is Some,
        lookup_view(routes, dst, now)->0.applies(dst, now),
        routes[i].cidr.prefix_len_view() <= lookup_view(routes, dst, now)->0.cidr.prefix_len_view(),
{
    lemma_best_route(routes, dst, now, routes.len() as int);
}

/// Whether a route leaves through another interface.
pub open spec fn off_iface(iface: IfaceHandle) -> spec_fn(Route) -> bool {
    |r: Route| r.iface != iface
}

/// Whether a route is not the default route of the IPv4 (or else IPv6) address
/// space.
pub open spec fn not_default(v4: bool) -> spec_fn(Route) -> bool {
    |r: Route| !r.is_default(v4)
}

/// Every route can be used.
pub open spec fn routes_ok(routes: Seq<Route>) -> bool {
    forall|i: int| 0 <= i < routes.len() ==> (#[trigger] routes[i]).wf()
}

/// A routing table.
#[derive(Debug)]
pub struct Routes {
    storage: Vec<Route>,
}

impl View for Routes {
    type V = Seq<Route>;

    closed spec fn view(&self) -> Seq<Route> {
        self.storage@
    }
}

impl Routes {
    /// Every route can be used.
    pub open spec fn wf(&self) -> bool {
        routes_ok(self@)
    }

    /// An empty routing table.
    pub fn new() -> (r: Self)
        ensures
            r.wf(),
            r@ == Seq::<Route>::empty(),
    {
        Routes { storage: Vec::new() }
    }

    /// The route to use for a destination: the most specific one that has not
    /// expired.
    pub fn lookup(&self, dst: &IpAddress, now: Instant) -> (r: Option<Route>)
        requires
            self.wf(),
        ensures
            r == lookup_view(self@, *dst, now),
            r matches Some(route) ==> self@.contains(route),
    {
        let mut best: Option<usize> = None;
        let mut i: usize = 0;
        while i < self.storage.len()
            invariant
                i <= self.storage@.len(),
                routes_ok(self.storage@),
                best matches Some(b) ==> b < i,
                (match best {
                    Some(b) => Some(b as int),
                    None => None,
                }) == best_route(self.storage@, *dst, now, i as int),
            decreases self.storage@.len() - i,
        {
            assert(self.storage@[i as int].wf());
            if self.storage[i].usable(dst, now) {
                best = match best {
                    Some(b) => {
                        if self.storage[b].cidr.prefix_len() <= self.storage[i].cidr.prefix_len() {
                            Some(i)
                        } else {
                            Some(b)
                        }
                    },
                    None => Some(i),
                };
            }
            i += 1;
        }
        match best {
            Some(b) => {
                assert(self@.contains(self@[b as int]));
                Some(self.storage[b])
            },
            None => None,
        }
    }

    /// Add a route.
    pub fn add_route(&mut self, route: Route)
        requires
            old(self).wf(),
            route.wf(),
        ensures
            final(self).wf(),
            final(self)@ == old(self)@.push(route),
    {
        self.storage.push(route);
    }

    /// Remove the default route of one address space and return it, if there is
    /// one. Of several, the latest is returned.
    fn remove_default(&mut self, v4: bool) -> (r: Option<Route>)
        requires
            old(self).wf(),
        ensures
            final(self).wf(),
            final(self)@ == old(self)@.filter(not_default(v4)),
            r == last_default(old(self)@, v4, old(self)@.len() as int),
    {
        let mut kept: Vec<Route> = Vec::new();
        let mut removed: Option<Route> = None;
        let mut i: usize = 0;
        proof {
            reveal(Seq::filter);
            assert(self.storage@.take(0) =~= Seq::<Route>::empty());
        }
        while i < self.storage.len()
            invariant
                i <= self.storage@.len(),
                self.storage@ == old(self).storage@,
                routes_ok(self.storage@),
                routes_ok(kept@),
                kept@ == self.storage@.take(i as int).filter(not_default(v4)),
                removed == last_default(self.storage@, v4, i as int),
            decreases self.storage@.len() - i,
        {
            proof {
                crate::neighbor::lemma_filter_step(self.storage@, not_default(v4), i as int);
                assert(self.storage@[i as int].wf());
            }
            let route = self.storage[i];
            if route.default_of(v4) {
                removed = Some(route);
            } else {
                kept.push(route);
            }
            i += 1;
        }
        assert(self.storage@.take(i as int) =~= self.storage@);
        self.storage = kept;
        removed
    }

    /// Set the IPv4 default route, returning the one it replaces.
    pub fn add_default_ipv4_route(&mut self, gateway: Ipv4Address, iface: IfaceHandle) -> (r: Option<Route>)
        requires
            old(self).wf(),
            gateway.unicast_view(),
        ensures
            final(self).wf(),
            r == last_default(old(self)@, true, old(self)@.len() as int),
            final(self)@ == old(self)@.filter(not_default(true)).push(Route::default_v4(gateway, iface)),
    {
        let old_route = self.remove_default(true);
        let route = Route {
            cidr: IpCidr::Ipv4(Ipv4Cidr { address: Ipv4Address::unspecified(), prefix_len: 0 }),
            via_router: IpAddress::Ipv4(gateway),
            iface,
            origin: RouteOrigin::Manual,
            expires_at: None,
        };
        assert(route.cidr->Ipv4_0.address.0 =~= Route::default_v4(gateway, iface).cidr->Ipv4_0.address.0);
        self.add_route(route);
        old_route
    }

    /// Set the IPv6 default route, returning the one it replaces.
    pub fn add_default_ipv6_route(&mut self, gateway: Ipv6Address, iface: IfaceHandle) -> (r: Option<Route>)
        requires
            old(self).wf(),
            gateway.unicast_view(),
        ensures
            final(self).wf(),
            r == last_default(old(self)@, false, old(self)@.len() as int),
            final(self)@ == old(self)@.filter(not_default(false)).push(Route::default_v6(gateway, iface)),
    {
        let old_route = self.remove_default(false);
        let route = Route {
            cidr: IpCidr::Ipv6(Ipv6Cidr { address: Ipv6Address::unspecified(), prefix_len: 0 }),
            via_router: IpAddress::Ipv6(gateway),
            iface,
            origin: RouteOrigin::Manual,
            expires_at: None,
        };
        assert(route.cidr->Ipv6_0.address.0 =~= Route::default_v6(gateway, iface).cidr->Ipv6_0.address.0);
        self.add_route(route);
        old_route
    }

    /// Remove every route through an interface.
    pub fn purge_iface(&mut self, iface: IfaceHandle)
        requires
            old(self).wf(),
        ensures
            final(self).wf(),
            final(self)@ == old(self)@.filter(off_iface(iface)),
    {
        let mut kept: Vec<Route> = Vec::new();
        let mut i: usize = 0;
        proof {
            reveal(Seq::filter);
            assert(self.storage@.take(0) =~= Seq::<Route>::empty());
        }
        while i < self.storage.len()
            invariant
                i <= self.storage@.len(),
                self.storage@ == old(self).storage@,
                routes_ok(self.storage@),
                routes_ok(kept@),
                kept@ == self.storage@.take(i as int).filter(off_iface(iface)),
            decreases self.storage@.len() - i,
        {
            proof {
                crate::neighbor::lemma_filter_step(self.storage@, off_iface(iface), i as int);
                assert(self.storage@[i as int].wf());
            }
            let route = self.storage[i];
            if route.iface.0 != iface.0 {
                kept.push(route);
            }
            i += 1;
        }
        assert(self.storage@.take(i as int) =~= self.storage@);
        self.storage = kept;
    }
}

/// The latest default route among the first `n`.
pub open spec fn last_default(routes: Seq<Route>, v4: bool, n: int) -> Option<Route>
    decreases n,
{
    if n <= 0 {
        None
    } else if routes[n - 1].is_default(v4) {
        Some(routes[n - 1])
    } else {
        last_default(routes, v4, n - 1)
    }
}

} // verus!
