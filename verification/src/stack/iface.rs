//! Interfaces as the application sees them: their configuration, and the frames they
//! exchange with their devices.

use core::task::Waker;

use vstd::prelude::*;

use crate::buf::PacketBuf;
use crate::config::IFACE_ADDR_COUNT;
use crate::iface::{IfaceCapabilities, IfaceHandle};
use crate::meta::TxTimestamp;
use crate::neighbor;
use crate::stack::iface_state;
use crate::stack::iface_state::{link_local_addr, AddrOrigin, IfaceAddr, IfaceModel, IfaceState};
use crate::stack::link;
use crate::stack::network;
use crate::stack::network::{NetModel, Network};
use crate::storage::slab;
use crate::storage::Full;
use crate::waker;
use crate::wire::cidr::IpCidr;
use crate::wire::ip::IpAddress;
use crate::wire::HardwareAddress;

verus! {

/// The network side with one interface changed.
pub open spec fn with_iface(net: NetModel, iface: IfaceHandle, state: IfaceModel) -> NetModel {
    NetModel { ifaces: net.ifaces.update(iface.0 as int, Some(state)), ..net }
}

/// An interface after its configuration changed: its generation goes up, and whoever
/// waits for that is woken.
pub open spec fn noted(state: IfaceModel) -> IfaceModel {
    IfaceModel { config_generation: iface_state::bumped(state.config_generation), config_waker: None, ..state }
}

/// Whether whoever waits for the interface's configuration to change was woken, if it
/// did.
pub open spec fn told(before: IfaceModel, after: IfaceModel) -> bool {
    after.config_generation != before.config_generation ==> (before.config_waker matches Some(w) ==> waker::woken(
        w,
    ))
}

/// The network side after an interface's addresses changed so that what was learned
/// on its link can no longer be relied on.
pub open spec fn invalidated(net: NetModel, iface: IfaceHandle, state: IfaceModel) -> NetModel {
    NetModel { inner: link::link_state_purged(net.inner, iface), ..with_iface(net, iface, noted(state)) }
}

/// The position of the first assignment of an address, at or after `from`.
pub open spec fn addr_index(addrs: Seq<IfaceAddr>, addr: IpAddress, from: int) -> Option<int>
    decreases addrs.len() - from,
{
    if from < 0 || from >= addrs.len() {
        None
    } else if addrs[from].cidr.address_view() == addr {
        Some(from)
    } else {
        addr_index(addrs, addr, from + 1)
    }
}

/// An address is found where it is assigned, whenever it is assigned.
pub proof fn lemma_addr_index(addrs: Seq<IfaceAddr>, addr: IpAddress, from: int)
    requires
        0 <= from,
    ensures
        match addr_index(addrs, addr, from) {
            Some(i) => from <= i < addrs.len() && addrs[i].cidr.address_view() == addr,
            None => forall|i: int| from <= i < addrs.len() ==> (#[trigger] addrs[i]).cidr.address_view() != addr,
        },
    decreases addrs.len() - from,
{
    if from < addrs.len() && addrs[from].cidr.address_view() != addr {
        lemma_addr_index(addrs, addr, from + 1);
    }
}

/// Whether an address was not derived from the hardware address.
pub open spec fn not_derived() -> spec_fn(IfaceAddr) -> bool {
    |a: IfaceAddr| a.origin != AddrOrigin::LinkLocal
}

/// Whether an address was derived from the hardware address and is not among others.
pub open spec fn derived_besides(addrs: Seq<IfaceAddr>) -> spec_fn(IfaceAddr) -> bool {
    |a: IfaceAddr| a.origin == AddrOrigin::LinkLocal && !iface_state::has_addr(addrs, a.cidr.address_view())
}

/// A list of addresses after the application assigned one: an address that is there
/// already gets the new prefix and stays where it is, any other is appended.
pub open spec fn addr_put(addrs: Seq<IfaceAddr>, cidr: IpCidr) -> Seq<IfaceAddr> {
    let assigned = IfaceAddr { cidr, origin: AddrOrigin::Manual };
    match addr_index(addrs, cidr.address_view(), 0) {
        Some(i) => addrs.update(i, assigned),
        None => addrs.push(assigned),
    }
}

/// The addresses assigned by assigning the first `n` given ones, one after the other.
pub open spec fn addrs_named(cidrs: Seq<IpCidr>, n: int) -> Seq<IfaceAddr>
    decreases n,
{
    if n <= 0 {
        Seq::empty()
    } else {
        addr_put(addrs_named(cidrs, n - 1), cidrs[n - 1])
    }
}

/// The addresses of an interface after its hardware address changed: the derived one
/// is replaced, if there is room.
pub open spec fn addrs_rederived(addrs: Seq<IfaceAddr>, hardware_addr: HardwareAddress) -> Seq<IfaceAddr> {
    let kept = addrs.filter(not_derived());
    match iface_state::link_local_of(hardware_addr) {
        Some(addr) => if kept.len() < IFACE_ADDR_COUNT {
            kept.push(addr)
        } else {
            kept
        },
        None => kept,
    }
}

/// Whether an interface has a derived address.
pub open spec fn has_derived(addrs: Seq<IfaceAddr>) -> bool {
    exists|i: int| 0 <= i < addrs.len() && (#[trigger] addrs[i]).origin == AddrOrigin::LinkLocal
}

/// The network side after an interface's hardware address was set.
pub open spec fn hardware_addr_set(net: NetModel, iface: IfaceHandle, hardware_addr: HardwareAddress) -> NetModel {
    let state = net.iface(iface);
    let after = IfaceModel {
        hardware_addr,
        ip_addrs: addrs_rederived(state.ip_addrs, hardware_addr),
        ..state
    };
    if iface_state::link_local_of(hardware_addr) is Some || has_derived(state.ip_addrs) {
        invalidated(net, iface, after)
    } else {
        with_iface(net, iface, after)
    }
}

/// The network side after an address was assigned to an interface. `None` if there is no
/// room for it.
pub open spec fn addr_added(net: NetModel, iface: IfaceHandle, cidr: IpCidr) -> Option<NetModel> {
    let state = net.iface(iface);
    let after = IfaceModel { ip_addrs: addr_put(state.ip_addrs, cidr), ..state };
    match addr_index(state.ip_addrs, cidr.address_view(), 0) {
        Some(i) => if state.ip_addrs[i].cidr == cidr {
            Some(net)
        } else {
            Some(invalidated(net, iface, after))
        },
        None => if state.ip_addrs.len() < IFACE_ADDR_COUNT {
            Some(with_iface(net, iface, noted(after)))
        } else {
            None
        },
    }
}

/// The prefix an address was assigned with, if it was assigned.
pub open spec fn assigned_cidr(addrs: Seq<IfaceAddr>, addr: IpAddress) -> Option<IpCidr> {
    match addr_index(addrs, addr, 0) {
        Some(i) => Some(addrs[i].cidr),
        None => None,
    }
}

/// The network side after an address was unassigned from an interface.
pub open spec fn addr_removed(net: NetModel, iface: IfaceHandle, addr: IpAddress) -> NetModel {
    let state = net.iface(iface);
    match addr_index(state.ip_addrs, addr, 0) {
        Some(i) => invalidated(net, iface, IfaceModel { ip_addrs: state.ip_addrs.remove(i), ..state }),
        None => net,
    }
}

/// The addresses of an interface after the application replaced them: those that
/// assigning the given ones makes, and a derived address, which stays if it is not among
/// them.
pub open spec fn addrs_replaced(addrs: Seq<IfaceAddr>, cidrs: Seq<IpCidr>) -> Seq<IfaceAddr> {
    let named = addrs_named(cidrs, cidrs.len() as int);
    named + addrs.filter(derived_besides(named))
}

/// The network side after an interface's addresses were replaced. `None` if there is no
/// room for them.
pub open spec fn addrs_set(net: NetModel, iface: IfaceHandle, cidrs: Seq<IpCidr>) -> Option<NetModel> {
    let state = net.iface(iface);
    let ip_addrs = addrs_replaced(state.ip_addrs, cidrs);
    if ip_addrs.len() > IFACE_ADDR_COUNT {
        None
    } else if ip_addrs == state.ip_addrs {
        Some(net)
    } else {
        Some(invalidated(net, iface, IfaceModel { ip_addrs, ..state }))
    }
}

/// What an address is after it was assigned: assigned, with the prefix given.
pub proof fn law_added_addr_is_assigned(net: NetModel, iface: IfaceHandle, cidr: IpCidr)
    requires
        net.has_iface(iface),
        addr_added(net, iface, cidr) is Some,
    ensures
        assigned_cidr(addr_added(net, iface, cidr)->0.iface(iface).ip_addrs, cidr.address_view()) == Some(cidr),
{
    let before = net.iface(iface).ip_addrs;
    let after = addr_added(net, iface, cidr)->0.iface(iface).ip_addrs;
    let addr = cidr.address_view();
    lemma_addr_index(before, addr, 0);
    match addr_index(before, addr, 0) {
        Some(i) => {
            lemma_first_index(before, addr, 0, i);
            lemma_index_at(after, addr, 0, i);
        },
        None => {
            lemma_index_at(after, addr, 0, before.len() as int);
        },
    }
}

/// The first assignment has none before it.
proof fn lemma_first_index(addrs: Seq<IfaceAddr>, addr: IpAddress, from: int, i: int)
    requires
        0 <= from <= i,
        addr_index(addrs, addr, from) == Some(i),
    ensures
        forall|k: int| from <= k < i ==> (#[trigger] addrs[k]).cidr.address_view() != addr,
    decreases i - from,
{
    if from < i {
        lemma_first_index(addrs, addr, from + 1, i);
    }
}

/// An assignment with none before it is the first.
pub proof fn lemma_index_at(addrs: Seq<IfaceAddr>, addr: IpAddress, from: int, i: int)
    requires
        0 <= from <= i < addrs.len(),
        addrs[i].cidr.address_view() == addr,
        forall|k: int| from <= k < i ==> (#[trigger] addrs[k]).cidr.address_view() != addr,
    ensures
        addr_index(addrs, addr, from) == Some(i),
    decreases i - from,
{
    if from < i {
        assert(addrs[from].cidr.address_view() != addr);
        lemma_index_at(addrs, addr, from + 1, i);
    }
}

/// Changing an interface's addresses invalidates what was learned on its link, and
/// nothing else: its neighbors and the packets waiting for them are forgotten, those of
/// other interfaces are not.
pub proof fn law_addr_change_purges_link_state(net: NetModel, iface: IfaceHandle, state: IfaceModel)
    ensures
        forall|i: int|
            0 <= i < invalidated(net, iface, state).inner.cache.len() ==> (
            #[trigger] invalidated(net, iface, state).inner.cache[i]).0.0 != iface,
        forall|i: int|
            0 <= i < invalidated(net, iface, state).inner.pending.len() ==> (
            #[trigger] invalidated(net, iface, state).inner.pending[i]).key.0 != iface,
        invalidated(net, iface, state).inner.routes == net.inner.routes,
{
    let after = invalidated(net, iface, state);
    neighbor::lemma_filter_subset(net.inner.cache, neighbor::off_iface(iface));
    neighbor::lemma_filter_subset(net.inner.pending, crate::pending::off_iface(iface));
    assert forall|i: int| 0 <= i < after.inner.cache.len() implies (#[trigger] after.inner.cache[i]).0.0 != iface by {
        assert(neighbor::off_iface(iface)(after.inner.cache[i]));
    }
    assert forall|i: int| 0 <= i < after.inner.pending.len() implies (#[trigger] after.inner.pending[i]).key.0
        != iface by {
        assert(crate::pending::off_iface(iface)(after.inner.pending[i]));
    }
}

/// Whenever an interface's addresses change, so does its configuration generation.
pub proof fn law_generation_follows_addrs(net: NetModel, iface: IfaceHandle, cidr: IpCidr, cidrs: Seq<IpCidr>)
    requires
        net.has_iface(iface),
    ensures
        addr_added(net, iface, cidr) matches Some(after) ==> (after.iface(iface).ip_addrs != net.iface(iface).ip_addrs
            ==> after.iface(iface).config_generation != net.iface(iface).config_generation),
        ({
            let after = addr_removed(net, iface, cidr.address_view());
            after.iface(iface).ip_addrs != net.iface(iface).ip_addrs ==> after.iface(iface).config_generation
                != net.iface(iface).config_generation
        }),
        addrs_set(net, iface, cidrs) matches Some(after) ==> (after.iface(iface).ip_addrs != net.iface(iface).ip_addrs
            ==> after.iface(iface).config_generation != net.iface(iface).config_generation),
{
}

/// Whether the `i`th of the given addresses is not named again behind it.
pub open spec fn named_last(cidrs: Seq<IpCidr>, n: int, i: int) -> bool {
    forall|j: int| i < j < n ==> (#[trigger] cidrs[j]).address_view() != cidrs[i].address_view()
}

/// Whether no address is assigned twice.
pub open spec fn addrs_distinct(addrs: Seq<IfaceAddr>) -> bool {
    forall|i: int, j: int|
        0 <= i < j < addrs.len() ==> (#[trigger] addrs[i]).cidr.address_view() != (
        #[trigger] addrs[j]).cidr.address_view()
}

/// Assigning addresses one after the other assigns each of them once, with the prefix
/// that was named last, and no other.
proof fn lemma_named(cidrs: Seq<IpCidr>, n: int)
    requires
        0 <= n <= cidrs.len(),
    ensures
        ({
            let named = addrs_named(cidrs, n);
            &&& named.len() <= n
            &&& addrs_distinct(named)
            &&& forall|k: int|
                0 <= k < named.len() ==> (#[trigger] named[k]).origin == AddrOrigin::Manual && cidrs.contains(
                    named[k].cidr,
                )
            &&& forall|i: int|
                0 <= i < n && #[trigger] named_last(cidrs, n, i) ==> exists|k: int|
                    0 <= k < named.len() && (#[trigger] named[k]).cidr == cidrs[i]
            &&& forall|i: int|
                0 <= i < n ==> iface_state::has_addr(named, (#[trigger] cidrs[i]).address_view())
        }),
    decreases n,
{
    if n > 0 {
        lemma_named(cidrs, n - 1);
        let before = addrs_named(cidrs, n - 1);
        let named = addrs_named(cidrs, n);
        let cidr = cidrs[n - 1];
        let addr = cidr.address_view();
        lemma_addr_index(before, addr, 0);
        let at = match addr_index(before, addr, 0) {
            Some(i) => i,
            None => before.len() as int,
        };
        assert(named[at].cidr == cidr);
        assert(cidrs.contains(cidr));
        assert forall|i: int| 0 <= i < n && #[trigger] named_last(cidrs, n, i) implies exists|k: int|
            0 <= k < named.len() && (#[trigger] named[k]).cidr == cidrs[i] by {
            if i < n - 1 {
                assert(named_last(cidrs, n - 1, i));
                assert(cidrs[n - 1].address_view() != cidrs[i].address_view());
                let k = choose|k: int| 0 <= k < before.len() && (#[trigger] before[k]).cidr == cidrs[i];
                assert(named[k] == before[k]);
            }
        }
        assert forall|i: int| 0 <= i < n implies iface_state::has_addr(named, (#[trigger] cidrs[i]).address_view()) by {
            if i < n - 1 {
                let k = choose|k: int|
                    0 <= k < before.len() && (#[trigger] before[k]).cidr.address_view() == cidrs[i].address_view();
                assert(named[k].cidr.address_view() == cidrs[i].address_view());
            }
        }
    }
}

/// Assigning usable addresses makes a list of usable addresses.
proof fn lemma_named_ok(cidrs: Seq<IpCidr>, n: int)
    requires
        0 <= n <= cidrs.len(),
        forall|i: int|
            0 <= i < cidrs.len() ==> (#[trigger] cidrs[i]).wf() && cidrs[i].address_view().unicast_view(),
    ensures
        iface_state::addrs_ok(addrs_named(cidrs, n)),
{
    let named = addrs_named(cidrs, n);
    lemma_named(cidrs, n);
    assert forall|k: int| 0 <= k < named.len() implies (#[trigger] named[k]).wf() by {
        assert(cidrs.contains(named[k].cidr));
    }
}

/// The network side after the first `n` given addresses were assigned to an interface,
/// one after the other. `None` if there is no room for one of them.
pub open spec fn addrs_added(net: NetModel, iface: IfaceHandle, cidrs: Seq<IpCidr>, n: int) -> Option<NetModel>
    decreases n,
{
    if n <= 0 {
        Some(net)
    } else {
        match addrs_added(net, iface, cidrs, n - 1) {
            Some(after) => addr_added(after, iface, cidrs[n - 1]),
            None => None,
        }
    }
}

/// Replacing an interface's addresses is the same as assigning the given ones, one after
/// the other, to an interface without addresses. A derived address that is not among them
/// follows.
pub proof fn law_replacing_is_adding_anew(
    net: NetModel,
    bare: NetModel,
    iface: IfaceHandle,
    cidrs: Seq<IpCidr>,
)
    requires
        net.has_iface(iface),
        bare.has_iface(iface),
        bare.iface(iface).ip_addrs == Seq::<IfaceAddr>::empty(),
        addrs_set(net, iface, cidrs) is Some,
    ensures
        addrs_added(bare, iface, cidrs, cidrs.len() as int) is Some,
        ({
            let added = addrs_added(bare, iface, cidrs, cidrs.len() as int)->0.iface(iface).ip_addrs;
            addrs_set(net, iface, cidrs)->0.iface(iface).ip_addrs == added + net.iface(iface).ip_addrs.filter(
                derived_besides(added),
            )
        }),
{
    lemma_added(bare, iface, cidrs, cidrs.len() as int);
}

/// Assigning addresses to an interface without any gives it those that were named.
proof fn lemma_added(bare: NetModel, iface: IfaceHandle, cidrs: Seq<IpCidr>, n: int)
    requires
        0 <= n <= cidrs.len(),
        bare.has_iface(iface),
        bare.iface(iface).ip_addrs == Seq::<IfaceAddr>::empty(),
        addrs_named(cidrs, n).len() <= IFACE_ADDR_COUNT,
    ensures
        addrs_added(bare, iface, cidrs, n) is Some,
        addrs_added(bare, iface, cidrs, n)->0.has_iface(iface),
        addrs_added(bare, iface, cidrs, n)->0.iface(iface).ip_addrs == addrs_named(cidrs, n),
    decreases n,
{
    if n > 0 {
        let before = addrs_named(cidrs, n - 1);
        lemma_named(cidrs, n - 1);
        lemma_addr_index(before, cidrs[n - 1].address_view(), 0);
        lemma_added(bare, iface, cidrs, n - 1);
        assert(addrs_added(bare, iface, cidrs, n)->0.iface(iface).ip_addrs =~= addrs_named(cidrs, n));
    }
}

/// Replacing an interface's addresses assigns each of the new ones, with the prefix that
/// was named last for it, and keeps the address derived from its hardware address. No
/// other address is assigned, and none that the application named is assigned twice.
pub proof fn law_replaced_addrs_keep_link_local(net: NetModel, iface: IfaceHandle, cidrs: Seq<IpCidr>)
    requires
        net.has_iface(iface),
        addrs_set(net, iface, cidrs) is Some,
    ensures
        ({
            let before = net.iface(iface).ip_addrs;
            let after = addrs_set(net, iface, cidrs)->0.iface(iface).ip_addrs;
            &&& forall|i: int|
                0 <= i < cidrs.len() && #[trigger] named_last(cidrs, cidrs.len() as int, i) ==> assigned_cidr(
                    after,
                    cidrs[i].address_view(),
                ) == Some(cidrs[i])
            &&& forall|i: int|
                0 <= i < cidrs.len() ==> iface_state::has_addr(after, (#[trigger] cidrs[i]).address_view())
            &&& forall|i: int|
                0 <= i < before.len() && (#[trigger] before[i]).origin == AddrOrigin::LinkLocal
                    ==> iface_state::has_addr(after, before[i].cidr.address_view())
            &&& forall|i: int|
                0 <= i < after.len() ==> (#[trigger] after[i]).origin == AddrOrigin::LinkLocal || cidrs.contains(
                    after[i].cidr,
                )
            &&& forall|i: int, j: int|
                0 <= i < j < after.len() && (#[trigger] after[i]).origin == AddrOrigin::Manual
                    ==> after[i].cidr.address_view() != (#[trigger] after[j]).cidr.address_view()
        }),
{
    let before = net.iface(iface).ip_addrs;
    let after = addrs_set(net, iface, cidrs)->0.iface(iface).ip_addrs;
    let named = addrs_named(cidrs, cidrs.len() as int);
    let derived = before.filter(derived_besides(named));
    assert(after == named + derived);
    lemma_named(cidrs, cidrs.len() as int);
    neighbor::lemma_filter_subset(before, derived_besides(named));
    broadcast use vstd::seq_lib::group_filter_ensures;

    assert forall|k: int| 0 <= k < derived.len() implies (#[trigger] derived[k]).origin == AddrOrigin::LinkLocal
        && !iface_state::has_addr(named, derived[k].cidr.address_view()) by {
        assert(derived_besides(named)(derived[k]));
    }
    assert forall|i: int| 0 <= i < cidrs.len() && #[trigger] named_last(
        cidrs,
        cidrs.len() as int,
        i,
    ) implies assigned_cidr(after, cidrs[i].address_view()) == Some(cidrs[i]) by {
        let k = choose|k: int| 0 <= k < named.len() && (#[trigger] named[k]).cidr == cidrs[i];
        assert(after[k] == named[k]);
        assert forall|m: int| 0 <= m < k implies (#[trigger] after[m]).cidr.address_view()
            != cidrs[i].address_view() by {
            assert(after[m] == named[m]);
        }
        lemma_index_at(after, cidrs[i].address_view(), 0, k);
    }
    assert forall|i: int| 0 <= i < cidrs.len() implies iface_state::has_addr(
        after,
        (#[trigger] cidrs[i]).address_view(),
    ) by {
        let addr = cidrs[i].address_view();
        let k = choose|k: int| 0 <= k < named.len() && (#[trigger] named[k]).cidr.address_view() == addr;
        assert(after[k] == named[k]);
    }
    assert forall|i: int|
        0 <= i < before.len() && (#[trigger] before[i]).origin == AddrOrigin::LinkLocal implies iface_state::has_addr(
        after,
        before[i].cidr.address_view(),
    ) by {
        let addr = before[i].cidr.address_view();
        if iface_state::has_addr(named, addr) {
            let k = choose|k: int| 0 <= k < named.len() && (#[trigger] named[k]).cidr.address_view() == addr;
            assert(after[k] == named[k]);
        } else {
            assert(derived_besides(named)(before[i]));
            assert(derived.contains(before[i]));
            let k = choose|k: int| 0 <= k < derived.len() && derived[k] == before[i];
            assert(after[named.len() + k] == derived[k]);
        }
    }
    assert forall|i: int| 0 <= i < after.len() implies (#[trigger] after[i]).origin == AddrOrigin::LinkLocal
        || cidrs.contains(after[i].cidr) by {
        if i < named.len() {
            assert(after[i] == named[i]);
        } else {
            assert(after[i] == derived[i - named.len()]);
        }
    }
    assert forall|i: int, j: int|
        0 <= i < j < after.len() && (#[trigger] after[i]).origin == AddrOrigin::Manual implies after[i].cidr.address_view()
        != (#[trigger] after[j]).cidr.address_view() by {
        if i >= named.len() {
            assert(after[i] == derived[i - named.len()]);
        } else {
            assert(after[i] == named[i]);
            if j < named.len() {
                assert(after[j] == named[j]);
            } else {
                assert(after[j] == derived[j - named.len()]);
            }
        }
    }
}

/// Whether a change of an interface keeps the network side well-formed.
proof fn lemma_with_iface(net: NetModel, iface: IfaceHandle, state: IfaceModel)
    requires
        net.wf(),
        net.has_iface(iface),
        state.wf(),
        state.handle == iface,
        state.caps == net.iface(iface).caps,
    ensures
        with_iface(net, iface, state).wf(),
        with_iface(net, iface, state).has_iface(iface),
        with_iface(net, iface, state).iface(iface) == state,
        net.routes_attached() ==> with_iface(net, iface, state).routes_attached(),
{
    let after = with_iface(net, iface, state);
    assert forall|i: int| #[trigger] slab::occupied(after.ifaces, i) == slab::occupied(net.ifaces, i) by {}
    assert forall|i: int| slab::occupied(after.ifaces, i) implies network::iface_ok(
        #[trigger] after.ifaces[i]->0,
        i,
    ) by {
        assert(network::iface_ok(net.ifaces[i]->0, i));
    }
    assert forall|i: int| 0 <= i < after.inner.cache.len() implies network::ethernet_at(
        after.ifaces,
        (#[trigger] after.inner.cache[i]).0.0,
    ) by {
        assert(network::ethernet_at(net.ifaces, net.inner.cache[i].0.0));
    }
    if net.routes_attached() {
        assert forall|i: int| 0 <= i < after.inner.routes.len() implies slab::occupied(
            after.ifaces,
            (#[trigger] after.inner.routes[i]).iface.0 as int,
        ) by {
            assert(slab::occupied(net.ifaces, net.inner.routes[i].iface.0 as int));
        }
    }
}

/// Forgetting what was learned on a link keeps the network side well-formed.
proof fn lemma_purged(before: NetModel, after: NetModel, iface: IfaceHandle)
    requires
        before.wf(),
        after.inner == link::link_state_purged(before.inner, iface),
        after.inner.wf(),
        after.ifaces == before.ifaces,
    ensures
        after.wf(),
        before.routes_attached() ==> after.routes_attached(),
{
    neighbor::lemma_filter_subset(before.inner.cache, neighbor::off_iface(iface));
    assert forall|i: int| 0 <= i < after.inner.cache.len() implies network::ethernet_at(
        after.ifaces,
        (#[trigger] after.inner.cache[i]).0.0,
    ) by {
        assert(before.inner.cache.contains(after.inner.cache[i]));
        let k = choose|k: int| 0 <= k < before.inner.cache.len() && before.inner.cache[k] == after.inner.cache[i];
        assert(network::ethernet_at(before.ifaces, before.inner.cache[k].0.0));
    }
    if before.routes_attached() {
        assert forall|i: int| 0 <= i < after.inner.routes.len() implies slab::occupied(
            after.ifaces,
            (#[trigger] after.inner.routes[i]).iface.0 as int,
        ) by {
            assert(slab::occupied(before.ifaces, before.inner.routes[i].iface.0 as int));
        }
    }
}

/// Removing an address keeps the others usable.
proof fn lemma_addrs_remove(addrs: Seq<IfaceAddr>, i: int)
    requires
        iface_state::addrs_ok(addrs),
        0 <= i < addrs.len(),
    ensures
        iface_state::addrs_ok(addrs.remove(i)),
{
    let after = addrs.remove(i);
    assert forall|k: int| 0 <= k < after.len() implies (#[trigger] after[k]).wf() by {
        assert(after[k] == addrs[if k < i {
            k
        } else {
            k + 1
        }]);
    }
}

/// A selection of usable addresses is usable.
proof fn lemma_addrs_filter(addrs: Seq<IfaceAddr>, pred: spec_fn(IfaceAddr) -> bool)
    requires
        iface_state::addrs_ok(addrs),
    ensures
        iface_state::addrs_ok(addrs.filter(pred)),
        addrs.filter(pred).len() <= addrs.len(),
{
    let kept = addrs.filter(pred);
    neighbor::lemma_filter_subset(addrs, pred);
    addrs.lemma_filter_len(pred);
    assert forall|k: int| 0 <= k < kept.len() implies (#[trigger] kept[k]).wf() by {
        assert(addrs.contains(kept[k]));
    }
}

/// An interface borrowed from a stack.
pub struct Iface<'a> {
    pub net: &'a mut Network,
    pub index: usize,
}

impl<'a> Iface<'a> {
    /// The network side of the stack.
    pub open spec fn model(&self) -> NetModel {
        self.net@
    }

    /// The interface's handle.
    pub open spec fn handle(&self) -> IfaceHandle {
        IfaceHandle(self.index)
    }

    /// The interface.
    pub open spec fn state(&self) -> IfaceModel {
        self.model().iface(self.handle())
    }

    /// What every operation keeps.
    pub open spec fn wf(&self) -> bool {
        self.net.wf() && self.model().has_iface(self.handle())
    }

    /// The interface's state in the stack.
    fn inner(&self) -> (r: &IfaceState)
        requires
            self.wf(),
        ensures
            r@ == self.state(),
            r.wf(),
    {
        self.net.iface_state(IfaceHandle(self.index))
    }

    /// Replace the interface's state in the stack.
    fn update(&mut self, hardware_addr: HardwareAddress, ip_addrs: Vec<IfaceAddr>)
        requires
            old(self).wf(),
            (IfaceModel { hardware_addr, ip_addrs: ip_addrs@, ..old(self).state() }).wf(),
        ensures
            final(self).wf(),
            final(self).index == old(self).index,
            old(self).model().routes_attached() ==> final(self).model().routes_attached(),
            final(self).model() == with_iface(
                old(self).model(),
                old(self).handle(),
                (IfaceModel { hardware_addr, ip_addrs: ip_addrs@, ..old(self).state() }),
            ),
            *final(final(self).net) == *final(old(self).net),
    {
        let ghost slots = self.net.ifaces@;
        let ghost before = self.model();
        let ghost handle = self.handle();
        let ghost after = IfaceModel { hardware_addr, ip_addrs: ip_addrs@, ..before.iface(handle) };
        proof {
            assert(before.ifaces[self.index as int] == Some(slots[self.index as int]->0@));
            assert(slots[self.index as int]->0.wf());
            assert(network::iface_ok(before.ifaces[self.index as int]->0, self.index as int));
            lemma_with_iface(before, handle, after);
        }
        let state = self.net.ifaces.get_mut(self.index);
        state.hardware_addr = hardware_addr;
        state.ip_addrs = ip_addrs;
        proof {
            lemma_stored(slots, *self.net, self.index);
        }
    }

    /// Note that the interface's configuration changed.
    fn note_change(&mut self)
        requires
            old(self).wf(),
        ensures
            final(self).wf(),
            final(self).index == old(self).index,
            old(self).model().routes_attached() ==> final(self).model().routes_attached(),
            final(self).model() == with_iface(old(self).model(), old(self).handle(), noted(old(self).state())),
            old(self).state().config_waker matches Some(w) ==> waker::woken(w),
            *final(final(self).net) == *final(old(self).net),
    {
        let ghost slots = self.net.ifaces@;
        let ghost before = self.model();
        let ghost handle = self.handle();
        proof {
            assert(before.ifaces[self.index as int] == Some(slots[self.index as int]->0@));
            assert(slots[self.index as int]->0.wf());
            assert(network::iface_ok(before.ifaces[self.index as int]->0, self.index as int));
            lemma_with_iface(before, handle, noted(before.iface(handle)));
        }
        let state = self.net.ifaces.get_mut(self.index);
        state.config_changed();
        proof {
            lemma_stored(slots, *self.net, self.index);
        }
    }

    /// Purge state associated to this interface.
    fn invalidate(&mut self)
        requires
            old(self).wf(),
        ensures
            final(self).wf(),
            final(self).index == old(self).index,
            old(self).model().routes_attached() ==> final(self).model().routes_attached(),
            final(self).model() == invalidated(old(self).model(), old(self).handle(), old(self).state()),
            old(self).state().config_waker matches Some(w) ==> waker::woken(w),
            *final(final(self).net) == *final(old(self).net),
    {
        let handle = IfaceHandle(self.index);
        self.net.inner.purge_iface_link_state(handle);
        proof {
            lemma_purged(old(self).model(), self.model(), handle);
        }
        self.note_change();
    }

    /// The capabilities reported by the device.
    pub fn capabilities(&self) -> (r: IfaceCapabilities)
        requires
            self.wf(),
        ensures
            r == self.state().caps,
    {
        self.inner().caps
    }

    /// The interface's IP-layer MTU: the device MTU minus the link-layer header,
    /// clamped to what a [`PacketBuf`] can carry.
    pub fn ip_mtu(&self) -> (r: usize)
        requires
            self.wf(),
        ensures
            r == self.state().ip_mtu(),
    {
        self.inner().ip_mtu()
    }

    /// The hardware address of the interface.
    pub fn hardware_addr(&self) -> (r: HardwareAddress)
        requires
            self.wf(),
        ensures
            r == self.state().hardware_addr,
    {
        self.inner().hardware_addr
    }

    /// Set the hardware address of the interface.
    ///
    /// The stack starts using it for the frames it sends and for ingress filtering
    /// immediately. It does not announce the change on the link, so peers keep the
    /// old address in their neighbor caches until it expires. Send a gratuitous ARP
    /// or unsolicited neighbor advertisement from a raw socket if that matters.
    ///
    /// The address must be of the kind the device's medium uses.
    pub fn set_hardware_addr(&mut self, addr: HardwareAddress)
        requires
            old(self).wf(),
            addr.medium_view() == old(self).state().caps.medium,
        ensures
            final(self).wf(),
            final(self).index == old(self).index,
            old(self).model().routes_attached() ==> final(self).model().routes_attached(),
            final(self).model() == hardware_addr_set(old(self).model(), old(self).handle(), addr),
            told(old(self).state(), final(self).state()),
            *final(final(self).net) == *final(old(self).net),
    {
        vstd::pervasive::runtime_assert(addr.medium() == self.inner().medium());
        let ghost before = self.state();
        let state = self.inner();
        let mut ip_addrs: Vec<IfaceAddr> = Vec::new();
        let mut had = false;
        let mut i: usize = 0;
        proof {
            reveal(Seq::filter);
            assert(before.ip_addrs.take(0) =~= Seq::<IfaceAddr>::empty());
        }
        while i < state.ip_addrs.len()
            invariant
                i <= before.ip_addrs.len(),
                state.ip_addrs@ == before.ip_addrs,
                ip_addrs@ == before.ip_addrs.take(i as int).filter(not_derived()),
                had == has_derived(before.ip_addrs.take(i as int)),
            decreases before.ip_addrs.len() - i,
        {
            let a = state.ip_addrs[i];
            proof {
                neighbor::lemma_filter_step(before.ip_addrs, not_derived(), i as int);
                lemma_has_derived_step(before.ip_addrs, i as int);
            }
            if a.origin != AddrOrigin::LinkLocal {
                ip_addrs.push(a);
            } else {
                had = true;
            }
            i += 1;
        }
        proof {
            assert(before.ip_addrs.take(i as int) =~= before.ip_addrs);
            lemma_addrs_filter(before.ip_addrs, not_derived());
        }
        let derived = link_local_addr(addr);
        if let Some(ll) = derived {
            if ip_addrs.len() < IFACE_ADDR_COUNT {
                ip_addrs.push(ll);
            }
        }
        assert(ip_addrs@ == addrs_rederived(before.ip_addrs, addr));
        self.update(addr, ip_addrs);
        if derived.is_some() || had {
            self.invalidate();
            assert(self.model() =~= hardware_addr_set(old(self).model(), old(self).handle(), addr));
        }
    }

    /// The IP addresses assigned to the interface, with their origin.
    pub fn ip_addrs(&self) -> (r: &[IfaceAddr])
        requires
            self.wf(),
        ensures
            r@ == self.state().ip_addrs,
    {
        self.inner().ip_addrs.as_slice()
    }

    /// Check whether the given address is assigned to the interface.
    pub fn has_ip_addr<T: Into<IpAddress>>(&self, addr: T) -> (r: bool)
        requires
            self.wf(),
        ensures
            exists|a: IpAddress| #[trigger]
                call_ensures(T::into, (addr,), a) && r == iface_state::has_addr(self.state().ip_addrs, a),
    {
        let addr: IpAddress = addr.into();
        self.inner().has_ip_addr(&addr)
    }

    /// Where an address is assigned.
    fn find_addr(&self, addr: &IpAddress) -> (r: Option<usize>)
        requires
            self.wf(),
        ensures
            (match r {
                Some(i) => Some(i as int),
                None => None,
            }) == addr_index(self.state().ip_addrs, *addr, 0),
            r matches Some(i) ==> i < self.state().ip_addrs.len(),
    {
        index_of(self.inner().ip_addrs.as_slice(), addr)
    }

    /// The addresses of the interface, copied.
    fn copy_addrs(&self) -> (r: Vec<IfaceAddr>)
        requires
            self.wf(),
        ensures
            r@ == self.state().ip_addrs,
    {
        let state = self.inner();
        let mut r: Vec<IfaceAddr> = Vec::new();
        let mut i: usize = 0;
        while i < state.ip_addrs.len()
            invariant
                i <= state.ip_addrs@.len(),
                r@ == state.ip_addrs@.take(i as int),
            decreases state.ip_addrs@.len() - i,
        {
            r.push(state.ip_addrs[i]);
            i += 1;
            assert(state.ip_addrs@.take(i as int) =~= state.ip_addrs@.take(i - 1).push(state.ip_addrs@[i - 1]));
        }
        assert(state.ip_addrs@.take(i as int) =~= state.ip_addrs@);
        r
    }

    /// Assign an IP address to the interface.
    ///
    /// If the same address is already assigned, its prefix is updated and the
    /// previous CIDR returned. Otherwise the address is appended and `None` is
    /// returned. Source address selection prefers the first address matching the
    /// destination's subnet, so ordering only matters between addresses of the same
    /// subnet.
    ///
    /// The address must be unicast.
    ///
    /// Errors:
    /// - `Full` if the interface has no room for another address.
    pub fn add_ip_addr(&mut self, cidr: IpCidr) -> (r: Result<Option<IpCidr>, Full>)
        requires
            old(self).wf(),
            cidr.wf(),
            cidr.address_view().unicast_view(),
        ensures
            final(self).wf(),
            final(self).index == old(self).index,
            old(self).model().routes_attached() ==> final(self).model().routes_attached(),
            match addr_added(old(self).model(), old(self).handle(), cidr) {
                Some(after) => {
                    &&& r == Ok::<Option<IpCidr>, Full>(
                        assigned_cidr(old(self).state().ip_addrs, cidr.address_view()),
                    )
                    &&& final(self).model() == after
                },
                None => r is Err && final(self).model() == old(self).model(),
            },
            told(old(self).state(), final(self).state()),
            *final(final(self).net) == *final(old(self).net),
    {
        let addr = cidr.address();
        vstd::pervasive::runtime_assert(addr.is_unicast());
        let hardware_addr = self.hardware_addr();
        let mut ip_addrs = self.copy_addrs();
        match self.find_addr(&addr) {
            Some(index) => {
                let old_cidr = ip_addrs[index].cidr;
                if old_cidr == cidr {
                    return Ok(Some(cidr));
                }
                ip_addrs.set(index, IfaceAddr::manual(cidr));
                self.update(hardware_addr, ip_addrs);
                self.invalidate();
                assert(self.model() =~= addr_added(old(self).model(), old(self).handle(), cidr)->0);
                Ok(Some(old_cidr))
            },
            None => {
                if ip_addrs.len() >= IFACE_ADDR_COUNT {
                    return Err(Full);
                }
                ip_addrs.push(IfaceAddr::manual(cidr));
                self.update(hardware_addr, ip_addrs);
                self.note_change();
                assert(self.model() =~= addr_added(old(self).model(), old(self).handle(), cidr)->0);
                Ok(None)
            },
        }
    }

    /// Unassign an IP address from the interface, returning the CIDR it was
    /// assigned with, or `None` if it was not assigned.
    pub fn remove_ip_addr<T: Into<IpAddress>>(&mut self, addr: T) -> (r: Option<IpCidr>)
        requires
            old(self).wf(),
        ensures
            final(self).wf(),
            final(self).index == old(self).index,
            old(self).model().routes_attached() ==> final(self).model().routes_attached(),
            exists|a: IpAddress|
                {
                    &&& #[trigger] call_ensures(T::into, (addr,), a)
                    &&& r == assigned_cidr(old(self).state().ip_addrs, a)
                    &&& final(self).model() == addr_removed(old(self).model(), old(self).handle(), a)
                },
            told(old(self).state(), final(self).state()),
            *final(final(self).net) == *final(old(self).net),
    {
        self.remove_addr(addr.into())
    }

    /// [`remove_ip_addr`](Self::remove_ip_addr), with the address given as such.
    pub fn remove_addr(&mut self, addr: IpAddress) -> (r: Option<IpCidr>)
        requires
            old(self).wf(),
        ensures
            final(self).wf(),
            final(self).index == old(self).index,
            old(self).model().routes_attached() ==> final(self).model().routes_attached(),
            r == assigned_cidr(old(self).state().ip_addrs, addr),
            final(self).model() == addr_removed(old(self).model(), old(self).handle(), addr),
            told(old(self).state(), final(self).state()),
            *final(final(self).net) == *final(old(self).net),
    {
        let index = match self.find_addr(&addr) {
            Some(index) => index,
            None => return None,
        };
        let hardware_addr = self.hardware_addr();
        let mut ip_addrs = self.copy_addrs();
        let ghost before = self.state();
        proof {
            lemma_iface_wf(*self);
            lemma_addrs_remove(before.ip_addrs, index as int);
        }
        let removed = ip_addrs.remove(index);
        self.update(hardware_addr, ip_addrs);
        self.invalidate();
        assert(self.model() =~= addr_removed(old(self).model(), old(self).handle(), addr));
        Some(removed.cidr)
    }

    /// Replace the interface's entire set of IP addresses.
    ///
    /// Equivalent to removing every address and adding the given ones, so that an
    /// address given twice is assigned once, with the later prefix. The automatic
    /// IPv6 link-local address is kept.
    ///
    /// The addresses must be unicast.
    ///
    /// Errors:
    /// - `Full` if the addresses do not fit. The interface is left unchanged.
    pub fn set_ip_addrs(&mut self, new_addrs: &[IpCidr]) -> (r: Result<(), Full>)
        requires
            old(self).wf(),
            forall|i: int|
                0 <= i < new_addrs@.len() ==> (#[trigger] new_addrs@[i]).wf()
                    && new_addrs@[i].address_view().unicast_view(),
        ensures
            final(self).wf(),
            final(self).index == old(self).index,
            old(self).model().routes_attached() ==> final(self).model().routes_attached(),
            match addrs_set(old(self).model(), old(self).handle(), new_addrs@) {
                Some(after) => r is Ok && final(self).model() == after,
                None => r is Err && final(self).model() == old(self).model(),
            },
            told(old(self).state(), final(self).state()),
            *final(final(self).net) == *final(old(self).net),
    {
        let ghost before = self.state();
        proof {
            lemma_iface_wf(*self);
        }
        let mut addrs: Vec<IfaceAddr> = Vec::new();
        let mut i: usize = 0;
        while i < new_addrs.len()
            invariant
                i <= new_addrs@.len(),
                addrs@ == addrs_named(new_addrs@, i as int),
                forall|k: int|
                    0 <= k < new_addrs@.len() ==> (#[trigger] new_addrs@[k]).wf()
                        && new_addrs@[k].address_view().unicast_view(),
            decreases new_addrs@.len() - i,
        {
            let addr = new_addrs[i].address();
            vstd::pervasive::runtime_assert(addr.is_unicast());
            match index_of(addrs.as_slice(), &addr) {
                Some(index) => addrs.set(index, IfaceAddr::manual(new_addrs[i])),
                None => addrs.push(IfaceAddr::manual(new_addrs[i])),
            }
            i += 1;
        }
        let ghost named = addrs_named(new_addrs@, new_addrs@.len() as int);
        let kept = self.derived_addrs(addrs.as_slice());
        proof {
            lemma_named_ok(new_addrs@, new_addrs@.len() as int);
            lemma_addrs_filter(before.ip_addrs, derived_besides(named));
        }
        if kept.len() > IFACE_ADDR_COUNT || addrs.len() > IFACE_ADDR_COUNT - kept.len() {
            return Err(Full);
        }
        let mut k: usize = 0;
        while k < kept.len()
            invariant
                k <= kept@.len(),
                addrs@ == named + kept@.take(k as int),
                iface_state::addrs_ok(kept@),
                iface_state::addrs_ok(addrs@),
            decreases kept@.len() - k,
        {
            addrs.push(kept[k]);
            k += 1;
            assert(addrs@ =~= named + kept@.take(k as int));
        }
        assert(kept@.take(k as int) =~= kept@);
        assert(addrs@ == addrs_replaced(before.ip_addrs, new_addrs@));
        if same_addrs(self.inner().ip_addrs.as_slice(), addrs.as_slice()) {
            return Ok(());
        }
        let hardware_addr = self.hardware_addr();
        self.update(hardware_addr, addrs);
        self.invalidate();
        assert(self.model() =~= addrs_set(old(self).model(), old(self).handle(), new_addrs@)->0);
        Ok(())
    }

    /// The derived addresses of the interface that are not among others.
    fn derived_addrs(&self, others: &[IfaceAddr]) -> (r: Vec<IfaceAddr>)
        requires
            self.wf(),
        ensures
            r@ == self.state().ip_addrs.filter(derived_besides(others@)),
    {
        let state = self.inner();
        let ghost all = state.ip_addrs@;
        let mut r: Vec<IfaceAddr> = Vec::new();
        let mut i: usize = 0;
        proof {
            reveal(Seq::filter);
            assert(all.take(0) =~= Seq::<IfaceAddr>::empty());
        }
        while i < state.ip_addrs.len()
            invariant
                i <= all.len(),
                all == state.ip_addrs@,
                r@ == all.take(i as int).filter(derived_besides(others@)),
            decreases all.len() - i,
        {
            let a = state.ip_addrs[i];
            proof {
                neighbor::lemma_filter_step(all, derived_besides(others@), i as int);
            }
            if a.origin == AddrOrigin::LinkLocal && !among(others, &a.cidr.address()) {
                r.push(a);
            }
            i += 1;
        }
        assert(all.take(i as int) =~= all);
        r
    }

    /// A counter that goes up every time the interface's configuration changes
    /// for any reason.
    ///
    /// Compare it with a saved value to find out whether anything changed since.
    pub fn config_generation(&self) -> (r: u32)
        requires
            self.wf(),
        ensures
            r == self.state().config_generation,
    {
        self.inner().config_generation
    }

    /// Register a waker to be woken when [`config_generation`](Self::config_generation)
    /// changes.
    ///
    /// Only one waker is kept. Registering another replaces it. A woken waker must
    /// be registered again to be woken again.
    pub fn register_config_waker(&mut self, waker: &Waker)
        requires
            old(self).wf(),
        ensures
            final(self).wf(),
            final(self).index == old(self).index,
            final(self).model() == with_iface(
                old(self).model(),
                old(self).handle(),
                (IfaceModel { config_waker: final(self).state().config_waker, ..old(self).state() }),
            ),
            final(self).state().config_waker matches Some(kept) && waker::stands_for(
                kept,
                *waker,
                old(self).state().config_waker,
            ),
            *final(final(self).net) == *final(old(self).net),
    {
        let ghost slots = self.net.ifaces@;
        let ghost before = self.model();
        let ghost handle = self.handle();
        proof {
            assert(before.ifaces[self.index as int] == Some(slots[self.index as int]->0@));
            assert(slots[self.index as int]->0.wf());
            assert(network::iface_ok(before.ifaces[self.index as int]->0, self.index as int));
        }
        let state = self.net.ifaces.get_mut(self.index);
        state.config_waker.register(waker);
        proof {
            let kept = self.net.ifaces@[self.index as int]->0@.config_waker;
            lemma_with_iface(before, handle, IfaceModel { config_waker: kept, ..before.iface(handle) });
            lemma_stored(slots, *self.net, self.index);
        }
    }

    /// Hand the interface a frame its device received, to be processed when the stack
    /// is polled.
    ///
    /// The frame must leave room for a link-layer header to be put in front of a reply
    /// that is as long as it.
    pub fn receive(&mut self, buf: PacketBuf)
        requires
            old(self).wf(),
            buf.wf(),
            iface_state::rx_ok(old(self).state().caps.medium, buf@),
        ensures
            final(self).wf(),
            final(self).index == old(self).index,
            old(self).model().routes_attached() ==> final(self).model().routes_attached(),
            final(self).model() == with_iface(
                old(self).model(),
                old(self).handle(),
                (IfaceModel { rx: old(self).state().rx.push(buf@), ..old(self).state() }),
            ),
            *final(final(self).net) == *final(old(self).net),
    {
        let ghost slots = self.net.ifaces@;
        let ghost before = self.model();
        let ghost handle = self.handle();
        let ghost after = IfaceModel { rx: before.iface(handle).rx.push(buf@), ..before.iface(handle) };
        proof {
            assert(before.ifaces[self.index as int] == Some(slots[self.index as int]->0@));
            assert(slots[self.index as int]->0.wf());
            assert(network::iface_ok(before.ifaces[self.index as int]->0, self.index as int));
            lemma_with_iface(before, handle, after);
        }
        let state = self.net.ifaces.get_mut(self.index);
        state.rx.push(buf);
        proof {
            assert(state@ =~= after);
            lemma_stored(slots, *self.net, self.index);
        }
    }

    /// Take the oldest frame the interface transmitted and its device has not taken yet.
    pub fn transmit(&mut self) -> (r: Option<PacketBuf>)
        requires
            old(self).wf(),
        ensures
            final(self).wf(),
            final(self).index == old(self).index,
            old(self).model().routes_attached() ==> final(self).model().routes_attached(),
            match r {
                Some(buf) => {
                    &&& old(self).state().tx.len() > 0
                    &&& buf.wf()
                    &&& buf@.frame() == old(self).state().tx[0]
                    &&& final(self).model() == with_iface(
                        old(self).model(),
                        old(self).handle(),
                        (IfaceModel { tx: old(self).state().tx.drop_first(), ..old(self).state() }),
                    )
                },
                None => old(self).state().tx.len() == 0 && final(self).model() == old(self).model(),
            },
            *final(final(self).net) == *final(old(self).net),
    {
        if self.inner().tx.len() == 0 {
            return None;
        }
        let ghost slots = self.net.ifaces@;
        let ghost before = self.model();
        let ghost handle = self.handle();
        let ghost after = IfaceModel { tx: before.iface(handle).tx.drop_first(), ..before.iface(handle) };
        proof {
            assert(before.ifaces[self.index as int] == Some(slots[self.index as int]->0@));
            assert(slots[self.index as int]->0.wf());
            assert(network::iface_ok(before.ifaces[self.index as int]->0, self.index as int));
            lemma_with_iface(before, handle, after);
        }
        let state = self.net.ifaces.get_mut(self.index);
        let buf = state.tx.remove(0);
        proof {
            assert(before.iface(handle).tx[0] == buf@.frame());
            assert(state@ =~= after);
            lemma_stored(slots, *self.net, self.index);
        }
        Some(buf)
    }

    /// Hand the interface a transmit timestamp its device reported.
    pub fn report_tx_timestamp(&mut self, stamp: TxTimestamp)
        requires
            old(self).wf(),
        ensures
            final(self).wf(),
            final(self).index == old(self).index,
            old(self).model().routes_attached() ==> final(self).model().routes_attached(),
            final(self).model() == with_iface(
                old(self).model(),
                old(self).handle(),
                (IfaceModel { stamps: old(self).state().stamps.push(stamp), ..old(self).state() }),
            ),
            *final(final(self).net) == *final(old(self).net),
    {
        let ghost slots = self.net.ifaces@;
        let ghost before = self.model();
        let ghost handle = self.handle();
        let ghost after = IfaceModel { stamps: before.iface(handle).stamps.push(stamp), ..before.iface(handle) };
        proof {
            assert(before.ifaces[self.index as int] == Some(slots[self.index as int]->0@));
            assert(slots[self.index as int]->0.wf());
            assert(network::iface_ok(before.ifaces[self.index as int]->0, self.index as int));
            lemma_with_iface(before, handle, after);
        }
        let state = self.net.ifaces.get_mut(self.index);
        state.stamps.push(stamp);
        proof {
            lemma_stored(slots, *self.net, self.index);
        }
    }

    /// Poll the device for the timestamp of an already-transmitted packet, sent with
    /// a request for one.
    ///
    /// Returns `None` if no timestamp is available right now. Timestamps
    /// arrive an arbitrary time after the packet was sent, possibly out of order, and
    /// possibly never.
    pub fn poll_tx_timestamp(&mut self) -> (r: Option<TxTimestamp>)
        requires
            old(self).wf(),
        ensures
            final(self).wf(),
            final(self).index == old(self).index,
            old(self).model().routes_attached() ==> final(self).model().routes_attached(),
            if old(self).state().stamps.len() == 0 {
                r is None && final(self).model() == old(self).model()
            } else {
                r == Some(old(self).state().stamps[0]) && final(self).model() == with_iface(
                    old(self).model(),
                    old(self).handle(),
                    (IfaceModel { stamps: old(self).state().stamps.drop_first(), ..old(self).state() }),
                )
            },
            *final(final(self).net) == *final(old(self).net),
    {
        if self.inner().stamps.len() == 0 {
            return None;
        }
        let ghost slots = self.net.ifaces@;
        let ghost before = self.model();
        let ghost handle = self.handle();
        let ghost after = IfaceModel { stamps: before.iface(handle).stamps.drop_first(), ..before.iface(handle) };
        proof {
            assert(before.ifaces[self.index as int] == Some(slots[self.index as int]->0@));
            assert(slots[self.index as int]->0.wf());
            assert(network::iface_ok(before.ifaces[self.index as int]->0, self.index as int));
            lemma_with_iface(before, handle, after);
        }
        let state = self.net.ifaces.get_mut(self.index);
        let stamp = state.stamps.remove(0);
        proof {
            assert(state@ =~= after);
            lemma_stored(slots, *self.net, self.index);
        }
        Some(stamp)
    }
}

/// An interface of a well-formed stack is well-formed.
proof fn lemma_iface_wf(iface: Iface<'_>)
    requires
        iface.wf(),
    ensures
        iface.state().wf(),
        iface.state().handle == iface.handle(),
{
    assert(network::iface_ok(iface.model().ifaces[iface.index as int]->0, iface.index as int));
}

/// Storing an interface changes that interface only.
proof fn lemma_stored(slots: Seq<Option<IfaceState>>, after: Network, index: usize)
    requires
        slab::occupied(slots, index as int),
        network::slots_ok(slots),
        after.ifaces@ == slots.update(index as int, after.ifaces@[index as int]),
        after.ifaces@[index as int] is Some,
        after.ifaces@[index as int]->0.wf(),
    ensures
        network::slots_ok(after.ifaces@),
        after@.ifaces == slab::views(slots).update(index as int, Some(after.ifaces@[index as int]->0@)),
{
    slab::lemma_views_update(slots, index as int, after.ifaces@[index as int]->0);
    assert forall|k: int| slab::occupied(after.ifaces@, k) implies (#[trigger] after.ifaces@[k])->0.wf() by {
        if k != index {
            assert(slots[k]->0.wf());
        }
    }
}

/// One more address decides whether a derived one is among them.
proof fn lemma_has_derived_step(addrs: Seq<IfaceAddr>, i: int)
    requires
        0 <= i < addrs.len(),
    ensures
        has_derived(addrs.take(i + 1)) == (has_derived(addrs.take(i)) || addrs[i].origin == AddrOrigin::LinkLocal),
{
    let before = addrs.take(i);
    let after = addrs.take(i + 1);
    if has_derived(before) {
        let k = choose|k: int| 0 <= k < before.len() && (#[trigger] before[k]).origin == AddrOrigin::LinkLocal;
        assert(after[k].origin == AddrOrigin::LinkLocal);
    }
    if addrs[i].origin == AddrOrigin::LinkLocal {
        assert(after[i].origin == AddrOrigin::LinkLocal);
    }
    if has_derived(after) {
        let k = choose|k: int| 0 <= k < after.len() && (#[trigger] after[k]).origin == AddrOrigin::LinkLocal;
        if k < i {
            assert(before[k].origin == AddrOrigin::LinkLocal);
        }
    }
}

/// Whether an address is among others.
fn among(addrs: &[IfaceAddr], addr: &IpAddress) -> (r: bool)
    ensures
        r == iface_state::has_addr(addrs@, *addr),
{
    let mut i: usize = 0;
    while i < addrs.len()
        invariant
            i <= addrs@.len(),
            forall|k: int| 0 <= k < i ==> (#[trigger] addrs@[k]).cidr.address_view() != *addr,
        decreases addrs@.len() - i,
    {
        if addrs[i].cidr.address() == *addr {
            return true;
        }
        i += 1;
    }
    false
}

/// Where an address stands in a list for the first time.
fn index_of(addrs: &[IfaceAddr], addr: &IpAddress) -> (r: Option<usize>)
    ensures
        (match r {
            Some(i) => Some(i as int),
            None => None,
        }) == addr_index(addrs@, *addr, 0),
        r matches Some(i) ==> i < addrs@.len(),
{
    let mut i: usize = 0;
    while i < addrs.len()
        invariant
            i <= addrs@.len(),
            addr_index(addrs@, *addr, i as int) == addr_index(addrs@, *addr, 0),
        decreases addrs@.len() - i,
    {
        if addrs[i].cidr.address() == *addr {
            return Some(i);
        }
        i += 1;
    }
    None
}

/// Whether two lists of addresses are the same.
fn same_addrs(a: &[IfaceAddr], b: &[IfaceAddr]) -> (r: bool)
    ensures
        r == (a@ == b@),
{
    if a.len() != b.len() {
        return false;
    }
    let mut i: usize = 0;
    while i < a.len()
        invariant
            i <= a@.len(),
            a@.len() == b@.len(),
            forall|k: int| 0 <= k < i ==> a@[k] == b@[k],
        decreases a@.len() - i,
    {
        if a[i] != b[i] {
            return false;
        }
        i += 1;
    }
    assert(a@ =~= b@);
    true
}

} // verus!
