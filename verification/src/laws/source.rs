//! Source addresses.

use vstd::prelude::*;

use crate::laws;
use crate::laws::address;
use crate::stack::iface_state;
use crate::stack::iface_state::IfaceAddr;
use crate::stack::source;
use crate::wire::cidr::{IpCidr, Ipv6Cidr};
use crate::wire::ip::{IpAddress, Ipv4Address, Ipv6Address};

verus! {

/// Whether the octets are those of an address in `fe80::/64`.
pub open spec fn link_local(s: Seq<u8>) -> bool {
    s[0] == 0xfe && s[1] == 0x80 && laws::number(s.subrange(2, 8)) == 0
}

/// Whether the octets are those of an address in `fc00::/7` or `2000::/3`.
pub open spec fn global(s: Seq<u8>) -> bool {
    s[0] / 2 == 0x7e || s[0] / 32 == 1
}

/// Whether two addresses reach equally far.
pub open spec fn same_reach(a: Seq<u8>, b: Seq<u8>) -> bool {
    link_local(a) == link_local(b) && global(a) == global(b)
}

/// Whether an interface is assigned an IPv6 address that can be the source of packets to a
/// destination: any single host's, but none but a link-local one for a link-local
/// destination.
pub open spec fn usable(addrs: Seq<IfaceAddr>, i: int, dst: Ipv6Address) -> bool {
    &&& 0 <= i < addrs.len()
    &&& addrs[i].cidr is Ipv6
    &&& laws::number(addrs[i].cidr->Ipv6_0.address.0@) != 0
    &&& addrs[i].cidr->Ipv6_0.address.0@[0] != 255
    &&& link_local(dst.0@) ==> link_local(addrs[i].cidr->Ipv6_0.address.0@)
}

/// The selected source is an address that can be one, with the prefix it is assigned with.
proof fn lemma_selected(addrs: Seq<IfaceAddr>, dst: Ipv6Address, i: int) -> (k: int)
    requires
        laws::number(dst.0@) != 1,
        usable(addrs, i, dst),
    ensures
        usable(addrs, k, dst),
        addrs[k].cidr->Ipv6_0.address == source::source_ipv6(addrs, dst),
        !source::better(addrs[i].cidr->Ipv6_0, addrs[k].cidr->Ipv6_0, dst),
{
    address::law_ipv6_classes(dst);
    address::law_ipv6_classes(addrs[i].cidr->Ipv6_0.address);
    source::lemma_best_source(addrs, dst, addrs.len() as int);
    let best = source::best_source(addrs, dst, addrs.len() as int)->0;
    let k = choose|k: int| 0 <= k < addrs.len() && (#[trigger] addrs[k]).cidr == IpCidr::Ipv6(best);
    address::law_ipv6_classes(best.address);
    assert(addrs[i].cidr == IpCidr::Ipv6(addrs[i].cidr->Ipv6_0));
    k
}

/// Of the addresses that can be the source and reach equally far, the selected one agrees
/// with the destination in the most bits of the network it is assigned with: wherever
/// another one agrees with the destination in so many bits of its network, the selected
/// one does too.
pub proof fn law_source_has_longest_prefix(addrs: Seq<IfaceAddr>, dst: Ipv6Address, i: int)
    requires
        laws::number(dst.0@) != 1,
        usable(addrs, i, dst),
        source::source_ipv6(addrs, dst) != dst,
        same_reach(addrs[i].cidr->Ipv6_0.address.0@, source::source_ipv6(addrs, dst).0@),
    ensures
        exists|k: int|
            {
                &&& #[trigger] usable(addrs, k, dst)
                &&& addrs[k].cidr->Ipv6_0.address == source::source_ipv6(addrs, dst)
                &&& forall|n: int|
                    0 <= n <= addrs[i].cidr->Ipv6_0.prefix_len && n <= 128 && #[trigger] laws::agree(
                        addrs[i].cidr->Ipv6_0.address.0@,
                        dst.0@,
                        n,
                    ) ==> n <= addrs[k].cidr->Ipv6_0.prefix_len && laws::agree(
                        source::source_ipv6(addrs, dst).0@,
                        dst.0@,
                        n,
                    )
            },
{
    let k = lemma_selected(addrs, dst, i);
    let c = addrs[i].cidr->Ipv6_0;
    let best = addrs[k].cidr->Ipv6_0;
    address::law_ipv6_classes(c.address);
    address::law_ipv6_classes(best.address);
    assert(c.address.scope_view() == best.address.scope_view());
    assert(source::common_prefix_len(c, dst) <= source::common_prefix_len(best, dst) || c.address == dst);
    assert forall|n: int|
        0 <= n <= c.prefix_len && n <= 128 && #[trigger] laws::agree(c.address.0@, dst.0@, n) implies n
        <= best.prefix_len && laws::agree(best.address.0@, dst.0@, n) by {
        lemma_prefix_carries_over(c, best, dst, n);
    }
    assert(usable(addrs, k, dst));
}

proof fn lemma_prefix_carries_over(c: Ipv6Cidr, best: Ipv6Cidr, dst: Ipv6Address, n: int)
    requires
        !source::better(c, best, dst),
        best.address != dst,
        c.address.scope_view() == best.address.scope_view(),
        0 <= n <= c.prefix_len,
        n <= 128,
        laws::agree(c.address.0@, dst.0@, n),
    ensures
        n <= best.prefix_len,
        laws::agree(best.address.0@, dst.0@, n),
{
    address::law_common_prefix_is_longest(c.address.0@, dst.0@);
    address::law_common_prefix_is_longest(best.address.0@, dst.0@);
    let common = source::common_bits(c.address.0@, dst.0@, 0);
    if common < n {
        assert(laws::bit(c.address.0@, common) == laws::bit(dst.0@, common));
    }
    let reached = source::common_bits(best.address.0@, dst.0@, 0);
    assert(n <= source::common_prefix_len(c, dst));
    assert(n <= reached);
}

/// If one address that can be the source has the destination in its network and another
/// that reaches equally far does not, the other is not selected.
pub proof fn law_source_on_destination_network_is_preferred(
    addrs: Seq<IfaceAddr>,
    dst: Ipv6Address,
    near: int,
    far: int,
)
    requires
        laws::number(dst.0@) != 1,
        usable(addrs, near, dst),
        usable(addrs, far, dst),
        addrs[near].cidr->Ipv6_0.prefix_len <= 128,
        laws::agree(
            addrs[near].cidr->Ipv6_0.address.0@,
            dst.0@,
            addrs[near].cidr->Ipv6_0.prefix_len as int,
        ),
        same_reach(addrs[near].cidr->Ipv6_0.address.0@, addrs[far].cidr->Ipv6_0.address.0@),
        !laws::agree(
            addrs[far].cidr->Ipv6_0.address.0@,
            dst.0@,
            addrs[near].cidr->Ipv6_0.prefix_len as int,
        ),
    ensures
        source::source_ipv6(addrs, dst) != addrs[far].cidr->Ipv6_0.address,
{
    let src = source::source_ipv6(addrs, dst);
    if src == addrs[far].cidr->Ipv6_0.address {
        assert(src != dst);
        law_source_has_longest_prefix(addrs, dst, near);
    }
}

/// A source reaches as far as a single host's destination does, if any address that can be
/// the source does: one on the same link for a link-local destination, a global one for a
/// global destination.
pub proof fn law_source_reaches_destination(addrs: Seq<IfaceAddr>, dst: Ipv6Address, i: int)
    requires
        laws::number(dst.0@) != 1,
        usable(addrs, i, dst),
        link_local(dst.0@) || global(dst.0@),
        same_reach(addrs[i].cidr->Ipv6_0.address.0@, dst.0@),
    ensures
        same_reach(source::source_ipv6(addrs, dst).0@, dst.0@),
{
    let k = lemma_selected(addrs, dst, i);
    address::law_ipv6_classes(addrs[i].cidr->Ipv6_0.address);
    address::law_ipv6_classes(addrs[k].cidr->Ipv6_0.address);
    address::law_ipv6_classes(dst);
}

/// Packets to a group go out from an address that reaches as far as the group does: to a
/// group of the link from a link-local address, to a wider one from a global address.
pub proof fn law_source_reaches_group(addrs: Seq<IfaceAddr>, dst: Ipv6Address, i: int)
    requires
        dst.0@[0] == 255,
        usable(addrs, i, dst),
        ({
            let scope = dst.0@[1] % 16;
            let src = addrs[i].cidr->Ipv6_0.address.0@;
            ||| scope <= 2 && link_local(src)
            ||| (scope == 4 || scope == 5 || scope == 8 || scope == 14) && global(src)
        }),
    ensures
        same_reach(source::source_ipv6(addrs, dst).0@, addrs[i].cidr->Ipv6_0.address.0@),
{
    address::law_ipv6_classes(dst);
    laws::lemma_number_zero(dst.0@);
    let k = lemma_selected_group(addrs, dst, i);
    address::law_ipv6_classes(addrs[i].cidr->Ipv6_0.address);
    address::law_ipv6_classes(addrs[k].cidr->Ipv6_0.address);
    assert(addrs[i].cidr->Ipv6_0.address != dst && addrs[k].cidr->Ipv6_0.address != dst);
}

proof fn lemma_selected_group(addrs: Seq<IfaceAddr>, dst: Ipv6Address, i: int) -> (k: int)
    requires
        dst.0@[0] == 255,
        usable(addrs, i, dst),
    ensures
        usable(addrs, k, dst),
        addrs[k].cidr->Ipv6_0.address == source::source_ipv6(addrs, dst),
        !source::better(addrs[i].cidr->Ipv6_0, addrs[k].cidr->Ipv6_0, dst),
{
    address::law_ipv6_classes(dst);
    assert(!dst.loopback_view()) by {
        if dst.loopback_view() {
            assert(dst.0@[0] == Ipv6Address::localhost_octets()[0]);
        }
    }
    lemma_selected(addrs, dst, i)
}

/// Packets to the loopback address come from it, and so do all from an interface without
/// an IPv6 address.
pub proof fn law_loopback_source(addrs: Seq<IfaceAddr>, dst: Ipv6Address)
    requires
        laws::number(dst.0@) == 1 || forall|i: int| 0 <= i < addrs.len() ==> (#[trigger] addrs[i]).cidr is Ipv4,
    ensures
        laws::number(source::source_ipv6(addrs, dst).0@) == 1,
{
    let localhost = Ipv6Address::of(Ipv6Address::localhost_octets());
    assert(localhost.0@ =~= Ipv6Address::localhost_octets());
    address::law_ipv6_classes(dst);
    address::law_ipv6_classes(localhost);
    source::lemma_best_source(addrs, dst, addrs.len() as int);
    source::lemma_first_ipv6(addrs, 0);
}

/// Whether an interface is assigned an IPv4 address with the destination in its network.
pub open spec fn near_v4(addrs: Seq<IfaceAddr>, i: int, dst: Ipv4Address) -> bool {
    &&& 0 <= i < addrs.len()
    &&& addrs[i].cidr is Ipv4
    &&& laws::agree(addrs[i].cidr->Ipv4_0.address.0@, dst.0@, addrs[i].cidr->Ipv4_0.prefix_len as int)
}

/// Packets to an IPv4 destination in the network of an assigned address come from the first
/// such address.
pub proof fn law_ipv4_source_shares_network(addrs: Seq<IfaceAddr>, dst: Ipv4Address, i: int)
    requires
        near_v4(addrs, i, dst),
        forall|j: int| 0 <= j < i ==> !#[trigger] near_v4(addrs, j, dst),
    ensures
        source::source_addr(addrs, IpAddress::Ipv4(dst)) == Some(IpAddress::Ipv4(addrs[i].cidr->Ipv4_0.address)),
{
    lemma_near_from(addrs, dst, 0, i);
}

proof fn lemma_near_from(addrs: Seq<IfaceAddr>, dst: Ipv4Address, from: int, i: int)
    requires
        0 <= from <= i,
        near_v4(addrs, i, dst),
        forall|j: int| from <= j < i ==> !#[trigger] near_v4(addrs, j, dst),
    ensures
        iface_state::first_ipv4_near(addrs, dst, from) == Some(addrs[i].cidr->Ipv4_0.address),
    decreases i - from,
{
    address::law_network_holds_what_agrees(addrs[from].cidr, IpAddress::Ipv4(dst));
    if from < i {
        assert(!near_v4(addrs, from, dst));
        lemma_near_from(addrs, dst, from + 1, i);
    }
}

/// Packets to any other IPv4 destination come from the first IPv4 address, if there is one.
pub proof fn law_ipv4_source_defaults_to_first(addrs: Seq<IfaceAddr>, dst: Ipv4Address, i: int)
    requires
        forall|j: int| 0 <= j < addrs.len() ==> !#[trigger] near_v4(addrs, j, dst),
        0 <= i <= addrs.len(),
        i < addrs.len() ==> addrs[i].cidr is Ipv4,
        forall|j: int| 0 <= j < i ==> (#[trigger] addrs[j]).cidr is Ipv6,
    ensures
        source::source_addr(addrs, IpAddress::Ipv4(dst)) == (if i < addrs.len() {
            Some(IpAddress::Ipv4(addrs[i].cidr->Ipv4_0.address))
        } else {
            None
        }),
{
    lemma_none_near(addrs, dst, 0);
    lemma_first_v4(addrs, 0, i);
}

proof fn lemma_none_near(addrs: Seq<IfaceAddr>, dst: Ipv4Address, from: int)
    requires
        0 <= from,
        forall|j: int| 0 <= j < addrs.len() ==> !#[trigger] near_v4(addrs, j, dst),
    ensures
        iface_state::first_ipv4_near(addrs, dst, from) is None,
    decreases addrs.len() - from,
{
    if from < addrs.len() {
        address::law_network_holds_what_agrees(addrs[from].cidr, IpAddress::Ipv4(dst));
        assert(!near_v4(addrs, from, dst));
        lemma_none_near(addrs, dst, from + 1);
    }
}

proof fn lemma_first_v4(addrs: Seq<IfaceAddr>, from: int, i: int)
    requires
        0 <= from <= i <= addrs.len(),
        i < addrs.len() ==> addrs[i].cidr is Ipv4,
        forall|j: int| from <= j < i ==> (#[trigger] addrs[j]).cidr is Ipv6,
    ensures
        iface_state::first_ipv4(addrs, from) == (if i < addrs.len() {
            Some(addrs[i].cidr->Ipv4_0.address)
        } else {
            None
        }),
    decreases i - from,
{
    if from < i {
        assert(addrs[from].cidr is Ipv6);
        lemma_first_v4(addrs, from + 1, i);
    }
}

/// Without a usable address, packets come from the first IPv6 address there is.
pub proof fn law_ipv6_source_defaults_to_first(addrs: Seq<IfaceAddr>, dst: Ipv6Address, i: int)
    requires
        laws::number(dst.0@) != 1,
        forall|j: int| !#[trigger] usable(addrs, j, dst),
        0 <= i < addrs.len(),
        addrs[i].cidr is Ipv6,
        forall|j: int| 0 <= j < i ==> (#[trigger] addrs[j]).cidr is Ipv4,
    ensures
        source::source_ipv6(addrs, dst) == addrs[i].cidr->Ipv6_0.address,
{
    address::law_ipv6_classes(dst);
    lemma_none_usable(addrs, dst, addrs.len() as int);
    lemma_first_v6(addrs, 0, i);
}

proof fn lemma_none_usable(addrs: Seq<IfaceAddr>, dst: Ipv6Address, n: int)
    requires
        0 <= n <= addrs.len(),
        forall|j: int| !#[trigger] usable(addrs, j, dst),
    ensures
        source::best_source(addrs, dst, n) is None,
    decreases n,
{
    if n > 0 {
        lemma_none_usable(addrs, dst, n - 1);
        if addrs[n - 1].cidr is Ipv6 {
            assert(!usable(addrs, n - 1, dst));
            address::law_ipv6_classes(dst);
            address::law_ipv6_classes(addrs[n - 1].cidr->Ipv6_0.address);
        }
    }
}

proof fn lemma_first_v6(addrs: Seq<IfaceAddr>, from: int, i: int)
    requires
        0 <= from <= i < addrs.len(),
        addrs[i].cidr is Ipv6,
        forall|j: int| from <= j < i ==> (#[trigger] addrs[j]).cidr is Ipv4,
    ensures
        source::first_ipv6(addrs, from) == Some(addrs[i].cidr->Ipv6_0),
    decreases i - from,
{
    if from < i {
        assert(addrs[from].cidr is Ipv4);
        lemma_first_v6(addrs, from + 1, i);
    }
}

/// Among usable addresses that reach as far and agree with the destination no further, packets
/// come from the first.
pub proof fn law_first_of_equal_sources(addrs: Seq<IfaceAddr>, dst: Ipv6Address)
    requires
        laws::number(dst.0@) != 1,
        addrs.len() > 0,
        forall|i: int| 0 <= i < addrs.len() ==> #[trigger] usable(addrs, i, dst),
        forall|i: int|
            0 <= i < addrs.len() ==> {
                &&& (#[trigger] addrs[i]).cidr->Ipv6_0.address != dst
                &&& addrs[i].cidr->Ipv6_0.prefix_len <= 128
                &&& same_reach(addrs[i].cidr->Ipv6_0.address.0@, addrs[0].cidr->Ipv6_0.address.0@)
            },
        forall|i: int, n: int|
            0 <= i < addrs.len() && 0 <= n <= addrs[i].cidr->Ipv6_0.prefix_len && #[trigger] laws::agree(
                addrs[i].cidr->Ipv6_0.address.0@,
                dst.0@,
                n,
            ) ==> n <= addrs[0].cidr->Ipv6_0.prefix_len && laws::agree(addrs[0].cidr->Ipv6_0.address.0@, dst.0@, n),
    ensures
        source::source_ipv6(addrs, dst) == addrs[0].cidr->Ipv6_0.address,
{
    address::law_ipv6_classes(dst);
    lemma_first_stays(addrs, dst, addrs.len() as int);
}

proof fn lemma_first_stays(addrs: Seq<IfaceAddr>, dst: Ipv6Address, n: int)
    requires
        1 <= n <= addrs.len(),
        forall|i: int| 0 <= i < addrs.len() ==> #[trigger] usable(addrs, i, dst),
        forall|i: int|
            0 <= i < addrs.len() ==> {
                &&& (#[trigger] addrs[i]).cidr->Ipv6_0.address != dst
                &&& addrs[i].cidr->Ipv6_0.prefix_len <= 128
                &&& same_reach(addrs[i].cidr->Ipv6_0.address.0@, addrs[0].cidr->Ipv6_0.address.0@)
            },
        forall|i: int, n: int|
            0 <= i < addrs.len() && 0 <= n <= addrs[i].cidr->Ipv6_0.prefix_len && #[trigger] laws::agree(
                addrs[i].cidr->Ipv6_0.address.0@,
                dst.0@,
                n,
            ) ==> n <= addrs[0].cidr->Ipv6_0.prefix_len && laws::agree(addrs[0].cidr->Ipv6_0.address.0@, dst.0@, n),
    ensures
        source::best_source(addrs, dst, n) == Some(addrs[0].cidr->Ipv6_0),
    decreases n,
{
    let first = addrs[0].cidr->Ipv6_0;
    let c = addrs[n - 1].cidr->Ipv6_0;
    assert(usable(addrs, n - 1, dst));
    assert(usable(addrs, 0, dst));
    address::law_ipv6_classes(dst);
    address::law_ipv6_classes(c.address);
    address::law_ipv6_classes(first.address);
    if n > 1 {
        lemma_first_stays(addrs, dst, n - 1);
        let a = source::common_bits(c.address.0@, dst.0@, 0);
        let b = source::common_bits(first.address.0@, dst.0@, 0);
        address::law_common_prefix_is_longest(c.address.0@, dst.0@);
        address::law_common_prefix_is_longest(first.address.0@, dst.0@);
        let m = source::common_prefix_len(c, dst);
        assert(laws::agree(c.address.0@, dst.0@, m));
        assert(laws::agree(addrs[n - 1].cidr->Ipv6_0.address.0@, dst.0@, m));
        assert(m <= first.prefix_len && laws::agree(first.address.0@, dst.0@, m));
        if b < m {
            assert(laws::bit(first.address.0@, b) == laws::bit(dst.0@, b));
        }
        assert(!source::better(c, first, dst));
    } else {
        assert(source::best_source(addrs, dst, 0) is None);
    }
}

/// The link-local address of an interface is the first of its link-local addresses.
pub proof fn law_first_link_local(addrs: Seq<IfaceAddr>, from: int, i: int)
    requires
        0 <= from <= i <= addrs.len(),
        i < addrs.len() ==> addrs[i].cidr is Ipv6 && link_local(addrs[i].cidr->Ipv6_0.address.0@),
        forall|j: int|
            from <= j < i ==> !((#[trigger] addrs[j]).cidr is Ipv6 && link_local(addrs[j].cidr->Ipv6_0.address.0@)),
    ensures
        source::first_link_local(addrs, from) == (if i < addrs.len() {
            Some(addrs[i].cidr->Ipv6_0.address)
        } else {
            None
        }),
    decreases i - from,
{
    if from < addrs.len() && addrs[from].cidr is Ipv6 {
        address::law_ipv6_classes(addrs[from].cidr->Ipv6_0.address);
    }
    if from < i {
        law_first_link_local(addrs, from + 1, i);
    }
}

} // verus!
