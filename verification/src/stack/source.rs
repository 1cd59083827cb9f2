//! Source address selection.

use vstd::prelude::*;

use crate::stack::iface_state;
use crate::stack::iface_state::{IfaceAddr, IfaceState};
use crate::wire::cidr::{IpCidr, Ipv6Cidr};
use crate::wire::ip::{IpAddress, Ipv6Address};

verus! {

/// Whether an address may be the source of a packet to `dst` (RFC 6724 §4): a
/// link-local destination takes only link-local sources, and no source is
/// unspecified or multicast.
pub open spec fn is_candidate(dst: Ipv6Address, src: Ipv6Address) -> bool {
    &&& dst.link_local_view() ==> src.link_local_view()
    &&& !src.unspecified_view()
    &&& !src.multicast_view()
}

/// The number of leading bits two addresses agree in, from octet `i` on.
pub open spec fn common_bits(a: Seq<u8>, b: Seq<u8>, i: int) -> int
    decreases 16 - i,
{
    if i < 0 || i >= 16 {
        0
    } else if a[i] == b[i] {
        8 + common_bits(a, b, i + 1)
    } else {
        vstd::std_specs::bits::u8_leading_zeros(a[i] ^ b[i]) as int
    }
}

/// The length of the prefix a source address shares with the destination, as far
/// as its own prefix goes (RFC 6724 §2.2).
pub open spec fn common_prefix_len(src: Ipv6Cidr, dst: Ipv6Address) -> int {
    let bits = common_bits(src.address.0@, dst.0@, 0);
    if bits <= src.prefix_len {
        bits
    } else {
        src.prefix_len as int
    }
}

/// Whether `addr` is the better of two source addresses for a destination (RFC 6724 §5).
/// The first rule that tells the two apart decides.
pub open spec fn better(addr: Ipv6Cidr, best: Ipv6Cidr, dst: Ipv6Address) -> bool {
    let scope_best = best.address.scope_view().rank_view();
    let scope_addr = addr.address.scope_view().rank_view();
    let scope_dst = dst.scope_view().rank_view();
    if best.address == dst {
        // Rule 1: prefer the destination itself.
        false
    } else if addr.address == dst {
        true
    } else if scope_best < scope_addr {
        // Rule 2: prefer appropriate scope. The smaller one, unless it is smaller than
        // the destination's.
        scope_best < scope_dst
    } else if scope_addr < scope_best {
        scope_addr >= scope_dst
    } else {
        // Rule 8: use the longest matching prefix.
        common_prefix_len(best, dst) < common_prefix_len(addr, dst)
    }
}

/// The first IPv6 address at or after `from`, with its prefix.
pub open spec fn first_ipv6(addrs: Seq<IfaceAddr>, from: int) -> Option<Ipv6Cidr>
    decreases addrs.len() - from,
{
    if from < 0 || from >= addrs.len() {
        None
    } else {
        match addrs[from].cidr {
            IpCidr::Ipv6(c) => Some(c),
            IpCidr::Ipv4(_) => first_ipv6(addrs, from + 1),
        }
    }
}

/// The best source address among those of the first `n` assigned ones that may be one, if
/// there is any. Of two that no rule tells apart it is the first.
pub open spec fn best_source(addrs: Seq<IfaceAddr>, dst: Ipv6Address, n: int) -> Option<Ipv6Cidr>
    decreases n,
{
    if n <= 0 {
        None
    } else {
        let best = best_source(addrs, dst, n - 1);
        match addrs[n - 1].cidr {
            IpCidr::Ipv6(c) => if is_candidate(dst, c.address) && (best matches Some(b) ==> better(c, b, dst)) {
                Some(c)
            } else {
                best
            },
            IpCidr::Ipv4(_) => best,
        }
    }
}

/// The IPv6 source address for a destination: the loopback address for a loopback
/// destination or on an interface without IPv6 addresses, else the best assigned one. If
/// none may be one, it is the first assigned.
pub open spec fn source_ipv6(addrs: Seq<IfaceAddr>, dst: Ipv6Address) -> Ipv6Address {
    if dst.loopback_view() {
        Ipv6Address::of(Ipv6Address::localhost_octets())
    } else {
        match best_source(addrs, dst, addrs.len() as int) {
            Some(best) => best.address,
            None => match first_ipv6(addrs, 0) {
                Some(first) => first.address,
                None => Ipv6Address::of(Ipv6Address::localhost_octets()),
            },
        }
    }
}

/// The source address for a destination.
pub open spec fn source_addr(addrs: Seq<IfaceAddr>, dst: IpAddress) -> Option<IpAddress> {
    match dst {
        IpAddress::Ipv4(a) => match iface_state::source_ipv4(addrs, a) {
            Some(s) => Some(IpAddress::Ipv4(s)),
            None => None,
        },
        IpAddress::Ipv6(a) => Some(IpAddress::Ipv6(source_ipv6(addrs, a))),
    }
}

/// The first link-local IPv6 address at or after `from`.
pub open spec fn first_link_local(addrs: Seq<IfaceAddr>, from: int) -> Option<Ipv6Address>
    decreases addrs.len() - from,
{
    if from < 0 || from >= addrs.len() {
        None
    } else {
        match addrs[from].cidr {
            IpCidr::Ipv6(c) => if c.address.link_local_view() {
                Some(c.address)
            } else {
                first_link_local(addrs, from + 1)
            },
            IpCidr::Ipv4(_) => first_link_local(addrs, from + 1),
        }
    }
}

/// The first IPv6 address is an assigned one.
pub proof fn lemma_first_ipv6(addrs: Seq<IfaceAddr>, from: int)
    requires
        0 <= from,
    ensures
        first_ipv6(addrs, from) matches Some(c) ==> exists|i: int|
            from <= i < addrs.len() && (#[trigger] addrs[i]).cidr == IpCidr::Ipv6(c),
    decreases addrs.len() - from,
{
    if from < addrs.len() {
        if let IpCidr::Ipv6(c) = addrs[from].cidr {
            assert(addrs[from].cidr == IpCidr::Ipv6(c));
        } else {
            lemma_first_ipv6(addrs, from + 1);
        }
    }
}

/// The best source address is an assigned one that may be one, and no other that may be
/// one is better.
pub proof fn lemma_best_source(addrs: Seq<IfaceAddr>, dst: Ipv6Address, n: int)
    requires
        0 <= n <= addrs.len(),
    ensures
        match best_source(addrs, dst, n) {
            Some(best) => {
                &&& is_candidate(dst, best.address)
                &&& exists|k: int| 0 <= k < n && (#[trigger] addrs[k]).cidr == IpCidr::Ipv6(best)
                &&& forall|i: int|
                    0 <= i < n ==> ((#[trigger] addrs[i]).cidr matches IpCidr::Ipv6(c) ==> (is_candidate(
                        dst,
                        c.address,
                    ) ==> !better(c, best, dst)))
            },
            None => forall|i: int|
                0 <= i < n ==> ((#[trigger] addrs[i]).cidr matches IpCidr::Ipv6(c) ==> !is_candidate(dst, c.address)),
        },
    decreases n,
{
    if n > 0 {
        lemma_best_source(addrs, dst, n - 1);
        let now = best_source(addrs, dst, n);
        if now != best_source(addrs, dst, n - 1) {
            assert(addrs[n - 1].cidr == IpCidr::Ipv6(now->0));
        } else if let Some(best) = now {
            let k = choose|k: int| 0 <= k < n - 1 && (#[trigger] addrs[k]).cidr == IpCidr::Ipv6(best);
            assert(0 <= k < n && addrs[k].cidr == IpCidr::Ipv6(best));
        }
    }
}

/// A selected IPv6 source address is one of the interface's own, unless it is the
/// loopback address chosen for a loopback destination or for want of any.
pub proof fn law_ipv6_source_is_own(addrs: Seq<IfaceAddr>, dst: Ipv6Address, i: int)
    requires
        0 <= i < addrs.len(),
        addrs[i].cidr is Ipv6,
        !dst.loopback_view(),
    ensures
        exists|k: int|
            0 <= k < addrs.len() && (#[trigger] addrs[k]).cidr is Ipv6 && addrs[k].cidr->Ipv6_0.address
                == source_ipv6(addrs, dst),
{
    lemma_best_source(addrs, dst, addrs.len() as int);
    lemma_first_ipv6(addrs, 0);
    lemma_first_ipv6_some(addrs, 0, i);
    let chosen = match best_source(addrs, dst, addrs.len() as int) {
        Some(best) => best,
        None => first_ipv6(addrs, 0)->0,
    };
    let k = choose|k: int| 0 <= k < addrs.len() && (#[trigger] addrs[k]).cidr == IpCidr::Ipv6(chosen);
    assert(addrs[k].cidr->Ipv6_0.address == source_ipv6(addrs, dst));
}

/// A selected source address is a single host's, of the destination's IP version.
pub proof fn law_source_is_single_host(addrs: Seq<IfaceAddr>, dst: IpAddress)
    requires
        iface_state::addrs_ok(addrs),
    ensures
        source_addr(addrs, dst) matches Some(src) ==> src.unicast_view() && src.version_view() == dst.version_view(),
{
    match dst {
        IpAddress::Ipv4(a) => {
            iface_state::law_ipv4_source_is_own(addrs, a);
            if let Some(src) = iface_state::source_ipv4(addrs, a) {
                let i = choose|i: int|
                    0 <= i < addrs.len() && (#[trigger] addrs[i]).cidr.address_view() == IpAddress::Ipv4(src);
                assert(addrs[i].wf());
            }
        },
        IpAddress::Ipv6(a) => {
            let localhost = Ipv6Address::of(Ipv6Address::localhost_octets());
            assert(localhost.0@ =~= Ipv6Address::localhost_octets());
            assert(localhost.0@[15] == 1 && localhost.0@[0] == 0);
            lemma_first_ipv6(addrs, 0);
            if !a.loopback_view() && first_ipv6(addrs, 0) is Some {
                let i = choose|i: int|
                    0 <= i < addrs.len() && (#[trigger] addrs[i]).cidr == IpCidr::Ipv6(first_ipv6(addrs, 0)->0);
                law_ipv6_source_is_own(addrs, a, i);
                let src = source_ipv6(addrs, a);
                let k = choose|k: int|
                    0 <= k < addrs.len() && (#[trigger] addrs[k]).cidr is Ipv6 && addrs[k].cidr->Ipv6_0.address == src;
                assert(addrs[k].wf());
            } else if !a.loopback_view() {
                lemma_best_source(addrs, a, addrs.len() as int);
                if let Some(best) = best_source(addrs, a, addrs.len() as int) {
                    let k = choose|k: int| 0 <= k < addrs.len() && (#[trigger] addrs[k]).cidr == IpCidr::Ipv6(best);
                    lemma_first_ipv6_some(addrs, 0, k);
                }
            }
        },
    }
}

/// If an interface has an address that may be the source of packets to a destination, the
/// one selected may be one too, and none that may be one is better.
pub proof fn law_ipv6_source_is_best(addrs: Seq<IfaceAddr>, dst: Ipv6Address, i: int)
    requires
        0 <= i < addrs.len(),
        addrs[i].cidr is Ipv6,
        is_candidate(dst, addrs[i].cidr->Ipv6_0.address),
        !dst.loopback_view(),
    ensures
        is_candidate(dst, source_ipv6(addrs, dst)),
        exists|k: int|
            0 <= k < addrs.len() && (#[trigger] addrs[k]).cidr is Ipv6 && addrs[k].cidr->Ipv6_0.address
                == source_ipv6(addrs, dst) && !better(addrs[i].cidr->Ipv6_0, addrs[k].cidr->Ipv6_0, dst),
{
    lemma_best_source(addrs, dst, addrs.len() as int);
    let best = best_source(addrs, dst, addrs.len() as int)->0;
    let k = choose|k: int| 0 <= k < addrs.len() && (#[trigger] addrs[k]).cidr == IpCidr::Ipv6(best);
    assert(addrs[k].cidr->Ipv6_0 == best);
}

/// An interface sends to an address of its own from that address.
pub proof fn law_ipv6_source_to_self(addrs: Seq<IfaceAddr>, dst: Ipv6Address)
    requires
        iface_state::has_addr(addrs, IpAddress::Ipv6(dst)),
        dst.unicast_view(),
        !dst.loopback_view(),
    ensures
        source_ipv6(addrs, dst) == dst,
{
    let i = choose|i: int| 0 <= i < addrs.len() && (#[trigger] addrs[i]).cidr.address_view() == IpAddress::Ipv6(dst);
    assert(addrs[i].cidr is Ipv6 && addrs[i].cidr->Ipv6_0.address == dst);
    law_ipv6_source_is_best(addrs, dst, i);
}

proof fn lemma_first_ipv6_some(addrs: Seq<IfaceAddr>, from: int, i: int)
    requires
        0 <= from <= i < addrs.len(),
        addrs[i].cidr is Ipv6,
    ensures
        first_ipv6(addrs, from) is Some,
    decreases i - from,
{
    if from < i && addrs[from].cidr is Ipv4 {
        lemma_first_ipv6_some(addrs, from + 1, i);
    }
}

/// See RFC 6724 §4: candidate source addresses.
fn is_candidate_source_address(dst_addr: &Ipv6Address, src_addr: &Ipv6Address) -> (r: bool)
    ensures
        r == is_candidate(*dst_addr, *src_addr),
{
    // For all multicast and link-local destination addresses, the candidate address MUST
    // only be an address from the same link.
    if dst_addr.is_link_local() && !src_addr.is_link_local() {
        return false;
    }
    // Unspecified addresses and multicast addresses can not be in the candidate source
    // address list.
    if src_addr.is_unspecified() || src_addr.is_multicast() {
        return false;
    }
    true
}

/// See RFC 6724 §5: source address selection. Whether `addr` is better than `best`.
fn is_better_source_address(addr: &Ipv6Cidr, best: &Ipv6Cidr, dst_addr: &Ipv6Address) -> (r: bool)
    ensures
        r == better(*addr, *best, *dst_addr),
{
    // Rule 1: prefer the address that is the same as the output destination address.
    if best.address == *dst_addr {
        return false;
    }
    if addr.address == *dst_addr {
        return true;
    }
    // Rule 2: prefer appropriate scope.
    let scope_dst: u8 = dst_addr.multicast_scope().rank();
    let scope_best: u8 = best.address.multicast_scope().rank();
    let scope_addr: u8 = addr.address.multicast_scope().rank();
    if scope_best < scope_addr {
        return scope_best < scope_dst;
    }
    if scope_addr < scope_best {
        return scope_addr >= scope_dst;
    }
    // Rule 8: use longest matching prefix
    common_prefix_length(best, dst_addr) < common_prefix_length(addr, dst_addr)
}

/// See RFC 6724 §2.2: common prefix length.
fn common_prefix_length(src: &Ipv6Cidr, dst_addr: &Ipv6Address) -> (r: usize)
    ensures
        r == common_prefix_len(*src, *dst_addr),
{
    let a = src.address.octets();
    let b = dst_addr.octets();
    let mut bits: u32 = 0;
    let mut i: usize = 0;
    while i < 16
        invariant_except_break
            i <= 16,
            bits == 8 * i,
            bits + common_bits(a@, b@, i as int) == common_bits(a@, b@, 0),
        ensures
            bits == common_bits(a@, b@, 0),
            bits <= 136,
        decreases 16 - i,
    {
        if a[i] == b[i] {
            bits += 8;
        } else {
            let zeros: u32 = (a[i] ^ b[i]).leading_zeros();
            proof {
                vstd::std_specs::bits::axiom_u8_leading_zeros(a[i as int] ^ b[i as int]);
            }
            bits += zeros;
            break;
        }
        i += 1;
    }
    if bits <= src.prefix_len as u32 {
        bits as usize
    } else {
        src.prefix_len as usize
    }
}

impl IfaceState {
    /// Get a source address for the given destination address.
    pub fn get_source_address(&self, dst_addr: &IpAddress) -> (r: Option<IpAddress>)
        requires
            self.wf(),
            !dst_addr.unspecified_view() || dst_addr is Ipv4,
        ensures
            r == source_addr(self@.ip_addrs, *dst_addr),
    {
        match dst_addr {
            IpAddress::Ipv4(addr) => match self.get_source_address_ipv4(addr) {
                Some(a) => Some(IpAddress::Ipv4(a)),
                None => None,
            },
            IpAddress::Ipv6(addr) => Some(IpAddress::Ipv6(self.get_source_address_ipv6(addr))),
        }
    }

    /// Get the first link-local IPv6 address of the interface, if present.
    pub fn link_local_ipv6_address(&self) -> (r: Option<Ipv6Address>)
        ensures
            r == first_link_local(self@.ip_addrs, 0),
    {
        let mut i: usize = 0;
        while i < self.ip_addrs.len()
            invariant
                i <= self.ip_addrs@.len(),
                first_link_local(self.ip_addrs@, i as int) == first_link_local(self.ip_addrs@, 0),
            decreases self.ip_addrs@.len() - i,
        {
            if let IpCidr::Ipv6(c) = self.ip_addrs[i].cidr {
                if c.address.is_link_local() {
                    return Some(c.address);
                }
            }
            i += 1;
        }
        None
    }

    /// Get the first IPv6 address of the interface, with its prefix.
    fn first_ipv6_cidr(&self) -> (r: Option<Ipv6Cidr>)
        ensures
            r == first_ipv6(self@.ip_addrs, 0),
    {
        let mut i: usize = 0;
        while i < self.ip_addrs.len()
            invariant
                i <= self.ip_addrs@.len(),
                first_ipv6(self.ip_addrs@, i as int) == first_ipv6(self.ip_addrs@, 0),
            decreases self.ip_addrs@.len() - i,
        {
            if let IpCidr::Ipv6(c) = self.ip_addrs[i].cidr {
                return Some(c);
            }
            i += 1;
        }
        None
    }

    /// Return the IPv6 address that is a candidate source address for the given destination
    /// address, based on RFC 6724.
    pub fn get_source_address_ipv6(&self, dst_addr: &Ipv6Address) -> (r: Ipv6Address)
        requires
            self.wf(),
            !dst_addr.unspecified_view(),
        ensures
            r == source_ipv6(self@.ip_addrs, *dst_addr),
    {
        vstd::pervasive::runtime_assert(!dst_addr.is_unspecified());

        // If the destination address is a loopback address, then the loopback address is the
        // only candidate source address.
        if dst_addr.is_loopback() {
            let r = Ipv6Address::localhost();
            proof {
                r.lemma_of();
            }
            return r;
        }
        let mut candidate: Option<Ipv6Cidr> = None;
        let mut i: usize = 0;
        while i < self.ip_addrs.len()
            invariant
                i <= self.ip_addrs@.len(),
                candidate == best_source(self.ip_addrs@, *dst_addr, i as int),
            decreases self.ip_addrs@.len() - i,
        {
            if let IpCidr::Ipv6(addr) = self.ip_addrs[i].cidr {
                if is_candidate_source_address(dst_addr, &addr.address) {
                    let takes_over = match &candidate {
                        Some(best) => is_better_source_address(&addr, best, dst_addr),
                        None => true,
                    };
                    if takes_over {
                        candidate = Some(addr);
                    }
                }
            }
            i += 1;
        }
        match candidate {
            Some(best) => best.address,
            None => match self.first_ipv6_cidr() {
                Some(first) => first.address,
                // When there are no IPv6 addresses in the interface, the loopback address is
                // the only candidate source address.
                None => {
                    let r = Ipv6Address::localhost();
                    proof {
                        r.lemma_of();
                    }
                    r
                },
            },
        }
    }
}

} // verus!
