//! Addresses and prefixes.

use vstd::prelude::*;

use crate::laws;
use crate::stack::source;
use crate::wire::cidr::{IpCidr, Ipv4Cidr};
use crate::wire::ip;
use crate::wire::ip::{IpAddress, Ipv4Address, Ipv6Address};

verus! {

/// A prefix holds an address if and only if the two agree in all the bits of the prefix.
pub proof fn law_prefix_agrees_in_bits(a: Seq<u8>, b: Seq<u8>, p: int)
    requires
        0 <= p,
    ensures
        ip::prefix_agree(a, b, p) == laws::agree(a, b, p),
{
    let q = p / 8;
    let r = p % 8;
    assert(p == 8 * q + r);
    if laws::agree(a, b, p) {
        assert forall|i: int| 0 <= i < q implies #[trigger] a[i] == b[i] by {
            laws::lemma_octet_agree(a, b, i, 8);
            assert(laws::octet_agree(a, b, i, 8));
        }
        if r != 0 {
            laws::lemma_octet_agree(a, b, q, r);
            assert(laws::octet_agree(a, b, q, r));
        }
    }
    if ip::prefix_agree(a, b, p) {
        assert forall|k: int| 0 <= k < p implies #[trigger] laws::bit(a, k) == laws::bit(b, k) by {
            let i = k / 8;
            if i < q {
                assert(a[i] == b[i]);
            } else {
                laws::lemma_octet_agree(a, b, q, r);
                assert(laws::octet_agree(a, b, q, r));
            }
        }
    }
}

/// A network holds the addresses of its IP version that agree with it in the bits of its
/// prefix, and no others.
pub proof fn law_network_holds_what_agrees(cidr: IpCidr, addr: IpAddress)
    ensures
        cidr.contains(addr) == (cidr is Ipv4 == addr is Ipv4 && laws::agree(
            cidr.address_view().octets_view(),
            addr.octets_view(),
            cidr.prefix_len_view() as int,
        )),
{
    law_prefix_agrees_in_bits(
        cidr.address_view().octets_view(),
        addr.octets_view(),
        cidr.prefix_len_view() as int,
    );
}

proof fn lemma_or_host_bits(x: u8, r: u8)
    by (bit_vector)
    requires
        r < 8,
    ensures
        ({
            let z = x | (0xffu8 >> r);
            &&& r > 0 ==> (z >> 7u8) & 1u8 == (x >> 7u8) & 1u8
            &&& r > 1 ==> (z >> 6u8) & 1u8 == (x >> 6u8) & 1u8
            &&& r > 2 ==> (z >> 5u8) & 1u8 == (x >> 5u8) & 1u8
            &&& r > 3 ==> (z >> 4u8) & 1u8 == (x >> 4u8) & 1u8
            &&& r > 4 ==> (z >> 3u8) & 1u8 == (x >> 3u8) & 1u8
            &&& r > 5 ==> (z >> 2u8) & 1u8 == (x >> 2u8) & 1u8
            &&& r > 6 ==> (z >> 1u8) & 1u8 == (x >> 1u8) & 1u8
            &&& r <= 0 ==> (z >> 7u8) & 1u8 == 1u8
            &&& r <= 1 ==> (z >> 6u8) & 1u8 == 1u8
            &&& r <= 2 ==> (z >> 5u8) & 1u8 == 1u8
            &&& r <= 3 ==> (z >> 4u8) & 1u8 == 1u8
            &&& r <= 4 ==> (z >> 3u8) & 1u8 == 1u8
            &&& r <= 5 ==> (z >> 2u8) & 1u8 == 1u8
            &&& r <= 6 ==> (z >> 1u8) & 1u8 == 1u8
            &&& r <= 7 ==> (z >> 0u8) & 1u8 == 1u8
        }),
{
}

/// The bits of an address with the host bits set.
proof fn lemma_host_bits(cidr: Ipv4Cidr, k: int)
    requires
        cidr.prefix_len < 32,
        0 <= k < 32,
    ensures
        laws::bit(cidr.host_bits_set(), k) == (k >= cidr.prefix_len || laws::bit(cidr.address.0@, k)),
{
    let p = cidr.prefix_len as int;
    let q = p / 8;
    let r = p % 8;
    let i = k / 8;
    let m = k % 8;
    let set = cidr.host_bits_set();
    if i < q {
        assert(set[i] == cidr.address.0@[i]);
    } else if i > q || r == 0 {
        assert(set[i] == 0xffu8 || r == 0);
        lemma_or_host_bits(0u8, 0u8);
        assert(0u8 | (0xffu8 >> 0u8) == 0xffu8) by (bit_vector);
        assert(set[i] == 0xffu8);
        assert(m == 0 || m == 1 || m == 2 || m == 3 || m == 4 || m == 5 || m == 6 || m == 7);
    } else {
        lemma_or_host_bits(cidr.address.0@[i], r as u8);
        assert(set[i] == cidr.address.0@[i] | (0xffu8 >> (r as u8)));
        assert(m == 0 || m == 1 || m == 2 || m == 3 || m == 4 || m == 5 || m == 6 || m == 7);
    }
}

/// Addresses that agree in all their bits are the same.
proof fn lemma_all_bits(a: Seq<u8>, b: Seq<u8>)
    requires
        a.len() == b.len(),
        laws::agree(a, b, 8 * (a.len() as int)),
    ensures
        a == b,
{
    assert forall|i: int| 0 <= i < a.len() implies #[trigger] a[i] == b[i] by {
        laws::lemma_octet_agree(a, b, i, 8);
        assert(laws::octet_agree(a, b, i, 8));
    }
    assert(a =~= b);
}

/// The broadcast address of a network is the address in it whose host bits are all set. A
/// network of one or two addresses has none.
pub proof fn law_broadcast_has_all_host_bits_set(cidr: Ipv4Cidr, addr: Ipv4Address)
    ensures
        cidr.broadcast_view() == Some(addr.0@) <==> {
            &&& cidr.prefix_len <= 30
            &&& laws::agree(cidr.address.0@, addr.0@, cidr.prefix_len as int)
            &&& forall|k: int| cidr.prefix_len <= k < 32 ==> #[trigger] laws::bit(addr.0@, k)
        },
{
    if cidr.prefix_len <= 30 {
        let set = cidr.host_bits_set();
        assert forall|k: int| 0 <= k < 32 implies #[trigger] laws::bit(set, k) == (k >= cidr.prefix_len || laws::bit(
            cidr.address.0@,
            k,
        )) by {
            lemma_host_bits(cidr, k);
        }
        if laws::agree(cidr.address.0@, addr.0@, cidr.prefix_len as int) && forall|k: int|
            cidr.prefix_len <= k < 32 ==> #[trigger] laws::bit(addr.0@, k) {
            assert forall|k: int| 0 <= k < 32 implies #[trigger] laws::bit(set, k) == laws::bit(addr.0@, k) by {
                lemma_host_bits(cidr, k);
                if k < cidr.prefix_len {
                    assert(laws::bit(cidr.address.0@, k) == laws::bit(addr.0@, k));
                } else {
                    assert(laws::bit(addr.0@, k));
                }
            }
            lemma_all_bits(set, addr.0@);
        }
        if set == addr.0@ {
            assert forall|k: int| 0 <= k < cidr.prefix_len implies #[trigger] laws::bit(cidr.address.0@, k)
                == laws::bit(addr.0@, k) by {
                lemma_host_bits(cidr, k);
            }
            assert forall|k: int| cidr.prefix_len <= k < 32 implies #[trigger] laws::bit(addr.0@, k) by {
                lemma_host_bits(cidr, k);
            }
        }
    }
}

/// The classes of IPv4 addresses, by the number that an address spells: 0.0.0.0 is
/// unspecified, 255.255.255.255 broadcast, and those from 224.0.0.0 to 239.255.255.255
/// are groups. All others are single hosts.
pub proof fn law_ipv4_classes(addr: Ipv4Address)
    ensures
        ({
            let n = laws::number(addr.0@);
            &&& addr.unspecified_view() == (n == 0)
            &&& addr.broadcast_view() == (n == 0xffff_ffff)
            &&& addr.multicast_view() == (0xe000_0000 <= n <= 0xefff_ffff)
            &&& addr.unicast_view() == (0 < n < 0xe000_0000 || 0xefff_ffff < n < 0xffff_ffff)
        }),
{
    let s = addr.0@;
    laws::lemma_number_four(s);
    if s[0] == 0 && s[1] == 0 && s[2] == 0 && s[3] == 0 {
        assert(s =~= seq![0u8, 0u8, 0u8, 0u8]);
    }
    if s[0] == 255 && s[1] == 255 && s[2] == 255 && s[3] == 255 {
        assert(s =~= seq![255u8, 255u8, 255u8, 255u8]);
    }
}

/// The classes of IPv6 addresses: `::` is unspecified, `::1` loopback, `ff00::/8` holds the
/// groups, `fe80::/64` the link-local addresses, `fc00::/7` the unique local and
/// `2000::/3` the global ones. All but `::` and the groups are single hosts.
pub proof fn law_ipv6_classes(addr: Ipv6Address)
    ensures
        ({
            let n = laws::number(addr.0@);
            let s = addr.0@;
            &&& addr.unspecified_view() == (n == 0)
            &&& addr.loopback_view() == (n == 1)
            &&& addr.multicast_view() == (s[0] == 255)
            &&& addr.link_local_view() == (s[0] == 0xfe && s[1] == 0x80 && laws::number(s.subrange(2, 8)) == 0)
            &&& addr.unique_local_view() == (s[0] / 2 == 0x7e)
            &&& addr.global_unicast_view() == (s[0] / 32 == 1)
            &&& addr.unicast_view() == (n != 0 && s[0] != 255)
        }),
{
    let s = addr.0@;
    laws::lemma_number_zero(s);
    laws::lemma_number_zero(s.drop_last());
    laws::lemma_number_zero(s.subrange(2, 8));
    assert(s.drop_last().len() == 15);
    assert(laws::number(s) == 0x100 * laws::number(s.drop_last()) + s[15]);
    if laws::number(s) == 0 {
        assert(s =~= Ipv6Address::unspecified_octets());
    }
    if laws::number(s) == 1 {
        assert(laws::number(s.drop_last()) == 0);
        assert forall|i: int| 0 <= i < 16 implies #[trigger] s[i] == Ipv6Address::localhost_octets()[i] by {
            if i < 15 {
                assert(s.drop_last()[i] == s[i]);
            }
        }
        assert(s =~= Ipv6Address::localhost_octets());
    }
    if addr.loopback_view() {
        assert forall|i: int| 0 <= i < 15 implies #[trigger] s.drop_last()[i] == 0 by {
            assert(s.drop_last()[i] == s[i]);
        }
    }
    let link = seq![0xfeu8, 0x80u8, 0u8, 0u8, 0u8, 0u8, 0u8, 0u8];
    if addr.link_local_view() {
        assert(s[0] == s.take(8)[0] && s[1] == s.take(8)[1]);
        assert forall|i: int| 0 <= i < 6 implies #[trigger] s.subrange(2, 8)[i] == 0 by {
            assert(s.take(8)[i + 2] == s[i + 2]);
            assert(link[i + 2] == 0);
        }
    }
    if s[0] == 0xfe && s[1] == 0x80 && laws::number(s.subrange(2, 8)) == 0 {
        assert forall|i: int| 0 <= i < 8 implies #[trigger] s.take(8)[i] == link[i] by {
            if i >= 2 {
                assert(s.subrange(2, 8)[i - 2] == s[i]);
            }
        }
        assert(s.take(8) =~= link);
    }
}

/// The common prefix of two IPv6 addresses: they agree in it, and differ in the bit behind
/// it.
pub proof fn law_common_prefix_is_longest(a: Seq<u8>, b: Seq<u8>)
    requires
        a.len() == 16,
        b.len() == 16,
    ensures
        ({
            let n = source::common_bits(a, b, 0);
            &&& 0 <= n <= 128
            &&& laws::agree(a, b, n)
            &&& n < 128 ==> laws::bit(a, n) != laws::bit(b, n)
        }),
{
    lemma_common_from(a, b, 0);
}

proof fn lemma_common_from(a: Seq<u8>, b: Seq<u8>, i: int)
    requires
        a.len() == 16,
        b.len() == 16,
        0 <= i <= 16,
        laws::agree(a, b, 8 * i),
    ensures
        ({
            let n = 8 * i + source::common_bits(a, b, i);
            &&& 8 * i <= n <= 128
            &&& laws::agree(a, b, n)
            &&& n < 128 ==> laws::bit(a, n) != laws::bit(b, n)
        }),
    decreases 16 - i,
{
    if i < 16 {
        if a[i] == b[i] {
            laws::lemma_octet_agree(a, b, i, 8);
            assert forall|k: int| 0 <= k < 8 * (i + 1) implies #[trigger] laws::bit(a, k) == laws::bit(b, k) by {
                if k >= 8 * i {
                    assert(laws::octet_agree(a, b, i, 8));
                }
            }
            lemma_common_from(a, b, i + 1);
        } else {
            let x = a[i];
            let y = b[i];
            let z = vstd::std_specs::bits::u8_leading_zeros(x ^ y);
            vstd::std_specs::bits::axiom_u8_leading_zeros(x ^ y);
            assert(x != y ==> x ^ y != 0) by (bit_vector);
            let n = 8 * i + z;
            assert forall|k: int| 0 <= k < n implies #[trigger] laws::bit(a, k) == laws::bit(b, k) by {
                if k >= 8 * i {
                    let j = (7 - k % 8) as u8;
                    assert(k / 8 == i);
                    assert(((x ^ y) >> j) & 1u8 == 0u8);
                    assert(((x ^ y) >> j) & 1u8 == 0u8 ==> ((x >> j) & 1u8 == 1u8) == ((y >> j) & 1u8 == 1u8))
                        by (bit_vector);
                }
            }
            let j = (7 - z) as u8;
            assert(n / 8 == i && n % 8 == z);
            assert(((x ^ y) >> j) & 1u8 != 0u8 ==> ((x >> j) & 1u8 == 1u8) != ((y >> j) & 1u8 == 1u8))
                by (bit_vector);
        }
    }
}

/// Whether an address is that of a single host, by the number that it spells.
pub open spec fn single_host(addr: IpAddress) -> bool {
    let n = laws::number(addr.octets_view());
    match addr {
        IpAddress::Ipv4(_) => 0 < n < 0xe000_0000 || 0xefff_ffff < n < 0xffff_ffff,
        IpAddress::Ipv6(a) => n != 0 && a.0@[0] != 255,
    }
}

/// Single hosts' addresses are told from the others by the number that they spell.
pub proof fn lemma_single_host(addr: IpAddress)
    ensures
        addr.unicast_view() == single_host(addr),
{
    match addr {
        IpAddress::Ipv4(a) => law_ipv4_classes(a),
        IpAddress::Ipv6(a) => law_ipv6_classes(a),
    }
}

/// Whether a network holds an address, by the bits of the two.
pub open spec fn holds(cidr: IpCidr, addr: IpAddress) -> bool {
    cidr is Ipv4 == addr is Ipv4 && laws::agree(
        cidr.address_view().octets_view(),
        addr.octets_view(),
        cidr.prefix_len_view() as int,
    )
}

/// How far an IPv6 address reaches, as a number: that of a group is in its second octet, that
/// of a link-local address is 2, and that of any other address in use is 14.
pub proof fn law_ipv6_reach(addr: Ipv6Address)
    ensures
        ({
            let s = addr.0@;
            let n = s[1] % 16;
            let rank = addr.scope_view().rank_view();
            &&& s[0] == 255 && (n == 0 || n == 1 || n == 2 || n == 4 || n == 5 || n == 8 || n == 14) ==> rank == n
            &&& s[0] == 0xfe && s[1] == 0x80 && laws::number(s.subrange(2, 8)) == 0 ==> rank == 2
            &&& s[0] / 2 == 0x7e || s[0] / 32 == 1 ==> rank == 14
        }),
{
    law_ipv6_classes(addr);
}

} // verus!
