//! What the stack promises, said of the octets that go in and come out: of the bits and
//! numbers of addresses, the fields of frames, and the fields of a peer's segments.

use vstd::prelude::*;

pub mod address;
pub mod compressed;
pub mod config;
pub mod control;
pub mod discovery;
pub mod failure;
pub mod ingress;
pub mod link;
pub mod names;
pub mod neighbor;
pub mod packet;
pub mod raw;
pub mod routing;
pub mod source;
pub mod tcp;
pub mod text;
pub mod udp;

verus! {

/// Bit `k` of an address, the most significant bit of its first octet being bit 0.
pub open spec fn bit(s: Seq<u8>, k: int) -> bool {
    (s[k / 8] >> ((7 - k % 8) as u8)) & 1u8 == 1u8
}

/// Whether two addresses agree in their first `n` bits.
pub open spec fn agree(a: Seq<u8>, b: Seq<u8>, n: int) -> bool {
    forall|k: int| 0 <= k < n ==> #[trigger] bit(a, k) == bit(b, k)
}

/// The number that octets spell, the most significant one first.
pub open spec fn number(s: Seq<u8>) -> int
    decreases s.len(),
{
    if s.len() == 0 {
        0
    } else {
        0x100 * number(s.drop_last()) + s.last()
    }
}

/// The bits of two octets agree from the left as far as the octets agree shifted.
pub proof fn lemma_octet_bits(x: u8, y: u8)
    by (bit_vector)
    ensures
        ((x >> 7u8) & 1u8 == 1u8) == ((y >> 7u8) & 1u8 == 1u8) <==> x >> 7u8 == y >> 7u8,
        x >> 7u8 == y >> 7u8 && ((x >> 6u8) & 1u8 == 1u8) == ((y >> 6u8) & 1u8 == 1u8) <==> x >> 6u8 == y >> 6u8,
        x >> 6u8 == y >> 6u8 && ((x >> 5u8) & 1u8 == 1u8) == ((y >> 5u8) & 1u8 == 1u8) <==> x >> 5u8 == y >> 5u8,
        x >> 5u8 == y >> 5u8 && ((x >> 4u8) & 1u8 == 1u8) == ((y >> 4u8) & 1u8 == 1u8) <==> x >> 4u8 == y >> 4u8,
        x >> 4u8 == y >> 4u8 && ((x >> 3u8) & 1u8 == 1u8) == ((y >> 3u8) & 1u8 == 1u8) <==> x >> 3u8 == y >> 3u8,
        x >> 3u8 == y >> 3u8 && ((x >> 2u8) & 1u8 == 1u8) == ((y >> 2u8) & 1u8 == 1u8) <==> x >> 2u8 == y >> 2u8,
        x >> 2u8 == y >> 2u8 && ((x >> 1u8) & 1u8 == 1u8) == ((y >> 1u8) & 1u8 == 1u8) <==> x >> 1u8 == y >> 1u8,
        x >> 1u8 == y >> 1u8 && ((x >> 0u8) & 1u8 == 1u8) == ((y >> 0u8) & 1u8 == 1u8) <==> x == y,
{
}

/// Whether two octets agree in the first `r` bits of octet `q`.
pub open spec fn octet_agree(a: Seq<u8>, b: Seq<u8>, q: int, r: int) -> bool {
    forall|k: int| 8 * q <= k < 8 * q + r ==> #[trigger] bit(a, k) == bit(b, k)
}

/// The first bits of an octet agree if and only if the octets agree shifted.
pub proof fn lemma_octet_agree(a: Seq<u8>, b: Seq<u8>, q: int, r: int)
    requires
        0 <= q,
        1 <= r <= 8,
    ensures
        octet_agree(a, b, q, r) == (a[q] >> ((8 - r) as u8) == b[q] >> ((8 - r) as u8)),
        r == 8 ==> octet_agree(a, b, q, r) == (a[q] == b[q]),
{
    let x = a[q];
    let y = b[q];
    lemma_octet_bits(x, y);
    assert(x >> 0u8 == x && y >> 0u8 == y) by (bit_vector);
    assert forall|m: int| 0 <= m < 8 implies #[trigger] bit(a, 8 * q + m) == ((x >> ((7 - m) as u8)) & 1u8 == 1u8) by {
        assert((8 * q + m) / 8 == q && (8 * q + m) % 8 == m);
    }
    assert forall|m: int| 0 <= m < 8 implies #[trigger] bit(b, 8 * q + m) == ((y >> ((7 - m) as u8)) & 1u8 == 1u8) by {
        assert((8 * q + m) / 8 == q && (8 * q + m) % 8 == m);
    }
    let k0 = 8 * q + 0;
    let k1 = 8 * q + 1;
    let k2 = 8 * q + 2;
    let k3 = 8 * q + 3;
    let k4 = 8 * q + 4;
    let k5 = 8 * q + 5;
    let k6 = 8 * q + 6;
    let k7 = 8 * q + 7;
    assert(bit(a, k0) == ((x >> 7u8) & 1u8 == 1u8) && bit(b, k0) == ((y >> 7u8) & 1u8 == 1u8));
    assert(bit(a, k1) == ((x >> 6u8) & 1u8 == 1u8) && bit(b, k1) == ((y >> 6u8) & 1u8 == 1u8));
    assert(bit(a, k2) == ((x >> 5u8) & 1u8 == 1u8) && bit(b, k2) == ((y >> 5u8) & 1u8 == 1u8));
    assert(bit(a, k3) == ((x >> 4u8) & 1u8 == 1u8) && bit(b, k3) == ((y >> 4u8) & 1u8 == 1u8));
    assert(bit(a, k4) == ((x >> 3u8) & 1u8 == 1u8) && bit(b, k4) == ((y >> 3u8) & 1u8 == 1u8));
    assert(bit(a, k5) == ((x >> 2u8) & 1u8 == 1u8) && bit(b, k5) == ((y >> 2u8) & 1u8 == 1u8));
    assert(bit(a, k6) == ((x >> 1u8) & 1u8 == 1u8) && bit(b, k6) == ((y >> 1u8) & 1u8 == 1u8));
    assert(bit(a, k7) == ((x >> 0u8) & 1u8 == 1u8) && bit(b, k7) == ((y >> 0u8) & 1u8 == 1u8));
    let agree = octet_agree(a, b, q, r);
    if agree {
        assert(bit(a, k0) == bit(b, k0));
        assert(r >= 2 ==> bit(a, k1) == bit(b, k1));
        assert(r >= 3 ==> bit(a, k2) == bit(b, k2));
        assert(r >= 4 ==> bit(a, k3) == bit(b, k3));
        assert(r >= 5 ==> bit(a, k4) == bit(b, k4));
        assert(r >= 6 ==> bit(a, k5) == bit(b, k5));
        assert(r >= 7 ==> bit(a, k6) == bit(b, k6));
        assert(r >= 8 ==> bit(a, k7) == bit(b, k7));
    }
    if x >> ((8 - r) as u8) == y >> ((8 - r) as u8) {
        assert forall|k: int| 8 * q <= k < 8 * q + r implies #[trigger] bit(a, k) == bit(b, k) by {
            assert(k == k0 || k == k1 || k == k2 || k == k3 || k == k4 || k == k5 || k == k6 || k == k7);
        }
    }
}

/// Octets spell a number, which is zero if and only if they are.
pub proof fn lemma_number_zero(s: Seq<u8>)
    ensures
        number(s) >= 0,
        number(s) == 0 <==> forall|i: int| 0 <= i < s.len() ==> #[trigger] s[i] == 0,
    decreases s.len(),
{
    if s.len() > 0 {
        let rest = s.drop_last();
        lemma_number_zero(rest);
        if number(s) == 0 {
            assert forall|i: int| 0 <= i < s.len() implies #[trigger] s[i] == 0 by {
                if i < rest.len() {
                    assert(rest[i] == s[i]);
                }
            }
        }
        if forall|i: int| 0 <= i < s.len() ==> #[trigger] s[i] == 0 {
            assert forall|i: int| 0 <= i < rest.len() implies #[trigger] rest[i] == 0 by {
                assert(rest[i] == s[i]);
            }
            assert(s.last() == s[s.len() - 1]);
        }
    }
}

/// The number that four octets spell.
pub proof fn lemma_number_four(s: Seq<u8>)
    requires
        s.len() == 4,
    ensures
        number(s) == s[0] * 0x100_0000 + s[1] * 0x1_0000 + s[2] * 0x100 + s[3],
{
    reveal_with_fuel(number, 5);
    let three = s.drop_last();
    let two = three.drop_last();
    let one = two.drop_last();
    assert(one.drop_last() =~= Seq::<u8>::empty());
    assert(one.last() == s[0] && two.last() == s[1] && three.last() == s[2]);
    assert(number(one) == s[0]);
    assert(number(two) == 0x100 * number(one) + s[1]);
    assert(number(three) == 0x100 * number(two) + s[2]);
}

/// The number that six octets spell.
pub proof fn lemma_number_six(s: Seq<u8>)
    requires
        s.len() == 6,
    ensures
        number(s) == s[0] * 0x100_0000_0000 + s[1] * 0x1_0000_0000 + s[2] * 0x100_0000 + s[3] * 0x1_0000 + s[4] * 0x100
            + s[5],
{
    let five = s.drop_last();
    let four = five.drop_last();
    lemma_number_four(four);
    assert(number(five) == 0x100 * number(four) + s[4]);
    assert(number(s) == 0x100 * number(five) + s[5]);
}

} // verus!
