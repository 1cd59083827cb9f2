//! The Internet checksum (RFC 1071).
//!
//! A checksum is the ones' complement of the ones' complement sum of the octets
//! taken as big-endian 16-bit words. Data that carries a correct checksum sums
//! up to `0xffff`.

use vstd::prelude::*;

use crate::wire::bytes;
use crate::wire::ip::IpAddress;

verus! {

/// The plain sum of the 16-bit words of `s`. A trailing odd octet counts as the
/// high half of a word.
pub open spec fn word_sum(s: Seq<u8>) -> nat
    decreases s.len(),
{
    if s.len() == 0 {
        0
    } else if s.len() == 1 {
        (s[0] * 0x100) as nat
    } else {
        bytes::be16(s, 0) as nat + word_sum(s.skip(2))
    }
}

/// A sum reduced to 16 bits with end-around carry: zero only for zero.
pub open spec fn fold(n: nat) -> u16 {
    if n == 0 {
        0
    } else {
        ((n - 1) % 0xffff + 1) as u16
    }
}

/// The ones' complement sum of `s`.
pub open spec fn ones_sum(s: Seq<u8>) -> u16 {
    fold(word_sum(s))
}

/// The checksum of `s`: what, added to it, makes the sum `0xffff`.
pub open spec fn checksum_of(s: Seq<u8>) -> u16 {
    (0xffff - ones_sum(s)) as u16
}

/// The pseudo-header that upper-layer checksums cover (RFC 768, RFC 8200 §8.1).
///
/// `src` and `dst` are the octets of the two addresses. The version of the source
/// decides how the length is written; up to 65535 octets the sum is the same either way.
pub open spec fn pseudo_header(src: Seq<u8>, dst: Seq<u8>, protocol: u8, len: nat) -> Seq<u8> {
    if src.len() == 4 {
        src + dst + seq![0u8, protocol] + bytes::octets16(len as u16)
    } else {
        src + dst + bytes::octets32(len as u32) + seq![0u8, 0u8, 0u8, protocol]
    }
}

proof fn lemma_fold_period(n: nat)
    requires
        n >= 1,
    ensures
        fold(n + 0xffff) == fold(n),
{
    assert((n - 1 + 0xffff) % 0xffff == (n - 1) % 0xffff) by (nonlinear_arith)
        requires
            n >= 1,
    ;
}

proof fn lemma_fold_small(n: nat)
    requires
        n <= 0xffff,
    ensures
        fold(n) == n,
{
    if n > 0 {
        assert((n - 1) % 0xffff == n - 1);
    }
}

/// Folding early does not change the sum.
pub proof fn lemma_fold_sum(a: nat, b: nat)
    ensures
        fold(fold(a) as nat + b) == fold(a + b),
    decreases a,
{
    if a <= 0xffff {
        lemma_fold_small(a);
    } else {
        let c = (a - 0xffff) as nat;
        lemma_fold_sum(c, b);
        lemma_fold_period(c);
        lemma_fold_period(c + b);
        assert(c + 0xffff == a);
        assert(c + b + 0xffff == a + b);
    }
}

/// Sums add up over concatenation after an even number of octets.
pub proof fn lemma_word_sum_concat(a: Seq<u8>, b: Seq<u8>)
    requires
        a.len() % 2 == 0,
    ensures
        word_sum(a + b) == word_sum(a) + word_sum(b),
    decreases a.len(),
{
    if a.len() == 0 {
        assert(a + b =~= b);
    } else {
        assert((a + b).skip(2) =~= a.skip(2) + b);
        lemma_word_sum_concat(a.skip(2), b);
    }
}

/// A word written over a zero word raises the sum by its value.
proof fn lemma_word_sum_overwrite(s: Seq<u8>, at: int, v: u16)
    requires
        0 <= at,
        at % 2 == 0,
        at + 2 <= s.len(),
    ensures
        word_sum(bytes::overwrite(s, at, bytes::octets16(v))) == word_sum(bytes::overwrite(s, at, bytes::octets16(0))) + v,
    decreases s.len(),
{
    let x = bytes::overwrite(s, at, bytes::octets16(v));
    let z = bytes::overwrite(s, at, bytes::octets16(0));
    if at == 0 {
        assert(x.skip(2) =~= z.skip(2));
        assert(bytes::be16(x, 0) == v);
        assert(bytes::be16(z, 0) == 0);
    } else {
        assert(x.skip(2) =~= bytes::overwrite(s.skip(2), at - 2, bytes::octets16(v)));
        assert(z.skip(2) =~= bytes::overwrite(s.skip(2), at - 2, bytes::octets16(0)));
        lemma_word_sum_overwrite(s.skip(2), at - 2, v);
    }
}

/// Data whose checksum field was zeroed, summed up and filled in sums up to
/// `0xffff`, so that it verifies.
pub proof fn law_filled_checksum_verifies(prefix: Seq<u8>, s: Seq<u8>, at: int)
    requires
        prefix.len() % 2 == 0,
        0 <= at,
        at % 2 == 0,
        at + 2 <= s.len(),
    ensures
        ones_sum(
            prefix + bytes::overwrite(s, at, bytes::octets16(checksum_of(prefix + bytes::overwrite(s, at, bytes::octets16(0))))),
        ) == 0xffff,
{
    let zeroed = bytes::overwrite(s, at, bytes::octets16(0));
    let n = word_sum(prefix + zeroed);
    let c = checksum_of(prefix + zeroed);
    lemma_word_sum_concat(prefix, zeroed);
    lemma_word_sum_concat(prefix, bytes::overwrite(s, at, bytes::octets16(c)));
    lemma_word_sum_overwrite(s, at, c);
    lemma_fold_sum(n, c as nat);
    assert(fold(n) as nat + c == 0xffff);
    lemma_fold_small(0xffff);
}

/// [`law_filled_checksum_verifies`] for a checksum field that already holds
/// zero.
pub proof fn lemma_filled_zero_field(prefix: Seq<u8>, s: Seq<u8>, at: int)
    requires
        prefix.len() % 2 == 0,
        0 <= at,
        at % 2 == 0,
        at + 2 <= s.len(),
        s[at] == 0,
        s[at + 1] == 0,
    ensures
        ones_sum(prefix + bytes::overwrite(s, at, bytes::octets16(checksum_of(prefix + s)))) == 0xffff,
{
    assert(bytes::overwrite(s, at, bytes::octets16(0)) =~= s);
    law_filled_checksum_verifies(prefix, s, at);
}

/// Any word that complements the sum makes the data verify, the all-ones word in
/// place of zero included.
pub proof fn lemma_any_complement_verifies(prefix: Seq<u8>, s: Seq<u8>, at: int, field: u16)
    requires
        prefix.len() % 2 == 0,
        0 <= at,
        at % 2 == 0,
        at + 2 <= s.len(),
        s[at] == 0,
        s[at + 1] == 0,
        field == checksum_of(prefix + s) || (checksum_of(prefix + s) == 0 && field == 0xffff),
    ensures
        ones_sum(prefix + bytes::overwrite(s, at, bytes::octets16(field))) == 0xffff,
{
    lemma_filled_zero_field(prefix, s, at);
    if field == 0xffff && checksum_of(prefix + s) == 0 {
        let n = word_sum(prefix + s);
        assert(bytes::overwrite(s, at, bytes::octets16(0)) =~= s);
        lemma_word_sum_concat(prefix, s);
        lemma_word_sum_concat(prefix, bytes::overwrite(s, at, bytes::octets16(field)));
        lemma_word_sum_overwrite(s, at, field);
        assert(fold(n) == 0xffff);
        assert(n >= 1);
        lemma_fold_period(n);
    }
}

/// Add two ones' complement sums.
fn add_sums(a: u16, b: u16) -> (r: u16)
    ensures
        r == fold(a as nat + b as nat),
{
    let sum: u32 = a as u32 + b as u32;
    proof {
        if a as nat + b as nat > 0xffff {
            lemma_fold_period((a + b - 0xffff) as nat);
            lemma_fold_small((a + b - 0xffff) as nat);
        } else {
            lemma_fold_small((a + b) as nat);
        }
    }
    if sum > 0xffff {
        (sum - 0xffff) as u16
    } else {
        sum as u16
    }
}

/// The ones' complement sum of the given octets.
pub fn data(octets: &[u8]) -> (r: u16)
    ensures
        r == ones_sum(octets@),
{
    let mut acc: u16 = 0;
    let mut i: usize = 0;
    proof {
        assert(octets@.skip(0) =~= octets@);
    }
    while octets.len() - i >= 2
        invariant
            i <= octets@.len(),
            i % 2 == 0,
            octets.len() == octets@.len(),
            fold(acc as nat + word_sum(octets@.skip(i as int))) == ones_sum(octets@),
        decreases octets@.len() - i,
    {
        let w: u16 = bytes::get_u16(octets, i);
        proof {
            assert(octets@.skip(i as int).skip(2) =~= octets@.skip(i + 2));
            assert(bytes::be16(octets@.skip(i as int), 0) == w);
            lemma_fold_sum((acc + w) as nat, word_sum(octets@.skip(i + 2)));
        }
        acc = add_sums(acc, w);
        i += 2;
    }
    if i < octets.len() {
        let w: u16 = octets[i] as u16 * 0x100;
        proof {
            assert(octets@.skip(i as int).len() == 1);
            assert(word_sum(octets@.skip(i as int)) == w);
        }
        acc = add_sums(acc, w);
    } else {
        proof {
            assert(octets@.skip(i as int).len() == 0);
            lemma_fold_small(acc as nat);
        }
    }
    acc
}

/// The sum of the length field of a pseudo-header between addresses of `addr_len` octets.
pub open spec fn len_sum(addr_len: nat, len: nat) -> nat {
    if addr_len == 4 {
        (len as u16) as nat
    } else {
        word_sum(bytes::octets32(len as u32))
    }
}

/// The sum of the length field of the pseudo-header of `len` octets.
fn length_sum(src: &IpAddress, len: usize) -> (r: u16)
    ensures
        r == fold(len_sum(src.octets_view().len(), len as nat)),
{
    match src {
        IpAddress::Ipv4(_) => {
            let word: u16 = len as u16;
            proof {
                lemma_fold_small(word as nat);
            }
            word
        },
        IpAddress::Ipv6(_) => {
            let mut octets: [u8; 4] = [0; 4];
            let ghost before = octets@;
            bytes::put_u32(&mut octets, 0, len as u32);
            assert(bytes::overwrite(before, 0, bytes::octets32(len as u32)) =~= bytes::octets32(len as u32));
            data(&octets)
        },
    }
}

/// The ones' complement sum of the given octets behind their pseudo-header.
pub fn with_pseudo_header(src: &IpAddress, dst: &IpAddress, protocol: u8, payload: &[u8]) -> (r: u16)
    ensures
        r == ones_sum(pseudo_header(src.octets_view(), dst.octets_view(), protocol, payload@.len()) + payload@),
{
    let src_sum: u16 = src.octets_sum();
    let dst_sum: u16 = dst.octets_sum();
    let len: u16 = length_sum(src, payload.len());
    let tail: [u8; 2] = [0, protocol];
    let tail_sum: u16 = data(&tail);
    let payload_sum: u16 = data(payload);
    let a: u16 = add_sums(src_sum, dst_sum);
    let b: u16 = add_sums(a, tail_sum);
    let c: u16 = add_sums(b, len);
    let r: u16 = add_sums(c, payload_sum);
    proof {
        let s = word_sum(src.octets_view());
        let d = word_sum(dst.octets_view());
        let t = word_sum(tail@);
        let l = len_sum(src.octets_view().len(), payload@.len());
        let p = word_sum(payload@);
        lemma_fold_chain(s, d, t, l, p);
        let header = pseudo_header(src.octets_view(), dst.octets_view(), protocol, payload@.len());
        lemma_pseudo_header_sum(src.octets_view(), dst.octets_view(), protocol, payload@.len());
        assert(tail@ =~= seq![0u8, protocol]);
        lemma_word_sum_concat(header, payload@);
    }
    r
}

proof fn lemma_fold_chain(s: nat, d: nat, t: nat, l: nat, p: nat)
    ensures
        ({
            let a = fold(fold(s) as nat + fold(d) as nat);
            let b = fold(a as nat + fold(t) as nat);
            let c = fold(b as nat + fold(l) as nat);
            fold(c as nat + fold(p) as nat)
        }) == fold(s + d + t + l + p),
{
    let a = fold(fold(s) as nat + fold(d) as nat);
    let b = fold(a as nat + fold(t) as nat);
    let c = fold(b as nat + fold(l) as nat);
    lemma_fold_sum(s, fold(d) as nat);
    lemma_fold_sum(d, s);
    assert(a == fold(s + d));
    lemma_fold_sum(s + d, fold(t) as nat);
    lemma_fold_sum(t, s + d);
    assert(b == fold(s + d + t));
    lemma_fold_sum(s + d + t, fold(l) as nat);
    lemma_fold_sum(l, s + d + t);
    assert(c == fold(s + d + t + l));
    lemma_fold_sum(s + d + t + l, fold(p) as nat);
    lemma_fold_sum(p, s + d + t + l);
}

pub proof fn lemma_pseudo_header_sum(src: Seq<u8>, dst: Seq<u8>, protocol: u8, len: nat)
    requires
        src.len() % 2 == 0,
        dst.len() % 2 == 0,
    ensures
        pseudo_header(src, dst, protocol, len).len() % 2 == 0,
        word_sum(pseudo_header(src, dst, protocol, len)) == word_sum(src) + word_sum(dst) + word_sum(
            seq![0u8, protocol],
        ) + len_sum(src.len(), len),
{
    let s = src;
    let d = dst;
    lemma_word_sum_concat(s, d);
    lemma_word_sum_two(seq![0u8, protocol]);
    if src.len() == 4 {
        let t = seq![0u8, protocol];
        let l = bytes::octets16(len as u16);
        lemma_word_sum_concat(s + d, t);
        lemma_word_sum_concat(s + d + t, l);
        lemma_word_sum_two(l);
    } else {
        let l = bytes::octets32(len as u32);
        let t = seq![0u8, 0u8, 0u8, protocol];
        lemma_word_sum_concat(s + d, l);
        lemma_word_sum_concat(s + d + l, t);
        lemma_word_sum_four(t);
    }
}

/// The sum of a single word.
pub proof fn lemma_word_sum_two(word: Seq<u8>)
    requires
        word.len() == 2,
    ensures
        word_sum(word) == word[0] * 0x100 + word[1],
{
    reveal_with_fuel(word_sum, 2);
    assert(word.skip(2).len() == 0);
}

/// The sum of two words.
pub proof fn lemma_word_sum_four(words: Seq<u8>)
    requires
        words.len() == 4,
    ensures
        word_sum(words) == words[0] * 0x100 + words[1] + words[2] * 0x100 + words[3],
{
    lemma_word_sum_two(words.skip(2));
}

} // verus!
