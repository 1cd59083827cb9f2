//! Big-endian fields in octet strings.

use byteorder::{ByteOrder, NetworkEndian};
use vstd::prelude::*;

verus! {

/// The big-endian 16-bit number at `at`.
pub open spec fn be16(s: Seq<u8>, at: int) -> u16 {
    (s[at] * 0x100 + s[at + 1]) as u16
}

/// The big-endian 32-bit number at `at`.
pub open spec fn be32(s: Seq<u8>, at: int) -> u32 {
    (s[at] * 0x100_0000 + s[at + 1] * 0x1_0000 + s[at + 2] * 0x100 + s[at + 3]) as u32
}

/// The two octets of a 16-bit number, in network order.
pub open spec fn octets16(v: u16) -> Seq<u8> {
    seq![(v / 0x100) as u8, (v % 0x100) as u8]
}

/// The four octets of a 32-bit number, in network order.
pub open spec fn octets32(v: u32) -> Seq<u8> {
    seq![
        (v / 0x100_0000) as u8,
        ((v / 0x1_0000) % 0x100) as u8,
        ((v / 0x100) % 0x100) as u8,
        (v % 0x100) as u8,
    ]
}

/// `s` with the octets of `new` written over it, starting at `at`.
pub open spec fn overwrite(s: Seq<u8>, at: int, new: Seq<u8>) -> Seq<u8> {
    Seq::new(
        s.len(),
        |i: int|
            if at <= i < at + new.len() {
                new[i - at]
            } else {
                s[i]
            },
    )
}

/// `byteorder::NetworkEndian::read_u16`: the first two octets of the slice, as a
/// big-endian number.
#[verifier::external_body]
fn network_read_u16(buf: &[u8]) -> (v: u16)
    requires
        buf@.len() >= 2,
    ensures
        v == be16(buf@, 0),
{
    NetworkEndian::read_u16(buf)
}

/// `byteorder::NetworkEndian::read_u32`: the first four octets of the slice, as a
/// big-endian number.
#[verifier::external_body]
fn network_read_u32(buf: &[u8]) -> (v: u32)
    requires
        buf@.len() >= 4,
    ensures
        v == be32(buf@, 0),
{
    NetworkEndian::read_u32(buf)
}

/// `byteorder::NetworkEndian::write_u16`: overwrites the first two octets of the
/// slice with the number in big-endian order, and leaves the rest alone.
#[verifier::external_body]
fn network_write_u16(buf: &mut [u8], v: u16)
    requires
        old(buf)@.len() >= 2,
    ensures
        final(buf)@ == overwrite(old(buf)@, 0, octets16(v)),
{
    NetworkEndian::write_u16(buf, v)
}

/// `byteorder::NetworkEndian::write_u32`: overwrites the first four octets of the
/// slice with the number in big-endian order, and leaves the rest alone.
#[verifier::external_body]
fn network_write_u32(buf: &mut [u8], v: u32)
    requires
        old(buf)@.len() >= 4,
    ensures
        final(buf)@ == overwrite(old(buf)@, 0, octets32(v)),
{
    NetworkEndian::write_u32(buf, v)
}

/// The big-endian 16-bit number at `at`.
pub fn get_u16(buf: &[u8], at: usize) -> (v: u16)
    requires
        at + 2 <= buf@.len(),
    ensures
        v == be16(buf@, at as int),
{
    assert(buf.len() == buf@.len());
    network_read_u16(&buf[at..at + 2])
}

/// The big-endian 32-bit number at `at`.
pub fn get_u32(buf: &[u8], at: usize) -> (v: u32)
    requires
        at + 4 <= buf@.len(),
    ensures
        v == be32(buf@, at as int),
{
    assert(buf.len() == buf@.len());
    network_read_u32(&buf[at..at + 4])
}

/// Write a 16-bit number at `at`, big-endian.
pub fn put_u16(buf: &mut [u8], at: usize, v: u16)
    requires
        at + 2 <= old(buf)@.len(),
    ensures
        final(buf)@ == overwrite(old(buf)@, at as int, octets16(v)),
{
    let (_head, tail) = buf.split_at_mut(at);
    network_write_u16(tail, v);
}

/// Write a 32-bit number at `at`, big-endian.
pub fn put_u32(buf: &mut [u8], at: usize, v: u32)
    requires
        at + 4 <= old(buf)@.len(),
    ensures
        final(buf)@ == overwrite(old(buf)@, at as int, octets32(v)),
{
    let (_head, tail) = buf.split_at_mut(at);
    network_write_u32(tail, v);
}

/// Write `src` over `buf`, starting at `at`.
pub fn put_bytes(buf: &mut [u8], at: usize, src: &[u8])
    requires
        at + src@.len() <= old(buf)@.len(),
    ensures
        final(buf)@ == overwrite(old(buf)@, at as int, src@),
{
    let mut i: usize = 0;
    while i < src.len()
        invariant
            i <= src@.len(),
            at + src@.len() <= buf@.len(),
            buf@ == overwrite(old(buf)@, at as int, src@.take(i as int)),
        decreases src@.len() - i,
    {
        assert(buf.len() == buf@.len());
        buf[at + i] = src[i];
        i += 1;
        assert(buf@ =~= overwrite(old(buf)@, at as int, src@.take(i as int)));
    }
    assert(src@.take(i as int) =~= src@);
}

/// Append `src` to `out`.
pub fn push_bytes(out: &mut Vec<u8>, src: &[u8])
    ensures
        final(out)@ == old(out)@ + src@,
{
    let mut i: usize = 0;
    while i < src.len()
        invariant
            i <= src@.len(),
            out@ == old(out)@ + src@.take(i as int),
        decreases src@.len() - i,
    {
        out.push(src[i]);
        i += 1;
        assert(out@ =~= old(out)@ + src@.take(i as int));
    }
    assert(src@.take(i as int) =~= src@);
}

/// Append a 16-bit number to `out`, big-endian.
pub fn push_u16(out: &mut Vec<u8>, v: u16)
    ensures
        final(out)@ == old(out)@ + octets16(v),
{
    let mut field: [u8; 2] = [0, 0];
    put_u16(&mut field, 0, v);
    assert(field@ =~= octets16(v));
    push_bytes(out, &field);
}

/// Append a 32-bit number to `out`, big-endian.
pub fn push_u32(out: &mut Vec<u8>, v: u32)
    ensures
        final(out)@ == old(out)@ + octets32(v),
{
    let mut field: [u8; 4] = [0, 0, 0, 0];
    put_u32(&mut field, 0, v);
    assert(field@ =~= octets32(v));
    push_bytes(out, &field);
}

/// Whether two octet strings are the same.
pub fn bytes_eq(a: &[u8], b: &[u8]) -> (r: bool)
    ensures
        r == (a@ == b@),
{
    if a.len() != b.len() {
        return false;
    }
    let mut i: usize = 0;
    while i < a.len()
        invariant
            i <= a@.len(),
            a@.len() == b@.len(),
            forall|j: int| 0 <= j < i ==> a@[j] == b@[j],
        decreases a@.len() - i,
    {
        if a[i] != b[i] {
            return false;
        }
        i += 1;
    }
    assert(a@ =~= b@);
    true
}

/// Reading a 16-bit field gives back what was written to it.
pub proof fn law_u16_round_trip(s: Seq<u8>, at: int, v: u16)
    requires
        0 <= at,
        at + 2 <= s.len(),
    ensures
        be16(overwrite(s, at, octets16(v)), at) == v,
        be16(octets16(v), 0) == v,
{
}

/// Reading a 32-bit field gives back what was written to it.
pub proof fn law_u32_round_trip(s: Seq<u8>, at: int, v: u32)
    requires
        0 <= at,
        at + 4 <= s.len(),
    ensures
        be32(overwrite(s, at, octets32(v)), at) == v,
        be32(octets32(v), 0) == v,
{
}

} // verus!
