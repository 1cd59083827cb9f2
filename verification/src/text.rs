//! Numbers as text.

use vstd::prelude::*;
use vstd::string::StringExecFns;

verus! {

/// A digit, in bases up to sixteen.
pub open spec fn digit(d: int) -> Seq<char> {
    if d == 0 {
        "0"@
    } else if d == 1 {
        "1"@
    } else if d == 2 {
        "2"@
    } else if d == 3 {
        "3"@
    } else if d == 4 {
        "4"@
    } else if d == 5 {
        "5"@
    } else if d == 6 {
        "6"@
    } else if d == 7 {
        "7"@
    } else if d == 8 {
        "8"@
    } else if d == 9 {
        "9"@
    } else if d == 10 {
        "a"@
    } else if d == 11 {
        "b"@
    } else if d == 12 {
        "c"@
    } else if d == 13 {
        "d"@
    } else if d == 14 {
        "e"@
    } else {
        "f"@
    }
}

/// A number in decimal, without leading zeros.
pub open spec fn decimal(n: nat) -> Seq<char>
    decreases n,
{
    if n < 10 {
        digit(n as int)
    } else {
        decimal(n / 10) + digit((n % 10) as int)
    }
}

/// An octet in hexadecimal, always two digits.
pub open spec fn hex_octet(b: u8) -> Seq<char> {
    digit((b / 16) as int) + digit((b % 16) as int)
}

/// Octets in hexadecimal, with colons between them.
pub open spec fn hex_octets(octets: Seq<u8>) -> Seq<char>
    decreases octets.len(),
{
    if octets.len() == 0 {
        Seq::empty()
    } else if octets.len() == 1 {
        hex_octet(octets[0])
    } else {
        hex_octets(octets.drop_last()) + ":"@ + hex_octet(octets.last())
    }
}

fn digit_str(d: u8) -> (r: &'static str)
    requires
        d < 16,
    ensures
        r@ == digit(d as int),
{
    if d == 0 {
        "0"
    } else if d == 1 {
        "1"
    } else if d == 2 {
        "2"
    } else if d == 3 {
        "3"
    } else if d == 4 {
        "4"
    } else if d == 5 {
        "5"
    } else if d == 6 {
        "6"
    } else if d == 7 {
        "7"
    } else if d == 8 {
        "8"
    } else if d == 9 {
        "9"
    } else if d == 10 {
        "a"
    } else if d == 11 {
        "b"
    } else if d == 12 {
        "c"
    } else if d == 13 {
        "d"
    } else if d == 14 {
        "e"
    } else {
        "f"
    }
}

/// Append a number in decimal.
pub fn push_decimal(out: &mut String, n: u64)
    ensures
        final(out)@ == old(out)@ + decimal(n as nat),
    decreases n,
{
    if n >= 10 {
        push_decimal(out, n / 10);
    }
    out.append(digit_str((n % 10) as u8));
    assert(out@ =~= old(out)@ + decimal(n as nat));
}

/// A number in decimal.
pub fn decimal_text(n: u64) -> (r: String)
    ensures
        r@ == decimal(n as nat),
{
    let mut out = String::new();
    push_decimal(&mut out, n);
    assert(out@ =~= decimal(n as nat));
    out
}

/// Append a string.
pub fn push_str(out: &mut String, text: &str)
    ensures
        final(out)@ == old(out)@ + text@,
{
    out.append(text);
}

/// A string of its own.
pub fn owned(text: &str) -> (r: String)
    ensures
        r@ == text@,
{
    String::from_str(text)
}

/// Octets in hexadecimal, with colons between them.
pub fn hex_text(octets: &[u8]) -> (r: String)
    ensures
        r@ == hex_octets(octets@),
{
    let mut out = String::new();
    let mut i: usize = 0;
    assert(octets@.take(0) =~= Seq::<u8>::empty());
    while i < octets.len()
        invariant
            i <= octets@.len(),
            out@ == hex_octets(octets@.take(i as int)),
        decreases octets@.len() - i,
    {
        let ghost before = out@;
        if i != 0 {
            out.append(":");
        }
        out.append(digit_str(octets[i] / 16));
        out.append(digit_str(octets[i] % 16));
        proof {
            let more = octets@.take(i + 1);
            assert(more.drop_last() =~= octets@.take(i as int));
            if i == 0 {
                assert(out@ =~= hex_octet(octets@[0]));
            } else {
                assert(out@ =~= before + ":"@ + hex_octet(octets@[i as int]));
            }
        }
        i += 1;
    }
    assert(octets@.take(i as int) =~= octets@);
    out
}

} // verus!
