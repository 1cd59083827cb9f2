//! Numbers as text.

use vstd::prelude::*;

use crate::text;

verus! {

/// The number that a digit stands for.
pub open spec fn worth(c: char) -> int {
    if '0' <= c <= '9' {
        c as int - '0' as int
    } else {
        c as int - 'a' as int + 10
    }
}

/// The number that digits spell in a base.
pub open spec fn spelled(s: Seq<char>, base: int) -> int
    decreases s.len(),
{
    if s.len() == 0 {
        0
    } else {
        base * spelled(s.drop_last(), base) + worth(s.last())
    }
}

proof fn lemma_digit(d: int)
    requires
        0 <= d < 16,
    ensures
        text::digit(d).len() == 1,
        worth(text::digit(d)[0]) == d,
{
    reveal_strlit("0");
    reveal_strlit("1");
    reveal_strlit("2");
    reveal_strlit("3");
    reveal_strlit("4");
    reveal_strlit("5");
    reveal_strlit("6");
    reveal_strlit("7");
    reveal_strlit("8");
    reveal_strlit("9");
    reveal_strlit("a");
    reveal_strlit("b");
    reveal_strlit("c");
    reveal_strlit("d");
    reveal_strlit("e");
    reveal_strlit("f");
}

/// A number in decimal spells the number, with no zero in front of it.
pub proof fn law_decimal_spells_number(n: nat)
    ensures
        spelled(text::decimal(n), 10) == n,
        text::decimal(n).len() > 0,
        n > 0 ==> worth(text::decimal(n)[0]) != 0,
    decreases n,
{
    let s = text::decimal(n);
    lemma_digit((n % 10) as int);
    if n < 10 {
        assert(s.drop_last().len() == 0);
        assert(s.last() == s[0]);
        assert(spelled(s.drop_last(), 10) == 0);
    } else {
        law_decimal_spells_number(n / 10);
        assert(s.drop_last() =~= text::decimal(n / 10));
        assert(s.last() == text::digit((n % 10) as int)[0]);
        assert(s[0] == text::decimal(n / 10)[0]);
    }
}

/// An octet in hexadecimal spells the octet in two digits.
pub proof fn law_hexadecimal_spells_octet(b: u8)
    ensures
        text::hex_octet(b).len() == 2,
        spelled(text::hex_octet(b), 16) == b,
{
    let s = text::hex_octet(b);
    lemma_digit((b / 16) as int);
    lemma_digit((b % 16) as int);
    let a = s.drop_last();
    assert(a.drop_last().len() == 0);
    assert(spelled(a.drop_last(), 16) == 0);
    assert(a.last() == text::digit((b / 16) as int)[0]);
    assert(s.last() == text::digit((b % 16) as int)[0]);
    assert(spelled(a, 16) == b / 16);
}

/// Octets in hexadecimal are two digits each, with a colon between two of them.
pub proof fn law_hexadecimal_spells_octets(octets: Seq<u8>, i: int)
    requires
        0 <= i < octets.len(),
    ensures
        text::hex_octets(octets).len() == 3 * octets.len() - 1,
        spelled(text::hex_octets(octets).subrange(3 * i, 3 * i + 2), 16) == octets[i],
        i > 0 ==> text::hex_octets(octets)[3 * i - 1] == ':',
    decreases octets.len(),
{
    let s = text::hex_octets(octets);
    let last = text::hex_octet(octets.last());
    law_hexadecimal_spells_octet(octets.last());
    reveal_strlit(":");
    if octets.len() == 1 {
        assert(s.subrange(0, 2) =~= last);
    } else {
        let before = octets.drop_last();
        let b = text::hex_octets(before);
        law_hexadecimal_spells_octets(before, 0);
        assert(s =~= b + ":"@ + last);
        if i < before.len() {
            law_hexadecimal_spells_octets(before, i);
            assert(s.subrange(3 * i, 3 * i + 2) =~= b.subrange(3 * i, 3 * i + 2));
            if i > 0 {
                assert(s[3 * i - 1] == b[3 * i - 1]);
            }
        } else {
            assert(s.subrange(3 * i, 3 * i + 2) =~= last);
        }
    }
}

} // verus!
