//! String ordering and decimal rendering.
//!
//! Label and attribute maps are kept in key-sorted order; the order is the
//! lexicographic order on the key's characters defined here.  Slot indices
//! are rendered in decimal when a device-handle id is formed.

use vstd::prelude::*;

verus! {

/// Strict lexicographic order on character sequences, by code point.
pub open spec fn lex_lt(a: Seq<char>, b: Seq<char>) -> bool
    decreases a.len(),
{
    if b.len() == 0 {
        false
    } else if a.len() == 0 {
        true
    } else if a[0] < b[0] {
        true
    } else if a[0] == b[0] {
        lex_lt(a.skip(1), b.skip(1))
    } else {
        false
    }
}

/// Exactly one of `lex_lt(a, b)`, `lex_lt(b, a)` and `a == b` holds.
pub proof fn lemma_lex_trichotomy(a: Seq<char>, b: Seq<char>)
    ensures
        lex_lt(a, b) ==> !lex_lt(b, a) && a != b,
        !lex_lt(a, b) && !lex_lt(b, a) ==> a == b,
    decreases a.len(),
{
    if a.len() > 0 && b.len() > 0 && a[0] == b[0] {
        lemma_lex_trichotomy(a.skip(1), b.skip(1));
        if a.skip(1) == b.skip(1) {
            assert forall|i: int| 0 <= i < a.len() implies a[i] == b[i] by {
                if i > 0 {
                    assert(a.skip(1)[i - 1] == a[i]);
                    assert(b.skip(1)[i - 1] == b[i]);
                }
            }
            assert(a =~= b);
        }
    } else if a.len() == 0 && b.len() == 0 {
        assert(a =~= b);
    }
}

/// The order is transitive.
pub proof fn lemma_lex_trans(a: Seq<char>, b: Seq<char>, c: Seq<char>)
    requires
        lex_lt(a, b),
        lex_lt(b, c),
    ensures
        lex_lt(a, c),
    decreases a.len(),
{
    if b.len() > 0 && a.len() > 0 {
        if a[0] == b[0] && b[0] == c[0] {
            lemma_lex_trans(a.skip(1), b.skip(1), c.skip(1));
        }
    }
}

/// Compares two strings in lexicographic order of their characters.
pub fn str_lt(a: &str, b: &str) -> (r: bool)
    ensures
        r == lex_lt(a@, b@),
{
    let alen = a.unicode_len();
    let blen = b.unicode_len();
    let mut i: usize = 0;
    proof {
        assert(a@.skip(0) =~= a@);
        assert(b@.skip(0) =~= b@);
    }
    loop
        invariant
            i <= alen,
            i <= blen,
            alen == a@.len(),
            blen == b@.len(),
            lex_lt(a@, b@) == lex_lt(a@.skip(i as int), b@.skip(i as int)),
        decreases alen - i,
    {
        if i == blen {
            assert(b@.skip(i as int).len() == 0);
            return false;
        }
        if i == alen {
            assert(a@.skip(i as int).len() == 0);
            assert(b@.skip(i as int).len() > 0);
            return true;
        }
        let ca = a.get_char(i);
        let cb = b.get_char(i);
        assert(a@.skip(i as int)[0] == a@[i as int]);
        assert(b@.skip(i as int)[0] == b@[i as int]);
        if ca < cb {
            return true;
        }
        if ca != cb {
            return false;
        }
        proof {
            assert(a@.skip(i as int).skip(1) =~= a@.skip(i + 1));
            assert(b@.skip(i as int).skip(1) =~= b@.skip(i + 1));
        }
        i += 1;
    }
}

/// The decimal digit character for `d`.
pub open spec fn digit_char(d: int) -> char {
    ((48 + d) as u8) as char
}

/// The decimal rendering of `n`, most significant digit first.
pub open spec fn dec_chars(n: nat) -> Seq<char>
    decreases n,
{
    if n < 10 {
        seq![digit_char(n as int)]
    } else {
        dec_chars(n / 10).push(digit_char((n % 10) as int))
    }
}

/// Every character of a decimal rendering is a digit.
pub proof fn lemma_dec_chars_digits(n: nat)
    ensures
        forall|i: int|
            0 <= i < dec_chars(n).len() ==> '0' <= #[trigger] dec_chars(n)[i] <= '9',
    decreases n,
{
    if n < 10 {
        assert(dec_chars(n) =~= seq![digit_char(n as int)]);
        assert('0' <= digit_char(n as int) <= '9');
    } else {
        lemma_dec_chars_digits(n / 10);
        let m = dec_chars(n / 10);
        assert forall|i: int|
            0 <= i < dec_chars(n).len() implies '0' <= #[trigger] dec_chars(n)[i] <= '9' by {
            if i < m.len() {
                assert(dec_chars(n)[i] == m[i]);
            } else {
                assert(dec_chars(n)[i] == digit_char((n % 10) as int));
                assert('0' <= digit_char((n % 10) as int) <= '9');
            }
        }
    }
}

/// A multi-digit rendering is longer than a single digit.
pub proof fn lemma_dec_chars_len(n: nat)
    ensures
        dec_chars(n).len() >= 1,
        n >= 10 ==> dec_chars(n).len() >= 2,
    decreases n,
{
    if n >= 10 {
        lemma_dec_chars_len(n / 10);
    }
}

/// Two numbers with the same decimal rendering are the same number.
pub proof fn lemma_dec_chars_injective(a: nat, b: nat)
    requires
        dec_chars(a) == dec_chars(b),
    ensures
        a == b,
    decreases a,
{
    lemma_dec_chars_len(a);
    lemma_dec_chars_len(b);
    if a < 10 && b < 10 {
        assert(dec_chars(a)[0] == digit_char(a as int));
        assert(dec_chars(b)[0] == digit_char(b as int));
        assert((48 + a) as u8 as char == (48 + b) as u8 as char);
        assert(a == b);
    } else if a < 10 || b < 10 {
        assert(dec_chars(a).len() != dec_chars(b).len());
    } else {
        assert(dec_chars(a).last() == digit_char((a % 10) as int));
        assert(dec_chars(b).last() == digit_char((b % 10) as int));
        assert((48 + a % 10) as u8 as char == (48 + b % 10) as u8 as char);
        assert(a % 10 == b % 10);
        assert(dec_chars(a).drop_last() =~= dec_chars(a / 10));
        assert(dec_chars(b).drop_last() =~= dec_chars(b / 10));
        lemma_dec_chars_injective(a / 10, b / 10);
        assert(a == 10 * (a / 10) + a % 10);
        assert(b == 10 * (b / 10) + b % 10);
    }
}

/// Appends the decimal digit character for `d` to `s`.
fn push_digit(s: &mut String, d: u8)
    requires
        d < 10,
    ensures
        final(s)@ == old(s)@ + seq![digit_char(d as int)],
{
    proof {
        reveal_strlit("0");
        reveal_strlit("1");
        reveal_strlit("2");
        reveal_strlit("3");
        reveal_strlit("4");
        reveal_strlit("5");
        reveal_strlit("6");
        reveal_strlit("7");
        reveal_strlit("8");
        reveal_strlit("9");
    }
    match d {
        0 => s.append("0"),
        1 => s.append("1"),
        2 => s.append("2"),
        3 => s.append("3"),
        4 => s.append("4"),
        5 => s.append("5"),
        6 => s.append("6"),
        7 => s.append("7"),
        8 => s.append("8"),
        _ => s.append("9"),
    }
    assert(s@ =~= old(s)@ + seq![digit_char(d as int)]);
}

/// Appends the decimal rendering of `n` to `s`.
pub fn append_decimal_u8(s: &mut String, n: u8)
    ensures
        final(s)@ == old(s)@ + dec_chars(n as nat),
{
    if n >= 100 {
        push_digit(s, n / 100);
        push_digit(s, (n / 10) % 10);
        push_digit(s, n % 10);
        proof {
            assert(dec_chars(n as nat) == dec_chars((n / 10) as nat).push(
                digit_char((n % 10) as int),
            ));
            assert(dec_chars((n / 10) as nat) == dec_chars((n / 100) as nat).push(
                digit_char(((n / 10) % 10) as int),
            ));
            assert((n as nat) / 10 / 10 == (n / 100) as nat);
            assert(s@ =~= old(s)@ + dec_chars(n as nat));
        }
    } else if n >= 10 {
        push_digit(s, n / 10);
        push_digit(s, n % 10);
        proof {
            assert(dec_chars(n as nat) == dec_chars((n / 10) as nat).push(
                digit_char((n % 10) as int),
            ));
            assert(s@ =~= old(s)@ + dec_chars(n as nat));
        }
    } else {
        push_digit(s, n);
        proof {
            assert(s@ =~= old(s)@ + dec_chars(n as nat));
        }
    }
}

} // verus!
