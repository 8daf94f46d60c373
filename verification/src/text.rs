//! Small verified helpers on text: prefixes, suffixes after a prefix, and
//! the decimal form of integers.

use vstd::prelude::*;

verus! {

/// `p` is a prefix of `s`.
pub open spec fn is_prefix(p: Seq<char>, s: Seq<char>) -> bool {
    p.len() <= s.len() && s.subrange(0, p.len() as int) == p
}

/// The character of a decimal digit `d` (0 to 9).
pub open spec fn digit_char(d: int) -> char {
    (48 + d) as char
}

/// The decimal form of a natural number, without leading zeros.
pub open spec fn dec_nat(n: nat) -> Seq<char>
    decreases n,
{
    if n < 10 {
        seq![digit_char(n as int)]
    } else {
        dec_nat(n / 10).push(digit_char((n % 10) as int))
    }
}

/// The decimal form of an integer: a minus sign before negative ones.
pub open spec fn dec_int(i: int) -> Seq<char> {
    if i < 0 {
        seq!['-'] + dec_nat((-i) as nat)
    } else {
        dec_nat(i as nat)
    }
}

/// The decimal form of a number is made of digits only.
pub proof fn lemma_dec_nat_digits(n: nat)
    ensures
        dec_nat(n).len() > 0,
        forall|i: int| 0 <= i < dec_nat(n).len() ==> 48 <= (#[trigger] dec_nat(n)[i]) as int <= 57,
    decreases n,
{
    if n >= 10 {
        lemma_dec_nat_digits(n / 10);
        let d = (n % 10) as int;
        assert(digit_char(d) as int == 48 + d);
        assert forall|i: int| 0 <= i < dec_nat(n).len() implies 48 <= (#[trigger] dec_nat(n)[i]) as int <= 57 by {
            if i < dec_nat(n).len() - 1 {
                assert(dec_nat(n)[i] == dec_nat(n / 10)[i]);
            }
        }
    } else {
        assert(digit_char(n as int) as int == 48 + n);
    }
}

/// The decimal form of an integer is made of digits and a minus sign.
pub proof fn lemma_dec_int_chars(i: int)
    ensures
        forall|k: int| 0 <= k < dec_int(i).len() ==> (#[trigger] dec_int(i)[k] == '-' || 48 <= dec_int(i)[k] as int <= 57),
{
    if i < 0 {
        lemma_dec_nat_digits((-i) as nat);
        assert forall|k: int| 0 <= k < dec_int(i).len() implies (#[trigger] dec_int(i)[k] == '-' || 48 <= dec_int(i)[k] as int <= 57) by {
            if k > 0 {
                assert(dec_int(i)[k] == dec_nat((-i) as nat)[k - 1]);
            }
        }
    } else {
        lemma_dec_nat_digits(i as nat);
    }
}

/// Appends one character to a string (`String::push`).
#[verifier::external_body]
pub(crate) fn push_char(s: &mut String, c: char)
    ensures
        final(s)@ == old(s)@.push(c),
{
    s.push(c)
}

/// Appends a string slice to a string.
pub fn push_str(s: &mut String, t: &str)
    ensures
        final(s)@ == old(s)@ + t@,
{
    s.append(t);
}

/// The characters of a string slice, in order.
pub fn chars_of(s: &str) -> (v: Vec<char>)
    ensures
        v@ == s@,
{
    let mut v: Vec<char> = Vec::new();
    for c in it: s.chars()
        invariant
            it.seq() == s@,
            v@ == it.seq().subrange(0, it.index() as int),
    {
        v.push(c);
    }
    assert(v@ =~= s@);
    v
}

/// Whether `s` begins with `prefix`.
pub fn starts_with(s: &str, prefix: &str) -> (b: bool)
    ensures
        b == is_prefix(prefix@, s@),
{
    let sv = chars_of(s);
    let pv = chars_of(prefix);
    if pv.len() > sv.len() {
        return false;
    }
    let mut i: usize = 0;
    while i < pv.len()
        invariant
            pv@ == prefix@,
            sv@ == s@,
            pv.len() <= sv.len(),
            i <= pv.len(),
            forall|j: int| 0 <= j < i ==> sv@[j] == pv@[j],
        decreases pv.len() - i,
    {
        if sv[i] != pv[i] {
            assert(s@.subrange(0, prefix@.len() as int)[i as int] != prefix@[i as int]);
            return false;
        }
        i = i + 1;
    }
    assert(s@.subrange(0, prefix@.len() as int) =~= prefix@);
    true
}

/// Whether two string slices hold the same text.
pub fn same_text(a: &str, b: &str) -> (r: bool)
    ensures
        r == (a@ == b@),
{
    let av = chars_of(a);
    let bv = chars_of(b);
    if av.len() != bv.len() {
        return false;
    }
    let mut i: usize = 0;
    while i < av.len()
        invariant
            av@ == a@,
            bv@ == b@,
            av.len() == bv.len(),
            i <= av.len(),
            forall|j: int| 0 <= j < i ==> av@[j] == bv@[j],
        decreases av.len() - i,
    {
        if av[i] != bv[i] {
            return false;
        }
        i = i + 1;
    }
    assert(a@ =~= b@);
    true
}

/// Removes the last character of a string and returns it (`String::pop`);
/// an empty string stays empty and gives `None`.
#[verifier::external_body]
pub(crate) fn pop_char(s: &mut String) -> (c: Option<char>)
    ensures
        old(s)@.len() == 0 ==> c is None && final(s)@ == old(s)@,
        old(s)@.len() > 0 ==> c == Some(old(s)@.last()) && final(s)@ == old(s)@.drop_last(),
{
    s.pop()
}

/// The part of `s` that follows its first `n` characters.
pub fn after_chars(s: &str, n: usize) -> (r: String)
    requires
        n <= s@.len(),
    ensures
        r@ == s@.subrange(n as int, s@.len() as int),
{
    let v = chars_of(s);
    let mut r = String::new();
    let mut i: usize = n;
    while i < v.len()
        invariant
            v@ == s@,
            n <= i <= v.len(),
            r@ == s@.subrange(n as int, i as int),
        decreases v.len() - i,
    {
        push_char(&mut r, v[i]);
        i = i + 1;
        assert(r@ =~= s@.subrange(n as int, i as int));
    }
    r
}

/// The character of the decimal digit `d`.
pub fn digit(d: u8) -> (c: char)
    requires
        d < 10,
    ensures
        c == digit_char(d as int),
{
    (d + 48) as char
}

/// Appends the decimal form of `n`.
pub fn push_u128(out: &mut String, n: u128)
    ensures
        final(out)@ == old(out)@ + dec_nat(n as nat),
    decreases n,
{
    if n >= 10 {
        push_u128(out, n / 10);
    }
    push_char(out, digit((n % 10) as u8));
    proof {
        if n >= 10 {
            assert(dec_nat(n as nat) == dec_nat((n / 10) as nat).push(digit_char((n % 10) as int)));
        }
    }
    assert(final(out)@ =~= old(out)@ + dec_nat(n as nat));
}

/// Appends the decimal form of `n`, with a minus sign when it is negative.
pub fn push_i64(out: &mut String, n: i64)
    ensures
        final(out)@ == old(out)@ + dec_int(n as int),
{
    if n < 0 {
        push_char(out, '-');
        let magnitude: u128 = (0 - (n as i128)) as u128;
        push_u128(out, magnitude);
        assert(final(out)@ =~= old(out)@ + dec_int(n as int));
    } else {
        push_u128(out, n as u128);
    }
}

} // verus!
