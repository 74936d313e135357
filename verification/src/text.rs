//! Characters and strings: conversion between `String` and `Vec<char>`,
//! white space, decimal digits, and the code-point order of names.

use vstd::prelude::*;

verus! {

/// Appends one character to a string.
///
/// Trusted: stands for `String::push`, which adds the given character at the
/// end of the string and leaves the rest as it was.
#[verifier::external_body]
pub(crate) fn push_char(s: &mut String, c: char)
    ensures
        final(s)@ == old(s)@.push(c),
{
    s.push(c)
}

/// The characters of `s`, in order.
pub fn to_chars(s: &str) -> (v: Vec<char>)
    ensures
        v@ == s@,
{
    let mut v: Vec<char> = Vec::new();
    for c in it: s.chars()
        invariant
            it.seq() == s@,
            v@ == it.seq().take(it.index() as int),
    {
        v.push(c);
    }
    assert(v@ =~= s@);
    v
}

/// Appends the characters `v[from..to]` to `s`.
pub fn append_chars(s: &mut String, v: &Vec<char>, from: usize, to: usize)
    requires
        from <= to <= v.len(),
    ensures
        final(s)@ == old(s)@ + v@.subrange(from as int, to as int),
{
    let mut i: usize = from;
    while i < to
        invariant
            from <= i <= to <= v.len(),
            s@ == old(s)@ + v@.subrange(from as int, i as int),
        decreases to - i,
    {
        push_char(s, v[i]);
        i += 1;
        assert(s@ =~= old(s)@ + v@.subrange(from as int, i as int));
    }
}

/// The string made of the characters `v[from..to]`.
pub fn from_chars(v: &Vec<char>, from: usize, to: usize) -> (s: String)
    requires
        from <= to <= v.len(),
    ensures
        s@ == v@.subrange(from as int, to as int),
{
    let mut s = String::new();
    append_chars(&mut s, v, from, to);
    assert(s@ =~= v@.subrange(from as int, to as int));
    s
}

/// Whether two strings hold the same characters.
pub fn same_text(a: &str, b: &str) -> (r: bool)
    ensures
        r == (a@ == b@),
{
    let x = a.to_owned();
    let y = b.to_owned();
    x == y
}

/// The character that stands for a decimal digit; `'0'` above nine.
pub open spec fn digit(d: nat) -> char {
    if d == 1 {
        '1'
    } else if d == 2 {
        '2'
    } else if d == 3 {
        '3'
    } else if d == 4 {
        '4'
    } else if d == 5 {
        '5'
    } else if d == 6 {
        '6'
    } else if d == 7 {
        '7'
    } else if d == 8 {
        '8'
    } else if d == 9 {
        '9'
    } else {
        '0'
    }
}

/// The decimal numeral of `n`, without leading zeros.
pub open spec fn decimal(n: nat) -> Seq<char>
    decreases n,
{
    if n < 10 {
        seq![digit(n)]
    } else {
        decimal(n / 10).push(digit(n % 10))
    }
}

/// The character of the digit `d`; `'0'` above nine.
pub fn digit_char(d: u64) -> (c: char)
    ensures
        c == digit(d as nat),
{
    if d == 1 {
        '1'
    } else if d == 2 {
        '2'
    } else if d == 3 {
        '3'
    } else if d == 4 {
        '4'
    } else if d == 5 {
        '5'
    } else if d == 6 {
        '6'
    } else if d == 7 {
        '7'
    } else if d == 8 {
        '8'
    } else if d == 9 {
        '9'
    } else {
        '0'
    }
}

/// Appends the decimal numeral of `n` to `s`.
pub fn push_decimal(s: &mut String, n: u64)
    ensures
        final(s)@ == old(s)@ + decimal(n as nat),
    decreases n,
{
    if n >= 10 {
        push_decimal(s, n / 10);
    }
    push_char(s, digit_char(n % 10));
    assert(s@ =~= old(s)@ + decimal(n as nat));
}

/// Whether `c` is white space: one of the code points that carry the
/// Unicode property White_Space.
pub open spec fn is_space(c: char) -> bool {
    let n = c as u32;
    ||| (0x09 <= n <= 0x0D)
    ||| n == 0x20
    ||| n == 0x85
    ||| n == 0xA0
    ||| n == 0x1680
    ||| (0x2000 <= n <= 0x200A)
    ||| n == 0x2028
    ||| n == 0x2029
    ||| n == 0x202F
    ||| n == 0x205F
    ||| n == 0x3000
}

/// Whether `c` is white space.
pub fn is_space_char(c: char) -> (b: bool)
    ensures
        b == is_space(c),
{
    let n: u32 = c as u32;
    (0x09 <= n && n <= 0x0D) || n == 0x20 || n == 0x85 || n == 0xA0 || n == 0x1680 || (0x2000 <= n
        && n <= 0x200A) || n == 0x2028 || n == 0x2029 || n == 0x202F || n == 0x205F || n == 0x3000
}

/// The order of names: character by character, by code point, a name
/// coming before every longer name that begins with it. It depends on no
/// locale.
pub open spec fn lex_le(a: Seq<char>, b: Seq<char>) -> bool
    decreases a.len(),
{
    if a.len() == 0 {
        true
    } else if b.len() == 0 {
        false
    } else if a[0] != b[0] {
        (a[0] as u32) < (b[0] as u32)
    } else {
        lex_le(a.skip(1), b.skip(1))
    }
}

/// Different characters have different code points.
pub proof fn lemma_code_points_differ(c: char, d: char)
    requires
        c != d,
    ensures
        c as u32 != d as u32,
{
    assert(c as u32 as char == c);
    assert(d as u32 as char == d);
}

/// Every name is in order with itself.
pub proof fn lemma_lex_le_reflexive(a: Seq<char>)
    ensures
        lex_le(a, a),
    decreases a.len(),
{
    if a.len() > 0 {
        lemma_lex_le_reflexive(a.skip(1));
    }
}

/// Of two names one comes first: the order is total.
pub proof fn lemma_lex_le_total(a: Seq<char>, b: Seq<char>)
    ensures
        lex_le(a, b) || lex_le(b, a),
    decreases a.len(),
{
    if a.len() > 0 && b.len() > 0 {
        if a[0] == b[0] {
            lemma_lex_le_total(a.skip(1), b.skip(1));
        } else {
            lemma_code_points_differ(a[0], b[0]);
        }
    }
}

/// Two names that each come before the other are one name.
pub proof fn lemma_lex_le_antisymmetric(a: Seq<char>, b: Seq<char>)
    requires
        lex_le(a, b),
        lex_le(b, a),
    ensures
        a == b,
    decreases a.len(),
{
    if a.len() > 0 && b.len() > 0 {
        lemma_lex_le_antisymmetric(a.skip(1), b.skip(1));
        assert(a =~= seq![a[0]] + a.skip(1));
        assert(b =~= seq![b[0]] + b.skip(1));
    } else {
        assert(a =~= b);
    }
}

/// What comes before a name comes before all that follow it.
pub proof fn lemma_lex_le_transitive(a: Seq<char>, b: Seq<char>, c: Seq<char>)
    requires
        lex_le(a, b),
        lex_le(b, c),
    ensures
        lex_le(a, c),
    decreases a.len(),
{
    if a.len() > 0 && b.len() > 0 && c.len() > 0 && a[0] == b[0] && b[0] == c[0] {
        lemma_lex_le_transitive(a.skip(1), b.skip(1), c.skip(1));
    }
}

/// Whether the name `a` comes before `b` or is `b`.
pub fn name_le(a: &Vec<char>, b: &Vec<char>) -> (r: bool)
    ensures
        r == lex_le(a@, b@),
{
    let mut i: usize = 0;
    assert(a@.skip(0) =~= a@ && b@.skip(0) =~= b@);
    while i < a.len() && i < b.len()
        invariant
            i <= a.len(),
            i <= b.len(),
            lex_le(a@, b@) == lex_le(a@.skip(i as int), b@.skip(i as int)),
        decreases a.len() - i,
    {
        let ghost x = a@.skip(i as int);
        let ghost y = b@.skip(i as int);
        assert(x[0] == a@[i as int] && y[0] == b@[i as int]);
        assert(x.skip(1) =~= a@.skip(i + 1) && y.skip(1) =~= b@.skip(i + 1));
        if a[i] != b[i] {
            return (a[i] as u32) < (b[i] as u32);
        }
        i += 1;
    }
    i == a.len()
}

} // verus!
