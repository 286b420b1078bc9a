//! Small verified helpers on strings and characters: conversion between
//! `&str` and `Vec<char>`, equality, concatenation, and the hexadecimal /
//! decimal renderings the assembler emits.

use vstd::prelude::*;

verus! {

/// Relies on std's `String::push`: appends the given `char` to the end of
/// the string.
pub assume_specification[ String::push ](s: &mut String, c: char)
    ensures
        final(s)@ == old(s)@.push(c),
;

/// Relies on std's `String::push_str`: appends the given string slice to the
/// end of the string.
pub assume_specification[ String::push_str ](s: &mut String, piece: &str)
    ensures
        final(s)@ == old(s)@ + piece@,
;

/// The characters of `s`, as a vector.
pub fn chars_of(s: &str) -> (r: Vec<char>)
    ensures
        r@ == s@,
{
    let n = s.unicode_len();
    let mut r: Vec<char> = Vec::new();
    let mut i: usize = 0;
    while i < n
        invariant
            n == s@.len(),
            i <= n,
            r@ == s@.subrange(0, i as int),
        decreases n - i,
    {
        r.push(s.get_char(i));
        i = i + 1;
        assert(r@ =~= s@.subrange(0, i as int));
    }
    assert(r@ =~= s@);
    r
}

/// A `String` holding exactly the characters of `cs`.
pub fn string_of(cs: &[char]) -> (r: String)
    ensures
        r@ == cs@,
{
    let mut r = String::new();
    let mut i: usize = 0;
    while i < cs.len()
        invariant
            i <= cs@.len(),
            r@ == cs@.subrange(0, i as int),
        decreases cs@.len() - i,
    {
        r.push(cs[i]);
        i = i + 1;
        assert(r@ =~= cs@.subrange(0, i as int));
    }
    assert(r@ =~= cs@);
    r
}

/// Character-wise equality of two string slices.
pub fn str_eq(a: &str, b: &str) -> (r: bool)
    ensures
        r == (a@ == b@),
{
    let na = a.unicode_len();
    let nb = b.unicode_len();
    if na != nb {
        assert(a@ != b@) by {
            assert(a@.len() != b@.len());
        }
        return false;
    }
    let mut i: usize = 0;
    while i < na
        invariant
            na == a@.len(),
            na == b@.len(),
            i <= na,
            forall|j: int| 0 <= j < i ==> a@[j] == b@[j],
        decreases na - i,
    {
        if a.get_char(i) != b.get_char(i) {
            return false;
        }
        i = i + 1;
    }
    assert(a@ =~= b@);
    true
}

/// The uppercase hexadecimal digit for a value below 16.
pub open spec fn spec_hex_digit(v: nat) -> char {
    if v == 0 { '0' } else if v == 1 { '1' } else if v == 2 { '2' }
    else if v == 3 { '3' } else if v == 4 { '4' } else if v == 5 { '5' }
    else if v == 6 { '6' } else if v == 7 { '7' } else if v == 8 { '8' }
    else if v == 9 { '9' } else if v == 10 { 'A' } else if v == 11 { 'B' }
    else if v == 12 { 'C' } else if v == 13 { 'D' } else if v == 14 { 'E' }
    else { 'F' }
}

pub fn hex_digit(v: u8) -> (c: char)
    requires
        v < 16,
    ensures
        c == spec_hex_digit(v as nat),
{
    if v == 0 { '0' } else if v == 1 { '1' } else if v == 2 { '2' }
    else if v == 3 { '3' } else if v == 4 { '4' } else if v == 5 { '5' }
    else if v == 6 { '6' } else if v == 7 { '7' } else if v == 8 { '8' }
    else if v == 9 { '9' } else if v == 10 { 'A' } else if v == 11 { 'B' }
    else if v == 12 { 'C' } else if v == 13 { 'D' } else if v == 14 { 'E' }
    else { 'F' }
}

/// Uppercase hexadecimal rendering of `v`, left-padded with zeros to at
/// least `width` digits (and never fewer digits than `v` itself needs).
pub open spec fn spec_hex_pad(v: nat, width: nat) -> Seq<char>
    decreases v, width,
{
    if v < 16 && width <= 1 {
        seq![spec_hex_digit(v)]
    } else {
        spec_hex_pad(v / 16, if width <= 1 { 0 } else { (width - 1) as nat })
            .push(spec_hex_digit(v % 16))
    }
}

/// Uppercase hexadecimal rendering of `v` padded to at least `width` digits.
pub fn hex_pad(v: u64, width: usize) -> (r: String)
    ensures
        r@ == spec_hex_pad(v as nat, width as nat),
    decreases v, width,
{
    if v < 16 && width <= 1 {
        let mut r = String::new();
        r.push(hex_digit(v as u8));
        assert(r@ =~= spec_hex_pad(v as nat, width as nat));
        r
    } else {
        let mut r = hex_pad(v / 16, if width <= 1 { 0 } else { width - 1 });
        r.push(hex_digit((v % 16) as u8));
        assert(r@ =~= spec_hex_pad(v as nat, width as nat));
        r
    }
}

/// The views of a sequence of strings.
pub open spec fn string_views(s: Seq<String>) -> Seq<Seq<char>> {
    s.map_values(|x: String| x@)
}

/// The position of the last occurrence of `c` in `s`.
pub open spec fn find_last_char(s: Seq<char>, c: char) -> Option<int>
    decreases s.len(),
{
    if s.len() == 0 {
        None
    } else if s[s.len() - 1] == c {
        Some(s.len() - 1)
    } else {
        find_last_char(s.drop_last(), c)
    }
}

pub proof fn lemma_find_last_char_at(s: Seq<char>, c: char, j: int)
    requires
        0 <= j < s.len(),
        s[j] == c,
        forall|k: int| j < k < s.len() ==> s[k] != c,
    ensures
        find_last_char(s, c) == Some(j),
    decreases s.len(),
{
    if j < s.len() - 1 {
        assert forall|k: int| j < k < s.drop_last().len() implies s.drop_last()[k] != c by {
            assert(s.drop_last()[k] == s[k]);
        }
        lemma_find_last_char_at(s.drop_last(), c, j);
    }
}

pub proof fn lemma_find_last_char_none(s: Seq<char>, c: char)
    requires
        forall|k: int| 0 <= k < s.len() ==> s[k] != c,
    ensures
        find_last_char(s, c) is None,
    decreases s.len(),
{
    if s.len() > 0 {
        assert forall|k: int| 0 <= k < s.drop_last().len() implies s.drop_last()[k] != c by {
            assert(s.drop_last()[k] == s[k]);
        }
        lemma_find_last_char_none(s.drop_last(), c);
    }
}

/// The text after the last occurrence of `c`, or all of `s` if `c` does not
/// occur.
pub open spec fn suffix_after_last_spec(s: Seq<char>, c: char) -> Seq<char> {
    match find_last_char(s, c) {
        None => s,
        Some(k) => s.subrange(k + 1, s.len() as int),
    }
}

pub fn suffix_after_last(s: &str, c: char) -> (r: String)
    ensures
        r@ == suffix_after_last_spec(s@, c),
{
    let cs = chars_of(s);
    let n = cs.len();
    let mut start: usize = 0;
    let mut found = false;
    let mut j: usize = n;
    while j > 0 && !found
        invariant
            n == cs@.len(),
            j <= n,
            found ==> 1 <= start <= n && cs@[start - 1] == c
                && (forall|k: int| start <= k < n ==> cs@[k] != c),
            !found ==> start == 0 && (forall|k: int| j <= k < n ==> cs@[k] != c),
        decreases j, if found { 0int } else { 1int },
    {
        if cs[j - 1] == c {
            start = j;
            found = true;
        } else {
            j = j - 1;
        }
    }
    proof {
        if found {
            lemma_find_last_char_at(cs@, c, start - 1);
        } else {
            lemma_find_last_char_none(cs@, c);
        }
    }
    let mut out: Vec<char> = Vec::new();
    let mut i: usize = start;
    while i < n
        invariant
            start <= i <= n,
            n == cs@.len(),
            out@ == cs@.subrange(start as int, i as int),
        decreases n - i,
    {
        out.push(cs[i]);
        i = i + 1;
        assert(out@ =~= cs@.subrange(start as int, i as int));
    }
    let r = string_of(out.as_slice());
    assert(r@ =~= suffix_after_last_spec(s@, c));
    r
}

/// Decimal rendering of `v`.
pub open spec fn spec_dec(v: nat) -> Seq<char>
    decreases v,
{
    if v < 10 {
        seq![spec_hex_digit(v)]
    } else {
        spec_dec(v / 10).push(spec_hex_digit(v % 10))
    }
}

pub fn dec_of(v: u64) -> (r: String)
    ensures
        r@ == spec_dec(v as nat),
    decreases v,
{
    if v < 10 {
        let mut r = String::new();
        r.push(hex_digit(v as u8));
        assert(r@ =~= spec_dec(v as nat));
        r
    } else {
        let mut r = dec_of(v / 10);
        r.push(hex_digit((v % 10) as u8));
        assert(r@ =~= spec_dec(v as nat));
        r
    }
}

} // verus!
