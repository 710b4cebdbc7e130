//! Character-level helpers shared by the parsers: conversion between strings
//! and character vectors, substring search and decimal formatting.

use vstd::prelude::*;
use vstd::std_specs::iter::IteratorSpec;

verus! {

/// `pat` occurs in `s` starting at index `i`.
pub open spec fn occurs_at(s: Seq<char>, pat: Seq<char>, i: int) -> bool {
    &&& 0 <= i
    &&& i + pat.len() <= s.len()
    &&& s.subrange(i, i + pat.len()) == pat
}

/// The first index `>= k` at which `pat` occurs in `s`, as `str::find` reports it
/// on the part of `s` from `k` on (there, relative to `k`).
pub open spec fn find_from(s: Seq<char>, pat: Seq<char>, k: int) -> Option<int>
    decreases s.len() + 1 - k,
{
    if k < 0 || k + pat.len() > s.len() {
        None
    } else if occurs_at(s, pat, k) {
        Some(k)
    } else {
        find_from(s, pat, k + 1)
    }
}

/// The first index at which `pat` occurs in `s` (what `str::find` returns).
pub open spec fn find_spec(s: Seq<char>, pat: Seq<char>) -> Option<int> {
    find_from(s, pat, 0)
}

/// What `find_from` returns is an occurrence, and no earlier index from `k` on is one.
pub proof fn lemma_find_from(s: Seq<char>, pat: Seq<char>, k: int)
    requires
        0 <= k,
    ensures
        find_from(s, pat, k) matches Some(i) ==> {
            &&& k <= i
            &&& occurs_at(s, pat, i)
            &&& forall|j: int| k <= j < i ==> !occurs_at(s, pat, j)
        },
        find_from(s, pat, k) is None ==> forall|j: int| k <= j ==> !occurs_at(s, pat, j),
    decreases s.len() + 1 - k,
{
    if k + pat.len() > s.len() {
    } else if occurs_at(s, pat, k) {
    } else {
        lemma_find_from(s, pat, k + 1);
        assert forall|j: int| k <= j && !(k + 1 <= j) implies !occurs_at(s, pat, j) by {
            assert(j == k);
        }
    }
}

/// An occurrence with none before it (from `k` on) is what `find_from` finds.
pub proof fn lemma_find_from_first(s: Seq<char>, pat: Seq<char>, k: int, m: int)
    requires
        0 <= k <= m,
        occurs_at(s, pat, m),
        forall|j: int| k <= j < m ==> !occurs_at(s, pat, j),
    ensures
        find_from(s, pat, k) == Some(m),
    decreases m - k,
{
    if k < m {
        lemma_find_from_first(s, pat, k + 1, m);
    }
}

/// The characters of `s`, in order.
pub fn chars_of(s: &str) -> (v: Vec<char>)
    ensures
        v@ == s@,
{
    broadcast use vstd::string::group_string_axioms;

    let mut v: Vec<char> = Vec::new();
    for c in it: s.chars()
        invariant
            it.seq() == s@,
            v@ == it.seq().take(it.index() as int),
    {
        v.push(c);
    }
    v
}

/// Appends one character to `s` (`String::push`).
#[verifier::external_body]
fn push_char(s: &mut String, c: char)
    ensures
        final(s)@ == old(s)@.push(c),
{
    s.push(c);
}

/// The string made of the characters `v[from..to]`.
pub fn string_of_range(v: &Vec<char>, from: usize, to: usize) -> (s: String)
    requires
        from <= to <= v.len(),
    ensures
        s@ == v@.subrange(from as int, to as int),
{
    let mut s = String::new();
    let mut i = from;
    while i < to
        invariant
            from <= i <= to <= v.len(),
            s@ == v@.subrange(from as int, i as int),
        decreases to - i,
    {
        push_char(&mut s, v[i]);
        i = i + 1;
        assert(s@ =~= v@.subrange(from as int, i as int));
    }
    s
}

/// The string made of the characters of `v`.
pub fn string_of(v: &Vec<char>) -> (s: String)
    ensures
        s@ == v@,
{
    let s = string_of_range(v, 0, v.len());
    assert(v@.subrange(0, v@.len() as int) =~= v@);
    s
}

/// `pat` occurs in `s` at `i` (executable).
pub fn matches_at(s: &Vec<char>, pat: &Vec<char>, i: usize) -> (b: bool)
    ensures
        b == occurs_at(s@, pat@, i as int),
{
    if i > s.len() || pat.len() > s.len() - i {
        return false;
    }
    let mut j: usize = 0;
    while j < pat.len()
        invariant
            i + pat.len() <= s.len(),
            j <= pat.len(),
            forall|t: int| 0 <= t < j ==> s@[i + t] == pat@[t],
        decreases pat.len() - j,
    {
        if s[i + j] != pat[j] {
            assert(s@.subrange(i as int, i + pat.len())[j as int] != pat@[j as int]);
            return false;
        }
        j = j + 1;
    }
    assert(s@.subrange(i as int, i + pat.len()) =~= pat@);
    true
}

/// The first occurrence of `pat` in `s` at or after `start`.
pub fn find_at(s: &Vec<char>, pat: &Vec<char>, start: usize) -> (r: Option<usize>)
    ensures
        r matches Some(i) ==> find_from(s@, pat@, start as int) == Some(i as int),
        r is None ==> find_from(s@, pat@, start as int) is None,
{
    let mut k = start;
    while k <= s.len() && pat.len() <= s.len() - k
        invariant
            start <= k,
            find_from(s@, pat@, start as int) == find_from(s@, pat@, k as int),
        decreases s.len() + 1 - k,
    {
        if matches_at(s, pat, k) {
            return Some(k);
        }
        if k == s.len() {
            assert(s@.subrange(k as int, k as int) =~= pat@);
        }
        k = k + 1;
    }
    None
}

/// The characters of the decimal numeral of `n`.
pub open spec fn decimal(n: nat) -> Seq<char>
    decreases n,
{
    if n < 10 {
        seq![digit_char(n)]
    } else {
        decimal(n / 10).push(digit_char(n % 10))
    }
}

/// The decimal digit for `d < 10`.
pub open spec fn digit_char(d: nat) -> char {
    (('0' as nat) + d) as char
}

/// The decimal numeral of `n` (what `format!("{}", n)` prints for an unsigned integer).
pub fn decimal_string(n: u64) -> (s: String)
    ensures
        s@ == decimal(n as nat),
{
    let mut acc: Vec<char> = Vec::new();
    let mut m = n;
    while m >= 10
        invariant
            decimal(n as nat) == decimal(m as nat) + acc@,
        decreases m,
    {
        let c = char_from_digit((m % 10) as u32);
        acc.insert(0, c);
        assert(decimal(m as nat) == decimal((m / 10) as nat).push(c));
        m = m / 10;
        assert(decimal(n as nat) =~= decimal(m as nat) + acc@);
    }
    acc.insert(0, char_from_digit(m as u32));
    assert(decimal(n as nat) =~= acc@);
    string_of(&acc)
}

/// The character of the digit `d < 10`.
fn char_from_digit(d: u32) -> (c: char)
    requires
        d < 10,
    ensures
        c == digit_char(d as nat),
{
    match d {
        0 => '0',
        1 => '1',
        2 => '2',
        3 => '3',
        4 => '4',
        5 => '5',
        6 => '6',
        7 => '7',
        8 => '8',
        _ => '9',
    }
}

} // verus!
