//! Sequences of characters: conversion from and to strings, search, white space.

use vstd::prelude::*;

verus! {

/// Appends one character to a string.
///
/// Rests on `String::push`, of which it claims that the string afterwards reads as before
/// with the character added at its end.
#[verifier::external_body]
pub(crate) fn push_char(s: &mut String, c: char)
    ensures
        final(s)@ == old(s)@.push(c),
{
    s.push(c)
}

/// The characters of a string, in order.
pub fn chars_of(s: &str) -> (v: Vec<char>)
    ensures
        v@ == s@,
{
    let mut v: Vec<char> = Vec::new();
    for c in it: s.chars()
        invariant
            it.seq() == s@,
            v@ == it.seq().take(it.index()),
    {
        v.push(c);
    }
    v
}

/// The string made of the given characters, in order.
pub fn string_of(v: &Vec<char>) -> (s: String)
    ensures
        s@ == v@,
{
    let mut s = String::new();
    let mut i: usize = 0;
    while i < v.len()
        invariant
            i <= v.len(),
            s@ == v@.take(i as int),
        decreases v.len() - i,
    {
        push_char(&mut s, v[i]);
        i += 1;
    }
    s
}

/// Whether two texts hold the same characters.
pub fn same_text(a: &str, b: &str) -> (r: bool)
    ensures
        r == (a@ == b@),
{
    let x = chars_of(a);
    let y = chars_of(b);
    if x.len() != y.len() {
        return false;
    }
    let mut i: usize = 0;
    while i < x.len()
        invariant
            i <= x.len(),
            x.len() == y.len(),
            x@ == a@,
            y@ == b@,
            forall|k: int| 0 <= k < i ==> x@[k] == y@[k],
        decreases x.len() - i,
    {
        if x[i] != y[i] {
            return false;
        }
        i += 1;
    }
    assert(x@ =~= y@);
    true
}

/// Adds the characters of `extra` at the end of `v`.
pub fn append_chars(v: &mut Vec<char>, extra: &Vec<char>)
    ensures
        final(v)@ == old(v)@ + extra@,
{
    let mut i: usize = 0;
    while i < extra.len()
        invariant
            i <= extra.len(),
            v@ == old(v)@ + extra@.take(i as int),
        decreases extra.len() - i,
    {
        v.push(extra[i]);
        i += 1;
    }
}

/// Adds the characters of `src` from position `from` up to, not including, position `to`
/// at the end of `v`.
pub(crate) fn append_range(v: &mut Vec<char>, src: &Vec<char>, from: usize, to: usize)
    requires
        from <= to <= src.len(),
    ensures
        final(v)@ == old(v)@ + src@.subrange(from as int, to as int),
{
    let mut i: usize = from;
    while i < to
        invariant
            from <= i <= to <= src.len(),
            v@ == old(v)@ + src@.subrange(from as int, i as int),
        decreases to - i,
    {
        v.push(src[i]);
        i += 1;
    }
}

/// `needle` stands in `hay` at position `i`.
pub open spec fn occurs_at(hay: Seq<char>, needle: Seq<char>, i: int) -> bool {
    &&& 0 <= i
    &&& i + needle.len() <= hay.len()
    &&& hay.subrange(i, i + needle.len()) == needle
}

/// `needle` stands somewhere in `hay`.
pub open spec fn occurs(hay: Seq<char>, needle: Seq<char>) -> bool {
    exists|i: int| occurs_at(hay, needle, i)
}

/// `needle` stands in `hay` at position `i` and at no earlier position.
pub open spec fn is_first_occurrence(hay: Seq<char>, needle: Seq<char>, i: int) -> bool {
    &&& occurs_at(hay, needle, i)
    &&& forall|j: int| 0 <= j < i ==> !occurs_at(hay, needle, j)
}

/// The earliest position at which `needle` stands in `hay`, if it stands there at all.
pub open spec fn first_occurrence(hay: Seq<char>, needle: Seq<char>) -> Option<int> {
    if occurs(hay, needle) {
        Some(choose|i: int| is_first_occurrence(hay, needle, i))
    } else {
        None
    }
}

/// Among the positions below `bound` at which `needle` stands, one is the earliest.
proof fn lemma_earliest_exists(hay: Seq<char>, needle: Seq<char>, bound: int)
    requires
        exists|i: int| 0 <= i < bound && occurs_at(hay, needle, i),
    ensures
        exists|i: int| 0 <= i < bound && is_first_occurrence(hay, needle, i),
    decreases bound,
{
    if exists|i: int| 0 <= i < bound - 1 && occurs_at(hay, needle, i) {
        lemma_earliest_exists(hay, needle, bound - 1);
    } else {
        assert(occurs_at(hay, needle, bound - 1));
        assert(is_first_occurrence(hay, needle, bound - 1));
    }
}

/// A position that is the earliest occurrence is what `first_occurrence` gives.
pub proof fn lemma_first_occurrence_is(hay: Seq<char>, needle: Seq<char>, i: int)
    requires
        is_first_occurrence(hay, needle, i),
    ensures
        first_occurrence(hay, needle) == Some(i),
{
    assert(occurs(hay, needle));
    let k = choose|k: int| is_first_occurrence(hay, needle, k);
    assert(is_first_occurrence(hay, needle, k));
    if k < i {
        assert(!occurs_at(hay, needle, k));
    }
    if i < k {
        assert(!occurs_at(hay, needle, i));
    }
}

/// What `first_occurrence` gives is the earliest occurrence, and it gives nothing only
/// where there is no occurrence.
pub proof fn lemma_first_occurrence(hay: Seq<char>, needle: Seq<char>)
    ensures
        match first_occurrence(hay, needle) {
            Some(i) => is_first_occurrence(hay, needle, i),
            None => forall|j: int| !occurs_at(hay, needle, j),
        },
{
    if occurs(hay, needle) {
        let w = choose|i: int| occurs_at(hay, needle, i);
        assert(0 <= w < w + 1 && occurs_at(hay, needle, w));
        lemma_earliest_exists(hay, needle, w + 1);
    }
}

/// Whether `needle` stands in `hay` at position `i`.
pub fn matches_at(hay: &Vec<char>, needle: &Vec<char>, i: usize) -> (r: bool)
    ensures
        r == occurs_at(hay@, needle@, i as int),
{
    if needle.len() > hay.len() || i > hay.len() - needle.len() {
        return false;
    }
    let mut k: usize = 0;
    while k < needle.len()
        invariant
            k <= needle.len(),
            i + needle.len() <= hay.len(),
            forall|t: int| 0 <= t < k ==> hay@[i + t] == needle@[t],
        decreases needle.len() - k,
    {
        if hay[i + k] != needle[k] {
            assert(hay@.subrange(i as int, i + needle.len())[k as int] == hay@[i + k]);
            return false;
        }
        k += 1;
    }
    assert(hay@.subrange(i as int, i + needle.len()) =~= needle@);
    true
}

/// The earliest position from `from` on at which `needle` stands in `hay`; none where
/// `from` lies behind the end of `hay`.
pub fn find_from(hay: &Vec<char>, needle: &Vec<char>, from: usize) -> (r: Option<usize>)
    ensures
        from <= hay.len() ==> match r {
            Some(i) => first_occurrence(hay@.skip(from as int), needle@) == Some(i - from),
            None => first_occurrence(hay@.skip(from as int), needle@).is_none(),
        },
        from > hay.len() ==> r is None,
        r matches Some(i) ==> from <= i && i + needle.len() <= hay.len(),
{
    if from > hay.len() {
        return None;
    }
    let ghost rest = hay@.skip(from as int);
    if needle.len() > hay.len() - from {
        proof {
            lemma_first_occurrence(rest, needle@);
        }
        return None;
    }
    let limit: usize = hay.len() - needle.len();
    let mut i: usize = from;
    loop
        invariant
            from <= i <= limit,
            limit == hay.len() - needle.len(),
            rest == hay@.skip(from as int),
            forall|j: int| 0 <= j < i - from ==> !occurs_at(rest, needle@, j),
        decreases limit - i,
    {
        let here = matches_at(hay, needle, i);
        proof {
            lemma_occurs_at_skip(hay@, needle@, from as int, i as int);
        }
        if here {
            proof {
                lemma_first_occurrence_is(rest, needle@, i - from);
            }
            return Some(i);
        }
        if i == limit {
            proof {
                lemma_first_occurrence(rest, needle@);
            }
            return None;
        }
        i += 1;
    }
}

/// An occurrence in what is left of `hay` after `from` characters is an occurrence in `hay`,
/// `from` places further on.
pub proof fn lemma_occurs_at_skip(hay: Seq<char>, needle: Seq<char>, from: int, i: int)
    requires
        0 <= from <= i,
        from <= hay.len(),
    ensures
        occurs_at(hay.skip(from), needle, i - from) == occurs_at(hay, needle, i),
{
    if i + needle.len() <= hay.len() {
        assert(hay.skip(from).subrange(i - from, i - from + needle.len()) =~= hay.subrange(
            i,
            i + needle.len(),
        ));
    }
}

/// The earliest position at which `needle` stands in `hay`.
pub fn find(hay: &Vec<char>, needle: &Vec<char>) -> (r: Option<usize>)
    ensures
        match r {
            Some(i) => first_occurrence(hay@, needle@) == Some(i as int),
            None => first_occurrence(hay@, needle@).is_none(),
        },
        r matches Some(i) ==> i + needle.len() <= hay.len(),
{
    assert(hay@.skip(0) =~= hay@);
    find_from(hay, needle, 0)
}

/// Whether a character is white space: one of the characters that Unicode gives the
/// property `White_Space`.
pub open spec fn is_white_space(c: char) -> bool {
    let n = c as u32;
    ||| 0x09 <= n <= 0x0d
    ||| n == 0x20
    ||| n == 0x85
    ||| n == 0xa0
    ||| n == 0x1680
    ||| 0x2000 <= n <= 0x200a
    ||| n == 0x2028
    ||| n == 0x2029
    ||| n == 0x202f
    ||| n == 0x205f
    ||| n == 0x3000
}

/// Whether a character is white space.
pub fn white_space(c: char) -> (r: bool)
    ensures
        r == is_white_space(c),
{
    let n: u32 = c as u32;
    (0x09 <= n && n <= 0x0d) || n == 0x20 || n == 0x85 || n == 0xa0 || n == 0x1680 || (0x2000 <= n
        && n <= 0x200a) || n == 0x2028 || n == 0x2029 || n == 0x202f || n == 0x205f || n == 0x3000
}

} // verus!
