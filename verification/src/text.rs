//! Text as sequences of characters: conversion between `str` and `Vec<char>`,
//! comparison, and splitting on a separator.

use vstd::prelude::*;

use crate::views::rows;

verus! {

/// `String::push` of the standard library, which Verus does not look into:
/// by its documentation it appends the given character to the end of the
/// string, and so leaves every character that was there in its place.
pub assume_specification[ String::push ](s: &mut String, c: char)
    ensures
        final(s)@ == old(s)@.push(c),
;

/// The pieces of `s` between occurrences of `sep`, in order. A string
/// without `sep` is one piece; `n` separators always give `n + 1` pieces,
/// some of which may be empty.
pub open spec fn split(s: Seq<char>, sep: char) -> Seq<Seq<char>>
    decreases s.len(),
{
    if s.len() == 0 {
        seq![Seq::<char>::empty()]
    } else {
        let before = split(s.drop_last(), sep);
        if s.last() == sep {
            before.push(Seq::<char>::empty())
        } else {
            before.drop_last().push(before.last().push(s.last()))
        }
    }
}

/// The pieces of `parts` written one after the other with `sep` between
/// neighbours.
pub open spec fn join(parts: Seq<Seq<char>>, sep: char) -> Seq<char>
    decreases parts.len(),
{
    if parts.len() == 0 {
        Seq::<char>::empty()
    } else if parts.len() == 1 {
        parts[0]
    } else {
        join(parts.drop_last(), sep).push(sep) + parts.last()
    }
}

/// Splitting always yields at least one piece.
pub proof fn lemma_split_nonempty(s: Seq<char>, sep: char)
    ensures
        split(s, sep).len() >= 1,
    decreases s.len(),
{
    if s.len() > 0 {
        lemma_split_nonempty(s.drop_last(), sep);
    }
}

/// A string that holds the separator splits into at least two pieces, and
/// one that does not is its own single piece.
pub proof fn lemma_split_count(s: Seq<char>, sep: char)
    ensures
        s.contains(sep) ==> split(s, sep).len() >= 2,
        !s.contains(sep) ==> split(s, sep) == seq![s],
    decreases s.len(),
{
    if s.len() == 0 {
        assert(s =~= Seq::<char>::empty());
    } else {
        let head = s.drop_last();
        lemma_split_count(head, sep);
        lemma_split_nonempty(head, sep);
        if s.last() == sep {
            assert(s[s.len() - 1] == sep);
        } else if s.contains(sep) {
            let i = choose|i: int| 0 <= i < s.len() && s[i] == sep;
            assert(head[i] == sep);
        } else {
            assert forall|i: int| 0 <= i < head.len() implies head[i] != sep by {
                assert(s[i] == head[i]);
            }
            assert(head.push(s.last()) =~= s);
            assert(split(s, sep) =~= seq![s]);
        }
    }
}

/// Splitting a text that continues after a separator: the pieces before the
/// separator stay as they are and the pieces of the rest follow them.
pub proof fn lemma_split_concat(a: Seq<char>, b: Seq<char>, sep: char)
    ensures
        split(a.push(sep) + b, sep) == split(a, sep) + split(b, sep),
    decreases b.len(),
{
    let whole = a.push(sep) + b;
    if b.len() == 0 {
        assert(whole =~= a.push(sep));
        assert(whole.drop_last() =~= a);
        assert(split(b, sep) =~= seq![Seq::<char>::empty()]);
        assert(split(whole, sep) =~= split(a, sep) + split(b, sep));
    } else {
        let shorter = b.drop_last();
        lemma_split_concat(a, shorter, sep);
        lemma_split_nonempty(shorter, sep);
        lemma_split_nonempty(a, sep);
        assert(whole.drop_last() =~= a.push(sep) + shorter);
        assert(whole.last() == b.last());
        assert(split(whole, sep) =~= split(a, sep) + split(b, sep));
    }
}

/// The characters of a string slice.
pub fn to_chars(s: &str) -> (v: Vec<char>)
    ensures
        v@ == s@,
{
    let mut v: Vec<char> = Vec::new();
    for c in it: s.chars()
        invariant
            v@ == it.seq().take(it.index() as int),
            it.seq() == s@,
    {
        v.push(c);
    }
    v
}

/// The string made of the given characters.
pub fn from_chars(v: &Vec<char>) -> (s: String)
    ensures
        s@ == v@,
{
    let mut s = String::new();
    let mut i: usize = 0;
    while i < v.len()
        invariant
            i <= v.len(),
            s@ == v@.take(i as int),
        decreases v.len() - i,
    {
        s.push(v[i]);
        i += 1;
    }
    s
}

/// Whether two character vectors hold the same text.
pub fn chars_eq(a: &Vec<char>, b: &Vec<char>) -> (same: bool)
    ensures
        same == (a@ == b@),
{
    if a.len() != b.len() {
        return false;
    }
    let mut i: usize = 0;
    while i < a.len()
        invariant
            i <= a.len(),
            a.len() == b.len(),
            forall|j: int| 0 <= j < i ==> a@[j] == b@[j],
        decreases a.len() - i,
    {
        if a[i] != b[i] {
            return false;
        }
        i += 1;
    }
    assert(a@ =~= b@);
    true
}

/// Whether two string slices hold the same text.
pub fn str_eq(a: &str, b: &str) -> (same: bool)
    ensures
        same == (a@ == b@),
{
    let left = to_chars(a);
    let right = to_chars(b);
    chars_eq(&left, &right)
}

/// Whether `c` occurs in `s`.
pub fn contains_char(s: &Vec<char>, c: char) -> (found: bool)
    ensures
        found == s@.contains(c),
{
    let mut i: usize = 0;
    while i < s.len()
        invariant
            i <= s.len(),
            forall|j: int| 0 <= j < i ==> s@[j] != c,
        decreases s.len() - i,
    {
        if s[i] == c {
            return true;
        }
        i += 1;
    }
    false
}

/// Splits `s` on every occurrence of `sep`.
pub fn split_chars(s: &Vec<char>, sep: char) -> (parts: Vec<Vec<char>>)
    ensures
        rows(parts@) == split(s@, sep),
{
    let mut done: Vec<Vec<char>> = Vec::new();
    let mut current: Vec<char> = Vec::new();
    let mut i: usize = 0;
    assert(s@.take(0) =~= Seq::<char>::empty());
    assert(rows(done@).push(current@) =~= split(s@.take(0), sep));
    while i < s.len()
        invariant
            i <= s.len(),
            rows(done@).push(current@) == split(s@.take(i as int), sep),
        decreases s.len() - i,
    {
        let ghost before = split(s@.take(i as int), sep);
        let ghost next = s@.take(i + 1);
        assert(next.drop_last() =~= s@.take(i as int));
        assert(next.last() == s@[i as int]);
        let c = s[i];
        if c == sep {
            let ghost old_done = done@;
            done.push(current);
            current = Vec::new();
            assert(rows(done@) =~= rows(old_done).push(done@.last()@));
            assert(rows(done@).push(current@) =~= before.push(Seq::<char>::empty()));
        } else {
            let ghost old_current = current@;
            current.push(c);
            assert(before.drop_last() =~= rows(done@));
            assert(before.last() == old_current);
        }
        i += 1;
    }
    assert(s@.take(s.len() as int) =~= s@);
    let ghost old_done = done@;
    done.push(current);
    assert(rows(done@) =~= rows(old_done).push(done@.last()@));
    done
}

/// Appends the characters of `piece` to `out`.
pub fn push_all(out: &mut Vec<char>, piece: &Vec<char>)
    ensures
        final(out)@ == old(out)@ + piece@,
{
    let mut i: usize = 0;
    assert(out@ =~= old(out)@ + piece@.take(0));
    while i < piece.len()
        invariant
            i <= piece.len(),
            out@ == old(out)@ + piece@.take(i as int),
        decreases piece.len() - i,
    {
        out.push(piece[i]);
        assert(piece@.take(i + 1) =~= piece@.take(i as int).push(piece@[i as int]));
        assert(out@ =~= old(out)@ + piece@.take(i + 1));
        i += 1;
    }
    assert(piece@.take(piece.len() as int) =~= piece@);
}

/// Writes the first `count` pieces of `parts` one after the other, with
/// `sep` between neighbours.
pub fn join_prefix(parts: &Vec<Vec<char>>, count: usize, sep: char) -> (out: Vec<char>)
    requires
        count <= parts.len(),
    ensures
        out@ == join(rows(parts@).take(count as int), sep),
{
    let mut out: Vec<char> = Vec::new();
    let mut i: usize = 0;
    let ghost all = rows(parts@);
    while i < count
        invariant
            i <= count <= parts.len(),
            all == rows(parts@),
            out@ == join(all.take(i as int), sep),
        decreases count - i,
    {
        let ghost head = all.take(i as int);
        let ghost next = all.take(i + 1);
        assert(next.drop_last() =~= head);
        assert(next.last() == parts@[i as int]@);
        if i > 0 {
            out.push(sep);
        }
        push_all(&mut out, &parts[i]);
        proof {
            if i == 0 {
                assert(out@ =~= next[0]);
            }
        }
        i += 1;
    }
    out
}

} // verus!
