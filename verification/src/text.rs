//! Text groundwork shared by the metadata parser, the ownership matcher
//! and the relevance ranker: conversion between strings and character
//! vectors, Unicode lowercasing, and verified trimming and line-splitting
//! over character sequences.

use vstd::prelude::*;

verus! {

/// What `str::to_lowercase` returns for a given character sequence. The
/// mapping is a function of the characters alone, so it is given a name
/// here rather than spelled out.
pub uninterp spec fn lower_of(s: Seq<char>) -> Seq<char>;

/// Relies on str::to_lowercase: the result depends on the characters
/// alone, and an empty string stays empty.
#[verifier::external_body]
pub(crate) fn lowercase(s: &str) -> (r: String)
    ensures
        r@ == lower_of(s@),
        s@.len() == 0 ==> r@.len() == 0,
{
    s.to_lowercase()
}

/// Relies on str::chars: it yields exactly the string's characters, in
/// order.
#[verifier::external_body]
pub(crate) fn chars_vec(s: &str) -> (r: Vec<char>)
    ensures
        r@ == s@,
{
    s.chars().collect()
}

/// Relies on String's FromIterator of char: collecting characters builds
/// the string of exactly those characters, in order.
#[verifier::external_body]
pub(crate) fn string_from_chars(cs: &Vec<char>) -> (r: String)
    ensures
        r@ == cs@,
{
    cs.iter().collect()
}

/// The ASCII whitespace characters, the set trimmed from metadata lines.
pub open spec fn is_space(c: char) -> bool {
    c == ' ' || c == '\t' || c == '\n' || c == '\r' || c == '\x0c'
}

fn is_space_x(c: char) -> (r: bool)
    ensures
        r == is_space(c),
{
    c == ' ' || c == '\t' || c == '\n' || c == '\r' || c == '\x0c'
}

/// The whitespace predicate as a value, so that trimming specifications
/// and their lemmas speak of one and the same function.
pub open spec fn space_pred() -> spec_fn(char) -> bool {
    |c: char| is_space(c)
}

/// The percent-sign predicate, used to strip the delimiters of a
/// `%KEY%` header line.
pub open spec fn percent_pred() -> spec_fn(char) -> bool {
    |c: char| c == '%'
}

/// Drop the longest prefix of characters satisfying `p`.
pub open spec fn seq_trim_front(s: Seq<char>, p: spec_fn(char) -> bool) -> Seq<char>
    decreases s.len(),
{
    if s.len() > 0 && p(s[0]) {
        seq_trim_front(s.drop_first(), p)
    } else {
        s
    }
}

/// Drop the longest suffix of characters satisfying `p`.
pub open spec fn seq_trim_back(s: Seq<char>, p: spec_fn(char) -> bool) -> Seq<char>
    decreases s.len(),
{
    if s.len() > 0 && p(s.last()) {
        seq_trim_back(s.drop_last(), p)
    } else {
        s
    }
}

/// A line with its leading and trailing ASCII whitespace removed.
pub open spec fn spec_trim(s: Seq<char>) -> Seq<char> {
    seq_trim_back(seq_trim_front(s, space_pred()), space_pred())
}

/// A `%KEY%` header line with all its leading and trailing percent signs
/// removed.
pub open spec fn spec_strip_percents(s: Seq<char>) -> Seq<char> {
    seq_trim_back(seq_trim_front(s, percent_pred()), percent_pred())
}

proof fn lemma_trim_front_at(s: Seq<char>, p: spec_fn(char) -> bool, i: int)
    requires
        0 <= i <= s.len(),
        forall|k: int| 0 <= k < i ==> p(s[k]),
        i == s.len() || !p(s[i]),
    ensures
        seq_trim_front(s, p) == s.skip(i),
    decreases i,
{
    if i == 0 {
        assert(s.skip(0) =~= s);
    } else {
        lemma_trim_front_at(s.drop_first(), p, i - 1);
        assert(s.drop_first().skip(i - 1) =~= s.skip(i));
    }
}

proof fn lemma_trim_back_at(s: Seq<char>, p: spec_fn(char) -> bool, j: int)
    requires
        0 <= j <= s.len(),
        forall|k: int| j <= k < s.len() ==> p(s[k]),
        j == 0 || !p(s[j - 1]),
    ensures
        seq_trim_back(s, p) == s.take(j),
    decreases s.len(),
{
    if j == s.len() {
        assert(s.take(j) =~= s);
    } else {
        lemma_trim_back_at(s.drop_last(), p, j);
        assert(s.drop_last().take(j) =~= s.take(j));
    }
}

pub(crate) fn copy_range(v: &Vec<char>, from: usize, to: usize) -> (r: Vec<char>)
    requires
        from <= to <= v@.len(),
    ensures
        r@ == v@.subrange(from as int, to as int),
{
    let mut r: Vec<char> = Vec::new();
    let mut i: usize = from;
    while i < to
        invariant
            from <= i <= to <= v@.len(),
            r@ == v@.subrange(from as int, i as int),
        decreases to - i,
    {
        r.push(v[i]);
        proof {
            assert(v@.subrange(from as int, i as int).push(v@[i as int]) =~= v@.subrange(
                from as int,
                i + 1,
            ));
        }
        i = i + 1;
    }
    r
}

/// Copy of `v` with leading and trailing ASCII whitespace removed.
pub fn trim_chars(v: &Vec<char>) -> (r: Vec<char>)
    ensures
        r@ == spec_trim(v@),
{
    let mut i: usize = 0;
    while i < v.len() && is_space_x(v[i])
        invariant
            0 <= i <= v@.len(),
            forall|k: int| 0 <= k < i ==> space_pred()(v@[k]),
        decreases v@.len() - i,
    {
        i = i + 1;
    }
    let mut j: usize = v.len();
    while j > i && is_space_x(v[j - 1])
        invariant
            i <= j <= v@.len(),
            forall|k: int| j <= k < v@.len() ==> space_pred()(v@[k]),
        decreases j,
    {
        j = j - 1;
    }
    let r = copy_range(v, i, j);
    proof {
        lemma_trim_front_at(v@, space_pred(), i as int);
        let f = v@.skip(i as int);
        lemma_trim_back_at(f, space_pred(), j - i);
        assert(f.take(j - i) =~= v@.subrange(i as int, j as int));
    }
    r
}

/// Copy of `v` with leading and trailing percent signs removed.
pub fn strip_percents(v: &Vec<char>) -> (r: Vec<char>)
    ensures
        r@ == spec_strip_percents(v@),
{
    let mut i: usize = 0;
    while i < v.len() && v[i] == '%'
        invariant
            0 <= i <= v@.len(),
            forall|k: int| 0 <= k < i ==> percent_pred()(v@[k]),
        decreases v@.len() - i,
    {
        i = i + 1;
    }
    let mut j: usize = v.len();
    while j > i && v[j - 1] == '%'
        invariant
            i <= j <= v@.len(),
            forall|k: int| j <= k < v@.len() ==> percent_pred()(v@[k]),
        decreases j,
    {
        j = j - 1;
    }
    let r = copy_range(v, i, j);
    proof {
        lemma_trim_front_at(v@, percent_pred(), i as int);
        let f = v@.skip(i as int);
        lemma_trim_back_at(f, percent_pred(), j - i);
        assert(f.take(j - i) =~= v@.subrange(i as int, j as int));
    }
    r
}

/// The pieces of `s` between occurrences of `sep`; splitting the empty
/// sequence gives one empty piece.
pub open spec fn spec_split_at(s: Seq<char>, sep: char) -> Seq<Seq<char>>
    decreases s.len(),
{
    if s.len() == 0 {
        seq![Seq::<char>::empty()]
    } else if s.last() == sep {
        spec_split_at(s.drop_last(), sep).push(Seq::<char>::empty())
    } else {
        let r = spec_split_at(s.drop_last(), sep);
        r.update(r.len() - 1, r.last().push(s.last()))
    }
}

/// A line with a single trailing carriage return removed, as the line
/// iterator of the standard library reports lines.
pub open spec fn strip_cr(l: Seq<char>) -> Seq<char> {
    if l.len() > 0 && l.last() == '\r' {
        l.drop_last()
    } else {
        l
    }
}

/// Carriage-return stripping applied to every piece.
pub open spec fn strip_all_cr(ls: Seq<Seq<char>>) -> Seq<Seq<char>>
    decreases ls.len(),
{
    if ls.len() == 0 {
        Seq::<Seq<char>>::empty()
    } else {
        strip_all_cr(ls.drop_last()).push(strip_cr(ls.last()))
    }
}

/// The lines of a text: the pieces between newline characters, each with
/// a single trailing carriage return removed.
pub open spec fn spec_lines(s: Seq<char>) -> Seq<Seq<char>> {
    strip_all_cr(spec_split_at(s, '\n'))
}

/// Lengths and members of `strip_all_cr`, element by element.
pub proof fn lemma_strip_all_cr(ls: Seq<Seq<char>>)
    ensures
        strip_all_cr(ls).len() == ls.len(),
        forall|k: int| 0 <= k < ls.len() ==> strip_all_cr(ls)[k] == strip_cr(ls[k]),
    decreases ls.len(),
{
    if ls.len() > 0 {
        lemma_strip_all_cr(ls.drop_last());
    }
}

fn strip_cr_exec(l: Vec<char>) -> (r: Vec<char>)
    ensures
        r@ == strip_cr(l@),
{
    let ghost l0 = l@;
    let mut m = l;
    if m.len() > 0 && m[m.len() - 1] == '\r' {
        m.pop();
        proof {
            assert(m@ =~= strip_cr(l0));
        }
    }
    m
}

/// Split a text into its lines.
pub fn split_lines(v: &Vec<char>) -> (r: Vec<Vec<char>>)
    ensures
        r@.len() == spec_lines(v@).len(),
        forall|k: int| 0 <= k < r@.len() ==> r@[k]@ == spec_lines(v@)[k],
{
    let ghost s = v@;
    let mut r: Vec<Vec<char>> = Vec::new();
    let mut cur: Vec<char> = Vec::new();
    let mut i: usize = 0;
    while i < v.len()
        invariant
            0 <= i <= s.len(),
            v@ == s,
            spec_split_at(s.take(i as int), '\n').len() == r@.len() + 1,
            forall|k: int|
                0 <= k < r@.len() ==> r@[k]@ == strip_cr(
                    spec_split_at(s.take(i as int), '\n')[k],
                ),
            cur@ == spec_split_at(s.take(i as int), '\n').last(),
        decreases v@.len() - i,
    {
        let ghost prev = spec_split_at(s.take(i as int), '\n');
        proof {
            assert(s.take(i + 1).drop_last() =~= s.take(i as int));
            assert(s.take(i + 1).last() == s[i as int]);
        }
        let c = v[i];
        if c == '\n' {
            let done = strip_cr_exec(cur);
            cur = Vec::new();
            r.push(done);
            proof {
                let now = spec_split_at(s.take(i + 1), '\n');
                assert(now == prev.push(Seq::<char>::empty()));
                assert(now[r@.len() - 1] == prev.last());
            }
        } else {
            cur.push(c);
            proof {
                let now = spec_split_at(s.take(i + 1), '\n');
                assert(now == prev.update(prev.len() - 1, prev.last().push(s[i as int])));
                assert(forall|k: int| 0 <= k < now.len() - 1 ==> now[k] == prev[k]);
                assert(now.last() == prev.last().push(s[i as int]));
            }
        }
        i = i + 1;
    }
    let done = strip_cr_exec(cur);
    r.push(done);
    proof {
        assert(s.take(s.len() as int) =~= s);
        let whole = spec_split_at(s, '\n');
        lemma_strip_all_cr(whole);
        assert(whole[r@.len() - 1] == whole.last());
    }
    r
}

} // verus!
