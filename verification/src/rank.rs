//! Relevance ranking: score package records against a free-text search
//! term, sort them by descending score with a stable order, cap the
//! result, and locate the occurrence a display layer highlights.
//!
//! The score of a candidate is
//! `2 * name_hits / max(1, len(name)) + desc_hits / max(1, len(desc))`,
//! where the hit counts are non-overlapping occurrences of the lowercased
//! term in the lowercased field. The score is kept as its four exact
//! integer components and compared as an exact rational, so ordering has
//! no rounding and ties are exact.

use vstd::prelude::*;
use vstd::arithmetic::div_mod::{lemma_fundamental_div_mod, lemma_mod_bound};
use crate::record::{Pkg, PkgV};
use crate::text::{chars_vec, lower_of, lowercase};

verus! {

/// Non-overlapping occurrences of `needle` in `hay`, counted greedily
/// from the left; an empty needle occurs zero times.
pub open spec fn count_occ(hay: Seq<char>, needle: Seq<char>) -> nat
    decreases hay.len(),
{
    if needle.len() == 0 || hay.len() < needle.len() {
        0
    } else if hay.subrange(0, needle.len() as int) == needle {
        1 + count_occ(hay.skip(needle.len() as int), needle)
    } else {
        count_occ(hay.skip(1), needle)
    }
}

pub proof fn lemma_count_occ_le(hay: Seq<char>, needle: Seq<char>)
    ensures
        count_occ(hay, needle) <= hay.len(),
    decreases hay.len(),
{
    if needle.len() == 0 || hay.len() < needle.len() {
    } else if hay.subrange(0, needle.len() as int) == needle {
        lemma_count_occ_le(hay.skip(needle.len() as int), needle);
    } else {
        lemma_count_occ_le(hay.skip(1), needle);
    }
}

fn matches_at(hay: &Vec<char>, needle: &Vec<char>, i: usize) -> (r: bool)
    requires
        i <= hay@.len(),
        needle@.len() <= hay@.len() - i,
    ensures
        r == (hay@.subrange(i as int, i + needle@.len()) == needle@),
{
    let hay_len = hay.len();
    proof {
        assert(hay@.len() == hay_len);
    }
    let mut k: usize = 0;
    while k < needle.len()
        invariant
            0 <= k <= needle@.len(),
            i <= hay@.len() <= usize::MAX,
            needle@.len() <= hay@.len() - i,
            forall|m: int| 0 <= m < k ==> hay@[i + m] == needle@[m],
        decreases needle@.len() - k,
    {
        if hay[i + k] != needle[k] {
            proof {
                assert(hay@.subrange(i as int, i + needle@.len())[k as int] == hay@[i + k]);
            }
            return false;
        }
        k = k + 1;
    }
    proof {
        assert(hay@.subrange(i as int, i + needle@.len()) =~= needle@);
    }
    true
}

/// Count the non-overlapping occurrences of `needle` in `hay`.
fn count_matches(hay: &Vec<char>, needle: &Vec<char>) -> (n: usize)
    ensures
        n == count_occ(hay@, needle@),
{
    if needle.len() == 0 {
        return 0;
    }
    let mut n: usize = 0;
    let mut i: usize = 0;
    proof {
        assert(hay@.skip(0) =~= hay@);
    }
    while hay.len() - i >= needle.len()
        invariant
            0 <= i <= hay@.len(),
            needle@.len() >= 1,
            n <= i,
            n + count_occ(hay@.skip(i as int), needle@) == count_occ(hay@, needle@),
        decreases hay@.len() - i,
    {
        if matches_at(hay, needle, i) {
            proof {
                let tail = hay@.skip(i as int);
                assert(tail.subrange(0, needle@.len() as int) =~= hay@.subrange(
                    i as int,
                    i + needle@.len(),
                ));
                assert(tail.skip(needle@.len() as int) =~= hay@.skip(i + needle@.len()));
                lemma_count_occ_le(hay@.skip(i + needle@.len()), needle@);
            }
            n = n + 1;
            i = i + needle.len();
        } else {
            proof {
                let tail = hay@.skip(i as int);
                assert(tail.subrange(0, needle@.len() as int) =~= hay@.subrange(
                    i as int,
                    i + needle@.len(),
                ));
                assert(tail.skip(1) =~= hay@.skip(i + 1));
            }
            i = i + 1;
        }
    }
    proof {
        assert(count_occ(hay@.skip(i as int), needle@) == 0);
    }
    n
}

/// The largest field length the scorer accepts. A Rust string is never
/// longer than `isize::MAX` bytes, and a field's character count never
/// exceeds its byte count, so every real input satisfies the bound.
pub const MAX_FIELD_LEN: u64 = 0x7fff_ffff_ffff_ffff;

/// A candidate's exact relevance score: occurrence counts of the term in
/// the lowercased name and description, over the two field lengths
/// (floored at one). The rational value is `score_num(..) / score_den(..)`.
#[derive(Clone, Copy, PartialEq, Eq, Structural)]
pub struct Score {
    pub name_hits: u64,
    pub name_len: u64,
    pub desc_hits: u64,
    pub desc_len: u64,
}

impl Score {
    /// The denominators are floored at one and small enough that the
    /// comparison arithmetic stays exact.
    pub open spec fn wf(self) -> bool {
        1 <= self.name_len <= MAX_FIELD_LEN && 1 <= self.desc_len <= MAX_FIELD_LEN
    }
}

/// Numerator of the score over the common denominator `score_den`.
pub open spec fn score_num(s: Score) -> int {
    2 * (s.name_hits as int) * (s.desc_len as int) + (s.desc_hits as int) * (s.name_len as int)
}

/// Common denominator of the score.
pub open spec fn score_den(s: Score) -> int {
    (s.name_len as int) * (s.desc_len as int)
}

/// Exact rational comparison: `a`'s score is strictly below `b`'s.
pub open spec fn score_lt(a: Score, b: Score) -> bool {
    score_num(a) * score_den(b) < score_num(b) * score_den(a)
}

/// Exact comparison of two non-negative fractions, `a / b < c / d`, by
/// continued-fraction descent; no intermediate value outgrows its inputs.
fn frac_less(a: u128, b: u128, c: u128, d: u128) -> (r: bool)
    requires
        b >= 1,
        d >= 1,
    ensures
        r == ((a as int) * (d as int) < (c as int) * (b as int)),
    decreases b + d,
{
    let qa = a / b;
    let qc = c / d;
    let ra = a % b;
    let rc = c % d;
    proof {
        lemma_fundamental_div_mod(a as int, b as int);
        lemma_mod_bound(a as int, b as int);
        lemma_fundamental_div_mod(c as int, d as int);
        lemma_mod_bound(c as int, d as int);
        assert((a as int) == (qa as int) * (b as int) + (ra as int) && (ra as int) < (b as int)
            && (c as int) == (qc as int) * (d as int) + (rc as int) && (rc as int) < (d as int));
    }
    if qa != qc {
        proof {
            if qa < qc {
                assert((a as int) * (d as int) < (c as int) * (b as int)) by (nonlinear_arith)
                    requires
                        (a as int) == (qa as int) * (b as int) + (ra as int),
                        (c as int) == (qc as int) * (d as int) + (rc as int),
                        0 <= (ra as int) < (b as int),
                        0 <= (rc as int),
                        (qa as int) < (qc as int),
                        (b as int) >= 1,
                        (d as int) >= 1,
                ;
            } else {
                assert(!((a as int) * (d as int) < (c as int) * (b as int))) by (nonlinear_arith)
                    requires
                        (a as int) == (qa as int) * (b as int) + (ra as int),
                        (c as int) == (qc as int) * (d as int) + (rc as int),
                        0 <= (ra as int),
                        0 <= (rc as int) < (d as int),
                        (qa as int) > (qc as int),
                        (b as int) >= 1,
                        (d as int) >= 1,
                ;
            }
        }
        return qa < qc;
    }
    if rc == 0 {
        proof {
            assert(!((a as int) * (d as int) < (c as int) * (b as int))) by (nonlinear_arith)
                requires
                    (a as int) == (qa as int) * (b as int) + (ra as int),
                    (c as int) == (qa as int) * (d as int) + (rc as int),
                    (rc as int) == 0,
                    (ra as int) >= 0,
                    (b as int) >= 1,
                    (d as int) >= 1,
            ;
        }
        return false;
    }
    if ra == 0 {
        proof {
            assert((a as int) * (d as int) < (c as int) * (b as int)) by (nonlinear_arith)
                requires
                    (a as int) == (qa as int) * (b as int) + (ra as int),
                    (c as int) == (qa as int) * (d as int) + (rc as int),
                    (ra as int) == 0,
                    (rc as int) >= 1,
                    (b as int) >= 1,
                    (d as int) >= 1,
            ;
        }
        return true;
    }
    let r = frac_less(d, rc, b, ra);
    proof {
        assert(((a as int) * (d as int) < (c as int) * (b as int)) == ((d as int) * (ra as int) < (
        b as int) * (rc as int))) by (nonlinear_arith)
            requires
                (a as int) == (qa as int) * (b as int) + (ra as int),
                (c as int) == (qa as int) * (d as int) + (rc as int),
        ;
    }
    r
}

/// Integer part and remainder of a score's rational value over its
/// denominator, computed without overflow.
fn score_quot_rem(s: &Score) -> (qr: (u128, u128, u128))
    requires
        s.wf(),
    ensures
        ({
            let (q, r, den) = qr;
            &&& (den as int) == score_den(*s)
            &&& den >= 1
            &&& score_num(*s) == (q as int) * (den as int) + (r as int)
            &&& (r as int) < (den as int)
        }),
{
    let nm = s.name_hits as u128;
    let ln = s.name_len as u128;
    let nd = s.desc_hits as u128;
    let ld = s.desc_len as u128;
    let t1 = (2 * nm) / ln;
    let r1 = (2 * nm) % ln;
    let t2 = nd / ld;
    let r2 = nd % ld;
    proof {
        lemma_fundamental_div_mod(2 * (nm as int), ln as int);
        lemma_mod_bound(2 * (nm as int), ln as int);
        lemma_fundamental_div_mod(nd as int, ld as int);
        lemma_mod_bound(nd as int, ld as int);
        assert((ln as int) * (ld as int) >= 1) by (nonlinear_arith)
            requires
                (ln as int) >= 1,
                (ld as int) >= 1,
        ;
        assert((r1 as int) * (ld as int) < 0x40000000000000000000000000000000int
            && (r2 as int) * (ln as int) < 0x40000000000000000000000000000000int
            && (ln as int) * (ld as int) < 0x40000000000000000000000000000000int
            && (r1 as int) * (ld as int) + (r2 as int) * (ln as int) < 2 * (ln as int) * (
            ld as int)) by (nonlinear_arith)
            requires
                0 <= (r1 as int) < (ln as int) <= 0x7fffffffffffffffint,
                0 <= (r2 as int) < (ld as int) <= 0x7fffffffffffffffint,
        ;
    }
    let rem0 = r1 * ld + r2 * ln;
    let den = ln * ld;
    proof {
        assert((rem0 as int) < 2 * (den as int)) by (nonlinear_arith)
            requires
                (rem0 as int) == (r1 as int) * (ld as int) + (r2 as int) * (ln as int),
                0 <= (r1 as int) < (ln as int),
                0 <= (r2 as int) < (ld as int),
                (den as int) == (ln as int) * (ld as int),
        ;
    }
    let (q0, rr): (u128, u128) = if rem0 >= den {
        (1, rem0 - den)
    } else {
        (0, rem0)
    };
    proof {
        assert((t1 as int) <= 2 * (nm as int) && (t2 as int) <= (nd as int)) by (nonlinear_arith)
            requires
                2 * (nm as int) == (t1 as int) * (ln as int) + (r1 as int),
                (nd as int) == (t2 as int) * (ld as int) + (r2 as int),
                0 <= (r1 as int),
                0 <= (r2 as int),
                (ln as int) >= 1,
                (ld as int) >= 1,
                (t1 as int) >= 0,
                (t2 as int) >= 0,
        ;
    }
    let q = t1 + t2 + q0;
    proof {
        assert(score_num(*s) == ((t1 + t2) as int) * (den as int) + (rem0 as int))
            by (nonlinear_arith)
            requires
                2 * (nm as int) == (t1 as int) * (ln as int) + (r1 as int),
                (nd as int) == (t2 as int) * (ld as int) + (r2 as int),
                (den as int) == (ln as int) * (ld as int),
                (rem0 as int) == (r1 as int) * (ld as int) + (r2 as int) * (ln as int),
                score_num(*s) == 2 * (nm as int) * (ld as int) + (nd as int) * (ln as int),
        ;
        assert(score_num(*s) == (q as int) * (den as int) + (rr as int)) by (nonlinear_arith)
            requires
                score_num(*s) == ((t1 + t2) as int) * (den as int) + (rem0 as int),
                (q as int) == (t1 as int) + (t2 as int) + (q0 as int),
                (rem0 as int) == (q0 as int) * (den as int) + (rr as int),
        ;
        assert((den as int) == score_den(*s));
        assert(den >= 1);
        assert((rr as int) < (den as int));
    }
    (q, rr, den)
}

/// Decide `score_lt(*a, *b)` exactly.
pub fn score_less(a: &Score, b: &Score) -> (r: bool)
    requires
        a.wf(),
        b.wf(),
    ensures
        r == score_lt(*a, *b),
{
    let (qa, ra, dena) = score_quot_rem(a);
    let (qb, rb, denb) = score_quot_rem(b);
    if qa != qb {
        proof {
            if qa < qb {
                assert(score_num(*a) * score_den(*b) < score_num(*b) * score_den(*a))
                    by (nonlinear_arith)
                    requires
                        score_num(*a) == (qa as int) * (dena as int) + (ra as int),
                        score_num(*b) == (qb as int) * (denb as int) + (rb as int),
                        score_den(*a) == (dena as int),
                        score_den(*b) == (denb as int),
                        0 <= (ra as int) < (dena as int),
                        0 <= (rb as int),
                        (qa as int) < (qb as int),
                        (dena as int) >= 1,
                        (denb as int) >= 1,
                ;
            } else {
                assert(!(score_num(*a) * score_den(*b) < score_num(*b) * score_den(*a)))
                    by (nonlinear_arith)
                    requires
                        score_num(*a) == (qa as int) * (dena as int) + (ra as int),
                        score_num(*b) == (qb as int) * (denb as int) + (rb as int),
                        score_den(*a) == (dena as int),
                        score_den(*b) == (denb as int),
                        0 <= (ra as int),
                        0 <= (rb as int) < (denb as int),
                        (qa as int) > (qb as int),
                        (dena as int) >= 1,
                        (denb as int) >= 1,
                ;
            }
        }
        return qa < qb;
    }
    let r = frac_less(ra, dena, rb, denb);
    proof {
        assert((score_num(*a) * score_den(*b) < score_num(*b) * score_den(*a)) == ((ra as int) * (
        denb as int) < (rb as int) * (dena as int))) by (nonlinear_arith)
            requires
                score_num(*a) == (qa as int) * (dena as int) + (ra as int),
                score_num(*b) == (qa as int) * (denb as int) + (rb as int),
                score_den(*a) == (dena as int),
                score_den(*b) == (denb as int),
        ;
    }
    r
}

/// The score of a candidate with the given name and description against
/// the given term: hit counts over the lowercased texts, denominators
/// floored at one. An empty term scores zero hits in every field.
pub open spec fn spec_score(name: Seq<char>, desc: Seq<char>, term: Seq<char>) -> Score {
    Score {
        name_hits: if term.len() == 0 {
            0
        } else {
            count_occ(lower_of(name), lower_of(term)) as u64
        },
        name_len: if name.len() == 0 {
            1
        } else {
            name.len() as u64
        },
        desc_hits: if term.len() == 0 {
            0
        } else {
            count_occ(lower_of(desc), lower_of(term)) as u64
        },
        desc_len: if desc.len() == 0 {
            1
        } else {
            desc.len() as u64
        },
    }
}

/// Compute a candidate's score against a term.
pub fn score_of(name: &str, desc: &str, term: &str) -> (s: Score)
    requires
        name@.len() <= MAX_FIELD_LEN,
        desc@.len() <= MAX_FIELD_LEN,
    ensures
        s == spec_score(name@, desc@, term@),
        s.wf(),
{
    let name_count = name.unicode_len();
    let desc_count = desc.unicode_len();
    let name_len: u64 = if name_count == 0 {
        1
    } else {
        name_count as u64
    };
    let desc_len: u64 = if desc_count == 0 {
        1
    } else {
        desc_count as u64
    };
    if term.is_empty() {
        Score { name_hits: 0, name_len, desc_hits: 0, desc_len }
    } else {
        let lt = lowercase(term);
        let ltc = chars_vec(lt.as_str());
        let lname = lowercase(name);
        let lnc = chars_vec(lname.as_str());
        let ldesc = lowercase(desc);
        let ldc = chars_vec(ldesc.as_str());
        let nh = count_matches(&lnc, &ltc);
        let dh = count_matches(&ldc, &ltc);
        proof {
            lemma_count_occ_le(lnc@, ltc@);
            lemma_count_occ_le(ldc@, ltc@);
        }
        Score { name_hits: nh as u64, name_len, desc_hits: dh as u64, desc_len }
    }
}

/// One ranked search result: a candidate's record with its exact score.
pub struct SearchResult {
    pub pkg: Pkg,
    pub score: Score,
}

/// Mathematical image of a `SearchResult`.
pub struct SearchResultV {
    pub pkg: PkgV,
    pub score: Score,
}

impl View for SearchResult {
    type V = SearchResultV;

    open spec fn view(&self) -> SearchResultV {
        SearchResultV { pkg: self.pkg@, score: self.score }
    }
}

/// Insert `x` into a descending-sorted sequence, after every entry that
/// scores at least as much; equal scores therefore keep their order.
pub open spec fn insert_desc(s: Seq<SearchResultV>, x: SearchResultV) -> Seq<SearchResultV>
    decreases s.len(),
{
    if s.len() == 0 {
        seq![x]
    } else if score_lt(s[0].score, x.score) {
        seq![x] + s
    } else {
        seq![s[0]] + insert_desc(s.drop_first(), x)
    }
}

/// Stable sort by strictly descending score: insert the candidates in
/// input order, each after all entries scoring at least as much.
pub open spec fn sort_desc(s: Seq<SearchResultV>) -> Seq<SearchResultV>
    decreases s.len(),
{
    if s.len() == 0 {
        Seq::empty()
    } else {
        insert_desc(sort_desc(s.drop_last()), s.last())
    }
}

proof fn lemma_insert_at(s: Seq<SearchResultV>, x: SearchResultV, i: int)
    requires
        0 <= i <= s.len(),
        forall|k: int| 0 <= k < i ==> !score_lt(s[k].score, x.score),
        i == s.len() || score_lt(s[i].score, x.score),
    ensures
        insert_desc(s, x) == s.take(i) + seq![x] + s.skip(i),
    decreases i,
{
    if i == 0 {
        assert(insert_desc(s, x) =~= s.take(0) + seq![x] + s.skip(0));
    } else {
        assert(forall|k: int|
            0 <= k < s.drop_first().len() ==> s.drop_first()[k] == s[k + 1]);
        lemma_insert_at(s.drop_first(), x, i - 1);
        assert(seq![s[0]] + (s.drop_first().take(i - 1) + seq![x] + s.drop_first().skip(i - 1))
            =~= s.take(i) + seq![x] + s.skip(i));
    }
}

/// Every candidate paired with its score, in input order.
pub open spec fn spec_scored(cands: Seq<Pkg>, term: Seq<char>) -> Seq<SearchResultV>
    decreases cands.len(),
{
    if cands.len() == 0 {
        Seq::empty()
    } else {
        spec_scored(cands.drop_last(), term).push(
            SearchResultV {
                pkg: cands.last()@,
                score: spec_score(cands.last().name@, cands.last().desc@, term),
            },
        )
    }
}

/// Lengths and members of `spec_scored`, element by element.
pub proof fn lemma_scored_elem(cands: Seq<Pkg>, term: Seq<char>)
    ensures
        spec_scored(cands, term).len() == cands.len(),
        forall|k: int|
            0 <= k < cands.len() ==> spec_scored(cands, term)[k] == (SearchResultV {
                pkg: cands[k]@,
                score: spec_score(cands[k].name@, cands[k].desc@, term),
            }),
    decreases cands.len(),
{
    if cands.len() > 0 {
        lemma_scored_elem(cands.drop_last(), term);
    }
}

/// The sorted results capped to `limit` entries when a cap is given;
/// the cap is applied only after the whole candidate set is ranked.
pub open spec fn apply_limit(s: Seq<SearchResultV>, limit: Option<usize>) -> Seq<SearchResultV> {
    match limit {
        Some(n) => if (n as int) < s.len() {
            s.take(n as int)
        } else {
            s
        },
        None => s,
    }
}

/// The full ranking: score every candidate, sort by descending score
/// keeping ties in input order, then cap the list.
pub open spec fn spec_rank(cands: Seq<Pkg>, term: Seq<char>, limit: Option<usize>) -> Seq<
    SearchResultV,
> {
    apply_limit(sort_desc(spec_scored(cands, term)), limit)
}

/// Rank candidates against a search term: sort by descending score with
/// ties in input order, then keep only the first `limit` entries when a
/// cap is given. Ranking performs no I/O and cannot fail.
pub fn rank(candidates: &Vec<Pkg>, term: &str, limit: Option<usize>) -> (r: Vec<SearchResult>)
    requires
        forall|i: int|
            0 <= i < candidates@.len() ==> (#[trigger] candidates@[i]).name@.len()
                <= MAX_FIELD_LEN && candidates@[i].desc@.len() <= MAX_FIELD_LEN,
    ensures
        r@.len() == spec_rank(candidates@, term@, limit).len(),
        forall|k: int| 0 <= k < r@.len() ==> r@[k]@ == spec_rank(candidates@, term@, limit)[k],
        forall|k: int| 0 <= k < r@.len() ==> (#[trigger] r@[k]).score.wf(),
{
    let ghost cs = candidates@;
    let mut out: Vec<SearchResult> = Vec::new();
    let mut i: usize = 0;
    while i < candidates.len()
        invariant
            0 <= i <= cs.len(),
            candidates@ == cs,
            forall|m: int|
                0 <= m < cs.len() ==> (#[trigger] cs[m]).name@.len() <= MAX_FIELD_LEN
                    && cs[m].desc@.len() <= MAX_FIELD_LEN,
            out@.len() == sort_desc(spec_scored(cs.take(i as int), term@)).len(),
            forall|k: int|
                0 <= k < out@.len() ==> out@[k]@ == sort_desc(
                    spec_scored(cs.take(i as int), term@),
                )[k],
            forall|k: int| 0 <= k < out@.len() ==> (#[trigger] out@[k]).score.wf(),
        decreases cs.len() - i,
    {
        let ghost prev = sort_desc(spec_scored(cs.take(i as int), term@));
        proof {
            assert(cs.take(i + 1).drop_last() =~= cs.take(i as int));
            assert(cs.take(i + 1).last() == cs[i as int]);
        }
        let c = &candidates[i];
        let sc = score_of(c.name.as_str(), c.desc.as_str(), term);
        let x = SearchResult { pkg: c.duplicate(), score: sc };
        let ghost xv = x@;
        let mut idx: usize = 0;
        while idx < out.len() && !score_less(&out[idx].score, &x.score)
            invariant
                0 <= idx <= out@.len(),
                out@.len() == prev.len(),
                forall|k: int| 0 <= k < out@.len() ==> out@[k]@ == prev[k],
                forall|k: int| 0 <= k < out@.len() ==> (#[trigger] out@[k]).score.wf(),
                x.score.wf(),
                x@ == xv,
                forall|k: int| 0 <= k < idx ==> !score_lt(prev[k].score, xv.score),
            decreases out@.len() - idx,
        {
            idx = idx + 1;
        }
        let ghost out0 = out@;
        out.insert(idx, x);
        proof {
            lemma_insert_at(prev, xv, idx as int);
            assert(out@ =~= out0.take(idx as int) + seq![x] + out0.skip(idx as int));
            let scored_prev = spec_scored(cs.take(i as int), term@);
            let e = SearchResultV {
                pkg: cs[i as int]@,
                score: spec_score(cs[i as int].name@, cs[i as int].desc@, term@),
            };
            assert(spec_scored(cs.take(i + 1), term@) == scored_prev.push(e));
            assert(scored_prev.push(e).drop_last() =~= scored_prev);
            assert(scored_prev.push(e).last() == e);
            let now = sort_desc(spec_scored(cs.take(i + 1), term@));
            assert(now == insert_desc(prev, e));
            assert(xv == e);
            assert(forall|k: int| 0 <= k < out@.len() ==> out@[k]@ == now[k]);
        }
        i = i + 1;
    }
    proof {
        assert(cs.take(cs.len() as int) =~= cs);
    }
    match limit {
        Some(n) => {
            if n < out.len() {
                out.truncate(n);
            }
        },
        None => {},
    }
    out
}

/// ASCII case folding: the one fixed, length-preserving folding, so a
/// located occurrence indexes the original text directly.
pub open spec fn fold_char(c: char) -> char {
    match c {
        'A' => 'a',
        'B' => 'b',
        'C' => 'c',
        'D' => 'd',
        'E' => 'e',
        'F' => 'f',
        'G' => 'g',
        'H' => 'h',
        'I' => 'i',
        'J' => 'j',
        'K' => 'k',
        'L' => 'l',
        'M' => 'm',
        'N' => 'n',
        'O' => 'o',
        'P' => 'p',
        'Q' => 'q',
        'R' => 'r',
        'S' => 's',
        'T' => 't',
        'U' => 'u',
        'V' => 'v',
        'W' => 'w',
        'X' => 'x',
        'Y' => 'y',
        'Z' => 'z',
        _ => c,
    }
}

fn fold_char_x(c: char) -> (r: char)
    ensures
        r == fold_char(c),
{
    match c {
        'A' => 'a',
        'B' => 'b',
        'C' => 'c',
        'D' => 'd',
        'E' => 'e',
        'F' => 'f',
        'G' => 'g',
        'H' => 'h',
        'I' => 'i',
        'J' => 'j',
        'K' => 'k',
        'L' => 'l',
        'M' => 'm',
        'N' => 'n',
        'O' => 'o',
        'P' => 'p',
        'Q' => 'q',
        'R' => 'r',
        'S' => 's',
        'T' => 't',
        'U' => 'u',
        'V' => 'v',
        'W' => 'w',
        'X' => 'x',
        'Y' => 'y',
        'Z' => 'z',
        _ => c,
    }
}

/// The term occurs at position `j` of the text, compared with ASCII case
/// folding.
pub open spec fn spec_fold_match(text: Seq<char>, term: Seq<char>, j: int) -> bool {
    0 <= j && j + term.len() <= text.len() && (forall|k: int|
        0 <= k < term.len() ==> fold_char(text[j + k]) == fold_char(term[k]))
}

fn fold_match_at(tc: &Vec<char>, qc: &Vec<char>, j: usize) -> (r: bool)
    requires
        j <= tc@.len(),
        qc@.len() <= tc@.len() - j,
    ensures
        r == spec_fold_match(tc@, qc@, j as int),
{
    let tc_len = tc.len();
    proof {
        assert(tc@.len() == tc_len);
    }
    let mut k: usize = 0;
    while k < qc.len()
        invariant
            0 <= k <= qc@.len(),
            j <= tc@.len() <= usize::MAX,
            qc@.len() <= tc@.len() - j,
            forall|m: int| 0 <= m < k ==> fold_char(tc@[j + m]) == fold_char(qc@[m]),
        decreases qc@.len() - k,
    {
        if fold_char_x(tc[j + k]) != fold_char_x(qc[k]) {
            return false;
        }
        k = k + 1;
    }
    true
}

/// Split a text around the first case-insensitive occurrence of the term
/// (ASCII folding): the part before, the occurrence itself, and the part
/// after. `None` when the term occurs nowhere; a display layer wraps the
/// middle part in its emphasis marker.
pub fn highlight_split(text: &str, term: &str) -> (r: Option<(String, String, String)>)
    ensures
        match r {
            Some(parts) => {
                &&& parts.0@ + parts.1@ + parts.2@ == text@
                &&& parts.1@.len() == term@.len()
                &&& spec_fold_match(text@, term@, parts.0@.len() as int)
                &&& forall|j: int| 0 <= j < parts.0@.len() ==> !spec_fold_match(text@, term@, j)
            },
            None => forall|j: int| !spec_fold_match(text@, term@, j),
        },
{
    let tc = chars_vec(text);
    let qc = chars_vec(term);
    if qc.len() > tc.len() {
        return None;
    }
    let bound = tc.len() - qc.len();
    let mut j: usize = 0;
    while j <= bound
        invariant
            0 <= j <= bound + 1,
            bound == tc@.len() - qc@.len(),
            tc@ == text@,
            qc@ == term@,
            tc@.len() <= usize::MAX,
            forall|m: int| 0 <= m < j ==> !spec_fold_match(text@, term@, m),
        decreases bound + 1 - j,
    {
        if fold_match_at(&tc, &qc, j) {
            let before = crate::text::copy_range(&tc, 0, j);
            let mid = crate::text::copy_range(&tc, j, j + qc.len());
            let after = crate::text::copy_range(&tc, j + qc.len(), tc.len());
            proof {
                assert(before@ + mid@ + after@ =~= text@);
            }
            return Some(
                (
                    crate::text::string_from_chars(&before),
                    crate::text::string_from_chars(&mid),
                    crate::text::string_from_chars(&after),
                ),
            );
        }
        j = j + 1;
    }
    None
}

/// Each entry scores at least as much as the one after it.
pub open spec fn sorted_desc_adj(s: Seq<SearchResultV>) -> bool {
    forall|i: int| 0 <= i < s.len() - 1 ==> !score_lt((#[trigger] s[i]).score, s[i + 1].score)
}

proof fn lemma_insert_desc_sorted(s: Seq<SearchResultV>, x: SearchResultV)
    requires
        sorted_desc_adj(s),
    ensures
        sorted_desc_adj(insert_desc(s, x)),
        insert_desc(s, x).len() == s.len() + 1,
        insert_desc(s, x)[0] == x || (s.len() > 0 && insert_desc(s, x)[0] == s[0]),
    decreases s.len(),
{
    if s.len() == 0 {
    } else if score_lt(s[0].score, x.score) {
        let r = seq![x] + s;
        assert(forall|i: int| 0 <= i < s.len() ==> r[i + 1] == s[i]);
        assert(sorted_desc_adj(r));
    } else {
        assert(forall|k: int|
            0 <= k < s.drop_first().len() ==> s.drop_first()[k] == s[k + 1]);
        lemma_insert_desc_sorted(s.drop_first(), x);
        let t = insert_desc(s.drop_first(), x);
        let r = seq![s[0]] + t;
        assert(forall|i: int| 0 <= i < t.len() ==> r[i + 1] == t[i]);
        assert(!score_lt(s[0].score, r[1].score));
        assert(sorted_desc_adj(r));
    }
}

/// The ranking's order: in the sorted result every entry scores at least
/// as much as the entry after it. (law)
pub proof fn lemma_sort_desc_sorted(s: Seq<SearchResultV>)
    ensures
        sorted_desc_adj(sort_desc(s)),
        sort_desc(s).len() == s.len(),
    decreases s.len(),
{
    if s.len() > 0 {
        lemma_sort_desc_sorted(s.drop_last());
        lemma_insert_desc_sorted(sort_desc(s.drop_last()), s.last());
    }
}

proof fn lemma_score_ge_trans(a: Score, b: Score, c: Score)
    requires
        a.wf(),
        b.wf(),
        c.wf(),
        !score_lt(a, b),
        !score_lt(b, c),
    ensures
        !score_lt(a, c),
{
    assert(score_den(a) >= 1) by (nonlinear_arith)
        requires
            (a.name_len as int) >= 1,
            (a.desc_len as int) >= 1,
            score_den(a) == (a.name_len as int) * (a.desc_len as int),
    ;
    assert(score_den(b) >= 1) by (nonlinear_arith)
        requires
            (b.name_len as int) >= 1,
            (b.desc_len as int) >= 1,
            score_den(b) == (b.name_len as int) * (b.desc_len as int),
    ;
    assert(score_den(c) >= 1) by (nonlinear_arith)
        requires
            (c.name_len as int) >= 1,
            (c.desc_len as int) >= 1,
            score_den(c) == (c.name_len as int) * (c.desc_len as int),
    ;
    assert(!(score_num(a) * score_den(c) < score_num(c) * score_den(a))) by (nonlinear_arith)
        requires
            score_num(a) * score_den(b) >= score_num(b) * score_den(a),
            score_num(b) * score_den(c) >= score_num(c) * score_den(b),
            score_den(a) >= 1,
            score_den(b) >= 1,
            score_den(c) >= 1,
    ;
}

/// The adjacent order extends to every pair: in a sorted result every
/// entry scores at least as much as every later entry. (law)
pub proof fn lemma_sorted_desc_total(s: Seq<SearchResultV>, i: int, j: int)
    requires
        sorted_desc_adj(s),
        forall|k: int| 0 <= k < s.len() ==> (#[trigger] s[k]).score.wf(),
        0 <= i <= j < s.len(),
    ensures
        !score_lt(s[i].score, s[j].score),
    decreases j - i,
{
    if i < j {
        lemma_sorted_desc_total(s, i, j - 1);
        lemma_score_ge_trans(s[i].score, s[j - 1].score, s[j].score);
    }
}

/// With an empty search term every candidate's score is zero. (law)
pub proof fn lemma_empty_term_scores_zero(name: Seq<char>, desc: Seq<char>)
    ensures
        score_num(spec_score(name, desc, Seq::<char>::empty())) == 0,
{
    let s = spec_score(name, desc, Seq::<char>::empty());
    assert(s.name_hits == 0 && s.desc_hits == 0);
    assert(score_num(s) == 0) by (nonlinear_arith)
        requires
            s.name_hits == 0,
            s.desc_hits == 0,
            score_num(s) == 2 * (s.name_hits as int) * (s.desc_len as int) + (s.desc_hits as int)
                * (s.name_len as int),
    ;
}

proof fn lemma_insert_no_lt(s: Seq<SearchResultV>, x: SearchResultV)
    requires
        forall|k: int| 0 <= k < s.len() ==> !score_lt(s[k].score, x.score),
    ensures
        insert_desc(s, x) == s.push(x),
    decreases s.len(),
{
    if s.len() == 0 {
        assert(insert_desc(s, x) =~= s.push(x));
    } else {
        assert(forall|k: int|
            0 <= k < s.drop_first().len() ==> s.drop_first()[k] == s[k + 1]);
        lemma_insert_no_lt(s.drop_first(), x);
        assert(seq![s[0]] + s.drop_first().push(x) =~= s.push(x));
    }
}

/// Sorting a sequence in which no entry scores strictly above another
/// leaves it exactly as it is. (law)
pub proof fn lemma_sort_desc_no_lt(s: Seq<SearchResultV>)
    requires
        forall|i: int, j: int|
            0 <= i < s.len() && 0 <= j < s.len() ==> !score_lt(s[i].score, s[j].score),
    ensures
        sort_desc(s) == s,
    decreases s.len(),
{
    if s.len() > 0 {
        assert(forall|k: int|
            0 <= k < s.drop_last().len() ==> s.drop_last()[k] == s[k]);
        lemma_sort_desc_no_lt(s.drop_last());
        lemma_insert_no_lt(s.drop_last(), s.last());
        assert(s.drop_last().push(s.last()) =~= s);
    }
}

/// Ranking with an empty search term yields score zero for every
/// candidate and keeps the candidates in their input order. (law)
pub proof fn lemma_rank_empty_term(cands: Seq<Pkg>)
    ensures
        spec_rank(cands, Seq::<char>::empty(), None) == spec_scored(cands, Seq::<char>::empty()),
        spec_scored(cands, Seq::<char>::empty()).len() == cands.len(),
        forall|k: int|
            0 <= k < cands.len() ==> spec_scored(cands, Seq::<char>::empty())[k].pkg == cands[k]@
                && score_num(spec_scored(cands, Seq::<char>::empty())[k].score) == 0,
{
    let term = Seq::<char>::empty();
    let scored = spec_scored(cands, term);
    lemma_scored_elem(cands, term);
    assert forall|k: int| 0 <= k < cands.len() implies score_num(scored[k].score) == 0 by {
        lemma_empty_term_scores_zero(cands[k].name@, cands[k].desc@);
    }
    assert forall|i: int, j: int|
        0 <= i < scored.len() && 0 <= j < scored.len() implies !score_lt(
        scored[i].score,
        scored[j].score,
    ) by {
        assert(score_num(scored[i].score) * score_den(scored[j].score) == 0 && score_num(
            scored[j].score,
        ) * score_den(scored[i].score) == 0) by (nonlinear_arith)
            requires
                score_num(scored[i].score) == 0,
                score_num(scored[j].score) == 0,
        ;
    }
    lemma_sort_desc_no_lt(scored);
}

} // verus!
