//! Fuzzy ranking of items against a query.
//!
//! Smart case: the match ignores case unless the query holds an upper-case
//! letter. Scoring itself is done by `nucleo-matcher`; this module decides
//! which items are offered, in which order, and with which highlight
//! positions.

use vstd::prelude::*;
use nucleo_matcher::pattern::{CaseMatching, Normalization, Pattern};
use nucleo_matcher::{Config, Matcher, Utf32Str};
use rayon::iter::{IntoParallelRefIterator, ParallelIterator};

verus! {

/// Scoring scheme for fuzzy matching.
#[derive(Debug, Clone, Copy, PartialEq, Eq)]
pub enum Scheme {
    /// Default scoring: whitespace and delimiter boundaries.
    Default,
}

/// Name for what `nucleo_matcher::pattern::Pattern::indices` answers when a
/// pattern parsed from `query` (case respected or ignored, smart
/// normalization) is matched with the default configuration against
/// `haystack`: the score and the matched character positions, in the order
/// the matcher reports them, or `None` when the haystack does not match.
pub uninterp spec fn nucleo_indices(query: Seq<char>, respect_case: bool, haystack: Seq<char>) -> Option<
    (u32, Seq<u32>),
>;

/// Parses `query` with `Pattern::parse` and matches it against `haystack`
/// with a fresh `Matcher` of the default configuration. The contract claims
/// that the result is a fixed function of the three arguments.
#[verifier::external_body]
fn nucleo_match(query: &str, respect_case: bool, haystack: &str) -> (r: Option<(u32, Vec<u32>)>)
    ensures
        match r {
            Some((s, idx)) => nucleo_indices(query@, respect_case, haystack@) == Some((s, idx@)),
            None => nucleo_indices(query@, respect_case, haystack@) is None,
        },
{
    let case = if respect_case { CaseMatching::Respect } else { CaseMatching::Ignore };
    let pattern = Pattern::parse(query, case, Normalization::Smart);
    let mut matcher = Matcher::new(Config::DEFAULT);
    let (mut buf, mut indices) = (Vec::new(), Vec::new());
    let score = pattern.indices(Utf32Str::new(haystack, &mut buf), &mut matcher, &mut indices);
    score.map(|s| (s, indices))
}

/// One item matched against the query: its score and its matched positions
/// sorted without duplicates, or `None` when it does not match.
pub open spec fn item_match(query: Seq<char>, respect_case: bool, item: Seq<char>, r: Option<(u32, Vec<u32>)>) -> bool {
    match r {
        Some((s, ps)) => nucleo_indices(query, respect_case, item) matches Some((s2, ps2)) && s == s2
            && sorted_unique_of(ps@, ps2),
        None => nucleo_indices(query, respect_case, item) is None,
    }
}

/// Matches one item against the query.
pub fn match_one(query: &str, respect_case: bool, item: &str) -> (r: Option<(u32, Vec<u32>)>)
    ensures
        item_match(query@, respect_case, item@, r),
{
    match nucleo_match(query, respect_case, item) {
        Some((score, idx)) => Some((score, sort_dedup(&idx))),
        None => None,
    }
}

/// Matches every item on rayon's thread pool (`par_iter().map().collect()`,
/// which keeps the items' order), each with `match_one`.
#[verifier::external_body]
fn match_all_parallel(query: &str, respect_case: bool, items: &Vec<String>) -> (r: Vec<Option<(u32, Vec<u32>)>>)
    ensures
        r@.len() == items@.len(),
        forall|i: int| 0 <= i < r@.len() ==> item_match(query@, respect_case, items@[i]@, #[trigger] r@[i]),
{
    items.par_iter().map(|item| match_one(query, respect_case, item.as_str())).collect()
}

/// Name for what `char::is_uppercase` answers: whether the character has
/// the Unicode `Uppercase` property.
pub uninterp spec fn is_upper(c: char) -> bool;

/// Calls `char::is_uppercase`; the answer is a fixed function of the
/// character.
#[verifier::external_body]
fn char_is_uppercase(c: char) -> (r: bool)
    ensures
        r == is_upper(c),
{
    c.is_uppercase()
}

/// A scored match result.
#[derive(Debug, Clone)]
pub struct MatchResult {
    /// Index into the items list.
    pub index: usize,
    /// Fuzzy match score (higher is better).
    pub score: u32,
    /// Positions of the matched characters in the item (sorted, without
    /// duplicates).
    pub positions: Vec<u32>,
}

pub struct MatchView {
    pub index: usize,
    pub score: u32,
    pub positions: Seq<u32>,
}

impl View for MatchResult {
    type V = MatchView;

    open spec fn view(&self) -> MatchView {
        MatchView { index: self.index, score: self.score, positions: self.positions@ }
    }
}

pub open spec fn matches_view(v: Seq<MatchResult>) -> Seq<MatchView> {
    v.map_values(|m: MatchResult| m@)
}

/// `a` is ranked before `b`: higher score first, then lower index.
pub open spec fn ranks_before(a: MatchView, b: MatchView) -> bool {
    a.score > b.score || (a.score == b.score && a.index < b.index)
}

pub open spec fn strictly_increasing(s: Seq<u32>) -> bool {
    forall|i: int, j: int| 0 <= i < j < s.len() ==> s[i] < s[j]
}

/// `q` is `p` sorted with duplicates removed.
pub open spec fn sorted_unique_of(q: Seq<u32>, p: Seq<u32>) -> bool {
    &&& strictly_increasing(q)
    &&& forall|x: u32| q.contains(x) <==> p.contains(x)
}

/// A pre-processed query, reused across scoring calls.
pub struct CachedPattern {
    query: String,
    respect_case: bool,
    empty: bool,
}

/// The query, whether case is respected, and whether the query is empty.
pub struct PatternView {
    pub query: Seq<char>,
    pub respect_case: bool,
    pub empty: bool,
}

impl View for CachedPattern {
    type V = PatternView;

    closed spec fn view(&self) -> PatternView {
        PatternView { query: self.query@, respect_case: self.respect_case, empty: self.empty }
    }
}

/// What ranking `items` against a pattern gives: every item for an empty
/// query, with score 0 and no positions, in order; otherwise exactly the
/// items that match, each with its score and its positions sorted without
/// duplicates, best score first and lower index first among equal scores.
pub open spec fn ranked(p: PatternView, items: Seq<Seq<char>>, r: Seq<MatchView>) -> bool {
    if p.empty {
        &&& r.len() == items.len()
        &&& forall|i: int| 0 <= i < r.len() ==> #[trigger] r[i] == (MatchView { index: i as usize, score: 0, positions: Seq::empty() })
    } else {
        &&& forall|i: int, j: int| 0 <= i < j < r.len() ==> ranks_before(r[i], r[j])
        &&& forall|i: int|
            0 <= i < r.len() ==> {
                let m = #[trigger] r[i];
                &&& m.index < items.len()
                &&& nucleo_indices(p.query, p.respect_case, items[m.index as int]) matches Some((s, ps))
                &&& m.score == s
                &&& sorted_unique_of(m.positions, ps)
            }
        &&& forall|k: int|
            0 <= k < items.len() && #[trigger] nucleo_indices(p.query, p.respect_case, items[k])
                is Some ==> exists|i: int| 0 <= i < r.len() && r[i].index == k
    }
}

pub open spec fn strings_view(v: Seq<String>) -> Seq<Seq<char>> {
    v.map_values(|s: String| s@)
}

/// Sorts positions and removes duplicates.
pub fn sort_dedup(v: &Vec<u32>) -> (r: Vec<u32>)
    ensures
        sorted_unique_of(r@, v@),
{
    let mut r: Vec<u32> = Vec::new();
    let mut k: usize = 0;
    while k < v.len()
        invariant
            k <= v.len(),
            strictly_increasing(r@),
            forall|x: u32| r@.contains(x) <==> v@.take(k as int).contains(x),
        decreases v.len() - k,
    {
        let x = v[k];
        let mut p: usize = 0;
        while p < r.len() && r[p] < x
            invariant
                p <= r.len(),
                forall|t: int| 0 <= t < p ==> r@[t] < x,
            decreases r.len() - p,
        {
            p = p + 1;
        }
        let ghost before = r@;
        if p < r.len() && r[p] == x {
        } else {
            r.insert(p, x);
            assert forall|i: int, j: int| 0 <= i < j < r@.len() implies r@[i] < r@[j] by {
                if j < p {
                    assert(r@[i] == before[i] && r@[j] == before[j]);
                } else if j == p {
                    assert(r@[i] == before[i]);
                } else if i < p {
                    assert(r@[i] == before[i] && r@[j] == before[j - 1]);
                    assert(before[j - 1] >= before[p as int] || j - 1 == p);
                } else if i == p {
                    assert(r@[j] == before[j - 1]);
                    assert(before[p as int] >= x);
                    assert(before[j - 1] >= before[p as int]);
                } else {
                    assert(r@[i] == before[i - 1] && r@[j] == before[j - 1]);
                }
            }
            assert forall|y: u32| r@.contains(y) <==> before.contains(y) || y == x by {
                if r@.contains(y) {
                    let t = choose|t: int| 0 <= t < r@.len() && r@[t] == y;
                    if t < p {
                        assert(before[t] == y);
                    } else if t > p {
                        assert(before[t - 1] == y);
                    }
                }
                if before.contains(y) {
                    let t = choose|t: int| 0 <= t < before.len() && before[t] == y;
                    if t < p {
                        assert(r@[t] == y);
                    } else {
                        assert(r@[t + 1] == y);
                    }
                }
                if y == x {
                    assert(r@[p as int] == x);
                }
            }
        }
        proof {
            let tk = v@.take(k as int);
            let tk1 = v@.take(k + 1);
            assert(tk1 == tk.push(x));
            assert forall|y: u32| tk1.contains(y) <==> tk.contains(y) || y == x by {
                if tk1.contains(y) {
                    let t = choose|t: int| 0 <= t < tk1.len() && tk1[t] == y;
                    if t < k {
                        assert(tk[t] == y);
                    }
                }
                if tk.contains(y) {
                    let t = choose|t: int| 0 <= t < tk.len() && tk[t] == y;
                    assert(tk1[t] == y);
                }
                if y == x {
                    assert(tk1[k as int] == x);
                }
            }
            if p < before.len() && before[p as int] == x {
                assert(before.contains(x));
                assert(r@ == before);
            }
            assert(forall|y: u32| r@.contains(y) <==> before.contains(y) || y == x);
            assert(forall|y: u32| before.contains(y) <==> tk.contains(y));
            assert forall|y: u32| r@.contains(y) <==> tk1.contains(y) by {
                assert(r@.contains(y) <==> before.contains(y) || y == x);
                assert(before.contains(y) <==> tk.contains(y));
                assert(tk1.contains(y) <==> tk.contains(y) || y == x);
            }
        }
        k = k + 1;
    }
    assert(v@.take(v.len() as int) == v@);
    r
}

fn copy_u32s(v: &Vec<u32>) -> (r: Vec<u32>)
    ensures
        r@ == v@,
{
    let mut r: Vec<u32> = Vec::new();
    let mut k: usize = 0;
    while k < v.len()
        invariant
            k <= v.len(),
            r@ == v@.take(k as int),
        decreases v.len() - k,
    {
        r.push(v[k]);
        k = k + 1;
        assert(r@ =~= v@.take(k as int));
    }
    assert(v@.take(k as int) =~= v@);
    r
}

/// Item count from which items are matched on rayon's thread pool.
pub const PAR_THRESHOLD: usize = 5000;

impl CachedPattern {
    /// Pre-processes `query`: case is respected when it holds an upper-case
    /// letter.
    pub fn new(query: &str, scheme: Scheme) -> (r: CachedPattern)
        ensures
            r@.query == query@,
            r@.empty == (query@.len() == 0),
            r@.respect_case == (query@.len() > 0 && exists|i: int|
                0 <= i < query@.len() && is_upper(#[trigger] query@[i])),
    {
        let q = crate::text::chars_of(query);
        if q.len() == 0 {
            return CachedPattern { query: query.to_owned(), respect_case: false, empty: true };
        }
        let mut upper = false;
        let mut k: usize = 0;
        while k < q.len()
            invariant
                k <= q.len(),
                q@ == query@,
                upper == exists|i: int| 0 <= i < k && is_upper(#[trigger] q@[i]),
            decreases q.len() - k,
        {
            if char_is_uppercase(q[k]) {
                upper = true;
            }
            k = k + 1;
        }
        CachedPattern { query: query.to_owned(), respect_case: upper, empty: false }
    }

    /// Matches every item against the (non-empty) pattern: on rayon's
    /// thread pool from `PAR_THRESHOLD` items on, one by one below.
    fn match_items(&self, items: &Vec<String>) -> (r: Vec<Option<(u32, Vec<u32>)>>)
        ensures
            r@.len() == items@.len(),
            forall|j: int| 0 <= j < r@.len() ==> item_match(self@.query, self@.respect_case, items@[j]@, #[trigger] r@[j]),
    {
        if items.len() >= PAR_THRESHOLD {
            return match_all_parallel(self.query.as_str(), self.respect_case, items);
        }
        let mut r: Vec<Option<(u32, Vec<u32>)>> = Vec::new();
        let mut i: usize = 0;
        while i < items.len()
            invariant
                i <= items.len(),
                r@.len() == i,
                forall|j: int| 0 <= j < r@.len() ==> item_match(self@.query, self@.respect_case, items@[j]@, #[trigger] r@[j]),
            decreases items.len() - i,
        {
            r.push(match_one(self.query.as_str(), self.respect_case, items[i].as_str()));
            i = i + 1;
        }
        r
    }

    /// Rank `items` against this pattern.
    pub fn score(&self, items: &Vec<String>) -> (r: Vec<MatchResult>)
        ensures
            ranked(self@, strings_view(items@), matches_view(r@)),
    {
        let ghost its = strings_view(items@);
        let mut r: Vec<MatchResult> = Vec::new();
        if self.empty {
            let mut i: usize = 0;
            while i < items.len()
                invariant
                    i <= items.len(),
                    r@.len() == i,
                    forall|t: int| 0 <= t < i ==> #[trigger] r@[t]@ == (MatchView { index: t as usize, score: 0, positions: Seq::empty() }),
                decreases items.len() - i,
            {
                r.push(MatchResult { index: i, score: 0, positions: Vec::new() });
                i = i + 1;
            }
            return r;
        }
        let results = self.match_items(items);
        let mut i: usize = 0;
        while i < items.len()
            invariant
                i <= items.len(),
                !self@.empty,
                its == strings_view(items@),
                results@.len() == items@.len(),
                forall|j: int| 0 <= j < results@.len() ==> item_match(self@.query, self@.respect_case, its[j], #[trigger] results@[j]),
                forall|a: int, b: int| 0 <= a < b < r@.len() ==> ranks_before(r@[a]@, r@[b]@),
                forall|t: int|
                    0 <= t < r@.len() ==> {
                        let m = #[trigger] r@[t]@;
                        &&& m.index < i
                        &&& nucleo_indices(self@.query, self@.respect_case, its[m.index as int]) matches Some((s, ps))
                        &&& m.score == s
                        &&& sorted_unique_of(m.positions, ps)
                    },
                forall|k: int|
                    0 <= k < i && #[trigger] nucleo_indices(self@.query, self@.respect_case, its[k])
                        is Some ==> exists|t: int| 0 <= t < r@.len() && r@[t]@.index == k,
            decreases items.len() - i,
        {
            assert(its[i as int] == items@[i as int]@);
            assert(item_match(self@.query, self@.respect_case, its[i as int], results@[i as int]));
            match &results[i] {
                Some((score, ps)) => {
                    let score = *score;
                    let positions = copy_u32s(ps);
                    let m = MatchResult { index: i, score, positions };
                    let mut p: usize = 0;
                    while p < r.len() && r[p].score >= score
                        invariant
                            p <= r.len(),
                            forall|t: int| 0 <= t < p ==> r@[t]@.score >= score,
                        decreases r.len() - p,
                    {
                        p = p + 1;
                    }
                    let ghost before = r@;
                    let ghost mv = m@;
                    r.insert(p, m);
                    proof {
                        assert forall|a: int, b: int| 0 <= a < b < r@.len() implies ranks_before(
                            r@[a]@,
                            r@[b]@,
                        ) by {
                            if b < p {
                                assert(r@[a] == before[a] && r@[b] == before[b]);
                            } else if b == p {
                                assert(r@[a] == before[a]);
                                assert(before[a]@.index < i);
                            } else if a < p {
                                assert(r@[a] == before[a] && r@[b] == before[b - 1]);
                                if b - 1 > a {
                                    assert(ranks_before(before[a]@, before[b - 1]@));
                                }
                            } else if a == p {
                                assert(r@[b] == before[b - 1]);
                                assert(before[p as int]@.score < score);
                                if b - 1 > p {
                                    assert(ranks_before(before[p as int]@, before[b - 1]@));
                                }
                            } else {
                                assert(r@[a] == before[a - 1] && r@[b] == before[b - 1]);
                            }
                        }
                        assert forall|t: int| 0 <= t < r@.len() implies {
                            let mm = #[trigger] r@[t]@;
                            &&& mm.index < i + 1
                            &&& nucleo_indices(self@.query, self@.respect_case, its[mm.index as int]) matches Some((s, ps))
                            &&& mm.score == s
                            &&& sorted_unique_of(mm.positions, ps)
                        } by {
                            if t < p {
                                assert(r@[t] == before[t]);
                            } else if t > p {
                                assert(r@[t] == before[t - 1]);
                            }
                        }
                        assert forall|k: int|
                            0 <= k < i + 1 && #[trigger] nucleo_indices(self@.query, self@.respect_case, its[k])
                                is Some implies exists|t: int| 0 <= t < r@.len() && r@[t]@.index == k by {
                            if k == i {
                                assert(r@[p as int]@.index == i);
                            } else {
                                let t = choose|t: int| 0 <= t < before.len() && before[t]@.index == k;
                                if t < p {
                                    assert(r@[t] == before[t]);
                                } else {
                                    assert(r@[t + 1] == before[t]);
                                }
                            }
                        }
                    }
                },
                None => {},
            }
            i = i + 1;
        }
        proof {
            assert(matches_view(r@).len() == r@.len());
            assert forall|a: int, b: int| 0 <= a < b < matches_view(r@).len() implies ranks_before(
                matches_view(r@)[a],
                matches_view(r@)[b],
            ) by {
                assert(matches_view(r@)[a] == r@[a]@);
            }
            assert forall|k: int|
                0 <= k < its.len() && #[trigger] nucleo_indices(self@.query, self@.respect_case, its[k])
                    is Some implies exists|t: int| 0 <= t < matches_view(r@).len() && matches_view(r@)[t].index == k by {
                let t = choose|t: int| 0 <= t < r@.len() && r@[t]@.index == k;
                assert(matches_view(r@)[t] == r@[t]@);
            }
        }
        r
    }
}

/// Fuzzy-match `query` against `items`, return scored results sorted
/// best-first.
pub fn fuzzy_match(query: &str, items: &Vec<String>, scheme: Scheme) -> (r: Vec<MatchResult>)
    ensures
        ranked(
            PatternView {
                query: query@,
                respect_case: query@.len() > 0 && exists|i: int|
                    0 <= i < query@.len() && is_upper(#[trigger] query@[i]),
                empty: query@.len() == 0,
            },
            strings_view(items@),
            matches_view(r@),
        ),
{
    let p = CachedPattern::new(query, scheme);
    p.score(items)
}

} // verus!
