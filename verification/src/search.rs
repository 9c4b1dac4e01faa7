//! The line searcher: the lines of a text that contain a query, in original
//! order, case-sensitively or after simple ASCII case folding.

use vstd::prelude::*;
use crate::config::Config;
use crate::filtering::lemma_filter_all;
use crate::filtering::lemma_filter_elem;
use crate::filtering::lemma_filter_preserves_order;
use crate::filtering::lemma_filter_singleton;
use crate::lines::line_views;
use crate::lines::spec_lines;
use crate::lines::split_lines;
use crate::matching::contains_norm;
use crate::matching::contains_substr;
use crate::matching::lemma_contains_empty;
use crate::matching::lemma_contains_substr_lower;
use crate::matching::norm;

verus! {

/// Does line `l` match query `q` under the given case policy?
pub open spec fn line_matches(l: Seq<char>, q: Seq<char>, ignore_case: bool) -> bool {
    contains_substr(norm(l, ignore_case), norm(q, ignore_case))
}

/// The matching predicate as a value, so that every statement about the
/// search filters through one and the same closure.
pub open spec fn match_pred(q: Seq<char>, ignore_case: bool) -> spec_fn(Seq<char>) -> bool {
    |l: Seq<char>| line_matches(l, q, ignore_case)
}

/// The lines of `c` that match `q` under the given case policy, in order.
pub open spec fn spec_search_with(q: Seq<char>, c: Seq<char>, ignore_case: bool) -> Seq<Seq<char>> {
    spec_lines(c).filter(match_pred(q, ignore_case))
}

/// The lines of `c` that contain `q` as an exact substring, in order.
pub open spec fn spec_search(q: Seq<char>, c: Seq<char>) -> Seq<Seq<char>> {
    spec_search_with(q, c, false)
}

/// The lines of `c` that contain `q` up to simple ASCII case folding, in
/// order and with their original casing.
pub open spec fn spec_search_ci(q: Seq<char>, c: Seq<char>) -> Seq<Seq<char>> {
    spec_search_with(q, c, true)
}

fn search_lines<'a>(query: &str, contents: &'a str, ignore_case: bool) -> (r: Vec<&'a str>)
    ensures
        line_views(r@) == spec_search_with(query@, contents@, ignore_case),
{
    let lines = split_lines(contents);
    let mut r: Vec<&'a str> = Vec::new();
    let mut idx: usize = 0;
    proof {
        assert(line_views(lines@).subrange(0, 0).len() == 0);
        reveal(Seq::filter);
    }
    while idx < lines.len()
        invariant
            idx <= lines@.len(),
            line_views(lines@) == spec_lines(contents@),
            line_views(r@) == line_views(lines@).subrange(0, idx as int).filter(
                match_pred(query@, ignore_case),
            ),
        decreases lines@.len() - idx,
    {
        let line = lines[idx];
        let ghost r_old = r@;
        let ghost pref = line_views(lines@).subrange(0, idx as int);
        let ghost pred = match_pred(query@, ignore_case);
        let matched = contains_norm(line, query, ignore_case);
        if matched {
            r.push(line);
        }
        proof {
            assert(line@ == line_views(lines@)[idx as int]);
            assert(line_views(lines@).subrange(0, idx + 1) =~= pref + seq![line@]);
            Seq::filter_distributes_over_add(pref, seq![line@], pred);
            lemma_filter_singleton(line@, pred);
            assert(pred(line@) == matched);
            if matched {
                assert(line_views(r@) =~= pref.filter(pred) + seq![line@]);
            } else {
                assert(line_views(r@) =~= pref.filter(pred) + Seq::<Seq<char>>::empty());
            }
        }
        idx += 1;
    }
    proof {
        assert(line_views(lines@).subrange(0, lines@.len() as int) =~= line_views(lines@));
    }
    r
}

/// Returns the lines of `contents` that contain `query` as an exact,
/// case-sensitive substring, in original order.
pub fn search<'a>(query: &str, contents: &'a str) -> (r: Vec<&'a str>)
    ensures
        line_views(r@) == spec_search(query@, contents@),
{
    search_lines(query, contents, false)
}

/// Returns the lines of `contents` that contain `query` up to simple ASCII
/// case folding, in original order and with their original casing.
pub fn search_case_insensitive<'a>(query: &str, contents: &'a str) -> (r: Vec<&'a str>)
    ensures
        line_views(r@) == spec_search_ci(query@, contents@),
{
    search_lines(query, contents, true)
}

/// Runs the search variant that `config` selects on `contents`.
pub fn search_with_config<'a>(config: &Config, contents: &'a str) -> (r: Vec<&'a str>)
    ensures
        line_views(r@) == if config.ignore_case {
            spec_search_ci(config.query@, contents@)
        } else {
            spec_search(config.query@, contents@)
        },
{
    if config.ignore_case {
        search_case_insensitive(config.query.as_str(), contents)
    } else {
        search(config.query.as_str(), contents)
    }
}

/// Soundness and completeness of the search: every returned line is a line of
/// the input that matches the query, and every matching line of the input is
/// returned. Order preservation and the absence of deduplication are stated
/// by the contract of `search` itself: its result is exactly the ordered
/// filter of the input's lines.
pub proof fn lemma_search_sound_complete(q: Seq<char>, c: Seq<char>, ignore_case: bool)
    ensures
        forall|i: int|
            0 <= i < spec_search_with(q, c, ignore_case).len() ==> line_matches(
                #[trigger] spec_search_with(q, c, ignore_case)[i],
                q,
                ignore_case,
            ),
        forall|i: int|
            0 <= i < spec_search_with(q, c, ignore_case).len() ==> spec_lines(c).contains(
                #[trigger] spec_search_with(q, c, ignore_case)[i],
            ),
        forall|j: int|
            0 <= j < spec_lines(c).len() && line_matches(
                #[trigger] spec_lines(c)[j],
                q,
                ignore_case,
            ) ==> spec_search_with(q, c, ignore_case).contains(spec_lines(c)[j]),
{
    let pred = match_pred(q, ignore_case);
    let res = spec_search_with(q, c, ignore_case);
    assert forall|i: int| 0 <= i < res.len() implies line_matches(res[i], q, ignore_case)
        && spec_lines(c).contains(res[i]) by {
        assert(res.contains(res[i]));
        lemma_filter_elem(spec_lines(c), pred, res[i]);
        assert(pred(res[i]));
    }
    assert forall|j: int|
        0 <= j < spec_lines(c).len() && line_matches(spec_lines(c)[j], q, ignore_case) implies res
        .contains(spec_lines(c)[j]) by {
        assert(pred(spec_lines(c)[j]));
        Seq::lemma_filter_contains(spec_lines(c), pred, j);
    }
}

/// The search preserves the original order of the lines: any two result
/// positions stem from two line positions of the contents in that same
/// order.
pub proof fn lemma_search_preserves_order(
    q: Seq<char>,
    c: Seq<char>,
    ignore_case: bool,
    i1: int,
    i2: int,
)
    requires
        0 <= i1 < i2 < spec_search_with(q, c, ignore_case).len(),
    ensures
        exists|j1: int, j2: int|
            0 <= j1 < j2 < spec_lines(c).len() && spec_lines(c)[j1] == spec_search_with(
                q,
                c,
                ignore_case,
            )[i1] && spec_lines(c)[j2] == spec_search_with(q, c, ignore_case)[i2],
{
    lemma_filter_preserves_order(spec_lines(c), match_pred(q, ignore_case), i1, i2);
}

/// Every line that the case-sensitive search returns, the case-insensitive
/// search returns too: an exact occurrence survives case folding.
pub proof fn lemma_insensitive_is_superset(q: Seq<char>, c: Seq<char>)
    ensures
        forall|l: Seq<char>|
            #[trigger] spec_search(q, c).contains(l) ==> spec_search_ci(q, c).contains(l),
{
    assert forall|l: Seq<char>| #[trigger] spec_search(q, c).contains(l) implies spec_search_ci(
        q,
        c,
    ).contains(l) by {
        lemma_filter_elem(spec_lines(c), match_pred(q, false), l);
        let j = choose|j: int| 0 <= j < spec_lines(c).len() && spec_lines(c)[j] == l;
        lemma_contains_substr_lower(l, q);
        assert(line_matches(l, q, true));
        assert(match_pred(q, true)(spec_lines(c)[j]));
        Seq::lemma_filter_contains(spec_lines(c), match_pred(q, true), j);
    }
}

/// The search is a pure function of its inputs: any two results that its
/// contract admits for the same query, contents and case policy are equal.
pub proof fn lemma_search_deterministic(
    q: Seq<char>,
    c: Seq<char>,
    ignore_case: bool,
    r1: Seq<Seq<char>>,
    r2: Seq<Seq<char>>,
)
    requires
        r1 == spec_search_with(q, c, ignore_case),
        r2 == spec_search_with(q, c, ignore_case),
    ensures
        r1 == r2,
{
}

/// Empty contents yield an empty result, for both variants and any query.
pub proof fn lemma_empty_contents(q: Seq<char>, ignore_case: bool)
    ensures
        spec_search_with(q, Seq::<char>::empty(), ignore_case) == Seq::<Seq<char>>::empty(),
{
    reveal(Seq::filter);
    assert(spec_lines(Seq::<char>::empty()) == Seq::<Seq<char>>::empty());
}

/// An empty query matches every line: both variants return all lines of the
/// contents.
pub proof fn lemma_empty_query(c: Seq<char>, ignore_case: bool)
    ensures
        spec_search_with(Seq::<char>::empty(), c, ignore_case) == spec_lines(c),
{
    let pred = match_pred(Seq::<char>::empty(), ignore_case);
    assert forall|i: int| 0 <= i < spec_lines(c).len() implies pred(
        #[trigger] spec_lines(c)[i],
    ) by {
        assert(norm(Seq::<char>::empty(), ignore_case) =~= Seq::<char>::empty());
        lemma_contains_empty(norm(spec_lines(c)[i], ignore_case));
    }
    lemma_filter_all(spec_lines(c), pred);
}

} // verus!
