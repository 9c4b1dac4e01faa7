//! Small facts about `Seq::filter` that both the parser and the searcher
//! lean on.

use vstd::prelude::*;

verus! {

/// Filtering a one-element sequence keeps or drops that element.
pub proof fn lemma_filter_singleton<A>(x: A, pred: spec_fn(A) -> bool)
    ensures
        seq![x].filter(pred) == if pred(x) {
            seq![x]
        } else {
            Seq::<A>::empty()
        },
{
    reveal(Seq::filter);
    let s = seq![x];
    assert(s.drop_last() =~= Seq::<A>::empty());
    assert(Seq::<A>::empty().filter(pred) == Seq::<A>::empty());
    assert(s.last() == x);
    if pred(x) {
        assert(Seq::<A>::empty().push(x) =~= s);
    }
}

/// Every element of a filtered sequence comes from the original sequence and
/// satisfies the predicate.
pub proof fn lemma_filter_elem<A>(s: Seq<A>, pred: spec_fn(A) -> bool, x: A)
    requires
        s.filter(pred).contains(x),
    ensures
        s.contains(x),
        pred(x),
    decreases s.len(),
{
    reveal(Seq::filter);
    if s.len() == 0 {
    } else {
        if pred(s.last()) && x == s.last() {
            assert(s[s.len() - 1] == x);
        } else {
            assert(s.drop_last().filter(pred).contains(x));
            lemma_filter_elem(s.drop_last(), pred, x);
            let i = choose|i: int| 0 <= i < s.drop_last().len() && s.drop_last()[i] == x;
            assert(s[i] == x);
        }
    }
}

/// Filtering preserves relative order: two positions of the filtered
/// sequence come from two positions of the original in the same order.
pub proof fn lemma_filter_preserves_order<A>(
    s: Seq<A>,
    pred: spec_fn(A) -> bool,
    i1: int,
    i2: int,
)
    requires
        0 <= i1 < i2 < s.filter(pred).len(),
    ensures
        exists|j1: int, j2: int|
            0 <= j1 < j2 < s.len() && s[j1] == s.filter(pred)[i1] && s[j2] == s.filter(pred)[i2],
    decreases s.len(),
{
    reveal(Seq::filter);
    Seq::lemma_filter_len(s, pred);
    let f = s.filter(pred);
    let fd = s.drop_last().filter(pred);
    if pred(s.last()) && i2 == fd.len() {
        // the later element is the last element of s
        assert(f =~= fd.push(s.last()));
        assert(f[i2] == s[s.len() - 1]);
        assert(fd[i1] == f[i1]);
        assert(fd.contains(fd[i1]));
        lemma_filter_elem(s.drop_last(), pred, fd[i1]);
        let j1 = choose|j: int|
            0 <= j < s.drop_last().len() && s.drop_last()[j] == fd[i1];
        assert(s[j1] == f[i1] && s[s.len() - 1] == f[i2]);
    } else {
        // both elements already sit in the filtered front
        if pred(s.last()) {
            assert(f =~= fd.push(s.last()));
        } else {
            assert(f =~= fd);
        }
        assert(fd[i1] == f[i1] && fd[i2] == f[i2]);
        lemma_filter_preserves_order(s.drop_last(), pred, i1, i2);
        let (j1, j2) = choose|j1: int, j2: int|
            0 <= j1 < j2 < s.drop_last().len() && s.drop_last()[j1] == fd[i1]
                && s.drop_last()[j2] == fd[i2];
        assert(s[j1] == f[i1] && s[j2] == f[i2]);
    }
}

/// Filtering with a predicate that holds everywhere keeps the sequence.
pub proof fn lemma_filter_all<A>(s: Seq<A>, pred: spec_fn(A) -> bool)
    requires
        forall|i: int| 0 <= i < s.len() ==> pred(#[trigger] s[i]),
    ensures
        s.filter(pred) == s,
    decreases s.len(),
{
    reveal(Seq::filter);
    if s.len() == 0 {
    } else {
        assert forall|i: int| 0 <= i < s.drop_last().len() implies pred(
            #[trigger] s.drop_last()[i],
        ) by {
            assert(pred(s[i]));
        }
        lemma_filter_all(s.drop_last(), pred);
        assert(pred(s[s.len() - 1]));
        assert(s.drop_last().push(s.last()) =~= s);
    }
}

} // verus!
