//! Facts about filtered sequences that the laws of the crate rest on.

use vstd::prelude::*;

verus! {

/// Filtering a sequence that ends in `x` filters what stands before `x` and then decides on `x`.
pub proof fn lemma_filter_push<A>(s: Seq<A>, x: A, keep: spec_fn(A) -> bool)
    ensures
        s.push(x).filter(keep) == if keep(x) {
            s.filter(keep).push(x)
        } else {
            s.filter(keep)
        },
{
    reveal(Seq::filter);
    assert(s.push(x).drop_last() =~= s);
}

/// A filter that accepts every element leaves the sequence as it is.
pub proof fn lemma_filter_all<A>(s: Seq<A>, keep: spec_fn(A) -> bool)
    requires
        forall|i: int| 0 <= i < s.len() ==> keep(#[trigger] s[i]),
    ensures
        s.filter(keep) == s,
    decreases s.len(),
{
    reveal(Seq::filter);
    if s.len() > 0 {
        lemma_filter_all(s.drop_last(), keep);
        assert(s.drop_last().push(s.last()) =~= s);
    }
}

/// A filter that accepts no element leaves nothing.
pub proof fn lemma_filter_none<A>(s: Seq<A>, keep: spec_fn(A) -> bool)
    requires
        forall|i: int| 0 <= i < s.len() ==> !keep(#[trigger] s[i]),
    ensures
        s.filter(keep) == Seq::<A>::empty(),
    decreases s.len(),
{
    reveal(Seq::filter);
    if s.len() > 0 {
        lemma_filter_none(s.drop_last(), keep);
    }
}

/// Where every element is accepted by exactly one of `left` and `right` or by neither, and
/// `either` accepts what one of them accepts, `either` keeps as many elements as both together.
pub proof fn lemma_filter_split_len<A>(
    s: Seq<A>,
    either: spec_fn(A) -> bool,
    left: spec_fn(A) -> bool,
    right: spec_fn(A) -> bool,
)
    requires
        forall|i: int|
            0 <= i < s.len() ==> either(#[trigger] s[i]) == (left(s[i]) || right(s[i])),
        forall|i: int| 0 <= i < s.len() ==> !(left(#[trigger] s[i]) && right(s[i])),
    ensures
        s.filter(either).len() == s.filter(left).len() + s.filter(right).len(),
    decreases s.len(),
{
    reveal(Seq::filter);
    if s.len() > 0 {
        lemma_filter_split_len(s.drop_last(), either, left, right);
    }
}

/// Where exactly one position holds an accepted element, the filter keeps one element.
pub proof fn lemma_filter_single_len<A>(s: Seq<A>, keep: spec_fn(A) -> bool, at: int)
    requires
        0 <= at < s.len(),
        keep(s[at]),
        forall|i: int| 0 <= i < s.len() && i != at ==> !keep(#[trigger] s[i]),
    ensures
        s.filter(keep).len() == 1,
    decreases s.len(),
{
    reveal(Seq::filter);
    if at == s.len() - 1 {
        lemma_filter_none(s.drop_last(), keep);
    } else {
        lemma_filter_single_len(s.drop_last(), keep, at);
    }
}

/// Filtering a sequence decides on its first element and then filters the rest.
pub proof fn lemma_filter_first<A>(s: Seq<A>, keep: spec_fn(A) -> bool)
    requires
        s.len() > 0,
    ensures
        s.filter(keep) == if keep(s[0]) {
            seq![s[0]] + s.skip(1).filter(keep)
        } else {
            s.skip(1).filter(keep)
        },
{
    let first = seq![s[0]];
    assert(first + s.skip(1) =~= s);
    Seq::filter_distributes_over_add(first, s.skip(1), keep);
    lemma_filter_push(Seq::<A>::empty(), s[0], keep);
    assert(Seq::<A>::empty().push(s[0]) =~= first);
    lemma_filter_none(Seq::<A>::empty(), keep);
    if !keep(s[0]) {
        assert(Seq::<A>::empty() + s.skip(1).filter(keep) =~= s.skip(1).filter(keep));
    }
}

/// Whether `at` names, in rising order, places of `whole` that hold the elements of `part`
/// one by one.
pub open spec fn picks<A>(at: Seq<int>, part: Seq<A>, whole: Seq<A>) -> bool {
    &&& at.len() == part.len()
    &&& forall|k: int|
        0 <= k < at.len() ==> 0 <= #[trigger] at[k] < whole.len() && whole[at[k]] == part[k]
    &&& forall|j: int, k: int| 0 <= j < k < at.len() ==> at[j] < at[k]
}

/// Whether `part` is what is left of `whole` when some elements are taken out: the others
/// stay in their order.
pub open spec fn keeps_order<A>(part: Seq<A>, whole: Seq<A>) -> bool {
    exists|at: Seq<int>| picks(at, part, whole)
}

/// What a filter keeps stays in its order.
pub proof fn lemma_filter_keeps_order<A>(s: Seq<A>, keep: spec_fn(A) -> bool)
    ensures
        keeps_order(s.filter(keep), s),
    decreases s.len(),
{
    if s.len() == 0 {
        lemma_filter_none(s, keep);
        assert(picks(Seq::<int>::empty(), s.filter(keep), s));
    } else {
        let front = s.drop_last();
        lemma_filter_keeps_order(front, keep);
        let at = choose|at: Seq<int>| picks(at, front.filter(keep), front);
        assert(front.push(s.last()) =~= s);
        lemma_filter_push(front, s.last(), keep);
        if keep(s.last()) {
            assert(picks(at.push(s.len() - 1), s.filter(keep), s));
        } else {
            assert(picks(at, s.filter(keep), s));
        }
    }
}

} // verus!
