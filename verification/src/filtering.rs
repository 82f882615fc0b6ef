//! Facts about filtering a sequence that the queries and the counts rest on.

use vstd::prelude::*;

verus! {

/// Filtering one element more either appends it or changes nothing.
pub proof fn lemma_filter_step<A>(s: Seq<A>, i: int, pred: spec_fn(A) -> bool)
    requires
        0 <= i < s.len(),
    ensures
        s.take(i + 1).filter(pred) == if pred(s[i]) {
            s.take(i).filter(pred).push(s[i])
        } else {
            s.take(i).filter(pred)
        },
{
    reveal(Seq::filter);
    assert(s.take(i + 1).drop_last() =~= s.take(i));
}

/// Every element passes a predicate that holds of all of them.
pub proof fn lemma_filter_all<A>(s: Seq<A>, pred: spec_fn(A) -> bool)
    requires
        forall|i: int| 0 <= i < s.len() ==> pred(#[trigger] s[i]),
    ensures
        s.filter(pred) == s,
    decreases s.len(),
{
    reveal(Seq::filter);
    if s.len() > 0 {
        lemma_filter_all(s.drop_last(), pred);
        assert(s.drop_last().push(s.last()) =~= s);
    }
}

/// Filtering by a predicate, after filtering by one that it implies, is
/// filtering by it alone.
pub proof fn lemma_filter_refines<A>(s: Seq<A>, strict: spec_fn(A) -> bool, loose: spec_fn(A) -> bool)
    requires
        forall|x: A| #[trigger] strict(x) ==> loose(x),
    ensures
        s.filter(loose).filter(strict) == s.filter(strict),
    decreases s.len(),
{
    reveal(Seq::filter);
    if s.len() > 0 {
        lemma_filter_refines(s.drop_last(), strict, loose);
        let kept = s.drop_last().filter(loose);
        if loose(s.last()) {
            assert(kept.push(s.last()).drop_last() =~= kept);
        }
    }
}

/// The elements that pass one of two predicates which no element passes
/// both are as many as those that pass the one and those that pass the
/// other.
pub proof fn lemma_filter_disjoint_union<A>(
    s: Seq<A>,
    p: spec_fn(A) -> bool,
    q: spec_fn(A) -> bool,
    either: spec_fn(A) -> bool,
)
    requires
        forall|x: A| #[trigger] either(x) <==> p(x) || q(x),
        forall|x: A| !(#[trigger] p(x) && q(x)),
    ensures
        s.filter(either).len() == s.filter(p).len() + s.filter(q).len(),
    decreases s.len(),
{
    reveal(Seq::filter);
    if s.len() > 0 {
        lemma_filter_disjoint_union(s.drop_last(), p, q, either);
        assert(either(s.last()) <==> p(s.last()) || q(s.last()));
        assert(!(p(s.last()) && q(s.last())));
    }
}

/// Where no element passes the predicate, nothing is left.
pub proof fn lemma_filter_none<A>(s: Seq<A>, pred: spec_fn(A) -> bool)
    requires
        forall|i: int| 0 <= i < s.len() ==> !pred(#[trigger] s[i]),
    ensures
        s.filter(pred).len() == 0,
{
    if s.filter(pred).len() > 0 {
        let kept = s.filter(pred)[0];
        s.lemma_filter_pred(pred, 0);
        assert(s.filter(pred).contains(kept));
        s.lemma_filter_contains_rev(pred, kept);
        let j = choose|j: int| 0 <= j < s.len() && s[j] == kept;
        assert(!pred(s[j]));
    }
}

/// The first element that passes the predicate is the first that is left.
pub proof fn lemma_filter_first<A>(s: Seq<A>, i: int, pred: spec_fn(A) -> bool)
    requires
        0 <= i < s.len(),
        pred(s[i]),
        forall|j: int| 0 <= j < i ==> !pred(#[trigger] s[j]),
    ensures
        s.filter(pred).len() > 0,
        s.filter(pred)[0] == s[i],
{
    let head = s.take(i + 1);
    let tail = s.skip(i + 1);
    assert forall|j: int| 0 <= j < s.take(i).len() implies !pred(#[trigger] s.take(i)[j]) by {
        assert(s.take(i)[j] == s[j]);
    }
    lemma_filter_none(s.take(i), pred);
    lemma_filter_step(s, i, pred);
    assert(head + tail =~= s);
    Seq::filter_distributes_over_add(head, tail, pred);
}

} // verus!
