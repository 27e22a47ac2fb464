//! Small sequence facts shared by the pipeline proofs.

use vstd::prelude::*;

verus! {

/// Taking one element more appends exactly that element.
pub proof fn lemma_take_push<A>(s: Seq<A>, i: int)
    requires
        0 <= i < s.len(),
    ensures
        s.take(i + 1) == s.take(i).push(s[i]),
{
    assert(s.take(i + 1) =~= s.take(i).push(s[i]));
}

/// Filtering after a push keeps the pushed element exactly when it passes.
pub proof fn lemma_filter_push<A>(s: Seq<A>, pred: spec_fn(A) -> bool, x: A)
    ensures
        s.push(x).filter(pred) == if pred(x) {
            s.filter(pred).push(x)
        } else {
            s.filter(pred)
        },
{
    reveal(Seq::filter);
    assert(s.push(x).drop_last() =~= s);
    assert(s.push(x).last() == x);
}

/// A pointwise fact about a sequence survives filtering.
pub proof fn lemma_filter_all<A>(s: Seq<A>, pred: spec_fn(A) -> bool, q: spec_fn(A) -> bool)
    requires
        forall|i: int| 0 <= i < s.len() ==> q(s[i]),
    ensures
        forall|i: int| 0 <= i < s.filter(pred).len() ==> q(s.filter(pred)[i]),
    decreases s.len(),
{
    reveal(Seq::filter);
    if s.len() > 0 {
        lemma_filter_all(s.drop_last(), pred, q);
        let f = s.filter(pred);
        let fdl = s.drop_last().filter(pred);
        if pred(s.last()) {
            assert(f == fdl.push(s.last()));
            assert forall|i: int| 0 <= i < f.len() implies q(f[i]) by {
                if i < f.len() - 1 {
                    assert(f[i] == fdl[i]);
                }
            }
        } else {
            assert(f == fdl);
        }
    }
}

/// Filtering by a predicate nothing satisfies leaves nothing.
pub proof fn lemma_filter_none<A>(s: Seq<A>, pred: spec_fn(A) -> bool)
    requires
        forall|i: int| 0 <= i < s.len() ==> !pred(s[i]),
    ensures
        s.filter(pred) == Seq::<A>::empty(),
    decreases s.len(),
{
    reveal(Seq::filter);
    if s.len() > 0 {
        lemma_filter_none(s.drop_last(), pred);
    }
}

/// Two predicates that agree on every element filter alike.
pub proof fn lemma_filter_equiv<A>(s: Seq<A>, p: spec_fn(A) -> bool, q: spec_fn(A) -> bool)
    requires
        forall|i: int| 0 <= i < s.len() ==> (p(s[i]) <==> q(s[i])),
    ensures
        s.filter(p) == s.filter(q),
    decreases s.len(),
{
    reveal(Seq::filter);
    if s.len() > 0 {
        lemma_filter_equiv(s.drop_last(), p, q);
    }
}

/// Filtering twice filters by the conjunction.
pub proof fn lemma_filter_compose<A>(s: Seq<A>, p: spec_fn(A) -> bool, q: spec_fn(A) -> bool)
    ensures
        s.filter(p).filter(q) == s.filter(|x: A| p(x) && q(x)),
    decreases s.len(),
{
    reveal(Seq::filter);
    if s.len() > 0 {
        let dl = s.drop_last();
        let x = s.last();
        lemma_filter_compose(dl, p, q);
        if p(x) {
            lemma_filter_push(dl.filter(p), q, x);
        }
    }
}

/// A non-empty filter has a witness in the sequence.
pub proof fn lemma_filter_nonempty_exists<A>(s: Seq<A>, p: spec_fn(A) -> bool)
    requires
        s.filter(p).len() > 0,
    ensures
        exists|j: int| 0 <= j < s.len() && p(#[trigger] s[j]),
    decreases s.len(),
{
    reveal(Seq::filter);
    if s.len() > 0 {
        if p(s.last()) {
            assert(p(s[s.len() - 1]));
        } else {
            lemma_filter_nonempty_exists(s.drop_last(), p);
            let j = choose|j: int| 0 <= j < s.drop_last().len() && p(#[trigger] s.drop_last()[j]);
            assert(p(s[j]));
        }
    }
}

/// Mapping after a push appends exactly the image of the pushed element.
pub proof fn lemma_map_push<A, B>(s: Seq<A>, f: spec_fn(A) -> B, x: A)
    ensures
        s.push(x).map_values(f) == s.map_values(f).push(f(x)),
{
    assert(s.push(x).map_values(f) =~= s.map_values(f).push(f(x)));
}

} // verus!
