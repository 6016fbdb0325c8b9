//! Facts about sequences used by several proofs.
use vstd::prelude::*;

verus! {

/// Filtering a prefix one element longer adds that element when it
/// passes the predicate.
pub proof fn lemma_filter_prefix_step<A>(s: Seq<A>, p: spec_fn(A) -> bool, i: int)
    requires
        0 <= i < s.len(),
    ensures
        s.subrange(0, i + 1).filter(p) == (if p(s[i]) {
            s.subrange(0, i).filter(p).push(s[i])
        } else {
            s.subrange(0, i).filter(p)
        }),
{
    reveal(Seq::filter);
    assert(s.subrange(0, i + 1).drop_last() =~= s.subrange(0, i));
}

/// Every element of a filtered sequence is in the original and passes
/// the predicate.
pub proof fn lemma_filter_members<A>(s: Seq<A>, p: spec_fn(A) -> bool)
    ensures
        forall|k: int| 0 <= k < s.filter(p).len() ==> s.contains(#[trigger] s.filter(p)[k]) && p(s.filter(p)[k]),
{
    let f = s.filter(p);
    assert forall|k: int| 0 <= k < f.len() implies s.contains(#[trigger] f[k]) && p(f[k]) by {
        s.lemma_filter_pred(p, k);
        assert(f.contains(f[k]));
        s.lemma_filter_contains_rev(p, f[k]);
    }
}

} // verus!
