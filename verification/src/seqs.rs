//! Facts about filtered sequences.

use vstd::prelude::*;

verus! {

/// The indices of the elements of `s` that satisfy `pred`, in order.
pub open spec fn kept_indices<A>(s: Seq<A>, pred: spec_fn(A) -> bool) -> Seq<int>
    decreases s.len(),
{
    if s.len() == 0 {
        Seq::empty()
    } else {
        let front = kept_indices(s.drop_last(), pred);
        if pred(s.last()) {
            front.push(s.len() - 1)
        } else {
            front
        }
    }
}

/// Whether the element at index `k` of `s` satisfies `pred`.
pub open spec fn is_kept<A>(s: Seq<A>, pred: spec_fn(A) -> bool, k: int) -> bool {
    0 <= k < s.len() && pred(s[k])
}

/// A filtered sequence holds exactly the elements that satisfy the
/// predicate, in their old order: `kept_indices` says where each came from.
pub proof fn lemma_kept_indices<A>(s: Seq<A>, pred: spec_fn(A) -> bool)
    ensures
        kept_indices(s, pred).len() == s.filter(pred).len(),
        forall|i: int|
            0 <= i < kept_indices(s, pred).len() ==> 0 <= (#[trigger] kept_indices(s, pred)[i])
                < s.len() && s[kept_indices(s, pred)[i]] == s.filter(pred)[i] && pred(
                s.filter(pred)[i],
            ),
        forall|i: int, j: int|
            0 <= i < j < kept_indices(s, pred).len() ==> (#[trigger] kept_indices(s, pred)[i]) < (
            #[trigger] kept_indices(s, pred)[j]),
        forall|k: int|
            #[trigger] is_kept(s, pred, k) ==> exists|i: int|
                0 <= i < kept_indices(s, pred).len() && #[trigger] kept_indices(s, pred)[i] == k,
    decreases s.len(),
{
    reveal(Seq::filter);
    if s.len() > 0 {
        let t = s.drop_last();
        lemma_kept_indices(t, pred);
        let m = kept_indices(s, pred);
        let mt = kept_indices(t, pred);
        let f = s.filter(pred);
        let ft = t.filter(pred);
        assert forall|i: int| 0 <= i < m.len() implies 0 <= (#[trigger] m[i]) < s.len() && s[m[i]]
            == f[i] && pred(f[i]) by {
            if i < mt.len() {
                assert(m[i] == mt[i]);
                assert(t[mt[i]] == s[mt[i]]);
                assert(f[i] == ft[i]);
            }
        }
        assert forall|i: int, j: int| 0 <= i < j < m.len() implies (#[trigger] m[i]) < (
        #[trigger] m[j]) by {
            if j < mt.len() {
                assert(m[i] == mt[i] && m[j] == mt[j]);
            } else {
                assert(m[i] == mt[i]);
            }
        }
        assert forall|k: int| #[trigger] is_kept(s, pred, k) implies exists|i: int|
            0 <= i < m.len() && #[trigger] m[i] == k by {
            if k < t.len() {
                assert(t[k] == s[k]);
                assert(is_kept(t, pred, k));
                let i = choose|i: int| 0 <= i < mt.len() && #[trigger] mt[i] == k;
                assert(m[i] == k);
            } else {
                assert(m[m.len() - 1] == k);
            }
        }
    }
}

} // verus!
