//! Where the elements of a filtered list come from.

use vstd::prelude::*;

verus! {

/// Every element that a filter leaves is one of the list and passes.
pub proof fn lemma_filtered<T>(s: Seq<T>, pick: spec_fn(T) -> bool, k: int) -> (i: int)
    requires
        0 <= k < s.filter(pick).len(),
    ensures
        0 <= i < s.len(),
        s[i] == s.filter(pick)[k],
        pick(s[i]),
    decreases s.len(),
{
    reveal(Seq::filter);
    if pick(s.last()) && k == s.filter(pick).len() - 1 {
        s.len() - 1
    } else {
        let front = s.drop_last();
        let i = lemma_filtered(front, pick, k);
        assert(front[i] == s[i]);
        i
    }
}

} // verus!
