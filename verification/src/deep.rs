//! Element-wise views of containers: the bridge between vectors of structures
//! and the mathematical sequences contracts speak of.

use vstd::prelude::*;

verus! {

/// Element-wise view of a sequence.
pub open spec fn deep<T: View>(s: Seq<T>) -> Seq<T::V> {
    s.map_values(|x: T| x@)
}

pub broadcast proof fn lemma_deep_len<T: View>(s: Seq<T>)
    ensures
        (#[trigger] deep(s)).len() == s.len(),
{
}

pub broadcast proof fn lemma_deep_index<T: View>(s: Seq<T>, i: int)
    requires
        0 <= i < s.len(),
    ensures
        #[trigger] deep(s)[i] == s[i]@,
{
}

pub broadcast proof fn lemma_deep_push<T: View>(s: Seq<T>, x: T)
    ensures
        #[trigger] deep(s.push(x)) == deep(s).push(x@),
{
    assert(deep(s.push(x)) =~= deep(s).push(x@));
}

pub broadcast proof fn lemma_deep_add<T: View>(a: Seq<T>, b: Seq<T>)
    ensures
        #[trigger] deep(a + b) == deep(a) + deep(b),
{
    assert(deep(a + b) =~= deep(a) + deep(b));
}

pub broadcast proof fn lemma_deep_subrange<T: View>(s: Seq<T>, i: int, j: int)
    requires
        0 <= i <= j <= s.len(),
    ensures
        #[trigger] deep(s.subrange(i, j)) == deep(s).subrange(i, j),
{
    assert(deep(s.subrange(i, j)) =~= deep(s).subrange(i, j));
}

pub broadcast proof fn lemma_deep_update<T: View>(s: Seq<T>, i: int, x: T)
    requires
        0 <= i < s.len(),
    ensures
        #[trigger] deep(s.update(i, x)) == deep(s).update(i, x@),
{
    assert(deep(s.update(i, x)) =~= deep(s).update(i, x@));
}

pub broadcast proof fn lemma_deep_insert<T: View>(s: Seq<T>, i: int, x: T)
    requires
        0 <= i <= s.len(),
    ensures
        #[trigger] deep(s.insert(i, x)) == deep(s).insert(i, x@),
{
    assert(deep(s.insert(i, x)) =~= deep(s).insert(i, x@));
}

pub broadcast proof fn lemma_deep_remove<T: View>(s: Seq<T>, i: int)
    requires
        0 <= i < s.len(),
    ensures
        #[trigger] deep(s.remove(i)) == deep(s).remove(i),
{
    assert(deep(s.remove(i)) =~= deep(s).remove(i));
}

pub broadcast proof fn lemma_deep_empty<T: View>()
    ensures
        #[trigger] deep(Seq::<T>::empty()) == Seq::<T::V>::empty(),
{
    assert(deep(Seq::<T>::empty()) =~= Seq::<T::V>::empty());
}

pub broadcast group group_deep {
    lemma_deep_len,
    lemma_deep_index,
    lemma_deep_push,
    lemma_deep_add,
    lemma_deep_subrange,
    lemma_deep_update,
    lemma_deep_insert,
    lemma_deep_remove,
    lemma_deep_empty,
}

/// View of an optional value.
pub open spec fn deep_opt<T: View>(o: Option<T>) -> Option<T::V> {
    match o {
        Some(x) => Some(x@),
        None => None,
    }
}

} // verus!
