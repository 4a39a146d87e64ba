//! What the comment store keeps.

use crate::comments;
use crate::comments::CommentView;
use crate::git::diff::FileDiffView;
use crate::store;
use crate::store::StoreView;
use vstd::prelude::*;

verus! {

/// Does a comment have the id?
pub open spec fn has_id(s: Seq<CommentView>, id: u64) -> bool {
    exists|i: int| 0 <= i < s.len() && (#[trigger] s[i]).id == id
}

/// Two comments differ in nothing but the id.
pub open spec fn alike_but_id(a: CommentView, b: CommentView) -> bool {
    a.path == b.path && a.new_side == b.new_side && a.lines == b.lines && a.snippet == b.snippet
        && a.body == b.body && a.created_at == b.created_at && a.scope == b.scope && a.outdated
        == b.outdated
}

/// Two comments differ in nothing but what they say.
pub open spec fn alike_but_body(a: CommentView, b: CommentView) -> bool {
    a.id == b.id && a.path == b.path && a.new_side == b.new_side && a.lines == b.lines && a.snippet
        == b.snippet && a.created_at == b.created_at && a.scope == b.scope && a.outdated
        == b.outdated
}

/// Adding puts one comment at the end under the next id, and leaves the others
/// as they are. It fails only when no id is left.
pub proof fn lemma_adding(s: StoreView, c: CommentView, i: int)
    requires
        0 <= i < s.comments.len(),
    ensures
        s.added(c) is None <==> s.next_id == u64::MAX,
        s.added(c) is Some ==> ({
            let t = s.added(c)->0;
            &&& t.comments.len() == s.comments.len() + 1
            &&& t.comments[i] == s.comments[i]
            &&& alike_but_id(t.comments[s.comments.len() as int], c)
            &&& t.comments[s.comments.len() as int].id == s.next_id
            &&& t.next_id == s.next_id + 1
        }),
{
}

proof fn lemma_id_index(s: Seq<CommentView>, id: u64, from: int)
    requires
        0 <= from <= s.len(),
    ensures
        ({
            let k = store::id_index(s, id, from);
            &&& from <= k <= s.len()
            &&& forall|j: int| from <= j < k ==> (#[trigger] s[j]).id != id
            &&& k < s.len() ==> s[k].id == id
        }),
    decreases s.len() - from,
{
    if from < s.len() && s[from].id != id {
        lemma_id_index(s, id, from + 1);
    }
}

/// Editing changes what the first comment with the id says and nothing else. It
/// fails only when there is no such comment.
pub proof fn lemma_editing(s: StoreView, id: u64, body: Seq<char>, i: int)
    requires
        0 <= i < s.comments.len(),
    ensures
        s.edited(id, body) is Some <==> has_id(s.comments, id),
        s.edited(id, body) is Some ==> ({
            let t = s.edited(id, body)->0;
            let first = s.comments[i].id == id && !has_id(s.comments.take(i), id);
            &&& t.next_id == s.next_id
            &&& t.comments.len() == s.comments.len()
            &&& alike_but_body(t.comments[i], s.comments[i])
            &&& first ==> t.comments[i].body == body
            &&& !first ==> t.comments[i] == s.comments[i]
        }),
{
    lemma_id_index(s.comments, id, 0);
    let k = store::id_index(s.comments, id, 0);
    if k < s.comments.len() {
        assert(s.comments[k].id == id);
        if i > k {
            assert(s.comments.take(i)[k].id == id);
        }
        if has_id(s.comments.take(i), id) {
            let j = choose|j: int| 0 <= j < i && (#[trigger] s.comments.take(i)[j]).id == id;
            assert(s.comments[j].id == id);
        }
    }
}

proof fn lemma_without_id(s: Seq<CommentView>, id: u64)
    ensures
        store::without_id(s, id) == s.filter(|c: CommentView| c.id != id),
        store::without_id(s, id).len() <= s.len(),
        store::without_id(s, id).len() == s.len() <==> !has_id(s, id),
    decreases s.len(),
{
    reveal(Seq::filter);
    if s.len() > 0 {
        let front = s.drop_last();
        lemma_without_id(front, id);
        if has_id(front, id) {
            let i = choose|i: int| 0 <= i < front.len() && (#[trigger] front[i]).id == id;
            assert(s[i].id == id);
        }
        if s.last().id == id {
            assert(s[s.len() - 1].id == id);
        } else if has_id(s, id) {
            let i = choose|i: int| 0 <= i < s.len() && (#[trigger] s[i]).id == id;
            assert(front[i].id == id);
        }
    }
}

/// Deleting leaves every comment that does not have the id, in its order. It
/// fails only when there is nothing to delete.
pub proof fn lemma_deleting(s: StoreView, id: u64)
    ensures
        s.deleted(id) is Some <==> has_id(s.comments, id),
        s.deleted(id) is Some ==> s.deleted(id)->0.next_id == s.next_id
            && s.deleted(id)->0.comments == s.comments.filter(|c: CommentView| c.id != id),
{
    lemma_without_id(s.comments, id);
}

/// Comments put back stand behind the others, in the order given; with none to
/// put back nothing happens. The next id never changes, nor does it when all
/// comments are deleted.
pub proof fn lemma_putting_back(s: StoreView, back: Seq<CommentView>)
    ensures
        s.restored(back) is Some <==> back.len() > 0,
        s.restored(back) is Some ==> s.restored(back)->0.next_id == s.next_id
            && s.comments.is_prefix_of(s.restored(back)->0.comments)
            && s.restored(back)->0.comments.skip(s.comments.len() as int) == back,
        s.emptied() is Some <==> s.comments.len() > 0,
        s.emptied() is Some ==> s.emptied()->0.next_id == s.next_id
            && s.emptied()->0.comments.len() == 0,
{
    if back.len() > 0 {
        let all = s.comments + back;
        assert(all.take(s.comments.len() as int) =~= s.comments);
        assert(all.skip(s.comments.len() as int) =~= back);
    }
}

/// A path counts the comments that are on it.
pub proof fn lemma_counting(s: Seq<CommentView>, path: Seq<char>)
    ensures
        store::path_count(s, path) == s.filter(|c: CommentView| c.path == path).len(),
    decreases s.len(),
{
    reveal(Seq::filter);
    if s.len() > 0 {
        lemma_counting(s.drop_last(), path);
    }
}

proof fn lemma_fresh(s: Seq<CommentView>, floor: u64)
    ensures
        ({
            let next = store::fresh_id(s, floor);
            &&& next >= floor
            &&& forall|i: int|
                0 <= i < s.len() ==> (#[trigger] s[i]).id < next || next == u64::MAX
            &&& next == floor || (exists|i: int|
                0 <= i < s.len() && ((#[trigger] s[i]).id + 1 == next || (s[i].id == u64::MAX && next
                    == u64::MAX)))
        }),
    decreases s.len(),
{
    if s.len() > 0 {
        let front = s.drop_last();
        lemma_fresh(front, floor);
        let before = store::fresh_id(front, floor);
        let next = store::fresh_id(s, floor);
        assert forall|i: int| 0 <= i < s.len() implies (#[trigger] s[i]).id < next || next
            == u64::MAX by {
            if i < front.len() {
                assert(front[i] == s[i]);
            }
        }
        if next == before {
            if next != floor {
                let i = choose|i: int|
                    0 <= i < front.len() && ((#[trigger] front[i]).id + 1 == next || (front[i].id
                        == u64::MAX && next == u64::MAX));
                assert(s[i] == front[i]);
            }
        } else {
            assert(s[s.len() - 1] == s.last());
        }
    }
}

/// The next id of a store that is opened is the smallest one that is past all
/// ids in use and no less than the one that was written down.
pub proof fn lemma_next_id_is_the_smallest(s: Seq<CommentView>, floor: u64, id: u64)
    requires
        id >= floor,
        forall|i: int| 0 <= i < s.len() ==> (#[trigger] s[i]).id < id,
    ensures
        floor <= store::fresh_id(s, floor) <= id,
        forall|i: int| 0 <= i < s.len() ==> (#[trigger] s[i]).id < store::fresh_id(s, floor),
{
    lemma_fresh(s, floor);
    let next = store::fresh_id(s, floor);
    if next != floor {
        let i = choose|i: int|
            0 <= i < s.len() && ((#[trigger] s[i]).id + 1 == next || (s[i].id == u64::MAX && next
                == u64::MAX));
        assert(s[i].id < id);
    }
}

/// Re-anchoring asks to be written down exactly when it moved a comment or
/// changed whether one is outdated; ids are never handed out by it.
pub proof fn lemma_moving(s: StoreView, files: Seq<FileDiffView>)
    ensures
        s.moved(files) is Some <==> exists|i: int|
            0 <= i < s.comments.len() && #[trigger] comments::all_settled(files, s.comments)[i]
                != s.comments[i],
        s.moved(files) is Some ==> s.moved(files)->0.next_id == s.next_id
            && s.moved(files)->0.comments == comments::all_settled(files, s.comments),
{
    let after = comments::all_settled(files, s.comments);
    assert(after.len() == s.comments.len());
    if s.moved(files) is Some {
        if forall|i: int| 0 <= i < s.comments.len() ==> #[trigger] after[i] == s.comments[i] {
            assert(after =~= s.comments);
        }
    }
}

} // verus!
