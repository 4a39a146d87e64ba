//! The pool of review comments. Every mutation is first proposed as a whole
//! new state; it takes effect once that state has been persisted, so a failed
//! write leaves the live store exactly as it was.

use crate::comments;
use crate::comments::{Comment, CommentView, Placed};
use crate::deep;
use crate::git::diff::{DiffResult, FileDiffView};
use crate::text;
use vstd::prelude::*;

verus! {

broadcast use crate::deep::group_deep;

/// A state of the store, as it is persisted.
#[derive(Debug)]
pub struct StoreState {
    pub next_id: u64,
    pub comments: Vec<Comment>,
}

/// What a store holds.
#[verifier::ext_equal]
pub struct StoreView {
    pub next_id: u64,
    pub comments: Seq<CommentView>,
}

impl View for StoreState {
    type V = StoreView;

    open spec fn view(&self) -> StoreView {
        StoreView { next_id: self.next_id, comments: deep::deep(self.comments@) }
    }
}

impl StoreState {
    /// A copy of the state.
    pub fn copy(&self) -> (r: StoreState)
        ensures
            r@ == self@,
    {
        StoreState {
            next_id: self.next_id,
            comments: comments::copy_comments(self.comments.as_slice()),
        }
    }
}

/// One comment pool per repo, persisted in the gitdir (never the worktree).
#[derive(Debug)]
pub struct CommentStore {
    comments: Vec<Comment>,
    next_id: u64,
}

impl View for CommentStore {
    type V = StoreView;

    closed spec fn view(&self) -> StoreView {
        StoreView { next_id: self.next_id, comments: deep::deep(self.comments@) }
    }
}

/// The id after `id`, or the last one.
pub open spec fn following(id: u64) -> u64 {
    if id == u64::MAX {
        id
    } else {
        (id + 1) as u64
    }
}

/// The smallest id, at least `floor`, that is past the ids of the comments.
pub open spec fn fresh_id(comments: Seq<CommentView>, floor: u64) -> u64
    decreases comments.len(),
{
    if comments.len() == 0 {
        floor
    } else {
        let before = fresh_id(comments.drop_last(), floor);
        if following(comments.last().id) > before {
            following(comments.last().id)
        } else {
            before
        }
    }
}

/// Index of the first comment with the id; the length if there is none.
pub open spec fn id_index(comments: Seq<CommentView>, id: u64, from: int) -> int
    decreases comments.len() - from,
{
    if from < 0 || from >= comments.len() {
        comments.len() as int
    } else if comments[from].id == id {
        from
    } else {
        id_index(comments, id, from + 1)
    }
}

/// The comments without those that have the id.
pub open spec fn without_id(comments: Seq<CommentView>, id: u64) -> Seq<CommentView>
    decreases comments.len(),
{
    if comments.len() == 0 {
        comments
    } else if comments.last().id == id {
        without_id(comments.drop_last(), id)
    } else {
        without_id(comments.drop_last(), id).push(comments.last())
    }
}

/// How many comments are on the path.
pub open spec fn path_count(comments: Seq<CommentView>, path: Seq<char>) -> nat
    decreases comments.len(),
{
    if comments.len() == 0 {
        0
    } else {
        path_count(comments.drop_last(), path) + (if comments.last().path == path {
            1nat
        } else {
            0nat
        })
    }
}

impl StoreView {
    /// The state after adding a comment; `None` once the ids are used up.
    pub open spec fn added(self, c: CommentView) -> Option<StoreView> {
        if self.next_id == u64::MAX {
            None
        } else {
            Some(
                StoreView {
                    next_id: (self.next_id + 1) as u64,
                    comments: self.comments.push(CommentView { id: self.next_id, ..c }),
                },
            )
        }
    }

    /// The state after changing the text of a comment; `None` if there is no
    /// such comment.
    pub open spec fn edited(self, id: u64, body: Seq<char>) -> Option<StoreView> {
        let k = id_index(self.comments, id, 0);
        if k < self.comments.len() {
            Some(
                StoreView {
                    comments: self.comments.update(
                        k,
                        CommentView { body, ..self.comments[k] },
                    ),
                    ..self
                },
            )
        } else {
            None
        }
    }

    /// The state without the comments that have the id; `None` if there are none.
    pub open spec fn deleted(self, id: u64) -> Option<StoreView> {
        let rest = without_id(self.comments, id);
        if rest.len() == self.comments.len() {
            None
        } else {
            Some(StoreView { comments: rest, ..self })
        }
    }

    /// The state without comments; `None` if there are none already.
    pub open spec fn emptied(self) -> Option<StoreView> {
        if self.comments.len() == 0 {
            None
        } else {
            Some(StoreView { comments: Seq::empty(), ..self })
        }
    }

    /// The state with comments put back; `None` if there are none to put back.
    pub open spec fn restored(self, back: Seq<CommentView>) -> Option<StoreView> {
        if back.len() == 0 {
            None
        } else {
            Some(StoreView { comments: self.comments + back, ..self })
        }
    }

    /// The state after re-anchoring; `None` if that changes nothing.
    pub open spec fn moved(self, files: Seq<FileDiffView>) -> Option<StoreView> {
        let after = comments::all_settled(files, self.comments);
        if after == self.comments {
            None
        } else {
            Some(StoreView { comments: after, ..self })
        }
    }

    /// Every id in use is below the next one, unless the ids are used up.
    pub open spec fn ids_below_next(self) -> bool {
        self.next_id == u64::MAX || forall|i: int|
            0 <= i < self.comments.len() ==> (#[trigger] self.comments[i]).id < self.next_id
    }
}

proof fn lemma_fresh_id(comments: Seq<CommentView>, floor: u64)
    ensures
        fresh_id(comments, floor) >= floor,
        forall|i: int|
            0 <= i < comments.len() ==> following((#[trigger] comments[i]).id) <= fresh_id(
                comments,
                floor,
            ),
    decreases comments.len(),
{
    if comments.len() > 0 {
        lemma_fresh_id(comments.drop_last(), floor);
        assert forall|i: int| 0 <= i < comments.len() implies following(
            (#[trigger] comments[i]).id,
        ) <= fresh_id(comments, floor) by {
            if i < comments.len() - 1 {
                assert(comments.drop_last()[i] == comments[i]);
            }
        }
    }
}

/// A store opened from persisted data has every id in use below the next one.
pub proof fn lemma_loaded_ids(comments: Seq<CommentView>, floor: u64)
    ensures
        (StoreView { next_id: fresh_id(comments, floor), comments }).ids_below_next(),
{
    lemma_fresh_id(comments, floor);
    let s = StoreView { next_id: fresh_id(comments, floor), comments };
    if s.next_id != u64::MAX {
        assert forall|i: int| 0 <= i < comments.len() implies (#[trigger] comments[i]).id
            < s.next_id by {
            assert(following(comments[i].id) <= s.next_id);
        }
    }
}

/// A new comment gets an id that no comment has, and the next id stays past
/// all of them.
pub proof fn lemma_added_id_is_unique(s: StoreView, c: CommentView)
    requires
        s.ids_below_next(),
        s.added(c) is Some,
    ensures
        s.added(c)->0.ids_below_next(),
        forall|i: int| 0 <= i < s.comments.len() ==> (#[trigger] s.comments[i]).id != s.added(c)->0.comments.last().id,
        s.added(c)->0.comments.last().id == s.next_id,
{
    let after = s.added(c)->0;
    assert forall|i: int| 0 <= i < after.comments.len() implies after.next_id == u64::MAX || (
    #[trigger] after.comments[i]).id < after.next_id by {
        if i < s.comments.len() {
            assert(after.comments[i] == s.comments[i]);
        }
    }
}

proof fn lemma_without_id_subset(comments: Seq<CommentView>, id: u64)
    ensures
        forall|i: int|
            0 <= i < without_id(comments, id).len() ==> comments.contains(
                #[trigger] without_id(comments, id)[i],
            ) && without_id(comments, id)[i].id != id,
        without_id(comments, id).len() <= comments.len(),
    decreases comments.len(),
{
    if comments.len() > 0 {
        let front = comments.drop_last();
        lemma_without_id_subset(front, id);
        let r = without_id(comments, id);
        assert forall|i: int| 0 <= i < r.len() implies comments.contains(#[trigger] r[i]) && r[i].id
            != id by {
            if i < without_id(front, id).len() {
                assert(r[i] == without_id(front, id)[i]);
                let k = front.index_of(r[i]);
                assert(front.contains(r[i]));
                assert(comments[k] == r[i]);
            } else {
                assert(r[i] == comments[comments.len() - 1]);
            }
        }
    }
}

/// Deleting leaves no comment with the id and invents none.
pub proof fn lemma_deleted(s: StoreView, id: u64)
    requires
        s.deleted(id) is Some,
    ensures
        forall|i: int|
            0 <= i < s.deleted(id)->0.comments.len() ==> (#[trigger] s.deleted(id)->0.comments[i]).id
                != id && s.comments.contains(s.deleted(id)->0.comments[i]),
        s.ids_below_next() ==> s.deleted(id)->0.ids_below_next(),
{
    lemma_without_id_subset(s.comments, id);
    let after = s.deleted(id)->0;
    if s.ids_below_next() && s.next_id != u64::MAX {
        assert forall|i: int| 0 <= i < after.comments.len() implies (#[trigger] after.comments[i]).id
            < after.next_id by {
            assert(s.comments.contains(after.comments[i]));
            let k = s.comments.index_of(after.comments[i]);
            assert(s.comments[k].id < s.next_id);
        }
    }
}

/// Putting comments back keeps every id in use below the next one, provided
/// they were minted before: the next id never decreases.
pub proof fn lemma_restored_ids(s: StoreView, back: Seq<CommentView>)
    requires
        s.ids_below_next(),
        s.restored(back) is Some,
        forall|i: int| 0 <= i < back.len() ==> (#[trigger] back[i]).id < s.next_id,
    ensures
        s.restored(back)->0.ids_below_next(),
{
    let after = s.restored(back)->0;
    assert forall|i: int| 0 <= i < after.comments.len() implies after.next_id == u64::MAX || (
    #[trigger] after.comments[i]).id < after.next_id by {
        if i < s.comments.len() {
            assert(after.comments[i] == s.comments[i]);
        } else {
            assert(after.comments[i] == back[i - s.comments.len()]);
        }
    }
}

/// Deleting everything and putting it back gives the store back as it was.
pub proof fn lemma_undo_delete_all(s: StoreView)
    requires
        s.comments.len() > 0,
    ensures
        s.emptied() is Some,
        s.emptied()->0.restored(s.comments) == Some(s),
{
    assert(s.emptied()->0.restored(s.comments)->0 =~= s);
}

/// Deleting the only comment with an id and putting it back loses nothing:
/// the same comments are there, the one put back at the end.
pub proof fn lemma_undo_delete(s: StoreView, k: int)
    requires
        0 <= k < s.comments.len(),
        forall|i: int| 0 <= i < s.comments.len() && i != k ==> (#[trigger] s.comments[i]).id
            != s.comments[k].id,
    ensures
        s.deleted(s.comments[k].id) is Some,
        s.deleted(s.comments[k].id)->0.comments == s.comments.remove(k),
        s.deleted(s.comments[k].id)->0.restored(seq![s.comments[k]])->0.comments
            == s.comments.remove(k).push(s.comments[k]),
{
    lemma_without_one(s.comments, k);
    let c = s.comments[k];
    assert(s.comments.remove(k) + seq![c] =~= s.comments.remove(k).push(c));
}

proof fn lemma_without_one(comments: Seq<CommentView>, k: int)
    requires
        0 <= k < comments.len(),
        forall|i: int| 0 <= i < comments.len() && i != k ==> (#[trigger] comments[i]).id
            != comments[k].id,
    ensures
        without_id(comments, comments[k].id) == comments.remove(k),
    decreases comments.len(),
{
    let id = comments[k].id;
    let front = comments.drop_last();
    if k == comments.len() - 1 {
        lemma_without_none(front, id);
        assert(comments.remove(k) =~= front);
    } else {
        assert forall|i: int| 0 <= i < front.len() && i != k implies (#[trigger] front[i]).id
            != id by {
            assert(front[i] == comments[i]);
        }
        lemma_without_one(front, k);
        assert(comments[comments.len() - 1].id != id);
        assert(comments.remove(k) =~= front.remove(k).push(comments.last()));
    }
}

proof fn lemma_without_none(comments: Seq<CommentView>, id: u64)
    requires
        forall|i: int| 0 <= i < comments.len() ==> (#[trigger] comments[i]).id != id,
    ensures
        without_id(comments, id) == comments,
    decreases comments.len(),
{
    if comments.len() > 0 {
        let front = comments.drop_last();
        assert forall|i: int| 0 <= i < front.len() implies (#[trigger] front[i]).id != id by {
            assert(front[i] == comments[i]);
        }
        lemma_without_none(front, id);
        assert(comments[comments.len() - 1].id != id);
        assert(comments =~= front.push(comments.last()));
    }
}

fn find_id(comments: &[Comment], id: u64) -> (r: usize)
    ensures
        r == id_index(deep::deep(comments@), id, 0),
        r <= comments@.len(),
{
    let ghost all = deep::deep(comments@);
    let mut i: usize = 0;
    while i < comments.len()
        invariant
            i <= comments@.len(),
            all == deep::deep(comments@),
            id_index(all, id, i as int) == id_index(all, id, 0),
        decreases comments@.len() - i,
    {
        assert(all[i as int] == comments@[i as int]@);
        if comments[i].id == id {
            return i;
        }
        i += 1;
    }
    i
}

impl CommentStore {
    /// The store for persisted data. The next id is past every id in use,
    /// whatever the data says.
    pub fn load(data: StoreState) -> (r: Self)
        ensures
            r@ == (StoreView {
                next_id: fresh_id(
                    data@.comments,
                    if data.next_id == 0 {
                        1
                    } else {
                        data.next_id
                    },
                ),
                comments: data@.comments,
            }),
            r@.ids_below_next(),
    {
        let ghost all = data@.comments;
        let floor: u64 = if data.next_id == 0 {
            1
        } else {
            data.next_id
        };
        let mut next_id: u64 = floor;
        let mut i: usize = 0;
        while i < data.comments.len()
            invariant
                i <= data.comments@.len(),
                all == deep::deep(data.comments@),
                next_id == fresh_id(all.take(i as int), floor),
            decreases data.comments@.len() - i,
        {
            assert(all.take(i + 1).drop_last() =~= all.take(i as int));
            assert(all.take(i + 1).last() == data.comments@[i as int]@);
            let follow: u64 = data.comments[i].id.saturating_add(1);
            if follow > next_id {
                next_id = follow;
            }
            i += 1;
        }
        assert(all.take(i as int) =~= all);
        proof {
            lemma_loaded_ids(all, floor);
        }
        CommentStore { comments: data.comments, next_id }
    }

    /// The empty store.
    pub fn empty() -> (r: Self)
        ensures
            r@ == (StoreView { next_id: 1, comments: Seq::empty() }),
            r@.ids_below_next(),
    {
        let r = CommentStore { comments: Vec::new(), next_id: 1 };
        assert(r@ =~= (StoreView { next_id: 1, comments: Seq::empty() }));
        r
    }

    /// Takes over a state that has been persisted.
    pub fn commit_state(&mut self, state: StoreState)
        ensures
            final(self)@ == state@,
    {
        self.comments = state.comments;
        self.next_id = state.next_id;
    }

    /// The state with one more comment.
    pub fn add(
        &self,
        path: String,
        new_side: bool,
        lines: (u32, u32),
        snippet: Vec<String>,
        body: String,
        scope: String,
        created_at: u64,
    ) -> (r: Result<StoreState, String>)
        ensures
            match self@.added(
                CommentView {
                    id: 0,
                    path: path@,
                    new_side,
                    lines,
                    snippet: deep::deep(snippet@),
                    body: body@,
                    created_at,
                    scope: scope@,
                    outdated: false,
                },
            ) {
                Some(s) => r matches Ok(t) && t@ == s,
                None => r matches Err(e) && e@ == "comment id space exhausted"@,
            },
    {
        let id: u64 = self.next_id;
        if id == u64::MAX {
            return Err(text::copy("comment id space exhausted"));
        }
        let mut all: Vec<Comment> = comments::copy_comments(self.comments.as_slice());
        let c = Comment {
            id,
            path,
            new_side,
            lines,
            snippet,
            body,
            created_at,
            scope,
            outdated: false,
        };
        all.push(c);
        Ok(StoreState { next_id: id + 1, comments: all })
    }

    /// The state with the text of a comment changed; `None` if there is no
    /// such comment.
    pub fn edit(&self, id: u64, body: String) -> (r: Option<StoreState>)
        ensures
            deep::deep_opt(r) == self@.edited(id, body@),
    {
        let k: usize = find_id(self.comments.as_slice(), id);
        if k == self.comments.len() {
            return None;
        }
        let mut all: Vec<Comment> = comments::copy_comments(self.comments.as_slice());
        let ghost before = deep::deep(all@);
        let mut c: Comment = self.comments[k].copy();
        c.body = body;
        all.set(k, c);
        assert(deep::deep(all@) =~= before.update(
            k as int,
            CommentView { body: body@, ..before[k as int] },
        ));
        Some(StoreState { next_id: self.next_id, comments: all })
    }

    /// The state without a comment; `None` if there is no such comment.
    pub fn delete(&self, id: u64) -> (r: Option<StoreState>)
        ensures
            deep::deep_opt(r) == self@.deleted(id),
    {
        let ghost all = deep::deep(self.comments@);
        let mut rest: Vec<Comment> = Vec::new();
        let mut i: usize = 0;
        while i < self.comments.len()
            invariant
                i <= self.comments@.len(),
                all == deep::deep(self.comments@),
                deep::deep(rest@) == without_id(all.take(i as int), id),
            decreases self.comments@.len() - i,
        {
            assert(all.take(i + 1).drop_last() =~= all.take(i as int));
            assert(all.take(i + 1).last() == self.comments@[i as int]@);
            if self.comments[i].id != id {
                rest.push(self.comments[i].copy());
            }
            i += 1;
        }
        assert(all.take(i as int) =~= all);
        if rest.len() == self.comments.len() {
            None
        } else {
            Some(StoreState { next_id: self.next_id, comments: rest })
        }
    }

    /// The state without comments; `None` if there are none already.
    pub fn delete_all(&self) -> (r: Option<StoreState>)
        ensures
            deep::deep_opt(r) == self@.emptied(),
    {
        if self.comments.len() == 0 {
            None
        } else {
            let s = StoreState { next_id: self.next_id, comments: Vec::new() };
            assert(s@ =~= self@.emptied()->0);
            Some(s)
        }
    }

    /// The state with comments removed by a delete put back (the `u` undo).
    /// Ids were minted by this store and stay unique because the next id never
    /// decreases.
    pub fn restore(&self, back: Vec<Comment>) -> (r: Option<StoreState>)
        ensures
            deep::deep_opt(r) == self@.restored(deep::deep(back@)),
    {
        if back.len() == 0 {
            return None;
        }
        let mut all: Vec<Comment> = comments::copy_comments(self.comments.as_slice());
        let mut rest = back;
        all.append(&mut rest);
        Some(StoreState { next_id: self.next_id, comments: all })
    }

    /// Re-anchors all comments against a diff: the placements, and the state
    /// to persist if a comment moved or its outdated flag changed.
    pub fn reanchor(&self, diff: &DiffResult) -> (r: (Vec<Placed>, Option<StoreState>))
        ensures
            r.0@ == comments::placements(diff@.files, self@.comments),
            deep::deep_opt(r.1) == self@.moved(diff@.files),
    {
        let mut all: Vec<Comment> = comments::copy_comments(self.comments.as_slice());
        let (placed, changed) = comments::reanchor(diff, &mut all);
        if changed {
            (placed, Some(StoreState { next_id: self.next_id, comments: all }))
        } else {
            (placed, None)
        }
    }

    /// How many comments are on the path.
    pub fn count_for_path(&self, path: &str) -> (r: usize)
        ensures
            r == path_count(self@.comments, path@),
    {
        let ghost all = deep::deep(self.comments@);
        let mut n: usize = 0;
        let mut i: usize = 0;
        while i < self.comments.len()
            invariant
                i <= self.comments@.len(),
                all == deep::deep(self.comments@),
                n <= i,
                n == path_count(all.take(i as int), path@),
            decreases self.comments@.len() - i,
        {
            assert(all.take(i + 1).drop_last() =~= all.take(i as int));
            assert(all.take(i + 1).last() == self.comments@[i as int]@);
            if text::same(self.comments[i].path.as_str(), path) {
                n += 1;
            }
            i += 1;
        }
        assert(all.take(i as int) =~= all);
        n
    }

    pub fn comments(&self) -> (r: &[Comment])
        ensures
            deep::deep(r@) == self@.comments,
    {
        self.comments.as_slice()
    }

    /// The state that is in effect, as it is persisted.
    pub fn state(&self) -> (r: StoreState)
        ensures
            r@ == self@,
    {
        StoreState {
            next_id: self.next_id,
            comments: comments::copy_comments(self.comments.as_slice()),
        }
    }
}

} // verus!
