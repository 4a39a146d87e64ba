//! What a scope compares, and how bases and ranges are found.

use crate::git::scope;
use crate::git::scope::{RangeView, ScopeView, SideView};
use crate::laws::picking;
use crate::text;
use vstd::prelude::*;

verus! {

// ---- ranges -------------------------------------------------------------------------

/// Two dots in a row, starting at `i`.
pub open spec fn dots_at(s: Seq<char>, i: int) -> bool {
    0 <= i && i + 1 < s.len() && s[i] == '.' && s[i + 1] == '.'
}

/// A revision has no two dots in a row, and none at either end.
pub open spec fn is_revision(s: Seq<char>) -> bool {
    &&& forall|i: int| !#[trigger] dots_at(s, i)
    &&& s.len() > 0 ==> s[0] != '.' && s.last() != '.'
}

proof fn lemma_two(s: Seq<char>, i: int)
    ensures
        text::occurs_at(s, ".."@, i) <==> dots_at(s, i),
        text::occurs_at(s, "..."@, i) <==> dots_at(s, i) && dots_at(s, i + 1),
{
    reveal_strlit("..");
    reveal_strlit("...");
    if 0 <= i && i + 2 <= s.len() {
        let w = s.subrange(i, i + 2);
        assert(w[0] == s[i] && w[1] == s[i + 1]);
        if dots_at(s, i) {
            assert(w =~= ".."@);
        }
    }
    if 0 <= i && i + 3 <= s.len() {
        let w = s.subrange(i, i + 3);
        assert(w[0] == s[i] && w[1] == s[i + 1] && w[2] == s[i + 2]);
        if dots_at(s, i) && dots_at(s, i + 1) {
            assert(w =~= "..."@);
        }
    }
}

proof fn lemma_first(s: Seq<char>, p: Seq<char>, from: int, at: int)
    requires
        0 <= from <= at,
        text::occurs_at(s, p, at),
        forall|i: int| from <= i < at ==> !#[trigger] text::occurs_at(s, p, i),
    ensures
        text::find_from(s, p, from) == Some(at),
    decreases at - from,
{
    if from < at {
        lemma_first(s, p, from + 1, at);
    }
}

proof fn lemma_nowhere(s: Seq<char>, p: Seq<char>, from: int)
    requires
        0 <= from,
        forall|i: int| !#[trigger] text::occurs_at(s, p, i),
    ensures
        text::find_from(s, p, from) is None,
    decreases s.len() + 1 - from,
{
    if from + p.len() <= s.len() {
        lemma_nowhere(s, p, from + 1);
    }
}

/// What a revision left out stands for.
pub open spec fn or_head(rev: Seq<char>) -> Seq<char> {
    if rev == Seq::<char>::empty() {
        "HEAD"@
    } else {
        rev
    }
}

/// `a..b` is the range from `a` to `b`, `a...b` the one from their merge base;
/// an end left out is HEAD; and a revision by itself is no range.
pub proof fn lemma_ranges(a: Seq<char>, b: Seq<char>)
    requires
        is_revision(a),
        is_revision(b),
    ensures
        scope::range_of(a) is None,
        scope::range_of(a + ".."@ + b) == Some(
            RangeView { from: or_head(a), to: or_head(b), merge_base: false },
        ),
        scope::range_of(a + "..."@ + b) == Some(
            RangeView { from: or_head(a), to: or_head(b), merge_base: true },
        ),
{
    reveal_strlit("..");
    reveal_strlit("...");
    if a.len() == 0 {
        assert(a =~= Seq::empty());
    }
    if b.len() == 0 {
        assert(b =~= Seq::empty());
    }
    assert forall|i: int| !#[trigger] text::occurs_at(a, ".."@, i) by {
        lemma_two(a, i);
        assert(!dots_at(a, i));
    }
    assert forall|i: int| !#[trigger] text::occurs_at(a, "..."@, i) by {
        lemma_two(a, i);
        assert(!dots_at(a, i));
    }
    lemma_nowhere(a, ".."@, 0);
    lemma_nowhere(a, "..."@, 0);
    let n = a.len() as int;
    let s = a + ".."@ + b;
    assert forall|i: int| #[trigger] dots_at(s, i) implies i == n by {
        if i + 1 < n {
            assert(s[i] == a[i] && s[i + 1] == a[i + 1]);
            assert(!dots_at(a, i));
        } else if i + 1 == n {
            assert(s[i] == a.last());
        } else if i == n + 1 {
            assert(s[i + 1] == b[0]);
        } else if i > n + 1 {
            assert(s[i] == b[i - n - 2] && s[i + 1] == b[i + 1 - n - 2]);
            assert(!dots_at(b, i - n - 2));
        }
    }
    assert forall|i: int| !#[trigger] text::occurs_at(s, "..."@, i) by {
        lemma_two(s, i);
    }
    lemma_nowhere(s, "..."@, 0);
    assert forall|i: int| 0 <= i < n implies !#[trigger] text::occurs_at(s, ".."@, i) by {
        lemma_two(s, i);
    }
    lemma_two(s, n);
    assert(dots_at(s, n));
    lemma_first(s, ".."@, 0, n);
    assert(s.take(n) =~= a);
    assert(s.skip(n + 2) =~= b);
    let t = a + "..."@ + b;
    assert forall|i: int| 0 <= i < n implies !#[trigger] text::occurs_at(t, "..."@, i) by {
        lemma_two(t, i);
        if i + 1 < n {
            assert(t[i] == a[i] && t[i + 1] == a[i + 1]);
            assert(!dots_at(a, i));
        } else {
            assert(t[i] == a.last());
        }
    }
    lemma_two(t, n);
    assert(dots_at(t, n) && dots_at(t, n + 1));
    lemma_first(t, "..."@, 0, n);
    assert(t.take(n) =~= a);
    assert(t.skip(n + 3) =~= b);
}

// ---- sides --------------------------------------------------------------------------

/// A side by the name under which a file is looked for: HEAD for its tree, and
/// the revision for its merge base.
pub open spec fn looked_for(side: SideView) -> SideView {
    match side {
        SideView::HeadTree => SideView::Head,
        SideView::MergeBase(rev) => SideView::Revision(rev),
        _ => side,
    }
}

/// A file's content is looked for on the new side of the diff, then on the old
/// one; and the working tree is read exactly where it or the index is the new
/// side. Untracked files belong to the working tree alone.
pub proof fn lemma_content_is_that_of_the_diff(s: ScopeView, max: Option<i64>)
    ensures
        s.sources().len() == 2,
        s.sources()[0] == s.sides().1,
        s.sources()[1] == looked_for(s.sides().0),
        s.worktree() is Some <==> (s.sides().1 is Workdir || s.sides().1 is Index),
        s.worktree() == Some(true) <==> s.sides().1 is Index,
        s.plan(max, None).old == s.sides().0 && s.plan(max, None).new == s.sides().1,
        s.plan(max, None).untracked <==> s.sides().1 is Workdir,
        s.counting().old == s.sides().0 && s.counting().new == s.sides().1,
        s.counting().untracked == s.plan(max, None).untracked,
        s.counting().pathspec is None,
{
}

/// A plan looks at what it is asked for: the one path or all, with content up to
/// the given size, renames found. Counting the working tree reads no content.
pub proof fn lemma_plans(s: ScopeView, max: Option<i64>, path: Option<Seq<char>>)
    ensures
        s.plan(max, path).max_size == max,
        s.plan(max, path).pathspec == path,
        s.plan(max, path).renames,
        s.plan(max, path).untracked_content == s.plan(max, path).untracked,
        s is Uncommitted ==> !s.counting().untracked_content && !s.counting().renames
            && !s.counting().update_index,
        !(s is Uncommitted) ==> s.counting() == s.plan(Some(1048576), None),
{
}

/// A summary in a label is whole, or cut to forty characters of which the last
/// says that it was cut.
pub proof fn lemma_labels_are_short(summary: Seq<char>)
    ensures
        scope::clipped(summary).len() <= 40,
        summary.len() <= 40 ==> scope::clipped(summary) == summary,
        summary.len() > 40 ==> scope::clipped(summary).len() == 40 && scope::clipped(
            summary,
        ).last() == '\u{2026}' && scope::clipped(summary).drop_last().is_prefix_of(summary),
{
    if summary.len() > 40 {
        assert(scope::clipped(summary).drop_last() =~= summary.take(39));
    }
}

// ---- branches -----------------------------------------------------------------------

/// Bases to pick from are all branches but the current one and the names that
/// only point to a remote's default branch, in the order of the list.
pub proof fn lemma_bases_to_pick_from(names: Seq<Seq<char>>, current: Option<Seq<char>>, n: int)
    requires
        0 <= n <= names.len(),
    ensures
        scope::candidates(names, current, n) == names.take(n).filter(
            |b: Seq<char>| Some(b) != current && !text::ends_with(b, "/HEAD"@),
        ),
    decreases n,
{
    reveal(Seq::filter);
    if n > 0 {
        lemma_bases_to_pick_from(names, current, n - 1);
        assert(names.take(n).drop_last() =~= names.take(n - 1));
    } else {
        assert(names.take(n) =~= Seq::empty());
    }
}

/// The usual names of a base, by preference.
pub open spec fn usual_bases() -> Seq<Seq<char>> {
    seq!["main"@, "master"@, "develop"@]
}

/// The base of a branch is its upstream; without one it is the first of the
/// usual names that is a local branch other than the current one; and there is
/// none exactly when none of those is.
pub proof fn lemma_base_of_a_branch(
    current: Option<Seq<char>>,
    upstream: Option<Seq<char>>,
    locals: Seq<Seq<char>>,
    k: int,
)
    requires
        0 <= k < usual_bases().len(),
    ensures
        ({
            let found = scope::detected(current, upstream, locals);
            let name = usual_bases()[k];
            &&& upstream is Some ==> found == upstream
            &&& upstream is None && locals.contains(name) && current != Some(name) && (forall|
                j: int,
            |
                0 <= j < k ==> !locals.contains(#[trigger] usual_bases()[j]) || current == Some(
                    usual_bases()[j],
                )) ==> found == Some(name)
            &&& upstream is None && found is Some ==> locals.contains(found->0) && current != found
                && usual_bases().contains(found->0)
        }),
{
    let u = usual_bases();
    assert(u[0] == "main"@ && u[1] == "master"@ && u[2] == "develop"@);
    assert(u.contains(u[0]) && u.contains(u[1]) && u.contains(u[2]));
}

/// The branches that bound the history of a branch are all other local ones and
/// all remote ones but its own copies.
pub proof fn lemma_bounding_branches(
    locals: Seq<Seq<char>>,
    remotes: Seq<Seq<char>>,
    branch: Seq<char>,
    n: int,
    m: int,
)
    requires
        0 <= n <= locals.len(),
        0 <= m <= remotes.len(),
    ensures
        scope::other_locals(locals, branch, n) == locals.take(n).filter(
            |b: Seq<char>| b != branch,
        ),
        scope::other_remotes(remotes, branch, m) == remotes.take(m).filter(
            |b: Seq<char>| scope::foreign(b, branch),
        ),
    decreases n + m,
{
    reveal(Seq::filter);
    if n > 0 {
        lemma_bounding_branches(locals, remotes, branch, n - 1, m);
        assert(locals.take(n).drop_last() =~= locals.take(n - 1));
    } else {
        assert(locals.take(n) =~= Seq::empty());
        if m > 0 {
            lemma_bounding_branches(locals, remotes, branch, n, m - 1);
        }
    }
    if m > 0 {
        if n > 0 {
            lemma_bounding_branches(locals, remotes, branch, 0, m);
        }
        assert(remotes.take(m).drop_last() =~= remotes.take(m - 1));
    } else {
        assert(remotes.take(m) =~= Seq::empty());
    }
}

proof fn lemma_slash(remote: Seq<char>, rest: Seq<char>, i: int)
    requires
        0 <= i <= remote.len(),
        !remote.contains('/'),
    ensures
        text::next_index(remote + seq!['/'] + rest, '/', i) == remote.len(),
    decreases remote.len() - i,
{
    let s = remote + seq!['/'] + rest;
    if i < remote.len() {
        assert(remote.contains(remote[i]));
        assert(s[i] == remote[i]);
        lemma_slash(remote, rest, i + 1);
    } else {
        assert(s[i] == '/');
    }
}

/// A branch of a remote is foreign unless it is the copy of the given branch,
/// whatever the remote is called, or names the remote's default branch.
pub proof fn lemma_foreign_branches(remote: Seq<char>, name: Seq<char>, branch: Seq<char>)
    requires
        !remote.contains('/'),
    ensures
        ({
            let full = remote + seq!['/'] + name;
            scope::foreign(full, branch) <==> name != branch && !text::ends_with(full, "/HEAD"@)
        }),
{
    let full = remote + seq!['/'] + name;
    lemma_slash(remote, name, 0);
    assert(full.skip((remote.len() + 1) as int) =~= name);
}

/// A branch can be reviewed against its fork point exactly when there is another
/// branch that bounds it.
pub proof fn lemma_forkable(
    branch: Seq<char>,
    locals: Seq<Seq<char>>,
    remotes: Seq<Seq<char>>,
)
    ensures
        scope::has_fork(branch, locals, remotes) <==> ((exists|i: int|
            0 <= i < locals.len() && #[trigger] locals[i] != branch) || (exists|i: int|
            0 <= i < remotes.len() && scope::foreign(#[trigger] remotes[i], branch))),
{
    broadcast use vstd::seq_lib::group_filter_ensures;

    let n = locals.len() as int;
    let m = remotes.len() as int;
    lemma_bounding_branches(locals, remotes, branch, n, m);
    assert(locals.take(n) =~= locals);
    assert(remotes.take(m) =~= remotes);
    let a = |b: Seq<char>| b != branch;
    let c = |b: Seq<char>| scope::foreign(b, branch);
    let x = locals.filter(a);
    let y = remotes.filter(c);
    if x.len() > 0 {
        let i = picking::lemma_filtered(locals, a, 0);
        assert(locals[i] != branch);
    }
    if y.len() > 0 {
        let i = picking::lemma_filtered(remotes, c, 0);
        assert(scope::foreign(remotes[i], branch));
    }
    if exists|i: int| 0 <= i < locals.len() && #[trigger] locals[i] != branch {
        let i = choose|i: int| 0 <= i < locals.len() && #[trigger] locals[i] != branch;
        assert(locals.contains(locals[i]) && a(locals[i]));
        assert(x.contains(locals[i]));
    }
    if exists|i: int| 0 <= i < remotes.len() && scope::foreign(#[trigger] remotes[i], branch) {
        let i = choose|i: int|
            0 <= i < remotes.len() && scope::foreign(#[trigger] remotes[i], branch);
        assert(remotes.contains(remotes[i]) && c(remotes[i]));
        assert(y.contains(remotes[i]));
    }
}

} // verus!
