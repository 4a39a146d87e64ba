//! How a review changes: files shown in full, reloads, and where comments are
//! shown.

use crate::app::layout::TreeResizeResult;
use crate::app::review;
use crate::app::review::{FullContextView, InstallView, NextView, ReviewView, ToggleView};
use crate::comments;
use crate::comments::{Anchor, CommentView, Placed};
use crate::git::context;
use crate::git::diff;
use crate::git::diff::{DiffLineView, DiffView, FileDiffView, HunkView};
use crate::laws::storing;
use crate::store::StoreView;
use vstd::prelude::*;

verus! {

// ---- which files are shown in full --------------------------------------------------

/// One of the entries is for the path.
pub open spec fn listed(entries: Seq<FullContextView>, path: Seq<char>) -> bool {
    exists|i: int| 0 <= i < entries.len() && (#[trigger] entries[i]).path == path
}

proof fn lemma_entry(entries: Seq<FullContextView>, path: Seq<char>, i: int)
    requires
        0 <= i <= entries.len(),
    ensures
        ({
            let k = review::entry_index(entries, path, i);
            &&& i <= k <= entries.len()
            &&& k < entries.len() ==> entries[k].path == path
            &&& forall|j: int| i <= j < k ==> (#[trigger] entries[j]).path != path
        }),
    decreases entries.len() - i,
{
    if i < entries.len() && entries[i].path != path {
        lemma_entry(entries, path, i + 1);
    }
}

proof fn lemma_listed(entries: Seq<FullContextView>, path: Seq<char>)
    ensures
        review::wants(entries, path) == listed(entries, path),
        listed(entries, path) ==> entries[review::entry_index(entries, path, 0)].path == path,
        0 <= review::entry_index(entries, path, 0) <= entries.len(),
{
    lemma_entry(entries, path, 0);
    if listed(entries, path) {
        let i = choose|i: int| 0 <= i < entries.len() && (#[trigger] entries[i]).path == path;
        assert(entries[i].path == path);
    }
}

/// The diff is the same but for the first file of a path, which is `f` now.
pub open spec fn only_replaced(
    before: DiffView,
    after: DiffView,
    path: Seq<char>,
    f: FileDiffView,
) -> bool {
    &&& after.files.len() == before.files.len()
    &&& after.additions == before.additions && after.deletions == before.deletions
    &&& forall|i: int|
        0 <= i < before.files.len() ==> #[trigger] after.files[i] == (if before.files[i].path
            == path && forall|j: int| 0 <= j < i ==> (#[trigger] before.files[j]).path != path {
            f
        } else {
            before.files[i]
        })
}

proof fn lemma_replaced(r: ReviewView, path: Seq<char>, f: FileDiffView)
    ensures
        only_replaced(r.diff, r.with_file(path, f), path, f),
{
    let files = r.diff.files;
    diff::lemma_path_index(files, path);
    let k = diff::path_index(files, path);
    let after = r.with_file(path, f);
    assert forall|i: int| 0 <= i < files.len() implies #[trigger] after.files[i] == (if files[i].path
        == path && forall|j: int| 0 <= j < i ==> (#[trigger] files[j]).path != path {
        f
    } else {
        files[i]
    }) by {
        if i == k {
            assert(forall|j: int| 0 <= j < i ==> (#[trigger] files[j]).path != path);
        } else if files[i].path == path && i > k {
            assert(files[k].path == path);
        }
    }
}

/// Activating a file that is shown in full shows it as it was again; one that can
/// be expanded is remembered as it is and asked for; any other is left alone.
pub proof fn lemma_toggling(r: ReviewView, fi: usize)
    requires
        r.stream.file_here() == Some(fi),
        fi < r.diff.files.len(),
    ensures
        ({
            let f = r.diff.files[fi as int];
            let (after, what) = r.toggled();
            if listed(r.full_context, f.path) {
                &&& after == r
                &&& what matches ToggleView::Collapse(next) && {
                    let k = review::entry_index(r.full_context, f.path, 0);
                    &&& r.full_context[k].path == f.path
                    &&& only_replaced(r.diff, next.diff, f.path, r.full_context[k].base)
                    &&& next.full_context == r.full_context.remove(k)
                    &&& next.reader == r.reader()
                }
            } else if context::eligible(f) {
                &&& what == (ToggleView::Load { path: f.path, old_path: f.old_path })
                &&& after.full_context.drop_last() == r.full_context
                &&& after.full_context.last() == (FullContextView {
                    path: f.path,
                    base: f,
                    loading: true,
                })
                &&& after.diff == r.diff && after.stream == r.stream && after.tree == r.tree
            } else {
                after == r && what is Unavailable
            }
        }),
{
    let f = r.diff.files[fi as int];
    lemma_listed(r.full_context, f.path);
    let k = review::entry_index(r.full_context, f.path, 0);
    if listed(r.full_context, f.path) {
        lemma_replaced(r, f.path, r.full_context[k].base);
    } else {
        let after = r.toggled().0;
        if context::eligible(f) {
            assert(after.full_context.drop_last() =~= r.full_context);
        }
    }
}

/// What is said of the current file is what activating it would do: collapse what
/// is shown in full or still loading, load what can be, and nothing otherwise.
pub proof fn lemma_status_tells_the_toggle(r: ReviewView)
    ensures
        r.full_status() is None <==> r.toggled().1 is Unavailable,
        r.full_status() == Some((false, false)) <==> r.toggled().1 is Load,
        (r.full_status() matches Some((true, _))) <==> r.toggled().1 is Collapse,
{
    if let Some(fi) = r.stream.file_here() {
        lemma_listed(r.full_context, r.diff.files[fi as int].path);
    }
}

/// A resize that worked is kept, and the tree is shown; one that did not leaves
/// the width as it was.
pub proof fn lemma_resizing(r: ReviewView, wider: bool)
    ensures
        ({
            let (t, how) = r.resized(wider);
            &&& t.show_tree
            &&& how matches TreeResizeResult::Changed(w) ==> t.tree_width == Some(w)
            &&& !(how is Changed) ==> t.tree_width == r.tree_width
            &&& t.stream == r.stream && t.tree == r.tree && t.diff == r.diff && t.focus == r.focus
        }),
{
}

/// A file that arrives in full is shown if it was asked for and still makes the
/// changes that the review shows; with other changes it is refused and asked for
/// no more; and one that nobody asked for does nothing.
pub proof fn lemma_arriving(r: ReviewView, path: Seq<char>, full: FileDiffView)
    ensures
        ({
            let (after, outcome) = r.arrived(path, full);
            let k = review::entry_index(r.full_context, path, 0);
            &&& !listed(r.full_context, path) ==> after == r && outcome is Ignored
            &&& listed(r.full_context, path) ==> {
                let e = r.full_context[k];
                let same = context::changes(e.base.hunks) == context::changes(full.hunks);
                &&& e.path == path
                &&& !same ==> outcome is Refused && after.full_context == r.full_context.remove(k)
                    && after.diff == r.diff && after.stream == r.stream
                &&& same && (exists|i: int|
                    0 <= i < r.diff.files.len() && (#[trigger] r.diff.files[i]).path == path)
                    ==> after == r && (outcome matches InstallView::Install(next) && {
                    &&& only_replaced(r.diff, next.diff, path, context::marked(e.base, full))
                    &&& next.full_context.len() == r.full_context.len()
                    &&& next.full_context[k].base == e.base && !next.full_context[k].loading
                    &&& next.reader == r.reader()
                })
            }
        }),
{
    lemma_listed(r.full_context, path);
    diff::lemma_path_index(r.diff.files, path);
    let k = review::entry_index(r.full_context, path, 0);
    let files = r.diff.files;
    if listed(r.full_context, path) {
        lemma_replaced(r, path, context::marked(r.full_context[k].base, full));
        if exists|i: int| 0 <= i < files.len() && (#[trigger] files[i]).path == path {
            let i = choose|i: int| 0 <= i < files.len() && (#[trigger] files[i]).path == path;
            assert(diff::path_index(files, path) <= i) by {
                if i < diff::path_index(files, path) {
                    assert(files[i].path != path);
                }
            }
        }
    }
}

/// A load that failed is forgotten; a file that is shown in full stays.
pub proof fn lemma_cancelling(r: ReviewView, path: Seq<char>)
    ensures
        ({
            let after = r.cancelled(path);
            let k = review::entry_index(r.full_context, path, 0);
            &&& after.diff == r.diff && after.stream == r.stream && after.tree == r.tree
            &&& listed(r.full_context, path) && r.full_context[k].loading ==> after.full_context
                == r.full_context.remove(k)
            &&& !listed(r.full_context, path) || !r.full_context[k].loading ==> after == r
        }),
{
    lemma_listed(r.full_context, path);
}

/// The diff holds a file of the path that can be expanded.
pub open spec fn expandable(files: Seq<FileDiffView>, path: Seq<char>) -> bool {
    exists|i: int|
        0 <= i < files.len() && (#[trigger] files[i]).path == path && context::eligible(files[i])
}

proof fn lemma_eligible(files: Seq<FileDiffView>, path: Seq<char>, i: int)
    requires
        0 <= i <= files.len(),
    ensures
        ({
            let k = review::eligible_index(files, path, i);
            &&& i <= k <= files.len()
            &&& k < files.len() ==> files[k].path == path && context::eligible(files[k])
            &&& forall|j: int|
                i <= j < k ==> !((#[trigger] files[j]).path == path && context::eligible(files[j]))
        }),
    decreases files.len() - i,
{
    if i < files.len() && !(files[i].path == path && context::eligible(files[i])) {
        lemma_eligible(files, path, i + 1);
    }
}

/// After a reload the files that were shown in full are asked for again, in
/// order, as long as they can be expanded; each is remembered as it is now.
pub proof fn lemma_reloading(r: ReviewView, d: DiffView, n: int)
    requires
        0 <= n <= r.full_context.len(),
    ensures
        ({
            let kept = review::carried(r.full_context, d.files, n);
            &&& kept.map_values(|e: FullContextView| e.path) == r.full_context.take(n).map_values(
                |e: FullContextView| e.path,
            ).filter(|p: Seq<char>| expandable(d.files, p))
            &&& forall|i: int|
                0 <= i < kept.len() ==> (#[trigger] kept[i]).loading && kept[i].base.path
                    == kept[i].path && context::eligible(kept[i].base) && d.files.contains(
                    kept[i].base,
                )
            &&& r.reloaded(d).diff == d
            &&& r.reloaded(d).reader == r.reader()
            &&& n == r.full_context.len() ==> r.reloaded(d).full_context == kept
        }),
    decreases n,
{
    let all = r.full_context;
    let path_of = |e: FullContextView| e.path;
    let pick = |p: Seq<char>| expandable(d.files, p);
    let kept = review::carried(all, d.files, n);
    reveal(Seq::filter);
    if n > 0 {
        lemma_reloading(r, d, n - 1);
        let before = review::carried(all, d.files, n - 1);
        let p = all[n - 1].path;
        lemma_eligible(d.files, p, 0);
        let k = review::eligible_index(d.files, p, 0);
        assert(expandable(d.files, p) == (k < d.files.len())) by {
            if expandable(d.files, p) {
                let i = choose|i: int|
                    0 <= i < d.files.len() && (#[trigger] d.files[i]).path == p && context::eligible(
                        d.files[i],
                    );
                assert(d.files[i].path == p);
            }
        }
        let paths = all.take(n).map_values(path_of);
        assert(paths.drop_last() =~= all.take(n - 1).map_values(path_of));
        assert(paths.last() == p);
        if k < d.files.len() {
            assert(d.files.contains(d.files[k]));
            assert(kept.map_values(path_of) =~= before.map_values(path_of).push(p));
            assert forall|i: int| 0 <= i < kept.len() implies (#[trigger] kept[i]).loading
                && kept[i].base.path == kept[i].path && context::eligible(kept[i].base)
                && d.files.contains(kept[i].base) by {
                if i < before.len() {
                    assert(kept[i] == before[i]);
                }
            }
        }
    }
    assert(kept.map_values(path_of) =~= all.take(n).map_values(path_of).filter(pick));
}

/// Expanding a stub puts the files it stood for in its place; all others stay.
pub proof fn lemma_unfolding(r: ReviewView, pos: int, loaded: Seq<FileDiffView>)
    requires
        0 <= pos < r.diff.files.len(),
    ensures
        ({
            let next = r.unfolded(pos, loaded);
            &&& next.diff.files.to_multiset() == r.diff.files.remove(pos).to_multiset().add(
                loaded.to_multiset(),
            )
            &&& diff::in_order(next.diff.files)
            &&& next.full_context == r.full_context
            &&& next.reader == r.reader()
        }),
{
    broadcast use vstd::seq_lib::group_to_multiset_ensures;

    let files = r.diff.files;
    let a = files.take(pos);
    let b = files.skip(pos + 1);
    diff::lemma_sort_files(a + loaded + b);
    vstd::seq_lib::lemma_multiset_commutative(a + loaded, b);
    vstd::seq_lib::lemma_multiset_commutative(a, loaded);
    vstd::seq_lib::lemma_multiset_commutative(a, b);
    assert(files.remove(pos) =~= a + b);
    assert((a + loaded + b).to_multiset() =~= (a + b).to_multiset().add(loaded.to_multiset()));
}

/// A rebuild takes over the diff and what is shown in full, and leaves the scope,
/// the focus, the panes and the open file alone.
pub proof fn lemma_rebuilding(r: ReviewView, next: NextView, s: StoreView, saved: bool)
    ensures
        ({
            let t = r.rebuilt(next, s, saved);
            &&& t.diff == next.diff && t.full_context == next.full_context
            &&& t.scope == r.scope && t.focus == r.focus && t.show_tree == r.show_tree
            &&& t.tree_width == r.tree_width && t.file_view == r.file_view
        }),
{
}

/// The badge of a file counts the comments on its path.
pub proof fn lemma_badges(files: Seq<FileDiffView>, cs: Seq<CommentView>, i: int)
    requires
        0 <= i < files.len(),
        cs.len() <= usize::MAX,
    ensures
        review::counts_of(files, cs).len() == files.len(),
        review::counts_of(files, cs)[i] == cs.filter(|c: CommentView| c.path == files[i].path).len(),
{
    storing::lemma_counting(cs, files[i].path);
    let pick = |c: CommentView| c.path == files[i].path;
    cs.lemma_filter_len(pick);
}

/// Comments that moved are kept where they moved to once that is saved, and where
/// they were otherwise; and only then are they shown.
pub proof fn lemma_moves_count_once_saved(
    s: StoreView,
    files: Seq<FileDiffView>,
    display: Seq<FileDiffView>,
)
    ensures
        review::anchored(s, files, true).comments == comments::all_settled(files, s.comments),
        review::anchored(s, files, false) == s,
        review::anchored(s, files, true).next_id == s.next_id,
        review::shown_placements(files, display, s, false).len() == 0,
{
    assert(s.moved(files) is None ==> comments::all_settled(files, s.comments) == s.comments);
}

// ---- where comments are shown -------------------------------------------------------

/// Two lines are the same line of a file: alike in sign and numbers.
pub open spec fn same_place(a: DiffLineView, b: DiffLineView) -> bool {
    a.origin == b.origin && a.old_lineno == b.old_lineno && a.new_lineno == b.new_lineno
}

proof fn lemma_line_index(lines: Seq<DiffLineView>, want: DiffLineView, from: int)
    requires
        0 <= from <= lines.len(),
    ensures
        ({
            let k = comments::line_index(lines, want, from);
            &&& from <= k <= lines.len()
            &&& k < lines.len() ==> same_place(lines[k], want)
            &&& forall|j: int| from <= j < k ==> !same_place(#[trigger] lines[j], want)
        }),
    decreases lines.len() - from,
{
    if from < lines.len() && !same_place(lines[from], want) {
        lemma_line_index(lines, want, from + 1);
    }
}

/// The hunks show the line.
pub open spec fn shown_in(hunks: Seq<HunkView>, want: DiffLineView, from: int) -> bool {
    exists|h: int, l: int|
        from <= h < hunks.len() && 0 <= l < hunks[h].lines.len() && same_place(
            #[trigger] hunks[h].lines[l],
            want,
        )
}

proof fn lemma_locate(hunks: Seq<HunkView>, want: DiffLineView, h: int)
    requires
        0 <= h <= hunks.len() <= usize::MAX,
        forall|i: int| 0 <= i < hunks.len() ==> (#[trigger] hunks[i]).lines.len() <= usize::MAX,
    ensures
        match comments::locate(hunks, want, h) {
            Anchor::Outdated => !shown_in(hunks, want, h),
            Anchor::Line { hunk, line } => h <= hunk < hunks.len() && line
                < hunks[hunk as int].lines.len() && same_place(
                hunks[hunk as int].lines[line as int],
                want,
            ),
        },
    decreases hunks.len() - h,
{
    if h < hunks.len() {
        lemma_line_index(hunks[h].lines, want, 0);
        let k = comments::line_index(hunks[h].lines, want, 0);
        if k >= hunks[h].lines.len() {
            lemma_locate(hunks, want, h + 1);
            if comments::locate(hunks, want, h) is Outdated && shown_in(hunks, want, h) {
                let (a, b) = choose|a: int, b: int|
                    h <= a < hunks.len() && 0 <= b < hunks[a].lines.len() && same_place(
                        #[trigger] hunks[a].lines[b],
                        want,
                    );
                if a == h {
                    assert(!same_place(hunks[h].lines[b], want));
                } else {
                    assert(shown_in(hunks, want, h + 1));
                }
            }
        }
    }
}

/// A comment is shown on the line it is placed on, wherever the displayed diff
/// has that line, in the file of the same path; an outdated one stays outdated.
pub proof fn lemma_comments_are_shown_on_their_line(
    canonical: Seq<FileDiffView>,
    display: Seq<FileDiffView>,
    p: Placed,
)
    requires
        comments::in_diff(canonical, p),
        comments::countable(display),
        exists|i: int|
            0 <= i < display.len() && (#[trigger] display[i]).path
                == canonical[p.file as int].path,
    ensures
        ({
            let q = comments::displayed(canonical, display, p);
            &&& q.comment == p.comment
            &&& q.file < display.len()
            &&& display[q.file as int].path == canonical[p.file as int].path
            &&& p.anchor is Outdated ==> q.anchor is Outdated
            &&& p.anchor matches Anchor::Line { hunk, line } ==> {
                let want = canonical[p.file as int].hunks[hunk as int].lines[line as int];
                match q.anchor {
                    Anchor::Outdated => !shown_in(display[q.file as int].hunks, want, 0),
                    Anchor::Line { hunk: h, line: l } => h < display[q.file as int].hunks.len() && l
                        < display[q.file as int].hunks[h as int].lines.len() && same_place(
                        display[q.file as int].hunks[h as int].lines[l as int],
                        want,
                    ),
                }
            }
        }),
{
    let path = canonical[p.file as int].path;
    diff::lemma_path_index(display, path);
    let k = diff::path_index(display, path);
    if k >= display.len() {
        let i = choose|i: int| 0 <= i < display.len() && (#[trigger] display[i]).path == path;
        assert(display[i].path != path);
    }
    assert(k < display.len());
    if let Anchor::Line { hunk, line } = p.anchor {
        lemma_locate(
            display[k].hunks,
            canonical[p.file as int].hunks[hunk as int].lines[line as int],
            0,
        );
    }
}

/// All comments whose file is displayed are shown, in order.
pub proof fn lemma_all_comments_are_shown(
    canonical: Seq<FileDiffView>,
    display: Seq<FileDiffView>,
    placed: Seq<Placed>,
)
    ensures
        comments::display_placements(canonical, display, placed) == placed.filter(
            |p: Placed|
                diff::path_index(display, canonical[p.file as int].path) < display.len(),
        ).map_values(|p: Placed| comments::displayed(canonical, display, p)),
    decreases placed.len(),
{
    reveal(Seq::filter);
    if placed.len() > 0 {
        lemma_all_comments_are_shown(canonical, display, placed.drop_last());
    }
    assert(comments::display_placements(canonical, display, placed) =~= placed.filter(
        |p: Placed| diff::path_index(display, canonical[p.file as int].path) < display.len(),
    ).map_values(|p: Placed| comments::displayed(canonical, display, p)));
}

} // verus!
