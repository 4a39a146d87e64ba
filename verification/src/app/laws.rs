//! What holds of a review as a whole.

use crate::app::review;
use crate::app::review::{FullContextView, InstallView, ReaderView, ReviewView, ToggleView};
use crate::comments::{CommentView, Placed};
use crate::git::context;
use crate::git::diff;
use crate::git::diff::FileDiffView;
use crate::store::StoreView;
use crate::ui::rows;
use crate::ui::rows::{Landmark, Row};
use vstd::prelude::*;

verus! {

proof fn lemma_entry_index(expanded: Seq<FullContextView>, path: Seq<char>, i: int)
    requires
        0 <= i <= expanded.len(),
    ensures
        i <= review::entry_index(expanded, path, i) <= expanded.len(),
        review::entry_index(expanded, path, i) < expanded.len() ==> expanded[review::entry_index(
            expanded,
            path,
            i,
        )].path == path,
        forall|j: int|
            i <= j < review::entry_index(expanded, path, i) ==> (#[trigger] expanded[j]).path
                != path,
    decreases expanded.len() - i,
{
    if i < expanded.len() && expanded[i].path != path {
        lemma_entry_index(expanded, path, i + 1);
    }
}

/// Showing a file in full never changes the diff that comments are anchored in.
pub proof fn lemma_expanding_keeps_the_snapshot(r: ReviewView, path: Seq<char>, full: FileDiffView)
    requires
        full.path == path,
        r.arrived(path, full).1 is Install,
    ensures
        ({
            let next = r.arrived(path, full).1->Install_0;
            review::canonical(next.diff.files, next.full_context) == review::canonical(
                r.diff.files,
                r.full_context,
            )
        }),
{
    let next = r.arrived(path, full).1->Install_0;
    let k = review::entry_index(r.full_context, path, 0);
    lemma_entry_index(r.full_context, path, 0);
    let e = r.full_context[k];
    let at = diff::path_index(r.diff.files, path);
    diff::lemma_path_index(r.diff.files, path);
    let a = r.diff.files.map_values(
        |f: FileDiffView| review::canonical_file(f, r.full_context),
    );
    let b = next.diff.files.map_values(
        |f: FileDiffView| review::canonical_file(f, next.full_context),
    );
    assert forall|i: int| 0 <= i < a.len() implies a[i] == b[i] by {
        let f = r.diff.files[i];
        let g = next.diff.files[i];
        assert(g.path == f.path);
        lemma_same_paths(r.full_context, next.full_context, f.path, 0);
        lemma_entry_index(r.full_context, f.path, 0);
        if i == at {
            assert(f.path == path);
        } else {
            assert(g == f);
        }
    }
    assert(a =~= b);
}

proof fn lemma_same_paths(
    a: Seq<FullContextView>,
    b: Seq<FullContextView>,
    path: Seq<char>,
    i: int,
)
    requires
        a.len() == b.len(),
        forall|j: int| 0 <= j < a.len() ==> (#[trigger] a[j]).path == b[j].path,
        0 <= i,
    ensures
        review::entry_index(a, path, i) == review::entry_index(b, path, i),
    decreases a.len() - i,
{
    if i < a.len() {
        assert(a[i].path == b[i].path);
        lemma_same_paths(a, b, path, i + 1);
    }
}

/// Collapsing a file that is shown in full gives the displayed diff back as it
/// was before the file was expanded.
pub proof fn lemma_collapse_undoes_expand(
    r: ReviewView,
    path: Seq<char>,
    full: FileDiffView,
    shown: ReviewView,
)
    requires
        full.path == path,
        r.arrived(path, full).1 is Install,
        // What is behind the expanded file is what was displayed.
        r.full_context[review::entry_index(r.full_context, path, 0)].base
            == r.diff.files[diff::path_index(r.diff.files, path)],
        // The review after the expansion, read at the expanded file.
        shown.diff == r.arrived(path, full).1->Install_0.diff,
        shown.full_context == r.arrived(path, full).1->Install_0.full_context,
        shown.stream.file_here() == Some(diff::path_index(r.diff.files, path) as usize),
        r.diff.files.len() <= usize::MAX,
    ensures
        shown.toggled().1 matches ToggleView::Collapse(next) && next.diff == r.diff,
{
    let next = r.arrived(path, full).1->Install_0;
    let at = diff::path_index(r.diff.files, path);
    diff::lemma_path_index(r.diff.files, path);
    let k = review::entry_index(r.full_context, path, 0);
    lemma_entry_index(r.full_context, path, 0);
    lemma_same_paths(r.full_context, next.full_context, path, 0);
    let file = shown.diff.files[at];
    assert(file.path == path);
    diff::lemma_path_index(shown.diff.files, path);
    let again = diff::path_index(shown.diff.files, path);
    assert(again == at) by {
        if again < at {
            assert(shown.diff.files[again].path == path);
            assert(r.diff.files[again].path != path);
        } else if at < again {
            assert(shown.diff.files[at].path != path);
        }
    }
    let back = shown.with_file(path, shown.full_context[k].base);
    assert(back.files =~= r.diff.files);
    assert(back =~= r.diff);
}

/// A file whose changes differ from the snapshot's is never spliced into it.
pub proof fn lemma_changed_files_are_refused(r: ReviewView, path: Seq<char>, full: FileDiffView)
    requires
        review::wants(r.full_context, path),
        context::changes(r.full_context[review::entry_index(r.full_context, path, 0)].base.hunks)
            != context::changes(full.hunks),
    ensures
        r.arrived(path, full).1 == InstallView::Refused(review::changed_message(path)),
        r.arrived(path, full).0.diff == r.diff,
        r.arrived(path, full).0.stream == r.stream,
{
    lemma_entry_index(r.full_context, path, 0);
}

proof fn lemma_bare_lines(
    fi: usize,
    hi: usize,
    lines: Seq<diff::DiffLineView>,
    cs: Seq<CommentView>,
    n: int,
)
    ensures
        rows::lines_rows(fi, hi, lines, Seq::<Placed>::empty(), cs, n) == rows::lines_rows(
            fi,
            hi,
            lines,
            Seq::<Placed>::empty(),
            Seq::empty(),
            n,
        ),
    decreases n,
{
    if n > 0 {
        lemma_bare_lines(fi, hi, lines, cs, n - 1);
    }
}

proof fn lemma_bare_hunks(fi: usize, hunks: Seq<diff::HunkView>, cs: Seq<CommentView>, n: int)
    ensures
        rows::hunks_rows(fi, hunks, Seq::<Placed>::empty(), cs, n) == rows::hunks_rows(
            fi,
            hunks,
            Seq::<Placed>::empty(),
            Seq::empty(),
            n,
        ),
    decreases n,
{
    if n > 0 {
        lemma_bare_hunks(fi, hunks, cs, n - 1);
        lemma_bare_lines(
            fi,
            (n - 1) as usize,
            hunks[n - 1].lines,
            cs,
            hunks[n - 1].lines.len() as int,
        );
    }
}

proof fn lemma_bare_stream(files: Seq<FileDiffView>, cs: Seq<CommentView>, n: int)
    ensures
        rows::stream_rows(files, Seq::<Placed>::empty(), cs, n) == rows::stream_rows(
            files,
            Seq::<Placed>::empty(),
            Seq::empty(),
            n,
        ),
    decreases n,
{
    if n > 0 {
        lemma_bare_stream(files, cs, n - 1);
        lemma_bare_hunks(
            (n - 1) as usize,
            files[n - 1].hunks,
            cs,
            files[n - 1].hunks.len() as int,
        );
    }
}

proof fn lemma_no_comment_rows(all: Seq<Row>, files: Seq<FileDiffView>)
    requires
        rows::rows_valid(all, files, 0),
    ensures
        rows::landmarks(all, Landmark::Comment).len() == 0,
    decreases all.len(),
{
    if all.len() > 0 {
        assert(rows::row_valid(all[all.len() - 1], files, 0));
        assert forall|i: int| 0 <= i < all.drop_last().len() implies rows::row_valid(
            #[trigger] all.drop_last()[i],
            files,
            0,
        ) by {
            assert(rows::row_valid(all[i], files, 0));
        }
        lemma_no_comment_rows(all.drop_last(), files);
    }
}

/// A failed save hides every inline comment and nothing else: the stream has no
/// row of a comment, so none can be left over from an older list of comments.
pub proof fn lemma_failed_save_hides_comments(
    snapshot: Seq<FileDiffView>,
    display: Seq<FileDiffView>,
    s: StoreView,
    reader: ReaderView,
)
    requires
        crate::comments::countable(display),
    ensures
        review::built_stream(snapshot, display, s, false, reader).landmarks(
            Landmark::Comment,
        ).len() == 0,
        rows::rows_valid(
            review::built_stream(snapshot, display, s, false, reader).rows,
            display,
            0,
        ),
        review::anchored(s, snapshot, false) == s,
{
    lemma_bare_stream(display, s.comments, display.len() as int);
    rows::lemma_stream_valid(display, Seq::empty(), Seq::empty(), display.len() as int);
    let built = review::built_stream(snapshot, display, s, false, reader);
    lemma_no_comment_rows(built.rows, display);
}

} // verus!
