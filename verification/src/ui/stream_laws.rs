//! What holds of the diff stream as a whole.

use crate::comments::CommentView;
use crate::git::diff;
use crate::git::diff::FileDiffView;
use crate::ui::review;
use crate::ui::review::{AnchorView, StreamView};
use crate::ui::rows;
use crate::ui::rows::{Landmark, Row};
use vstd::prelude::*;

verus! {

/// Breaking the rows to other widths leaves them showing the same files and
/// comments.
pub proof fn lemma_reflow_shows(
    s: StreamView,
    files: Seq<FileDiffView>,
    comments: Seq<CommentView>,
    comment_width: usize,
    line_width: Option<usize>,
)
    requires
        s.ok(),
        s.shows(files),
        s.speaks_of(files, comments.len()),
    ensures
        s.reflowed(files, comments, comment_width, line_width).shows(files),
        s.reflowed(files, comments, comment_width, line_width).speaks_of(files, comments.len()),
        s.reflowed(files, comments, comment_width, line_width).template == s.template,
{
    if !(comment_width == s.comment_width && line_width == s.line_width) {
        let n = s.template.len() as int;
        rows::lemma_laid_valid(s.template, files, comments, comment_width, line_width);
        rows::lemma_laid_headers(s.template, files, comments, comment_width, line_width, n);
        assert(s.template.take(n) =~= s.template);
        let r = s.reflowed(files, comments, comment_width, line_width);
        review::lemma_valid_rows_in(r.rows, files, comments.len());
    }
}

/// Moving the cursor, however far, keeps it on screen.
pub proof fn lemma_cursor_stays_on_screen(s: StreamView, delta: int)
    requires
        s.ok(),
    ensures
        s.moved(delta).scroll <= s.moved(delta).cursor < s.moved(delta).scroll + s.window(),
        s.moved(delta).rows == s.rows,
        s.moved(delta).cursor <= s.limit(),
{
}

/// Scrolling, however far, keeps the cursor on screen.
pub proof fn lemma_scrolling_keeps_the_cursor_on_screen(s: StreamView, delta: int)
    requires
        s.ok(),
    ensures
        s.scrolled(delta).scroll <= s.scrolled(delta).cursor < s.scrolled(delta).scroll
            + s.window(),
        s.scrolled(delta).rows == s.rows,
{
}

/// Going to the next match and back again returns to the same match.
pub proof fn lemma_next_match_undone(s: StreamView)
    requires
        s.ok(),
        s.search is Some,
    ensures
        s.match_moved(1).match_moved(-1).search == s.search,
        s.match_moved(-1).match_moved(1).search == s.search,
{
    let q = s.search->0;
    let n = q.matches.len() as int;
    review::lemma_around(q.current as int, n);
    let up = s.match_moved(1).search->0;
    let down = s.match_moved(-1).search->0;
    review::lemma_around(up.current as int, n);
    review::lemma_around(down.current as int, n);
    assert(s.match_moved(1).match_moved(-1).search->0 =~= q);
    assert(s.match_moved(-1).match_moved(1).search->0 =~= q);
}

proof fn lemma_count_reached(starts: Seq<usize>, row: usize, k: int)
    requires
        0 <= k < starts.len(),
        starts[k] <= row,
        k + 1 < starts.len() ==> starts[k + 1] > row,
        forall|i: int, j: int| 0 <= i < j < starts.len() ==> starts[i] < starts[j],
    ensures
        review::count_reached(starts, row) == k + 1,
    decreases starts.len(),
{
    if k + 1 < starts.len() {
        let front = starts.drop_last();
        assert(starts.last() == starts[starts.len() - 1]);
        assert(starts[k + 1] <= starts.last());
        lemma_count_reached(front, row, k);
    }
}

/// The jump to a file lands on its header, and the cursor is then in that file.
pub proof fn lemma_jump_lands_on_file(s: StreamView, files: Seq<FileDiffView>, fi: usize)
    requires
        s.ok(),
        s.shows(files),
        fi < files.len() <= usize::MAX,
    ensures
        s.at_file(fi).rows[s.at_file(fi).cursor as int] == Row::FileHeader(fi),
        s.at_file(fi).file_here() == Some(fi),
        s.at_file(fi).scroll == s.at_file(fi).cursor,
{
    rows::lemma_headers_at(s.rows);
    rows::lemma_landmarks(s.rows, Landmark::File);
    let starts = s.landmarks(Landmark::File);
    assert(rows::headers(s.rows)[fi as int] == fi);
    let row = starts[fi as int];
    if fi + 1 < starts.len() {
        assert(starts[fi as int] < starts[fi + 1]);
    }
    lemma_count_reached(starts, row, fi as int);
}

/// The reading position survives a rebuilt diff: the cursor comes back to the
/// same row of the same file, wherever that file now stands.
pub proof fn lemma_reading_position_survives(
    s: StreamView,
    a: AnchorView,
    files: Seq<FileDiffView>,
)
    requires
        s.ok(),
        s.shows(files),
        files.len() <= usize::MAX,
        diff::path_index(files, a.path) < files.len(),
        s.landmarks(Landmark::File)[diff::path_index(files, a.path)] + a.rel < s.file_end(
            diff::path_index(files, a.path),
        ),
    ensures
        ({
            let k = diff::path_index(files, a.path);
            let r = s.restored(a, files);
            &&& r.cursor == s.landmarks(Landmark::File)[k] + a.rel
            &&& r.file_here() == Some(k as usize)
            &&& r.anchor(files) matches Some(b) && b.path == a.path && b.rel == a.rel
        }),
{
    let k = diff::path_index(files, a.path);
    diff::lemma_path_index(files, a.path);
    rows::lemma_headers_at(s.rows);
    rows::lemma_landmarks(s.rows, Landmark::File);
    let starts = s.landmarks(Landmark::File);
    assert(rows::headers(s.rows).len() == files.len());
    if k + 1 < starts.len() {
        assert(starts[k + 1] < s.rows.len());
    }
    let r = s.restored(a, files);
    assert(r.rows == s.rows);
    lemma_count_reached(starts, r.cursor, k);
}

/// The reading position of a file that is gone is brought inside the new diff.
pub proof fn lemma_lost_position_is_clamped(s: StreamView, a: AnchorView, files: Seq<FileDiffView>)
    requires
        s.ok(),
        s.shows(files),
    ensures
        s.restored(a, files).cursor <= s.limit(),
        s.restored(a, files).scroll <= s.limit(),
{
}

} // verus!
