//! How a place in the diff is found again.

use crate::comments::CommentView;
use crate::git::diff;
use crate::git::diff::FileDiffView;
use crate::laws::moving;
use crate::ui::editor::EditorView;
use crate::ui::review;
use crate::ui::review::{AnchorView, StreamView};
use crate::ui::rows;
use crate::ui::rows::{Landmark, Row, RowOrigin};
use crate::ui::wrap;
use vstd::prelude::*;

verus! {

/// The place that is remembered is the current file, how far the cursor is below
/// its header, and how far below the top of the view.
pub proof fn lemma_what_is_remembered(s: StreamView, files: Seq<FileDiffView>) -> (at: int)
    requires
        s.ok(),
        s.shows(files),
        files.len() <= usize::MAX,
        s.rows.len() > 0,
        s.scroll <= s.cursor,
    ensures
        s.anchor(files) is Some,
        0 <= at <= s.cursor,
        ({
            let a = s.anchor(files)->0;
            let fi = s.file_here()->0;
            &&& s.rows[at] == Row::FileHeader(fi)
            &&& moving::none_starts(s.rows, Landmark::File, at + 1, s.cursor + 1)
            &&& a.path == files[fi as int].path
            &&& at + a.rel == s.cursor
            &&& s.scroll + a.screen_offset == s.cursor
        }),
{
    let at = moving::lemma_current_file(s, files);
    let list = s.landmarks(Landmark::File);
    rows::lemma_landmarks(s.rows, Landmark::File);
    rows::lemma_headers_at(s.rows);
    let fi = s.file_here()->0;
    crate::app::review::lemma_file_here(s, files);
    assert(rows::headers(s.rows)[fi as int] == rows::numbers(files.len())[fi as int]);
    assert(s.rows[list[fi as int] as int] == Row::FileHeader(rows::headers(s.rows)[fi as int]));
    assert(list.contains(at as usize)) by {
        assert(rows::is_landmark(s.rows[at], Landmark::File));
    }
    let k = list.index_of(at as usize);
    assert(list[k] == at);
    assert(rows::headers(s.rows)[k] == rows::numbers(files.len())[k]);
    assert(s.rows[list[k] as int] == Row::FileHeader(rows::headers(s.rows)[k]));
    assert(k == fi);
    at
}

/// Going back to a remembered place in the same diff changes nothing: the cursor
/// is on the same row, and the row at the same height of the view.
pub proof fn lemma_returning_at_once(s: StreamView, files: Seq<FileDiffView>)
    requires
        s.ok(),
        s.shows(files),
        files.len() <= usize::MAX,
        s.rows.len() > 0,
        s.scroll <= s.cursor < s.scroll + s.viewport,
        forall|i: int, j: int|
            #![trigger files[i], files[j]]
            0 <= i < j < files.len() ==> files[i].path != files[j].path,
    ensures
        s.anchor(files) is Some,
        s.restored(s.anchor(files)->0, files) == s,
{
    let at = lemma_what_is_remembered(s, files);
    let a = s.anchor(files)->0;
    let fi = s.file_here()->0 as int;
    crate::app::review::lemma_file_here(s, files);
    diff::lemma_path_index(files, a.path);
    let k = diff::path_index(files, a.path);
    assert(k == fi) by {
        if k < fi {
            assert(files[k].path != files[fi].path);
        } else if fi < k {
            assert(files[fi].path != a.path);
        }
    }
    rows::lemma_headers_at(s.rows);
    rows::lemma_landmarks(s.rows, Landmark::File);
    let list = s.landmarks(Landmark::File);
    assert(list.len() == files.len());
    assert(list[fi] == at) by {
        assert(rows::is_landmark(s.rows[at], Landmark::File));
        let j = list.index_of(at as usize);
        assert(list.contains(at as usize));
        assert(rows::headers(s.rows)[j] == rows::numbers(files.len())[j]);
        assert(s.rows[list[j] as int] == Row::FileHeader(rows::headers(s.rows)[j]));
    }
    if fi + 1 < list.len() {
        let next = list[fi + 1] as int;
        assert(list[fi] < list[fi + 1]);
        assert(moving::starts(s.rows[next], Landmark::File));
        assert(next > s.cursor);
    }
    assert(s.restored(a, files) =~= s);
}

/// Going back to a place puts the row at the height of the view that it had, as
/// far as there are rows above it and the view is high enough.
pub proof fn lemma_returning_keeps_the_height(
    s: StreamView,
    a: AnchorView,
    files: Seq<FileDiffView>,
)
    requires
        s.ok(),
        s.rows.len() > 0,
        a.screen_offset < s.viewport,
    ensures
        ({
            let t = s.restored(a, files);
            &&& t.rows == s.rows
            &&& t.scroll <= t.cursor < t.scroll + t.viewport
            &&& a.screen_offset <= t.cursor ==> t.scroll + a.screen_offset == t.cursor
            &&& a.screen_offset > t.cursor ==> t.scroll == 0
        }),
{
}

/// A match is gone to with three rows above it, where there are so many.
pub proof fn lemma_matches_have_context(s: StreamView)
    requires
        s.ok(),
        s.search is Some,
    ensures
        ({
            let q = s.search->0;
            let t = s.at_match();
            let row = q.matches[q.current as int];
            &&& t.cursor == row
            &&& row >= 3 ==> t.scroll + 3 == row
            &&& row < 3 ==> t.scroll == 0
            &&& t.rows == s.rows && t.search == s.search
        }),
{
    let q = s.search->0;
    assert(q.matches[q.current as int] < s.rows.len());
}

/// The row before and the row after come from one unwrapped row, and the later
/// one holds the start of the earlier one or comes before it.
pub open spec fn same_text(was: RowOrigin, is: RowOrigin) -> bool {
    is.template == was.template && is.offset <= was.offset
}

proof fn lemma_relocated(
    matches: Seq<usize>,
    from: Seq<RowOrigin>,
    to: Seq<RowOrigin>,
    templates: int,
)
    requires
        forall|i: int| 0 <= i < matches.len() ==> (#[trigger] matches[i]) < from.len(),
        forall|i: int| 0 <= i < from.len() ==> (#[trigger] from[i]).template < templates,
        forall|t: int| 0 <= t < templates ==> rows::has_first_piece(to, t),
        to.len() <= usize::MAX,
    ensures
        ({
            let r = review::relocated(matches, from, to);
            &&& r.len() == matches.len()
            &&& forall|i: int|
                0 <= i < r.len() ==> (#[trigger] r[i]) < to.len() && same_text(
                    from[matches[i] as int],
                    to[r[i] as int],
                )
        }),
    decreases matches.len(),
{
    if matches.len() > 0 {
        let front = matches.drop_last();
        assert forall|i: int| 0 <= i < front.len() implies (#[trigger] front[i]) < from.len() by {
            assert(front[i] == matches[i]);
        }
        lemma_relocated(front, from, to, templates);
        let m = matches.last();
        assert(m == matches[matches.len() - 1]);
        let o = from[m as int];
        rows::lemma_located(to, o, to.len() as int);
        assert(rows::has_first_piece(to, o.template as int));
        let before = review::relocated(front, from, to);
        let r = review::relocated(matches, from, to);
        assert forall|i: int| 0 <= i < r.len() implies (#[trigger] r[i]) < to.len() && same_text(
            from[matches[i] as int],
            to[r[i] as int],
        ) by {
            if i < before.len() {
                assert(r[i] == before[i]);
                assert(front[i] == matches[i]);
            }
        }
    }
}

/// Breaking the rows anew loses neither a match nor the selection: each stays on
/// the row that shows the same text, and the cursor's row at its height of the
/// view.
pub proof fn lemma_reflow_keeps_matches_and_selection(
    s: StreamView,
    files: Seq<FileDiffView>,
    cs: Seq<CommentView>,
    comment_width: usize,
    line_width: Option<usize>,
)
    requires
        s.ok(),
        s.rows.len() > 0,
        s.scroll <= s.cursor < s.scroll + s.viewport,
        s.reflowed(files, cs, comment_width, line_width).ok(),
    ensures
        ({
            let t = s.reflowed(files, cs, comment_width, line_width);
            let up = s.cursor - s.scroll;
            &&& s.search matches Some(q) ==> {
                let p = t.search->0;
                &&& p.matches.len() == q.matches.len()
                &&& p.current == q.current
                &&& forall|i: int|
                    0 <= i < q.matches.len() ==> same_text(
                        s.origins[#[trigger] q.matches[i] as int],
                        t.origins[p.matches[i] as int],
                    )
            }
            &&& s.selection matches Some(a) ==> t.selection is Some && same_text(
                s.origins[a as int],
                t.origins[t.selection->0 as int],
            )
            &&& s.selection is None ==> t.selection is None
            &&& up <= t.cursor ==> t.scroll + up == t.cursor
            &&& up > t.cursor ==> t.scroll == 0
        }),
{
    let t = s.reflowed(files, cs, comment_width, line_width);
    if !(comment_width == s.comment_width && line_width == s.line_width) {
        let n = s.template.len() as int;
        assert(t.origins == rows::laid_origins(
            s.template,
            files,
            cs,
            comment_width,
            line_width,
            n,
        ));
        if let Some(q) = s.search {
            lemma_relocated(q.matches, s.origins, t.origins, n);
        }
        if let Some(a) = s.selection {
            let o = s.origins[a as int];
            rows::lemma_located(t.origins, o, t.origins.len() as int);
            assert(rows::has_first_piece(t.origins, o.template as int));
        }
    }
}

/// A click in the editor puts the cursor into the row that was clicked; outside
/// the text nothing happens.
pub proof fn lemma_clicking_in_the_editor(e: EditorView, column: u16, k: u16)
    requires
        e.ok(),
        e.inner.x <= column < e.inner.x + e.inner.width <= u16::MAX,
        e.inner.y + k < e.inner.y + e.inner.height <= u16::MAX,
    ensures
        ({
            let rows = wrap::laid_out(e.text, e.inner.width as usize);
            let at = e.scroll + k;
            let t = e.clicked(column, (e.inner.y + k) as u16);
            &&& t.text == e.text
            &&& at < rows.len() ==> {
                let r = rows[at];
                let here = e.text.subrange(r.start as int, t.cursor as int);
                &&& r.start <= t.cursor <= r.end
                &&& crate::laws::wrapping::cells_of(here) <= column - e.inner.x
                &&& t.cursor < r.end ==> crate::laws::wrapping::cells_of(
                    e.text.subrange(r.start as int, t.cursor + 1),
                ) > column - e.inner.x
            }
            &&& at >= rows.len() ==> t == e
        }),
{
    let rows = wrap::laid_out(e.text, e.inner.width as usize);
    wrap::lemma_rows_cover(e.text, wrap::at_least_one(e.inner.width as usize), 0, true);
    let at = e.scroll + k;
    if at < rows.len() {
        let r = rows[at];
        crate::laws::editing::lemma_column(
            e.text,
            r.start as int,
            r.end as int,
            column - e.inner.x,
        );
    }
}

} // verus!
