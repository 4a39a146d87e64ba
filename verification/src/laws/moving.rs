//! How the cursor and the view move through the rows.

use crate::comments::CommentView;
use crate::git::diff::FileDiffView;
use crate::ui::review;
use crate::ui::review::StreamView;
use crate::ui::rows;
use crate::ui::rows::{Landmark, Row};
use vstd::prelude::*;

verus! {

/// The row starts a file, a hunk or a comment.
pub open spec fn starts(row: Row, kind: Landmark) -> bool {
    match (kind, row) {
        (Landmark::File, Row::FileHeader(_)) => true,
        (Landmark::Hunk, Row::HunkHeader(_, _)) => true,
        (Landmark::Comment, Row::CommentHeader(_)) => true,
        _ => false,
    }
}

/// None of the rows `lo..hi` starts something of the kind.
pub open spec fn none_starts(rows: Seq<Row>, kind: Landmark, lo: int, hi: int) -> bool {
    forall|i: int| lo <= i < hi && 0 <= i < rows.len() ==> !starts(#[trigger] rows[i], kind)
}

proof fn lemma_first_past(list: Seq<usize>, row: usize, i: int)
    requires
        0 <= i <= list.len(),
    ensures
        match review::first_past(list, row, i) {
            Some(x) => x > row && exists|k: int|
                i <= k < list.len() && #[trigger] list[k] == x && forall|j: int|
                    i <= j < k ==> #[trigger] list[j] <= row,
            None => forall|k: int| i <= k < list.len() ==> #[trigger] list[k] <= row,
        },
    decreases list.len() - i,
{
    if i < list.len() {
        if list[i] > row {
            assert(list[i] == list[i]);
        } else {
            lemma_first_past(list, row, i + 1);
            if let Some(x) = review::first_past(list, row, i + 1) {
                let k = choose|k: int|
                    i + 1 <= k < list.len() && #[trigger] list[k] == x && forall|j: int|
                        i + 1 <= j < k ==> #[trigger] list[j] <= row;
                assert(list[k] == x);
                assert forall|j: int| i <= j < k implies #[trigger] list[j] <= row by {}
            }
        }
    }
}

proof fn lemma_last_before(list: Seq<usize>, row: usize, n: int)
    requires
        0 <= n <= list.len(),
    ensures
        match review::last_before(list, row, n) {
            Some(x) => x < row && exists|k: int|
                0 <= k < n && #[trigger] list[k] == x && forall|j: int|
                    k < j < n ==> #[trigger] list[j] >= row,
            None => forall|k: int| 0 <= k < n ==> #[trigger] list[k] >= row,
        },
    decreases n,
{
    if n > 0 {
        if list[n - 1] < row {
            assert(list[n - 1] == list[n - 1]);
        } else {
            lemma_last_before(list, row, n - 1);
            if let Some(x) = review::last_before(list, row, n - 1) {
                let k = choose|k: int|
                    0 <= k < n - 1 && #[trigger] list[k] == x && forall|j: int|
                        k < j < n - 1 ==> #[trigger] list[j] >= row;
                assert(list[k] == x);
                assert forall|j: int| k < j < n implies #[trigger] list[j] >= row by {}
            }
        }
    }
}

/// The next file, hunk or comment is the nearest one below the cursor: the
/// cursor goes there and the row to the top of the view. Without one nothing
/// moves.
pub proof fn lemma_next_is_the_nearest_below(s: StreamView, kind: Landmark)
    requires
        s.ok(),
        s.rows.len() > 0,
    ensures
        ({
            let t = s.next_landmark(kind);
            if none_starts(s.rows, kind, s.cursor + 1, s.rows.len() as int) {
                t == s
            } else {
                &&& s.cursor < t.cursor < s.rows.len()
                &&& starts(s.rows[t.cursor as int], kind)
                &&& none_starts(s.rows, kind, s.cursor + 1, t.cursor as int)
                &&& t.scroll == t.cursor
                &&& t == StreamView { cursor: t.cursor, scroll: t.scroll, ..s }
            }
        }),
{
    let list = s.landmarks(kind);
    rows::lemma_landmarks(s.rows, kind);
    lemma_first_past(list, s.cursor, 0);
    let n = s.rows.len() as int;
    match review::first_past(list, s.cursor, 0) {
        Some(x) => {
            let k = choose|k: int|
                0 <= k < list.len() && #[trigger] list[k] == x && forall|j: int|
                    0 <= j < k ==> #[trigger] list[j] <= s.cursor;
            assert(list[k] == x && x < n);
            assert(starts(s.rows[x as int], kind));
            assert forall|i: int| s.cursor + 1 <= i < x && 0 <= i < n implies !starts(
                #[trigger] s.rows[i],
                kind,
            ) by {
                if starts(s.rows[i], kind) {
                    assert(rows::is_landmark(s.rows[i], kind));
                    let j = list.index_of(i as usize);
                    assert(list[j] == i);
                    if j < k {
                    } else if j > k {
                        assert(list[k] < list[j]);
                    }
                }
            }
        },
        None => {
            assert forall|i: int| s.cursor + 1 <= i < n && 0 <= i < n implies !starts(
                #[trigger] s.rows[i],
                kind,
            ) by {
                if starts(s.rows[i], kind) {
                    assert(rows::is_landmark(s.rows[i], kind));
                    let j = list.index_of(i as usize);
                    assert(list[j] == i);
                }
            }
        },
    }
}

/// The previous file, hunk or comment is the nearest one above the cursor.
pub proof fn lemma_previous_is_the_nearest_above(s: StreamView, kind: Landmark)
    requires
        s.ok(),
        s.rows.len() > 0,
    ensures
        ({
            let t = s.prev_landmark(kind);
            if none_starts(s.rows, kind, 0, s.cursor as int) {
                t == s
            } else {
                &&& t.cursor < s.cursor
                &&& starts(s.rows[t.cursor as int], kind)
                &&& none_starts(s.rows, kind, t.cursor + 1, s.cursor as int)
                &&& t.scroll == t.cursor
                &&& t == StreamView { cursor: t.cursor, scroll: t.scroll, ..s }
            }
        }),
{
    let list = s.landmarks(kind);
    rows::lemma_landmarks(s.rows, kind);
    lemma_last_before(list, s.cursor, list.len() as int);
    let n = s.rows.len() as int;
    match review::last_before(list, s.cursor, list.len() as int) {
        Some(x) => {
            let k = choose|k: int|
                0 <= k < list.len() && #[trigger] list[k] == x && forall|j: int|
                    k < j < list.len() ==> #[trigger] list[j] >= s.cursor;
            assert(list[k] == x && x < n);
            assert(starts(s.rows[x as int], kind));
            assert forall|i: int| x + 1 <= i < s.cursor && 0 <= i < n implies !starts(
                #[trigger] s.rows[i],
                kind,
            ) by {
                if starts(s.rows[i], kind) {
                    assert(rows::is_landmark(s.rows[i], kind));
                    let j = list.index_of(i as usize);
                    assert(list[j] == i);
                    if j < k {
                        assert(list[j] < list[k]);
                    }
                }
            }
        },
        None => {
            assert forall|i: int| 0 <= i < s.cursor && 0 <= i < n implies !starts(
                #[trigger] s.rows[i],
                kind,
            ) by {
                if starts(s.rows[i], kind) {
                    assert(rows::is_landmark(s.rows[i], kind));
                    let j = list.index_of(i as usize);
                    assert(list[j] == i);
                }
            }
        },
    }
}

/// The row is on screen.
pub open spec fn on_screen(s: StreamView, row: int) -> bool {
    s.scroll <= row < s.scroll + s.viewport
}

/// The cursor goes to the row asked for, or to the nearest there is; the view
/// follows no further than it must: not at all if the row is on screen, else
/// until the row is the first or the last one shown.
pub proof fn lemma_cursor_goes_where_asked(s: StreamView, row: int)
    requires
        s.ok(),
        s.rows.len() > 0,
        s.viewport > 0,
    ensures
        ({
            let t = s.at_row(row);
            &&& t == StreamView { cursor: t.cursor, scroll: t.scroll, ..s }
            &&& 0 <= row < s.rows.len() ==> t.cursor == row
            &&& row < 0 ==> t.cursor == 0
            &&& row >= s.rows.len() ==> t.cursor == s.rows.len() - 1
            &&& on_screen(t, t.cursor as int)
            &&& on_screen(s, t.cursor as int) ==> t.scroll == s.scroll
            &&& t.cursor < s.scroll ==> t.scroll == t.cursor
            &&& t.cursor >= s.scroll + s.viewport ==> t.cursor == t.scroll + s.viewport - 1
            &&& s.moved(row - s.cursor) == t
        }),
{
}

/// Going some rows and the same way back ends on the same row, unless the first
/// or the last row is in the way.
pub proof fn lemma_moving_back(s: StreamView, delta: int)
    requires
        s.ok(),
        0 <= s.cursor + delta < s.rows.len(),
    ensures
        s.moved(delta).moved(-delta).cursor == s.cursor,
{
}

/// Scrolling moves the view by so many rows, as far as there are rows, and
/// leaves the cursor on its row unless that leaves the screen; then it is on the
/// edge that it left by.
pub proof fn lemma_scrolling(s: StreamView, delta: int)
    requires
        s.ok(),
        s.rows.len() > 0,
        s.viewport > 0,
    ensures
        ({
            let t = s.scrolled(delta);
            &&& t == StreamView { cursor: t.cursor, scroll: t.scroll, ..s }
            &&& 0 <= s.scroll + delta < s.rows.len() ==> t.scroll == s.scroll + delta
            &&& s.scroll + delta < 0 ==> t.scroll == 0
            &&& s.scroll + delta >= s.rows.len() ==> t.scroll == s.rows.len() - 1
            &&& on_screen(t, s.cursor as int) ==> t.cursor == s.cursor
            &&& s.cursor < t.scroll ==> t.cursor == t.scroll
            &&& s.cursor >= t.scroll + s.viewport ==> t.cursor == t.scroll + s.viewport - 1
        }),
{
}

/// A page overlaps the last by one row, half a page is half the view, and
/// neither end of the rows is passed: at the bottom the last page is full.
pub proof fn lemma_pages(s: StreamView)
    requires
        s.ok(),
        s.rows.len() > 0,
    ensures
        s.viewport > 0 ==> s.page_rows() + 1 == s.viewport,
        s.viewport > 1 ==> s.half_rows() * 2 == s.viewport || s.half_rows() * 2 + 1 == s.viewport,
        s.half_rows() >= 1,
        s.at_top().cursor == 0 && s.at_top().scroll == 0,
        s.at_bottom().cursor == s.rows.len() - 1,
        s.rows.len() >= s.viewport ==> s.at_bottom().scroll + s.viewport == s.rows.len(),
        s.rows.len() < s.viewport ==> s.at_bottom().scroll == 0,
{
}

/// A row on screen is found where it is shown: rows follow each other from the
/// top of the area down, and what is outside the area or below the last row is
/// no row.
pub proof fn lemma_rows_are_where_they_are_shown(s: StreamView, column: u16, k: u16)
    requires
        s.ok(),
        s.inner.x <= column < s.inner.x + s.inner.width <= u16::MAX,
        s.inner.y + k < s.inner.y + s.inner.height <= u16::MAX,
    ensures
        s.scroll + k < s.rows.len() ==> s.row_at(column, (s.inner.y + k) as u16) == Some(
            (s.scroll + k) as usize,
        ),
        s.scroll + k >= s.rows.len() ==> s.row_at(column, (s.inner.y + k) as u16) is None,
        s.row_at((s.inner.x + s.inner.width) as u16, (s.inner.y + k) as u16) is None,
        s.row_at(column, (s.inner.y + s.inner.height) as u16) is None,
        s.inner.x > 0 ==> s.row_at((s.inner.x - 1) as u16, (s.inner.y + k) as u16) is None,
        s.inner.y > 0 ==> s.row_at(column, (s.inner.y - 1) as u16) is None,
{
}

/// Where the cursor is shown, clicking finds the cursor's row.
pub proof fn lemma_cursor_is_where_it_is_shown(s: StreamView)
    requires
        s.ok(),
        s.rows.len() > 0,
        s.inner.width > 2,
        s.inner.x + s.inner.width <= u16::MAX,
        s.inner.y + s.inner.height <= u16::MAX,
    ensures
        s.scroll <= s.cursor < s.scroll + s.inner.height ==> s.cursor_position() is Some,
        s.cursor < s.scroll ==> s.cursor_position() is None,
        s.cursor - s.scroll < 0x1_0000 ==> (s.cursor_position() matches Some(p) ==> s.row_at(
            p.x,
            p.y,
        ) == Some(s.cursor)),
{
    if s.scroll <= s.cursor && s.cursor - s.scroll < 0x1_0000 {
        vstd::arithmetic::div_mod::lemma_small_mod((s.cursor - s.scroll) as nat, 0x1_0000);
    }
}

/// What the cursor is on: every row of a comment stands for that comment, and
/// only the row of a stub for the stub.
pub proof fn lemma_what_is_under_the_cursor(s: StreamView, ci: usize, fi: usize)
    requires
        s.ok(),
        s.rows.len() > 0,
    ensures
        s.comment_here() == Some(ci) <==> (match s.rows[s.cursor as int] {
            Row::CommentHeader(c) => c == ci,
            Row::CommentSnippet(c, _) => c == ci,
            Row::CommentBody { comment, .. } => comment == ci,
            _ => false,
        }),
        s.stub_at_cursor() == Some(fi) <==> s.rows[s.cursor as int] == Row::LargeStub(fi),
{
}

/// The row shows a diff line with a number on either side.
pub open spec fn has_number(files: Seq<FileDiffView>, row: Row) -> bool {
    match row {
        Row::Line { file, hunk, line, .. } => {
            let l = files[file as int].hunks[hunk as int].lines[line as int];
            l.new_lineno is Some || l.old_lineno is Some
        },
        _ => false,
    }
}

proof fn lemma_line_from(s: StreamView, files: Seq<FileDiffView>, i: int)
    requires
        0 <= i <= s.rows.len(),
    ensures
        match s.line_from(files, i) {
            Some(k) => i <= k < s.rows.len() && has_number(files, s.rows[k]) && forall|j: int|
                i <= j < k ==> !has_number(files, #[trigger] s.rows[j]),
            None => forall|j: int|
                i <= j < s.rows.len() ==> !has_number(files, #[trigger] s.rows[j]),
        },
    decreases s.rows.len() - i,
{
    if i < s.rows.len() && !has_number(files, s.rows[i]) {
        lemma_line_from(s, files, i + 1);
    }
}

/// Without a selection a comment goes on the first diff line at or below the
/// cursor: on its number on the new side, or the old one where it has no other.
/// There is none to go on exactly when no such line follows.
pub proof fn lemma_bare_comment_goes_on_the_next_line(s: StreamView, files: Seq<FileDiffView>) -> (
    k: int)
    requires
        s.ok(),
        s.rows.len() > 0,
    ensures
        s.bare_target(files) is None <==> forall|j: int|
            s.cursor <= j < s.rows.len() ==> !has_number(files, #[trigger] s.rows[j]),
        s.bare_target(files) matches Some(t) ==> {
            let row = s.rows[k];
            let l = files[row->Line_file as int].hunks[row->Line_hunk as int].lines[row->Line_line as int];
            &&& s.cursor <= k < s.rows.len()
            &&& has_number(files, row)
            &&& forall|j: int| s.cursor <= j < k ==> !has_number(files, #[trigger] s.rows[j])
            &&& t.path == files[row->Line_file as int].path
            &&& t.snippet == seq![seq![l.origin] + l.content]
            &&& t.new_side == l.new_lineno is Some
            &&& l.new_lineno matches Some(n) ==> t.lines == (n, n)
            &&& l.new_lineno is None ==> t.lines == (l.old_lineno->0, l.old_lineno->0)
            &&& s.expanded_here(files) == l.expanded_context
        },
{
    lemma_line_from(s, files, s.cursor as int);
    match s.line_from(files, s.cursor as int) {
        Some(k) => {
            let one = seq![s.rows[k]];
            assert(one.drop_last() =~= Seq::empty());
            reveal_with_fuel(review::new_numbers, 2);
            reveal_with_fuel(review::old_numbers, 2);
            assert(one.last() == s.rows[k]);
            k
        },
        None => 0,
    }
}

/// The current file is the one whose header is the last at or above the cursor.
pub proof fn lemma_current_file(s: StreamView, files: Seq<FileDiffView>) -> (at: int)
    requires
        s.ok(),
        s.shows(files),
        s.rows.len() > 0,
    ensures
        s.file_here() is Some,
        0 <= at <= s.cursor,
        s.rows[at] == Row::FileHeader(s.file_here()->0),
        none_starts(s.rows, Landmark::File, at + 1, s.cursor + 1),
{
    let list = s.landmarks(Landmark::File);
    rows::lemma_landmarks(s.rows, Landmark::File);
    rows::lemma_headers_at(s.rows);
    assert(rows::is_landmark(s.rows[0], Landmark::File));
    assert(list.contains(0));
    review::lemma_first_header(s);
    lemma_count_reached(list, s.cursor);
    let k = review::count_reached(list, s.cursor) - 1;
    assert(k >= 0) by {
        if k < 0 {
            assert(list[0] > s.cursor);
        }
    }
    assert(rows::headers(s.rows)[k] == rows::numbers(files.len())[k]);
    assert(s.rows[list[k] as int] == Row::FileHeader(rows::headers(s.rows)[k]));
    assert forall|i: int| list[k] + 1 <= i < s.cursor + 1 && 0 <= i < s.rows.len() implies !starts(
        #[trigger] s.rows[i],
        Landmark::File,
    ) by {
        if starts(s.rows[i], Landmark::File) {
            assert(rows::is_landmark(s.rows[i], Landmark::File));
            let j = list.index_of(i as usize);
            assert(list[j] == i);
            if j < k {
                assert(list[j] < list[k]);
            }
        }
    }
    list[k] as int
}

proof fn lemma_count_reached(list: Seq<usize>, row: usize)
    requires
        forall|i: int, j: int| 0 <= i < j < list.len() ==> #[trigger] list[i] < #[trigger] list[j],
    ensures
        ({
            let n = review::count_reached(list, row);
            &&& n <= list.len()
            &&& forall|i: int| 0 <= i < n ==> #[trigger] list[i] <= row
            &&& forall|i: int| n <= i < list.len() ==> #[trigger] list[i] > row
        }),
    decreases list.len(),
{
    if list.len() > 0 {
        if list.last() <= row {
            assert forall|i: int| 0 <= i < list.len() implies #[trigger] list[i] <= row by {
                if i < list.len() - 1 {
                    assert(list[i] < list[list.len() - 1]);
                }
            }
        } else {
            let front = list.drop_last();
            lemma_count_reached(front, row);
            let n = review::count_reached(list, row);
            assert forall|i: int| 0 <= i < n implies #[trigger] list[i] <= row by {
                assert(front[i] == list[i]);
            }
            assert forall|i: int| n <= i < list.len() implies #[trigger] list[i] > row by {
                if i < front.len() {
                    assert(front[i] == list[i]);
                }
            }
        }
    }
}

/// Breaking the rows anew leaves the cursor on the piece of the same row that
/// holds what it was on, and never changes what the search is for.
pub proof fn lemma_reflow_keeps_the_place(
    s: StreamView,
    files: Seq<FileDiffView>,
    cs: Seq<CommentView>,
    comment_width: usize,
    line_width: Option<usize>,
)
    requires
        s.ok(),
        s.rows.len() > 0,
        s.reflowed(files, cs, comment_width, line_width).ok(),
    ensures
        ({
            let t = s.reflowed(files, cs, comment_width, line_width);
            let was = s.origins[s.cursor as int];
            let is = t.origins[t.cursor as int];
            &&& is.template == was.template
            &&& is.offset <= was.offset
            &&& forall|i: int|
                t.cursor < i < t.rows.len() ==> !((#[trigger] t.origins[i]).template
                    == was.template && t.origins[i].offset <= was.offset)
                    || (comment_width == s.comment_width && line_width == s.line_width)
            &&& t.template == s.template
            &&& s.search is Some <==> t.search is Some
            &&& s.search matches Some(q) ==> t.search->0.query == q.query
                && t.search->0.case_sensitive == q.case_sensitive
        }),
{
    let t = s.reflowed(files, cs, comment_width, line_width);
    if !(comment_width == s.comment_width && line_width == s.line_width) {
        let was = s.origins[s.cursor as int];
        let n = t.origins.len() as int;
        assert(was.template < s.template.len());
        assert(rows::has_first_piece(t.origins, was.template as int));
        lemma_located_last(t.origins, was, n);
    }
}

proof fn lemma_located_last(origins: Seq<rows::RowOrigin>, o: rows::RowOrigin, n: int)
    requires
        0 <= n <= origins.len() <= usize::MAX,
    ensures
        match rows::located(origins, o, n) {
            Some(i) => i < n && origins[i as int].template == o.template && origins[i as int].offset
                <= o.offset && forall|j: int|
                i < j < n ==> !((#[trigger] origins[j]).template == o.template && origins[j].offset
                    <= o.offset),
            None => forall|i: int|
                0 <= i < n ==> !((#[trigger] origins[i]).template == o.template && origins[i].offset
                    <= o.offset),
        },
    decreases n,
{
    if n > 0 {
        lemma_located_last(origins, o, n - 1);
    }
}

} // verus!
