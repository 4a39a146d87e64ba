//! What the keys and the mouse do to the reading position.

use crate::app::mouse::MouseKind;
use crate::app::review::{Focus, ReviewView};
use crate::app::state::{AppView, OverlayView};
use crate::app::walk;
use crate::keymap::Action;
use crate::laws::moving;
use crate::ui::fileview::PagerView;
use crate::ui::review::StreamView;
use crate::ui::rows;
use crate::ui::rows::{Landmark, Row};
use crate::ui::tree;
use vstd::prelude::*;

verus! {

/// The action that goes to the next landmark of a kind.
pub open spec fn forth(kind: Landmark) -> Action {
    match kind {
        Landmark::File => Action::NextFile,
        Landmark::Hunk => Action::NextHunk,
        Landmark::Comment => Action::NextComment,
    }
}

/// The action that goes to the previous landmark of a kind.
pub open spec fn back(kind: Landmark) -> Action {
    match kind {
        Landmark::File => Action::PrevFile,
        Landmark::Hunk => Action::PrevHunk,
        Landmark::Comment => Action::PrevComment,
    }
}

/// The keys for the next and the previous file, hunk and comment go to the
/// nearest one below and above, and stay where there is none.
pub proof fn lemma_walking_by_landmarks(r: ReviewView, kind: Landmark)
    requires
        r.stream.ok(),
        r.stream.rows.len() > 0,
    ensures
        ({
            let s = r.stream;
            let n = r.walked(forth(kind)).stream;
            let p = r.walked(back(kind)).stream;
            &&& if moving::none_starts(s.rows, kind, s.cursor + 1, s.rows.len() as int) {
                n == s
            } else {
                &&& s.cursor < n.cursor < s.rows.len()
                &&& moving::starts(s.rows[n.cursor as int], kind)
                &&& moving::none_starts(s.rows, kind, s.cursor + 1, n.cursor as int)
            }
            &&& if moving::none_starts(s.rows, kind, 0, s.cursor as int) {
                p == s
            } else {
                &&& p.cursor < s.cursor
                &&& moving::starts(s.rows[p.cursor as int], kind)
                &&& moving::none_starts(s.rows, kind, p.cursor + 1, s.cursor as int)
            }
        }),
{
    moving::lemma_next_is_the_nearest_below(r.stream, kind);
    moving::lemma_previous_is_the_nearest_above(r.stream, kind);
}

/// The other keys go by rows: one row, a page less a row, half a page, the first
/// row, the last row; as far as there are rows.
pub proof fn lemma_walking_by_rows(r: ReviewView)
    requires
        r.stream.ok(),
        r.stream.rows.len() > 0,
        r.stream.viewport >= 2,
        r.focus == Focus::Stream,
    ensures
        ({
            let c = r.stream.cursor;
            let last = r.stream.rows.len() - 1;
            let v = r.stream.viewport;
            let at = |a: Action| r.walked(a).stream.cursor as int;
            &&& c < last ==> at(Action::Down) == c + 1
            &&& c == last ==> at(Action::Down) == c
            &&& c > 0 ==> at(Action::Up) == c - 1
            &&& c == 0 ==> at(Action::Up) == 0
            &&& c + v - 1 <= last ==> at(Action::PageDown) == c + v - 1
            &&& c + v - 1 > last ==> at(Action::PageDown) == last
            &&& c - (v - 1) >= 0 ==> at(Action::PageUp) == c - (v - 1)
            &&& c - (v - 1) < 0 ==> at(Action::PageUp) == 0
            &&& c + v / 2 <= last ==> at(Action::HalfPageDown) == c + v / 2
            &&& c - v / 2 >= 0 ==> at(Action::HalfPageUp) == c - v / 2
            &&& at(Action::GotoTop) == 0
            &&& at(Action::GotoBottom) == last
        }),
{
}

/// Whatever moves in the stream, the tree shows the file being read, if that is
/// visible in it.
pub proof fn lemma_tree_follows(r: ReviewView, s: StreamView, fi: usize)
    requires
        r.focus == Focus::Stream,
        s.file_here() == Some(fi),
        r.tree.rows().len() <= usize::MAX,
        exists|k: int|
            0 <= k < r.tree.rows().len() && r.tree.entries[#[trigger] r.tree.rows()[k] as int].file
                == Some(fi),
    ensures
        ({
            let t = r.followed(s);
            &&& t.stream == s
            &&& t.tree.entries == r.tree.entries
            &&& t.tree.selected < t.tree.rows().len()
            &&& t.tree.entries[t.tree.rows()[t.tree.selected as int] as int].file == Some(fi)
        }),
{
    lemma_row(r.tree.entries, r.tree.rows(), fi, 0);
    let k = choose|k: int|
        0 <= k < r.tree.rows().len() && r.tree.entries[#[trigger] r.tree.rows()[k] as int].file
            == Some(fi);
    assert(r.tree.entries[r.tree.rows()[k] as int].file == Some(fi));
}

proof fn lemma_row(entries: Seq<tree::EntryView>, rows: Seq<usize>, file: usize, i: int)
    requires
        0 <= i <= rows.len() <= usize::MAX,
    ensures
        match tree::row_of_file(entries, rows, file, i) {
            Some(k) => i <= k < rows.len() && entries[rows[k as int] as int].file == Some(file),
            None => forall|k: int|
                i <= k < rows.len() ==> entries[#[trigger] rows[k] as int].file != Some(file),
        },
    decreases rows.len() - i,
{
    if i < rows.len() && entries[rows[i] as int].file != Some(file) {
        lemma_row(entries, rows, file, i + 1);
    }
}

/// A selection starts at the cursor with that one row and is dropped by the same
/// key; selecting by lines takes one row more each time.
pub proof fn lemma_selecting(r: ReviewView)
    requires
        r.stream.ok(),
        r.stream.rows.len() > 0,
        r.focus == Focus::Stream,
    ensures
        ({
            let c = r.stream.cursor;
            let started = r.walked(Action::ToggleSelection);
            let line = r.walked(Action::SelectLine);
            &&& r.stream.selection is None ==> {
                &&& started.stream.selected() == Some((c as int, c + 1))
                &&& started.walked(Action::ToggleSelection).stream == r.stream
                &&& line.stream.selected() == Some((c as int, c + 1))
                &&& c + 1 < r.stream.rows.len() ==> line.walked(Action::SelectLine).stream.selected()
                    == Some((c as int, c + 2))
            }
            &&& r.stream.selection is Some ==> started.stream.selection is None
            &&& started.diff == r.diff && started.stream.cursor == c
        }),
{
    if r.stream.selection is None {
        let again = r.walked(Action::ToggleSelection).walked(Action::ToggleSelection).stream;
        assert(again =~= r.stream);
    }
}

/// Hiding the tree gives the keys to the stream, showing it again changes nothing
/// else; switching the focus shows the tree and switching again gives it back.
pub proof fn lemma_panes(r: ReviewView)
    ensures
        ({
            let t = r.walked(Action::ToggleTree);
            let f = r.walked(Action::FocusTree);
            &&& t.show_tree == !r.show_tree
            &&& !t.show_tree ==> t.focus == Focus::Stream
            &&& t.walked(Action::ToggleTree).show_tree == r.show_tree
            &&& t.stream == r.stream && t.tree == r.tree && t.diff == r.diff
            &&& f.show_tree
            &&& f.focus != r.focus
            &&& f.walked(Action::FocusTree).focus == r.focus
            &&& f.stream == r.stream
            &&& r.walked(Action::AutoTreeWidth).tree_width is None
            &&& r.walked(Action::AutoTreeWidth).show_tree
        }),
{
}

/// With the keys in the tree, up and down move its selection and nothing else.
pub proof fn lemma_walking_in_the_tree(r: ReviewView)
    requires
        r.focus == Focus::Tree,
        r.tree.selected < r.tree.rows().len() <= usize::MAX,
    ensures
        ({
            let d = r.walked(Action::Down);
            let u = r.walked(Action::Up);
            let n = r.tree.rows().len();
            &&& d.stream == r.stream && u.stream == r.stream
            &&& d.tree.entries == r.tree.entries && u.tree.entries == r.tree.entries
            &&& r.tree.selected + 1 < n ==> d.tree.selected == r.tree.selected + 1
            &&& r.tree.selected + 1 == n ==> d.tree.selected == r.tree.selected
            &&& r.tree.selected > 0 ==> u.tree.selected == r.tree.selected - 1
            &&& r.tree.selected == 0 ==> u.tree.selected == 0
        }),
{
}

/// Picking a file in the tree goes to its header and gives the keys to the
/// stream; picking a directory leaves the stream alone.
pub proof fn lemma_picking(r: ReviewView, on: usize)
    requires
        r.stream.ok(),
        r.stream.shows(r.diff.files),
        r.tree.selected_entry() == Some(on),
        r.tree.entries[on as int].file matches Some(f) ==> f < r.diff.files.len(),
    ensures
        ({
            let t = r.picked();
            match r.tree.entries[on as int].file {
                Some(f) => {
                    &&& t.focus == Focus::Stream
                    &&& t.stream.cursor < r.stream.rows.len()
                    &&& r.stream.rows[t.stream.cursor as int] == Row::FileHeader(f)
                    &&& t.stream.scroll == t.stream.cursor
                    &&& t.tree == r.tree
                },
                None => t.stream == r.stream && t.focus == r.focus,
            }
        }),
{
    if let Some(f) = r.tree.entries[on as int].file {
        rows::lemma_headers_at(r.stream.rows);
        rows::lemma_landmarks(r.stream.rows, Landmark::File);
        let list = r.stream.landmarks(Landmark::File);
        assert(rows::headers(r.stream.rows)[f as int] == rows::numbers(r.diff.files.len())[f as int]);
        assert(r.stream.rows[list[f as int] as int] == Row::FileHeader(
            rows::headers(r.stream.rows)[f as int],
        ));
        assert(list[f as int] < r.stream.rows.len());
    }
}

// ---- the pager ----------------------------------------------------------------------

/// The pager scrolls by lines and pages within the file, and opens a little above
/// the line it was asked for.
pub proof fn lemma_paging(v: PagerView, n: nat, target: usize)
    requires
        v.ok(),
        v.lines.len() > 0,
        v.scroll < v.lines.len(),
        v.viewport >= 2,
        target < n <= usize::MAX,
    ensures
        ({
            let last = v.lines.len() - 1;
            let at = |a: Action| walk::paged(v, a).scroll as int;
            let h = v.viewport;
            &&& v.scroll < last ==> at(Action::Down) == v.scroll + 1
            &&& v.scroll > 0 ==> at(Action::Up) == v.scroll - 1
            &&& v.scroll == 0 ==> at(Action::Up) == 0
            &&& v.scroll == last ==> at(Action::Down) == last
            &&& v.scroll + h - 1 <= last ==> at(Action::PageDown) == v.scroll + h - 1
            &&& v.scroll + h - 1 > last ==> at(Action::PageDown) == last
            &&& v.scroll - (h - 1) >= 0 ==> at(Action::PageUp) == v.scroll - (h - 1)
            &&& v.scroll + h / 2 <= last ==> at(Action::HalfPageDown) == v.scroll + h / 2
            &&& v.scroll - h / 2 >= 0 ==> at(Action::HalfPageUp) == v.scroll - h / 2
            &&& at(Action::GotoTop) == 0
            &&& v.lines.len() >= h ==> at(Action::GotoBottom) + h == v.lines.len()
            &&& walk::paged(v, Action::Down).lines == v.lines
            &&& v.top_line() == v.scroll + 1
        }),
        ({
            let first = crate::ui::fileview::first_line(n, Some(target));
            &&& first <= target < first + 4
            &&& target >= 3 ==> first == target - 3
        }),
        crate::ui::fileview::first_line(n, None) == 0,
{
}

// ---- the mouse ----------------------------------------------------------------------

/// The wheel scrolls three rows; a click on a row puts the cursor there. While
/// something is open above the review neither touches it.
pub proof fn lemma_mouse(app: AppView, r: ReviewView, column: u16, row: u16)
    requires
        r.file_view is None,
        r.focus == Focus::Stream,
        r.stream.ok(),
        r.stream.rows.len() > 0,
        r.tree_row(column, row) is None,
    ensures
        r.wheeled(1, column, row).stream == r.stream.scrolled(3),
        r.wheeled(-1, column, row).stream == r.stream.scrolled(-3),
        r.stream.row_at(column, row) matches Some(i) ==> r.clicked(column, row).stream.cursor == i,
        r.stream.row_at(column, row) is None ==> r.clicked(column, row) == r,
        app.overlay is Some ==> app.moused(MouseKind::LeftDown, column, row).app.screen
            == app.screen && app.moused(MouseKind::ScrollDown, column, row).app.screen
            == app.screen,
        app.overlay is Some ==> app.moused(MouseKind::LeftDown, column, row).effects.len() == 0,
        app.overlay matches Some(OverlayView::Search(q)) ==> app.moused(
            MouseKind::LeftDown,
            column,
            row,
        ).app == app,
{
}

} // verus!
