//! Where panes stand, and what they have room for.

use crate::keymap::HintView;
use crate::laws::wrapping;
use crate::text;
use crate::ui::bar;
use crate::ui::bar::Packing;
use crate::ui::export;
use crate::ui::export::PreviewView;
use crate::ui::popups;
use crate::ui::review::StreamView;
use crate::ui::stream_view;
use crate::ui::style::{Position, Rect};
use crate::ui::wrap;
use vstd::prelude::*;

verus! {

// ---- areas --------------------------------------------------------------------------

/// The area lies within the bounds.
pub open spec fn lies_in(a: Rect, b: Rect) -> bool {
    b.x <= a.x && a.x + a.width <= b.x + b.width && b.y <= a.y && a.y + a.height <= b.y + b.height
}

/// The area is in the middle of the bounds, to the column and to the row.
pub open spec fn centered(a: Rect, b: Rect) -> bool {
    let left = a.x - b.x;
    let right = b.x + b.width - (a.x + a.width);
    let above = a.y - b.y;
    let under = b.y + b.height - (a.y + a.height);
    0 <= right - left <= 1 && 0 <= under - above <= 1
}

/// Help, preview and questions pop up in the middle of the screen and within it.
pub proof fn lemma_popups_are_centered(b: Rect, lines: nat, chars: nat)
    requires
        b.x + b.width <= u16::MAX,
        b.y + b.height <= u16::MAX,
        b.width >= 4,
        b.height >= 5,
        lines <= u16::MAX,
        chars <= u16::MAX,
    ensures
        lies_in(popups::help_area(b, lines), b),
        centered(popups::help_area(b, lines), b),
        lies_in(export::preview_area(b), b),
        centered(export::preview_area(b), b),
        lies_in(popups::confirm_area(b, chars), b),
        centered(popups::confirm_area(b, chars), b),
        popups::help_area(b, lines).width <= 72,
        export::preview_area(b).width <= 120,
        b.width >= 124 ==> export::preview_area(b).width == 120,
        b.width < 124 ==> export::preview_area(b).width == b.width - 4,
        export::preview_area(b).height == b.height - 2,
        lines + 4 <= b.height ==> popups::help_area(b, lines).height == lines + 2,
{
}

/// The editor opens within the screen: below the row it is about where there is
/// room, else above it where there is.
pub proof fn lemma_editor_area(b: Rect, p: Position, rows: nat)
    requires
        b.x + b.width <= u16::MAX,
        b.y + b.height <= u16::MAX,
        b.width >= 7,
        b.height >= 6,
        b.x <= p.x,
        b.y <= p.y < b.y + b.height,
        rows <= u16::MAX,
    ensures
        ({
            let a = popups::editor_area(b, Some(p), rows);
            &&& lies_in(a, b)
            &&& a.width <= 96 && a.height >= 5
            &&& a.height <= b.height / 2 || a.height == 5
            &&& rows + 2 <= b.height / 2 && rows >= 3 ==> a.height == rows + 2
            &&& p.y + 1 + a.height <= b.y + b.height ==> a.y == p.y + 1
            &&& p.y + 1 + a.height > b.y + b.height && p.y >= b.y + a.height ==> a.y + a.height
                == p.y
            &&& p.x + a.width <= b.x + b.width ==> a.x == p.x
        }),
{
}

/// Comments leave two columns to their bar, and lines thirteen to the gutter; a
/// row on screen is shown as selected exactly when it lies between the ends of
/// the selection.
pub proof fn lemma_columns(width: u16, s: StreamView, row: int)
    requires
        s.ok(),
        width >= 14,
    ensures
        stream_view::comment_columns(width) + 2 == width,
        stream_view::line_columns(width) + 13 == width,
        s.selection is None ==> !stream_view::is_selected(s, row),
        s.selection matches Some(a) ==> (stream_view::is_selected(s, row) <==> (a <= row <= s.cursor
            || s.cursor <= row <= a)),
{
}

// ---- the preview --------------------------------------------------------------------

/// Texts one after the other.
pub open spec fn run_together(parts: Seq<Seq<char>>) -> Seq<char>
    decreases parts.len(),
{
    if parts.len() == 0 {
        Seq::empty()
    } else {
        run_together(parts.drop_last()) + parts.last()
    }
}

proof fn lemma_pieces(s: Seq<char>, rows: Seq<wrap::VisualLine>, n: int)
    requires
        wrap::covers(s, rows, 0, false),
        0 < n <= rows.len(),
    ensures
        run_together(
            rows.take(n).map_values(
                |r: wrap::VisualLine| s.subrange(r.start as int, r.end as int),
            ),
        ) == s.take(rows[n - 1].end as int),
    decreases n,
{
    let cut = |r: wrap::VisualLine| s.subrange(r.start as int, r.end as int);
    let parts = rows.take(n).map_values(cut);
    assert(parts.drop_last() =~= rows.take(n - 1).map_values(cut));
    let last = rows[n - 1];
    if n > 1 {
        lemma_pieces(s, rows, n - 1);
        assert(rows[n - 2].end == last.start) by {
            assert(rows[n - 2 + 1] == last);
        }
        assert(s.take(last.start as int) + cut(last) =~= s.take(last.end as int));
    } else {
        assert(rows.take(0).map_values(cut) =~= Seq::empty());
        assert(run_together(parts.drop_last()) =~= Seq::empty());
        assert(Seq::<char>::empty() + cut(last) =~= s.take(last.end as int));
    }
}

/// The preview shows every line of the export whole: its pieces, one below the
/// other, make up the line, and none is wider than the pane.
pub proof fn lemma_preview_shows_lines_whole(line: Seq<char>, w: usize, k: int)
    requires
        line.len() <= usize::MAX,
        w > 0,
        0 <= k < export::line_pieces(line, w).len(),
    ensures
        run_together(export::line_pieces(line, w)) == line,
        export::line_pieces(line, w)[k].len() <= 1 || wrapping::cells_of(
            export::line_pieces(line, w)[k],
        ) <= w,
{
    let rows = wrap::wrapped(line, w);
    wrapping::lemma_rows_are_well_broken(line, w as int, 0, false, k);
    lemma_pieces(line, rows, rows.len() as int);
    assert(rows.take(rows.len() as int) =~= rows);
    assert(line.take(line.len() as int) =~= line);
}

/// The rows of a preview are those of its lines, in order; an empty export has
/// one empty row.
pub proof fn lemma_preview_rows(s: Seq<char>, w: usize, n: int)
    requires
        0 < n <= text::lines(s).len(),
    ensures
        export::pieces(text::lines(s), w, n) == export::pieces(text::lines(s), w, n - 1)
            + export::line_pieces(text::lines(s)[n - 1], w),
        export::pieces(text::lines(s), w, 0).len() == 0,
        export::broken(s, w) == export::pieces(text::lines(s), w, text::lines(s).len() as int),
{
}

/// The preview scrolls by rows and stops where the last page is full; what it
/// shows is the rows from the scroll position on.
pub proof fn lemma_preview_scrolls(p: PreviewView, delta: int, height: u16, k: int)
    requires
        p.viewport > 0,
        p.lines.len() <= usize::MAX,
        p.scroll <= p.lines.len(),
        0 <= k < height,
        p.scroll + k < p.lines.len(),
    ensures
        ({
            let q = p.scrolled(delta);
            let n = p.lines.len();
            &&& q.lines == p.lines && q.markdown == p.markdown
            &&& 0 <= p.scroll + delta && p.scroll + delta + p.viewport <= n ==> q.scroll == p.scroll
                + delta
            &&& p.scroll + delta < 0 ==> q.scroll == 0
            &&& p.scroll + delta >= 0 && p.scroll + delta + p.viewport > n && n >= p.viewport
                ==> q.scroll + p.viewport == n
            &&& n < p.viewport ==> q.scroll == 0
        }),
        p.visible(height)[k] == p.lines[p.scroll + k],
        p.visible(height).len() <= height,
        p.page_rows() + 1 == p.viewport,
{
}

// ---- the hint bar -------------------------------------------------------------------

/// Hint numbers, row after row.
pub open spec fn in_rows(rows: Seq<Seq<usize>>) -> Seq<usize>
    decreases rows.len(),
{
    if rows.len() == 0 {
        Seq::empty()
    } else {
        in_rows(rows.drop_last()) + rows.last()
    }
}

/// What holds of a packing of the first `n` hints.
spec fn well_packed(p: Packing, hints: Seq<HintView>, w: int, h: int, n: int) -> bool {
    &&& p.rows.len() <= h
    &&& forall|k: int| 0 <= k < p.rows.len() ==> (#[trigger] p.rows[k]).len() > 0
    &&& p.rows.len() > 0 ==> p.used == bar::row_cells(hints, p.rows.last())
    &&& p.full ==> p.rows.len() == h
    &&& !p.full ==> in_rows(p.rows) == fitting(hints, w, n)
    &&& in_rows(p.rows).is_prefix_of(fitting(hints, w, n))
    &&& forall|k: int|
        0 <= k < p.rows.len() - 1 ==> bar::row_cells(
            hints,
            (#[trigger] p.rows[k]).push(p.rows[k + 1][0]),
        ) > w
}

/// The numbers of the first `n` hints that fit the width at all.
pub open spec fn fitting(hints: Seq<HintView>, w: int, n: int) -> Seq<usize> {
    Seq::new(n as nat, |i: int| i as usize).filter(|i: usize| bar::hint_cells(hints[i as int]) <= w)
}

proof fn lemma_fitting(hints: Seq<HintView>, w: int, n: int)
    requires
        0 < n,
    ensures
        fitting(hints, w, n) == (if bar::hint_cells(hints[(n - 1) as usize as int]) <= w {
            fitting(hints, w, n - 1).push((n - 1) as usize)
        } else {
            fitting(hints, w, n - 1)
        }),
{
    reveal(Seq::filter);
    let all = Seq::new(n as nat, |i: int| i as usize);
    assert(all.drop_last() =~= Seq::new((n - 1) as nat, |i: int| i as usize));
    assert(all.last() == (n - 1) as usize);
}

proof fn lemma_cells_push(hints: Seq<HintView>, row: Seq<usize>, i: usize)
    ensures
        bar::row_cells(hints, row.push(i)) == bar::row_cells(hints, row) + (if row.len() > 0 {
            2int
        } else {
            0
        }) + bar::hint_cells(hints[i as int]),
{
    assert(row.push(i).drop_last() =~= row);
}

proof fn lemma_well_packed(hints: Seq<HintView>, w: int, h: int, n: int)
    requires
        0 <= n <= hints.len() <= usize::MAX,
        w > 0,
        h > 0,
    ensures
        well_packed(bar::packed(hints, w, h, n), hints, w, h, n),
    decreases n,
{
    if n == 0 {
        reveal(Seq::filter);
        assert(Seq::new(0, |i: int| i as usize) =~= Seq::<usize>::empty());
        assert(fitting(hints, w, 0) =~= Seq::empty());
        assert(in_rows(bar::packed(hints, w, h, 0).rows) =~= Seq::empty());
    } else {
        lemma_well_packed(hints, w, h, n - 1);
        lemma_fitting(hints, w, n);
        let p = bar::packed(hints, w, h, n - 1);
        let q = bar::packed(hints, w, h, n);
        let i = (n - 1) as usize;
        let cells = bar::hint_cells(hints[n - 1]);
        let before = fitting(hints, w, n - 1);
        let after = fitting(hints, w, n);
        let shown = in_rows(p.rows);
        assert(shown.is_prefix_of(after)) by {
            assert(shown =~= before.take(shown.len() as int));
            assert(after.take(shown.len() as int) =~= shown);
        }
        if p.full || cells > w {
            if !p.full {
                assert(after == before);
            }
        } else if p.rows.len() == 0 {
            let one = seq![i];
            assert(q.rows == seq![one]);
            assert(q.rows.drop_last() =~= Seq::empty());
            assert(in_rows(q.rows.drop_last()) =~= Seq::empty());
            assert(in_rows(q.rows) =~= shown.push(i));
            assert(one =~= Seq::<usize>::empty().push(i));
            lemma_cells_push(hints, Seq::empty(), i);
            assert(in_rows(q.rows) =~= after);
            assert(after.take(after.len() as int) =~= after);
        } else if p.used + p.separator() + cells <= w {
            let last = p.rows.last();
            assert(p.rows[p.rows.len() - 1].len() > 0);
            lemma_cells_push(hints, last, i);
            assert(q.rows.drop_last() =~= p.rows.drop_last());
            assert(in_rows(q.rows) =~= shown.push(i));
            assert(in_rows(q.rows) =~= after);
            assert(after.take(after.len() as int) =~= after);
            assert forall|k: int| 0 <= k < q.rows.len() - 1 implies bar::row_cells(
                hints,
                (#[trigger] q.rows[k]).push(q.rows[k + 1][0]),
            ) > w by {
                assert(q.rows[k] == p.rows[k]);
                assert(q.rows[k + 1][0] == p.rows[k + 1][0]);
            }
        } else if p.rows.len() == h {
        } else {
            let last = p.rows.last();
            assert(p.rows[p.rows.len() - 1].len() > 0);
            let one = seq![i];
            assert(q.rows == p.rows.push(one));
            assert(q.rows.drop_last() =~= p.rows);
            assert(in_rows(q.rows) =~= shown.push(i));
            assert(one =~= Seq::<usize>::empty().push(i));
            lemma_cells_push(hints, Seq::empty(), i);
            lemma_cells_push(hints, last, i);
            assert(in_rows(q.rows) =~= after);
            assert(after.take(after.len() as int) =~= after);
            assert forall|k: int| 0 <= k < q.rows.len() - 1 implies bar::row_cells(
                hints,
                (#[trigger] q.rows[k]).push(q.rows[k + 1][0]),
            ) > w by {
                if k < p.rows.len() - 1 {
                    assert(q.rows[k] == p.rows[k]);
                    assert(q.rows[k + 1] == p.rows[k + 1]);
                } else {
                    assert(q.rows[k] == last);
                    assert(q.rows[k + 1] == one);
                }
            }
        }
    }
}

/// The bar shows the hints in order, from the first on, leaving out only those
/// that are wider than the bar itself and, once its rows are used up, the rest; a
/// row ends only where the next hint has no room in it.
pub proof fn lemma_hints_are_packed(hints: Seq<HintView>, w: u16, h: u16)
    requires
        hints.len() <= usize::MAX,
        w > 0,
        h > 0,
    ensures
        ({
            let rows = bar::bar_rows(hints, w, h);
            let fit = fitting(hints, w as int, hints.len() as int);
            &&& in_rows(rows).is_prefix_of(fit)
            &&& rows.len() < h ==> in_rows(rows) == fit
            &&& forall|k: int|
                0 <= k < rows.len() - 1 ==> bar::row_cells(
                    hints,
                    (#[trigger] rows[k]).push(rows[k + 1][0]),
                ) > w
        }),
{
    lemma_well_packed(hints, w as int, h as int, hints.len() as int);
}

} // verus!
