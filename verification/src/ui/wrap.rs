//! Breaking text into rows of a given width. Rows are ranges of character
//! positions; a row holds as many characters as fit, and at least one.

use crate::ui::width;
use vstd::prelude::*;

verus! {

/// A range of character positions of a text.
#[derive(Clone, Copy, Debug, PartialEq, Eq, Structural)]
pub struct VisualLine {
    pub start: usize,
    pub end: usize,
}

/// Cells that the characters `lo..hi` take.
pub open spec fn cells_between(s: Seq<char>, lo: int, hi: int) -> int
    decreases hi - lo,
{
    if hi <= lo {
        0
    } else {
        cells_between(s, lo, hi - 1) + width::cells(s[hi - 1])
    }
}

/// Where a row that starts at `start` ends, given that it reaches `i`: before
/// the first character that no longer fits, at a line feed if these break
/// rows, or at the end of the text. A row takes its first character even if
/// that is too wide.
pub open spec fn row_end(s: Seq<char>, w: int, start: int, i: int, breaks: bool) -> int
    decreases s.len() - i,
{
    if i >= s.len() {
        s.len() as int
    } else if breaks && s[i] == '\n' {
        i
    } else if i > start && cells_between(s, start, i) + width::cells(s[i]) > w {
        i
    } else {
        row_end(s, w, start, i + 1, breaks)
    }
}

/// The row from `start` to `end`.
pub open spec fn row(start: int, end: int) -> VisualLine {
    VisualLine { start: start as usize, end: end as usize }
}

/// Where a row ends lies past its start, except at a break or at the end.
pub proof fn lemma_row_end(s: Seq<char>, w: int, start: int, i: int, breaks: bool)
    requires
        0 <= start <= i <= s.len(),
    ensures
        i <= row_end(s, w, start, i, breaks) <= s.len(),
        row_end(s, w, start, i, breaks) < s.len() && !(breaks && s[row_end(s, w, start, i, breaks)]
            == '\n') ==> row_end(s, w, start, i, breaks) > start,
    decreases s.len() - i,
{
    if i < s.len() && !(breaks && s[i] == '\n') && !(i > start && cells_between(s, start, i)
        + width::cells(s[i]) > w) {
        lemma_row_end(s, w, start, i + 1, breaks);
    }
}

/// The rows of a text from `start` on.
pub open spec fn rows_from(s: Seq<char>, w: int, start: int, breaks: bool) -> Seq<VisualLine>
    decreases s.len() - start,
{
    let e = row_end(s, w, start, start, breaks);
    if start < 0 || e < start || e >= s.len() {
        seq![row(start, s.len() as int)]
    } else if breaks && s[e] == '\n' {
        seq![row(start, e)] + rows_from(s, w, e + 1, breaks)
    } else if e == start {
        seq![row(start, s.len() as int)]
    } else {
        seq![row(start, e)] + rows_from(s, w, e, breaks)
    }
}

/// A width that is at least one.
pub open spec fn at_least_one(w: usize) -> int {
    if w == 0 {
        1
    } else {
        w as int
    }
}

/// The rows of one line of text.
pub open spec fn wrapped(s: Seq<char>, w: usize) -> Seq<VisualLine> {
    rows_from(s, at_least_one(w), 0, false)
}

/// The rows of a text of several lines.
pub open spec fn laid_out(s: Seq<char>, w: usize) -> Seq<VisualLine> {
    rows_from(s, at_least_one(w), 0, true)
}

fn break_rows(s: &[char], w: usize, breaks: bool) -> (r: Vec<VisualLine>)
    requires
        w >= 1,
    ensures
        r@ == rows_from(s@, w as int, 0, breaks),
{
    let n: usize = s.len();
    let mut rows: Vec<VisualLine> = Vec::new();
    let mut start: usize = 0;
    let mut cells: usize = 0;
    let mut i: usize = 0;
    assert(rows@ + rows_from(s@, w as int, 0, breaks) =~= rows_from(s@, w as int, 0, breaks));
    while i < n
        invariant
            n == s@.len(),
            w >= 1,
            start <= i <= n,
            cells == cells_between(s@, start as int, i as int),
            cells <= w || cells <= 255,
            i == start ==> cells == 0,
            row_end(s@, w as int, start as int, start as int, breaks) == row_end(
                s@,
                w as int,
                start as int,
                i as int,
                breaks,
            ),
            rows@ + rows_from(s@, w as int, start as int, breaks) == rows_from(
                s@,
                w as int,
                0,
                breaks,
            ),
        decreases n - i,
    {
        let c: char = s[i];
        let ghost before = rows@;
        if breaks && c == '\n' {
            rows.push(VisualLine { start, end: i });
            assert(rows@ + rows_from(s@, w as int, i + 1, breaks) =~= before + rows_from(
                s@,
                w as int,
                start as int,
                breaks,
            ));
            start = i + 1;
            cells = 0;
            i += 1;
        } else {
            let cw: usize = width::cell_width(c);
            if i > start && (cells > w || cw > w - cells) {
                rows.push(VisualLine { start, end: i });
                assert(rows@ + rows_from(s@, w as int, i as int, breaks) =~= before + rows_from(
                    s@,
                    w as int,
                    start as int,
                    breaks,
                ));
                start = i;
                cells = 0;
            }
            cells = cells + cw;
            i += 1;
            assert(cells_between(s@, start as int, i as int) == cells_between(
                s@,
                start as int,
                i - 1,
            ) + width::cells(c));
        }
    }
    let ghost before = rows@;
    rows.push(VisualLine { start, end: n });
    assert(rows@ =~= before + rows_from(s@, w as int, start as int, breaks));
    rows
}

/// The rows of one line of text; an empty line is one empty row.
pub fn wrap_ranges(s: &[char], w: usize) -> (r: Vec<VisualLine>)
    ensures
        r@ == wrapped(s@, w),
{
    break_rows(
        s,
        if w == 0 {
            1
        } else {
            w
        },
        false,
    )
}

/// The rows of a text of several lines.
pub fn visual_lines(s: &[char], w: usize) -> (r: Vec<VisualLine>)
    ensures
        r@ == laid_out(s@, w),
{
    break_rows(
        s,
        if w == 0 {
            1
        } else {
            w
        },
        true,
    )
}

/// What the rows from `start` on are: in order, without gaps but for the line
/// feeds that break rows, and up to the end of the text.
pub open spec fn covers(s: Seq<char>, rows: Seq<VisualLine>, start: int, breaks: bool) -> bool {
    &&& rows.len() > 0
    &&& rows[0].start == start
    &&& rows.last().end == s.len()
    &&& forall|k: int|
        0 <= k < rows.len() ==> (#[trigger] rows[k]).start <= rows[k].end <= s.len()
    &&& forall|k: int|
        0 <= k < rows.len() - 1 ==> if breaks && s[(#[trigger] rows[k]).end as int] == '\n' {
            rows[k + 1].start == rows[k].end + 1
        } else {
            rows[k + 1].start == rows[k].end && rows[k].start < rows[k].end
        }
}

/// Wrapping changes nothing of the text: the rows are consecutive pieces that
/// make up all of it, apart from the line feeds between them.
pub proof fn lemma_rows_cover(s: Seq<char>, w: int, start: int, breaks: bool)
    requires
        0 <= start <= s.len() <= usize::MAX,
    ensures
        covers(s, rows_from(s, w, start, breaks), start, breaks),
    decreases s.len() - start,
{
    let rows = rows_from(s, w, start, breaks);
    let e = row_end(s, w, start, start, breaks);
    lemma_row_end(s, w, start, start, breaks);
    if e < s.len() {
        let next = if breaks && s[e] == '\n' {
            e + 1
        } else {
            e
        };
        lemma_rows_cover(s, w, next, breaks);
        let rest = rows_from(s, w, next, breaks);
        assert(rows =~= seq![row(start, e)] + rest);
        assert forall|k: int| 0 <= k < rows.len() implies (#[trigger] rows[k]).start <= rows[k].end
            <= s.len() by {
            if k > 0 {
                assert(rows[k] == rest[k - 1]);
            }
        }
        assert forall|k: int| 0 <= k < rows.len() - 1 implies if breaks && s[(
        #[trigger] rows[k]).end as int] == '\n' {
            rows[k + 1].start == rows[k].end + 1
        } else {
            rows[k + 1].start == rows[k].end && rows[k].start < rows[k].end
        } by {
            if k > 0 {
                assert(rows[k] == rest[k - 1]);
                assert(rows[k + 1] == rest[k]);
            } else {
                assert(rows[1] == rest[0]);
            }
        }
    }
}

proof fn lemma_cells_between(s: Seq<char>, lo: int, hi: int)
    ensures
        cells_between(s, lo, hi) >= 0,
    decreases hi - lo,
{
    if lo < hi {
        lemma_cells_between(s, lo, hi - 1);
    }
}

proof fn lemma_row_end_fits(s: Seq<char>, w: int, start: int, i: int, breaks: bool)
    requires
        0 <= start <= i <= s.len(),
        i <= start + 1 || cells_between(s, start, i) <= w,
    ensures
        ({
            let e = row_end(s, w, start, i, breaks);
            e <= start + 1 || cells_between(s, start, e) <= w
        }),
    decreases s.len() - i,
{
    if i < s.len() && !(breaks && s[i] == '\n') && !(i > start && cells_between(s, start, i)
        + width::cells(s[i]) > w) {
        lemma_row_end_fits(s, w, start, i + 1, breaks);
    }
}

/// Every row fits the width, unless it is a single character that is too wide.
pub proof fn lemma_rows_fit(s: Seq<char>, w: int, start: int, breaks: bool, k: int)
    requires
        0 <= start <= s.len() <= usize::MAX,
        0 <= k < rows_from(s, w, start, breaks).len(),
    ensures
        ({
            let r = rows_from(s, w, start, breaks)[k];
            r.end <= r.start + 1 || cells_between(s, r.start as int, r.end as int) <= w
        }),
    decreases s.len() - start,
{
    let e = row_end(s, w, start, start, breaks);
    lemma_row_end(s, w, start, start, breaks);
    lemma_row_end_fits(s, w, start, start, breaks);
    if e < s.len() {
        let next = if breaks && s[e] == '\n' {
            e + 1
        } else {
            e
        };
        let rest = rows_from(s, w, next, breaks);
        assert(rows_from(s, w, start, breaks) =~= seq![row(start, e)] + rest);
        if k > 0 {
            lemma_rows_fit(s, w, next, breaks, k - 1);
        }
    }
}

} // verus!
