//! How texts are broken to a width.

use crate::comments::CommentView;
use crate::git::diff::FileDiffView;
use crate::text;
use crate::ui::rows;
use crate::ui::rows::Row;
use crate::ui::width;
use crate::ui::wrap;
use crate::ui::wrap::VisualLine;
use vstd::prelude::*;

verus! {

/// Cells of the characters of a text.
pub open spec fn cells_of(s: Seq<char>) -> int
    decreases s.len(),
{
    if s.len() == 0 {
        0
    } else {
        width::cells(s[0]) + cells_of(s.skip(1))
    }
}

proof fn lemma_cells_push(s: Seq<char>, c: char)
    ensures
        cells_of(s.push(c)) == cells_of(s) + width::cells(c),
    decreases s.len(),
{
    let t = s.push(c);
    if s.len() == 0 {
        assert(t.skip(1) =~= Seq::empty());
        assert(cells_of(t.skip(1)) == 0);
    } else {
        assert(t.skip(1) =~= s.skip(1).push(c));
        lemma_cells_push(s.skip(1), c);
    }
}

/// Cells between two places are those of the characters there.
pub proof fn lemma_cells_between(s: Seq<char>, lo: int, hi: int)
    requires
        0 <= lo <= hi <= s.len(),
    ensures
        wrap::cells_between(s, lo, hi) == cells_of(s.subrange(lo, hi)),
        cells_of(s.subrange(lo, hi)) >= 0,
    decreases hi - lo,
{
    if lo < hi {
        lemma_cells_between(s, lo, hi - 1);
        lemma_cells_push(s.subrange(lo, hi - 1), s[hi - 1]);
        assert(s.subrange(lo, hi) =~= s.subrange(lo, hi - 1).push(s[hi - 1]));
    }
}

/// A row is as long as it can be: it ends at the end of the text, at a line feed
/// if these break rows, or where the next character does not fit any more. It
/// holds no such line feed, and fits the width unless it is one character.
pub open spec fn well_broken(s: Seq<char>, w: int, r: VisualLine, breaks: bool) -> bool {
    let inside = s.subrange(r.start as int, r.end as int);
    &&& r.start <= r.end <= s.len()
    &&& inside.len() <= 1 || cells_of(inside) <= w
    &&& breaks ==> !inside.contains('\n')
    &&& r.end < s.len() ==> (breaks && s[r.end as int] == '\n') || (inside.len() > 0 && cells_of(
        inside.push(s[r.end as int]),
    ) > w)
}

proof fn lemma_row_end(s: Seq<char>, w: int, start: int, i: int, breaks: bool)
    requires
        0 <= start <= i <= s.len(),
        i <= start + 1 || wrap::cells_between(s, start, i) <= w,
        breaks ==> forall|k: int| start <= k < i ==> s[k] != '\n',
    ensures
        ({
            let e = wrap::row_end(s, w, start, i, breaks);
            &&& i <= e <= s.len()
            &&& e <= start + 1 || wrap::cells_between(s, start, e) <= w
            &&& breaks ==> forall|k: int| start <= k < e ==> s[k] != '\n'
            &&& e < s.len() ==> (breaks && s[e] == '\n') || (e > start && wrap::cells_between(
                s,
                start,
                e,
            ) + width::cells(s[e]) > w)
        }),
    decreases s.len() - i,
{
    if i < s.len() && !(breaks && s[i] == '\n') && !(i > start && wrap::cells_between(s, start, i)
        + width::cells(s[i]) > w) {
        lemma_row_end(s, w, start, i + 1, breaks);
    }
}

/// Every row of a broken text is as long as it can be and no longer.
pub proof fn lemma_rows_are_well_broken(s: Seq<char>, w: int, start: int, breaks: bool, k: int)
    requires
        0 <= start <= s.len() <= usize::MAX,
        0 <= k < wrap::rows_from(s, w, start, breaks).len(),
    ensures
        well_broken(s, w, wrap::rows_from(s, w, start, breaks)[k], breaks),
        wrap::covers(s, wrap::rows_from(s, w, start, breaks), start, breaks),
    decreases s.len() - start,
{
    wrap::lemma_rows_cover(s, w, start, breaks);
    let e = wrap::row_end(s, w, start, start, breaks);
    lemma_row_end(s, w, start, start, breaks);
    let rows = wrap::rows_from(s, w, start, breaks);
    let inside = s.subrange(start, e);
    if k == 0 {
        assert(rows[0] == wrap::row(start, e));
        lemma_cells_between(s, start, e);
        if e < s.len() {
            lemma_cells_push(inside, s[e]);
        }
        if breaks && inside.contains('\n') {
            let j = inside.index_of('\n');
            assert(s[start + j] == '\n');
        }
    } else {
        let next = if breaks && s[e] == '\n' {
            e + 1
        } else {
            e
        };
        let rest = wrap::rows_from(s, w, next, breaks);
        assert(rows =~= seq![wrap::row(start, e)] + rest);
        assert(rows[k] == rest[k - 1]);
        lemma_rows_are_well_broken(s, w, next, breaks, k - 1);
    }
}

/// The text that a row shows all of, where it is broken to a width.
pub open spec fn text_of(row: Row, files: Seq<FileDiffView>, cs: Seq<CommentView>) -> Seq<char> {
    match row {
        Row::Line { file, hunk, line, .. } =>
            files[file as int].hunks[hunk as int].lines[line as int].content,
        Row::CommentBody { comment, line, .. } => {
            let said = text::lines(cs[comment as int].body);
            if line < said.len() {
                said[line as int]
            } else {
                Seq::empty()
            }
        },
        _ => Seq::empty(),
    }
}

/// The width that a row is broken to, if it is.
pub open spec fn width_of(row: Row, comment_width: usize, line_width: Option<usize>) -> Option<
    usize,
> {
    match row {
        Row::Line { .. } => line_width,
        Row::CommentBody { .. } => Some(comment_width),
        _ => None,
    }
}

/// Diff lines and comments are broken to their own widths, each row into pieces
/// that make up its whole text; every other row, and a line where lines are not
/// wrapped, stays one row.
pub proof fn lemma_rows_are_broken_to_their_width(
    row: Row,
    files: Seq<FileDiffView>,
    cs: Seq<CommentView>,
    comment_width: usize,
    line_width: Option<usize>,
    k: int,
)
    requires
        text_of(row, files, cs).len() <= usize::MAX,
        row is Line ==> row->Line_end == text_of(row, files, cs).len(),
        0 <= k < rows::segments(row, files, cs, comment_width, line_width).len(),
    ensures
        ({
            let segs = rows::segments(row, files, cs, comment_width, line_width);
            let s = text_of(row, files, cs);
            match width_of(row, comment_width, line_width) {
                Some(w) => {
                    &&& w > 0 ==> well_broken(s, w as int, segs[k], false)
                    &&& wrap::covers(s, segs, 0, false)
                },
                None => segs.len() == 1 && (row is Line ==> segs[0].start == 0 && segs[0].end
                    == s.len()),
            }
        }),
        ({
            let seg = rows::segments(row, files, cs, comment_width, line_width)[k];
            match (row, rows::piece(row, seg)) {
                (
                    Row::Line { file: f, hunk: h, line: l, .. },
                    Row::Line { file, hunk, line, start, end },
                ) => f == file && h == hunk && l == line && start == seg.start && end == seg.end,
                (
                    Row::CommentBody { comment: c, line: l, .. },
                    Row::CommentBody { comment, line, start, end },
                ) => c == comment && l == line && start == seg.start && end == seg.end,
                (a, b) => a == b && !(a is Line) && !(a is CommentBody),
            }
        }),
{
    let s = text_of(row, files, cs);
    match width_of(row, comment_width, line_width) {
        Some(w) => {
            assert(rows::segments(row, files, cs, comment_width, line_width) == wrap::wrapped(s, w));
            lemma_rows_are_well_broken(s, wrap::at_least_one(w), 0, false, k);
        },
        None => {},
    }
}

} // verus!
