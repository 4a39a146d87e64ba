//! What holds of selections in the diff stream and of comments made on them.

use crate::comments;
use crate::comments::{Anchor, CommentView, Placed};
use crate::git::diff;
use crate::git::diff::{DiffLineView, FileDiffView, HunkView};
use crate::git::numbering;
use crate::ui::review;
use crate::ui::review::{StreamView, TargetView};
use crate::ui::rows;
use crate::ui::rows::Row;
use crate::ui::wrap::VisualLine;
use vstd::prelude::*;

verus! {

broadcast use crate::deep::group_deep;

// ---- the order of diff lines ------------------------------------------------------------

/// The last row that shows a diff line.
pub open spec fn last_line(rows: Seq<Row>) -> Option<Row>
    decreases rows.len(),
{
    if rows.len() == 0 {
        None
    } else if rows.last() is Line {
        Some(rows.last())
    } else {
        last_line(rows.drop_last())
    }
}

/// A row shows the line after the one before it: the next one of its hunk, or
/// one of a later hunk or file.
pub open spec fn follows(before: Option<Row>, row: Row) -> bool {
    match (before, row) {
        (
            Some(Row::Line { file: f1, hunk: h1, line: l1, .. }),
            Row::Line { file: f2, hunk: h2, line: l2, .. },
        ) => f1 < f2 || (f1 == f2 && (h1 < h2 || (h1 == h2 && l2 == l1 + 1))),
        _ => true,
    }
}

/// Does the row go on with the line that the row right above it shows?
pub open spec fn goes_on(rows: Seq<Row>, row: Row) -> bool {
    rows.len() > 0 && review::same_line(rows.last(), row)
}

/// The lines of every hunk stand in order, the pieces of a line together.
pub open spec fn orderly(rows: Seq<Row>) -> bool
    decreases rows.len(),
{
    if rows.len() == 0 {
        true
    } else {
        let before = rows.drop_last();
        let row = rows.last();
        orderly(before) && (row is Line ==> goes_on(before, row) || follows(last_line(before), row))
    }
}

proof fn lemma_push(rows: Seq<Row>, row: Row)
    ensures
        last_line(rows.push(row)) == (if row is Line {
            Some(row)
        } else {
            last_line(rows)
        }),
        orderly(rows.push(row)) == (orderly(rows) && (row is Line ==> goes_on(rows, row) || follows(
            last_line(rows),
            row,
        ))),
{
    assert(rows.push(row).drop_last() =~= rows);
}

proof fn lemma_plain(a: Seq<Row>, b: Seq<Row>)
    requires
        forall|i: int| 0 <= i < b.len() ==> !((#[trigger] b[i]) is Line),
    ensures
        last_line(a + b) == last_line(a),
        orderly(a + b) == orderly(a),
    decreases b.len(),
{
    if b.len() == 0 {
        assert(a + b =~= a);
    } else {
        let front = b.drop_last();
        assert forall|i: int| 0 <= i < front.len() implies !((#[trigger] front[i]) is Line) by {
            assert(front[i] == b[i]);
        }
        lemma_plain(a, front);
        assert(!(b[b.len() - 1] is Line));
        assert(a + b =~= (a + front).push(b.last()));
        lemma_push(a + front, b.last());
    }
}

proof fn lemma_block_is_plain(list: Seq<usize>, cs: Seq<CommentView>, with_snippet: bool)
    ensures
        forall|i: int|
            0 <= i < rows::block_rows(list, cs, with_snippet).len() ==> !((
            #[trigger] rows::block_rows(list, cs, with_snippet)[i]) is Line),
    decreases list.len(),
{
    if list.len() > 0 {
        lemma_block_is_plain(list.drop_last(), cs, with_snippet);
    }
}

/// The line before those of a hunk belongs to an earlier one.
spec fn outside(before: Option<Row>, file: usize, hunk: usize) -> bool {
    match before {
        Some(Row::Line { file: f, hunk: h, .. }) => f < file || (f == file && h < hunk),
        _ => true,
    }
}

proof fn lemma_lines_in_order(
    a: Seq<Row>,
    fi: usize,
    hi: usize,
    lines: Seq<DiffLineView>,
    placed: Seq<Placed>,
    cs: Seq<CommentView>,
    n: int,
)
    requires
        orderly(a),
        outside(last_line(a), fi, hi),
        0 <= n <= lines.len() <= usize::MAX,
    ensures
        ({
            let all = a + rows::lines_rows(fi, hi, lines, placed, cs, n);
            &&& orderly(all)
            &&& n == 0 ==> last_line(all) == last_line(a)
            &&& n > 0 ==> last_line(all) == Some(
                rows::line_row(fi, hi, (n - 1) as usize, lines[n - 1]),
            )
        }),
    decreases n,
{
    let all = a + rows::lines_rows(fi, hi, lines, placed, cs, n);
    if n == 0 {
        assert(all =~= a);
    } else {
        lemma_lines_in_order(a, fi, hi, lines, placed, cs, n - 1);
        let li = (n - 1) as usize;
        let before = a + rows::lines_rows(fi, hi, lines, placed, cs, n - 1);
        let row = rows::line_row(fi, hi, li, lines[n - 1]);
        let block = rows::block_rows(
            rows::comments_at(placed, fi, Anchor::Line { hunk: hi, line: li }),
            cs,
            false,
        );
        lemma_push(before, row);
        lemma_block_is_plain(
            rows::comments_at(placed, fi, Anchor::Line { hunk: hi, line: li }),
            cs,
            false,
        );
        lemma_plain(before.push(row), block);
        assert(all =~= before.push(row) + block);
    }
}

/// The line before those of a file belongs to an earlier hunk of it, or to an
/// earlier file.
spec fn at_hunk(before: Option<Row>, file: usize, n: int) -> bool {
    match before {
        Some(Row::Line { file: f, hunk: h, .. }) => f < file || (f == file && h < n),
        _ => true,
    }
}

spec fn in_file(row: Option<Row>, file: usize) -> bool {
    match row {
        Some(Row::Line { file: f, .. }) => f == file,
        _ => false,
    }
}

proof fn lemma_hunks_in_order(
    a: Seq<Row>,
    fi: usize,
    hunks: Seq<HunkView>,
    placed: Seq<Placed>,
    cs: Seq<CommentView>,
    n: int,
)
    requires
        orderly(a),
        at_hunk(last_line(a), fi, 0),
        0 <= n <= hunks.len(),
        comments::countable_hunks(hunks),
    ensures
        ({
            let all = a + rows::hunks_rows(fi, hunks, placed, cs, n);
            &&& orderly(all)
            &&& at_hunk(last_line(all), fi, n)
            &&& last_line(all) == last_line(a) || in_file(last_line(all), fi)
        }),
    decreases n,
{
    let all = a + rows::hunks_rows(fi, hunks, placed, cs, n);
    if n == 0 {
        assert(all =~= a);
    } else {
        lemma_hunks_in_order(a, fi, hunks, placed, cs, n - 1);
        let hi = (n - 1) as usize;
        let lines = hunks[n - 1].lines;
        let before = a + rows::hunks_rows(fi, hunks, placed, cs, n - 1);
        let header = Row::HunkHeader(fi, hi);
        lemma_push(before, header);
        lemma_lines_in_order(before.push(header), fi, hi, lines, placed, cs, lines.len() as int);
        assert(all =~= before.push(header) + rows::lines_rows(
            fi,
            hi,
            lines,
            placed,
            cs,
            lines.len() as int,
        ));
    }
}

/// The line before those of file `n` belongs to an earlier file.
pub open spec fn at_file(before: Option<Row>, n: int) -> bool {
    match before {
        Some(Row::Line { file: f, .. }) => f < n,
        _ => true,
    }
}

pub proof fn lemma_stream_in_order(
    files: Seq<FileDiffView>,
    placed: Seq<Placed>,
    cs: Seq<CommentView>,
    n: int,
)
    requires
        0 <= n <= files.len(),
        comments::countable(files),
    ensures
        orderly(rows::stream_rows(files, placed, cs, n)),
        at_file(last_line(rows::stream_rows(files, placed, cs, n)), n),
    decreases n,
{
    if n > 0 {
        lemma_stream_in_order(files, placed, cs, n - 1);
        let fi = (n - 1) as usize;
        let f = files[n - 1];
        let before = rows::stream_rows(files, placed, cs, n - 1);
        let gap: Seq<Row> = if n > 1 {
            seq![Row::Spacer]
        } else {
            Seq::empty()
        };
        let head = seq![Row::FileHeader(fi)];
        let top = rows::comments_at(placed, fi, Anchor::Outdated);
        let block = rows::block_rows(top, cs, true);
        lemma_plain(before, gap);
        lemma_plain(before + gap, head);
        lemma_block_is_plain(top, cs, true);
        lemma_plain(before + gap + head, block);
        let start = before + gap + head + block;
        let all = rows::stream_rows(files, placed, cs, n);
        if rows::is_stub(f) {
            lemma_plain(start, seq![Row::LargeStub(fi)]);
            assert(all =~= start + seq![Row::LargeStub(fi)]);
        } else if f.binary {
            lemma_plain(start, seq![Row::Binary]);
            assert(all =~= start + seq![Row::Binary]);
        } else {
            assert(comments::countable_hunks(files[n - 1].hunks));
            let count = f.hunks.len() as int;
            lemma_hunks_in_order(start, fi, f.hunks, placed, cs, count);
            assert(all =~= start + rows::hunks_rows(fi, f.hunks, placed, cs, count));
        }
    }
}

/// Two rows show the same diff line, or there is none.
pub open spec fn alike(a: Option<Row>, b: Option<Row>) -> bool {
    match (a, b) {
        (None, None) => true,
        (Some(x), Some(y)) => review::same_line(x, y),
        _ => false,
    }
}

proof fn lemma_pieces_in_order(a: Seq<Row>, row: Row, segs: Seq<VisualLine>, n: int)
    requires
        row is Line,
        orderly(a),
        goes_on(a, row) || follows(last_line(a), row),
        0 <= n <= segs.len(),
    ensures
        ({
            let all = a + segs.take(n).map_values(|seg: VisualLine| rows::piece(row, seg));
            &&& orderly(all)
            &&& n == 0 ==> all == a
            &&& n > 0 ==> review::same_line(all.last(), row) && last_line(all) == Some(all.last())
        }),
    decreases n,
{
    let all = a + segs.take(n).map_values(|seg: VisualLine| rows::piece(row, seg));
    if n == 0 {
        assert(all =~= a);
    } else {
        lemma_pieces_in_order(a, row, segs, n - 1);
        let before = a + segs.take(n - 1).map_values(|seg: VisualLine| rows::piece(row, seg));
        let p = rows::piece(row, segs[n - 1]);
        assert(all =~= before.push(p));
        lemma_push(before, p);
        if n == 1 {
            assert(before == a);
        } else {
            assert(goes_on(before, p));
        }
    }
}

pub proof fn lemma_laid_in_order(
    template: Seq<Row>,
    files: Seq<FileDiffView>,
    cs: Seq<CommentView>,
    comment_width: usize,
    line_width: Option<usize>,
    n: int,
)
    requires
        0 <= n <= template.len(),
        orderly(template.take(n)),
    ensures
        ({
            let laid = rows::laid_rows(template, files, cs, comment_width, line_width, n);
            &&& orderly(laid)
            &&& alike(last_line(laid), last_line(template.take(n)))
            &&& n > 0 ==> laid.len() > 0 && (review::same_line(laid.last(), template[n - 1])
                || !(template[n - 1] is Line))
        }),
    decreases n,
{
    if n > 0 {
        let row = template[n - 1];
        let upto = template.take(n);
        assert(upto.drop_last() =~= template.take(n - 1));
        assert(upto.last() == row);
        lemma_laid_in_order(template, files, cs, comment_width, line_width, n - 1);
        let before = rows::laid_rows(template, files, cs, comment_width, line_width, n - 1);
        let segs = rows::segments(row, files, cs, comment_width, line_width);
        rows::lemma_segments(row, files, cs, comment_width, line_width);
        let pieces = segs.map_values(|seg: VisualLine| rows::piece(row, seg));
        if row is Line {
            assert(segs.take(segs.len() as int) =~= segs);
            lemma_pieces_in_order(before, row, segs, segs.len() as int);
        } else {
            lemma_plain(before, pieces);
        }
    }
}

// ---- selections -------------------------------------------------------------------------

/// The rows of a stream, as they are shown at given widths.
pub open spec fn shown_rows(
    files: Seq<FileDiffView>,
    placed: Seq<Placed>,
    cs: Seq<CommentView>,
    comment_width: usize,
    line_width: Option<usize>,
) -> Seq<Row> {
    let template = rows::stream_rows(files, placed, cs, files.len() as int);
    rows::laid_rows(template, files, cs, comment_width, line_width, template.len() as int)
}

pub proof fn lemma_picked_in_order(rows: Seq<Row>, lo: int, hi: int)
    requires
        orderly(rows),
        0 <= lo <= hi <= rows.len(),
    ensures
        ({
            let lines = review::picked(rows, lo, hi);
            &&& forall|i: int| 0 <= i < lines.len() ==> (#[trigger] lines[i]) is Line
            &&& forall|i: int| 0 <= i < lines.len() - 1 ==> follows(Some(#[trigger] lines[i]), lines[i + 1])
            &&& lines.len() > 0 ==> alike(Some(lines.last()), last_line(rows.take(hi)))
            &&& hi > lo && rows[hi - 1] is Line ==> lines.len() > 0
        }),
    decreases hi - lo,
{
    if hi > lo {
        lemma_orderly_prefix(rows, hi);
        lemma_orderly_prefix(rows, hi - 1);
        lemma_picked_in_order(rows, lo, hi - 1);
        let upto = rows.take(hi);
        assert(upto.drop_last() =~= rows.take(hi - 1));
        assert(upto.last() == rows[hi - 1]);
        let before = review::picked(rows, lo, hi - 1);
        let lines = review::picked(rows, lo, hi);
        let row = rows[hi - 1];
        if row is Line {
            if hi - 1 > lo {
                assert(rows.take(hi - 1).last() == rows[hi - 2]);
            }
            if hi - 1 == lo || !review::same_line(rows[hi - 2], row) {
                assert(lines == before.push(row));
                if hi - 1 == lo {
                    assert(before.len() == 0);
                } else if before.len() > 0 {
                    assert(follows(last_line(rows.take(hi - 1)), row));
                    assert(follows(Some(before.last()), row));
                }
                assert forall|i: int| 0 <= i < lines.len() - 1 implies follows(
                    Some(#[trigger] lines[i]),
                    lines[i + 1],
                ) by {
                    if i < before.len() - 1 {
                        assert(lines[i] == before[i]);
                        assert(lines[i + 1] == before[i + 1]);
                    }
                }
            } else {
                assert(last_line(rows.take(hi - 1)) == Some(rows[hi - 2]));
            }
        }
    }
}

pub proof fn lemma_orderly_prefix(rows: Seq<Row>, n: int)
    requires
        orderly(rows),
        0 <= n <= rows.len(),
    ensures
        orderly(rows.take(n)),
    decreases rows.len() - n,
{
    if n == rows.len() {
        assert(rows.take(n) =~= rows);
    } else {
        lemma_orderly_prefix(rows, n + 1);
        assert(rows.take(n + 1).drop_last() =~= rows.take(n));
    }
}

/// A selection that stays within one hunk is contiguous: it holds every line of
/// the hunk from its first to its last one, in order, each once.
pub proof fn lemma_selection_is_contiguous(
    files: Seq<FileDiffView>,
    placed: Seq<Placed>,
    cs: Seq<CommentView>,
    comment_width: usize,
    line_width: Option<usize>,
    lo: int,
    hi: int,
    i: int,
)
    requires
        comments::countable(files),
        0 <= lo <= hi <= shown_rows(files, placed, cs, comment_width, line_width).len(),
        ({
            let lines = review::picked(
                shown_rows(files, placed, cs, comment_width, line_width),
                lo,
                hi,
            );
            review::one_hunk(lines) && 0 <= i < lines.len()
        }),
    ensures
        ({
            let lines = review::picked(
                shown_rows(files, placed, cs, comment_width, line_width),
                lo,
                hi,
            );
            &&& lines[i] is Line
            &&& lines[i]->Line_line == lines[0]->Line_line + i
        }),
    decreases i,
{
    let rows = shown_rows(files, placed, cs, comment_width, line_width);
    let template = rows::stream_rows(files, placed, cs, files.len() as int);
    lemma_stream_in_order(files, placed, cs, files.len() as int);
    assert(template.take(template.len() as int) =~= template);
    lemma_laid_in_order(template, files, cs, comment_width, line_width, template.len() as int);
    lemma_picked_in_order(rows, lo, hi);
    let lines = review::picked(rows, lo, hi);
    if i > 0 {
        lemma_selection_is_contiguous(
            files,
            placed,
            cs,
            comment_width,
            line_width,
            lo,
            hi,
            i - 1,
        );
        assert(follows(Some(lines[i - 1]), lines[i - 1 + 1]));
    }
}

// ---- comments on a selection ------------------------------------------------------------

/// The lines as a snippet holds them.
pub open spec fn snippet_of(lines: Seq<DiffLineView>) -> Seq<Seq<char>> {
    lines.map_values(|l: DiffLineView| review::signed(l))
}

/// The candidates of the first `m` lines are the first of all candidates, and
/// those of the lines `a..m` are what a snippet of these lines looks for.
pub proof fn lemma_window(lines: Seq<DiffLineView>, a: int, m: int, new_side: bool, h: int)
    requires
        0 <= a <= m <= lines.len(),
        forall|i: int| 0 <= i < lines.len() ==> numbering::line_numbered(#[trigger] lines[i]),
    ensures
        ({
            let first = comments::hunk_candidates(lines.take(a), new_side, h);
            let upto = comments::hunk_candidates(lines.take(m), new_side, h);
            let t = comments::target(snippet_of(lines.subrange(a, m)), new_side);
            let nums = numbering::side_numbers(lines.subrange(a, m), new_side);
            &&& upto.len() == first.len() + t.len()
            &&& nums.len() == t.len()
            &&& forall|i: int| 0 <= i < first.len() ==> first[i] == #[trigger] upto[i]
            &&& forall|i: int|
                first.len() <= i < upto.len() ==> (#[trigger] upto[i]).content == t[i - first.len()]
                    && upto[i].n == nums[i - first.len()] && upto[i].hunk == h as usize
        }),
    decreases m - a,
{
    let first = comments::hunk_candidates(lines.take(a), new_side, h);
    let upto = comments::hunk_candidates(lines.take(m), new_side, h);
    let part = lines.subrange(a, m);
    let snippet = snippet_of(part);
    if a == m {
        assert(snippet =~= Seq::empty());
        assert(part =~= Seq::empty());
    } else {
        lemma_window(lines, a, m - 1, new_side, h);
        let before = comments::hunk_candidates(lines.take(m - 1), new_side, h);
        let line = lines[m - 1];
        assert(numbering::line_numbered(line));
        assert(lines.take(m).drop_last() =~= lines.take(m - 1));
        assert(lines.take(m).last() == line);
        assert(part.drop_last() =~= lines.subrange(a, m - 1));
        assert(part.last() == line);
        assert(snippet.drop_last() =~= snippet_of(lines.subrange(a, m - 1)));
        assert(snippet.last() == review::signed(line));
        let s = review::signed(line);
        assert(s.len() > 0 && s[0] == line.origin);
        assert(s.skip(1) =~= line.content);
        assert(comments::unsigned(s) == line.content);
        assert(comments::on_side(s, new_side) == (comments::side_number(line, new_side) is Some));
        let t0 = comments::target(snippet_of(lines.subrange(a, m - 1)), new_side);
        let t = comments::target(snippet, new_side);
        let nums = numbering::side_numbers(part, new_side);
        let nums0 = numbering::side_numbers(lines.subrange(a, m - 1), new_side);
        assert forall|i: int| 0 <= i < first.len() implies first[i] == #[trigger] upto[i] by {
            assert(before[i] == upto[i]);
        }
        assert forall|i: int| first.len() <= i < upto.len() implies (#[trigger] upto[i]).content
            == t[i - first.len()] && upto[i].n == nums[i - first.len()] && upto[i].hunk
            == h as usize by {
            if i < before.len() {
                assert(upto[i] == before[i]);
                assert(t[i - first.len()] == t0[i - first.len()]);
                assert(nums[i - first.len()] == nums0[i - first.len()]);
            }
        }
    }
}

/// The numbers of a part of the lines stand together among those of all lines.
proof fn lemma_part_counts_up(lines: Seq<DiffLineView>, a: int, m: int, new_side: bool)
    requires
        0 <= a <= m <= lines.len(),
        numbering::numbered(lines),
    ensures
        numbering::counts_up(numbering::side_numbers(lines.subrange(a, m), new_side)),
{
    let n = lines.len() as int;
    assert(lines.take(n) =~= lines);
    assert(lines.subrange(0, n) =~= lines);
    assert(lines.take(0) =~= Seq::empty());
    lemma_window(lines, 0, n, new_side, 0);
    lemma_window(lines, a, m, new_side, 0);
    lemma_window(lines, m, n, new_side, 0);
    let all = comments::hunk_candidates(lines, new_side, 0);
    let upto = comments::hunk_candidates(lines.take(m), new_side, 0);
    let first = comments::hunk_candidates(lines.take(a), new_side, 0);
    let none = comments::hunk_candidates(lines.take(0), new_side, 0);
    assert(none.len() == 0);
    let every = numbering::side_numbers(lines, new_side);
    let nums = numbering::side_numbers(lines.subrange(a, m), new_side);
    assert forall|i: int| 0 <= i < nums.len() - 1 implies (#[trigger] nums[i]) + 1 == nums[i
        + 1] by {
        let k = first.len() + i;
        assert(upto[k].n == nums[k - first.len()]);
        assert(upto[k + 1].n == nums[k + 1 - first.len()]);
        assert(upto[k] == all[k]);
        assert(upto[k + 1] == all[k + 1]);
        assert(all[k].n == every[k - none.len()]);
        assert(all[k + 1].n == every[k + 1 - none.len()]);
        assert(every[k] + 1 == every[k + 1]);
    }
}

/// The candidates of a hunk stand together among those of the file.
pub proof fn lemma_hunk_among(hunks: Seq<HunkView>, new_side: bool, h: int, n: int) -> (at: int)
    requires
        0 <= h < n <= hunks.len(),
    ensures
        ({
            let part = comments::hunk_candidates(hunks[h].lines, new_side, h);
            let all = comments::candidates(hunks.take(n), new_side);
            &&& 0 <= at
            &&& at + part.len() <= all.len()
            &&& forall|i: int| at <= i < at + part.len() ==> #[trigger] all[i] == part[i - at]
        }),
    decreases n - h,
{
    let upto = hunks.take(n);
    assert(upto.drop_last() =~= hunks.take(n - 1));
    assert(upto.last() == hunks[n - 1]);
    let before = comments::candidates(hunks.take(n - 1), new_side);
    if n - 1 == h {
        before.len() as int
    } else {
        let at = lemma_hunk_among(hunks, new_side, h, n - 1);
        let all = comments::candidates(upto, new_side);
        let part = comments::hunk_candidates(hunks[h].lines, new_side, h);
        assert forall|i: int| at <= i < at + part.len() implies #[trigger] all[i] == part[i
            - at] by {
            assert(all[i] == before[i]);
        }
        at
    }
}

/// A part of a hunk, as the snippet of a comment, fits where it was taken from.
pub proof fn lemma_part_fits(file: FileDiffView, h: int, a: int, b: int, new_side: bool) -> (k: int)
    requires
        0 <= h < file.hunks.len(),
        numbering::numbered(file.hunks[h].lines),
        0 <= a <= b <= file.hunks[h].lines.len(),
        numbering::side_numbers(file.hunks[h].lines.subrange(a, b), new_side).len() > 0,
    ensures
        ({
            let part = file.hunks[h].lines.subrange(a, b);
            let cs = comments::candidates(file.hunks, new_side);
            let t = comments::target(snippet_of(part), new_side);
            &&& comments::fits(cs, t, k)
            &&& comments::window_end(cs, t, k).n == numbering::side_numbers(part, new_side).last()
        }),
{
    let lines = file.hunks[h].lines;
    let n = lines.len() as int;
    let part = lines.subrange(a, b);
    let cs = comments::candidates(file.hunks, new_side);
    let t = comments::target(snippet_of(part), new_side);
    let nums = numbering::side_numbers(part, new_side);
    let own = comments::hunk_candidates(lines, new_side, h);
    let upto = comments::hunk_candidates(lines.take(b), new_side, h);
    let first = comments::hunk_candidates(lines.take(a), new_side, h);
    let count = file.hunks.len() as int;
    assert(file.hunks.take(count) =~= file.hunks);
    assert(lines.take(n) =~= lines);
    let at = lemma_hunk_among(file.hunks, new_side, h, count);
    lemma_window(lines, a, b, new_side, h);
    lemma_window(lines, b, n, new_side, h);
    lemma_part_counts_up(lines, a, b, new_side);
    let k = at + first.len();
    assert forall|i: int| k <= i < k + t.len() implies (#[trigger] cs[i]).content == t[i - k]
        && cs[i].n == nums[i - k] && cs[i].hunk == h as usize by {
        assert(cs[i] == own[i - at]);
        assert(own[i - at] == upto[i - at]);
    }
    assert forall|i: int| k <= i < k + t.len() - 1 implies (#[trigger] cs[i]).hunk == cs[i + 1].hunk
        && cs[i].n + 1 == cs[i + 1].n by {
        assert(nums[i - k] + 1 == nums[i - k + 1]);
        assert(cs[i + 1].n == nums[i + 1 - k]);
    }
    k
}

proof fn lemma_row_numbers(
    files: Seq<FileDiffView>,
    lines: Seq<Row>,
    part: Seq<DiffLineView>,
)
    requires
        lines.len() == part.len(),
        forall|i: int| 0 <= i < lines.len() ==> review::line_at(files, #[trigger] lines[i]) == part[i],
    ensures
        review::new_numbers(files, lines) == numbering::side_numbers(part, true),
        review::old_numbers(files, lines) == numbering::side_numbers(part, false),
    decreases lines.len(),
{
    if lines.len() > 0 {
        assert forall|i: int| 0 <= i < lines.len() - 1 implies review::line_at(
            files,
            #[trigger] lines.drop_last()[i],
        ) == part.drop_last()[i] by {
            assert(lines.drop_last()[i] == lines[i]);
        }
        lemma_row_numbers(files, lines.drop_last(), part.drop_last());
        assert(review::line_at(files, lines[lines.len() - 1]) == part.last());
    }
}

/// The comment holds what a target says.
pub open spec fn made_on(c: CommentView, t: TargetView) -> bool {
    c.path == t.path && c.new_side == t.new_side && c.lines == t.lines && c.snippet == t.snippet
}

/// The comment is found in the diff at its own lines, and is not outdated.
pub open spec fn in_place(files: Seq<FileDiffView>, c: CommentView) -> bool {
    &&& comments::settled(files, c) == (CommentView { outdated: false, ..c })
    &&& comments::anchor_of(c, files[diff::path_index(files, c.path)]) is Line
}

/// The first of the lines belongs to a hunk that is numbered the way a diff
/// numbers it, and its file is the first one of its path.
pub open spec fn well_placed(files: Seq<FileDiffView>, lines: Seq<Row>) -> bool {
    let f = lines[0]->Line_file as int;
    &&& numbering::numbered(files[f].hunks[lines[0]->Line_hunk as int].lines)
    &&& diff::path_index(files, files[f].path) == f
}

proof fn lemma_lines_in_place(files: Seq<FileDiffView>, lines: Seq<Row>, c: CommentView)
    requires
        lines.len() > 0,
        review::lines_in(lines, files),
        review::one_hunk(lines),
        forall|i: int|
            0 <= i < lines.len() ==> (#[trigger] lines[i])->Line_line == lines[0]->Line_line + i,
        review::target_of(files, lines) is Some,
        made_on(c, review::target_of(files, lines)->0),
        well_placed(files, lines),
    ensures
        in_place(files, c),
{
    let f = lines[0]->Line_file as int;
    let h = lines[0]->Line_hunk as int;
    let a = lines[0]->Line_line as int;
    let b = a + lines.len();
    let hunk = files[f].hunks[h].lines;
    assert(review::line_in(lines[0], files));
    assert(review::line_in(lines[lines.len() - 1], files));
    assert(lines[lines.len() - 1]->Line_line == b - 1);
    let part = hunk.subrange(a, b);
    assert forall|i: int| 0 <= i < lines.len() implies review::line_at(files, #[trigger] lines[i])
        == part[i] by {
        assert(review::line_in(lines[i], files));
    }
    lemma_row_numbers(files, lines, part);
    assert(c.snippet =~= snippet_of(part));
    let k = lemma_part_fits(files[f], h, a, b, c.new_side);
    comments::lemma_exact_anchor_wins(c, files[f], k);
}

/// A comment is at home in the diff that it was made in: one made on a
/// selection is found there, at the lines that were selected, and not outdated.
pub proof fn lemma_comment_on_selection_is_in_place(
    files: Seq<FileDiffView>,
    placed: Seq<Placed>,
    cs: Seq<CommentView>,
    comment_width: usize,
    line_width: Option<usize>,
    lo: int,
    hi: int,
    c: CommentView,
)
    requires
        comments::countable(files),
        rows::names_comments(placed, cs.len()),
        rows::stream_rows(files, placed, cs, files.len() as int).len() <= usize::MAX,
        0 <= lo <= hi <= shown_rows(files, placed, cs, comment_width, line_width).len(),
        ({
            let lines = review::picked(
                shown_rows(files, placed, cs, comment_width, line_width),
                lo,
                hi,
            );
            &&& review::one_hunk(lines)
            &&& review::target_of(files, lines) is Some
            &&& made_on(c, review::target_of(files, lines)->0)
            &&& well_placed(files, lines)
        }),
    ensures
        in_place(files, c),
{
    let template = rows::stream_rows(files, placed, cs, files.len() as int);
    let rows = shown_rows(files, placed, cs, comment_width, line_width);
    let lines = review::picked(rows, lo, hi);
    if lines.len() == 0 {
        assert(review::new_numbers(files, lines).len() == 0);
        assert(review::old_numbers(files, lines).len() == 0);
    } else {
        rows::lemma_stream_valid(files, placed, cs, files.len() as int);
        rows::lemma_laid_valid(template, files, cs, comment_width, line_width);
        assert forall|i: int| 0 <= i < rows.len() implies rows::row_in(
            #[trigger] rows[i],
            files,
        ) by {
            assert(rows::row_valid(rows[i], files, cs.len()));
        }
        review::lemma_picked(rows, files, lo, hi);
        assert forall|i: int| 0 <= i < lines.len() implies (#[trigger] lines[i])->Line_line
            == lines[0]->Line_line + i by {
            lemma_selection_is_contiguous(
                files,
                placed,
                cs,
                comment_width,
                line_width,
                lo,
                hi,
                i,
            );
        }
        lemma_lines_in_place(files, lines, c);
    }
}

/// So is a comment that was made on the current line.
pub proof fn lemma_comment_on_line_is_in_place(s: StreamView, files: Seq<FileDiffView>, c: CommentView)
    requires
        s.shows(files),
        s.bare_target(files) is Some,
        made_on(c, s.bare_target(files)->0),
        well_placed(files, seq![s.rows[s.line_from(files, s.cursor as int)->0]]),
    ensures
        in_place(files, c),
{
    lemma_line_from(s, files, s.cursor as int);
    let i = s.line_from(files, s.cursor as int)->0;
    let lines = seq![s.rows[i]];
    assert(rows::row_in(s.rows[i], files));
    lemma_lines_in_place(files, lines, c);
}

proof fn lemma_line_from(s: StreamView, files: Seq<FileDiffView>, i: int)
    ensures
        s.line_from(files, i) matches Some(k) ==> 0 <= k < s.rows.len() && s.rows[k] is Line,
    decreases s.rows.len() - i,
{
    if 0 <= i < s.rows.len() && !(s.rows[i] is Line && (review::line_at(
        files,
        s.rows[i],
    ).new_lineno is Some || review::line_at(files, s.rows[i]).old_lineno is Some)) {
        lemma_line_from(s, files, i + 1);
    }
}

} // verus!
