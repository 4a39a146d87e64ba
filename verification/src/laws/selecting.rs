//! What a selection holds, and what copying it gives.

use crate::comments;
use crate::comments::{CommentView, Placed};
use crate::git::diff::{DiffLineView, FileDiffView};
use crate::git::numbering;
use crate::laws::lines;
use crate::ui::review;
use crate::ui::review::StreamView;
use crate::ui::rows;
use crate::ui::rows::Row;
use crate::ui::selection_laws;
use vstd::prelude::*;

verus! {

/// The diff line that a row shows a piece of.
pub open spec fn line_of(files: Seq<FileDiffView>, row: Row) -> DiffLineView {
    files[row->Line_file as int].hunks[row->Line_hunk as int].lines[row->Line_line as int]
}

/// Two rows show pieces of one line.
pub open spec fn one_and_the_same(a: Row, b: Row) -> bool {
    &&& a is Line && b is Line
    &&& a->Line_file == b->Line_file
    &&& a->Line_hunk == b->Line_hunk
    &&& a->Line_line == b->Line_line
}

/// The line of `a` stands before that of `b`.
pub open spec fn stands_before(a: Row, b: Row) -> bool {
    a->Line_file < b->Line_file || (a->Line_file == b->Line_file && (a->Line_hunk < b->Line_hunk
        || (a->Line_hunk == b->Line_hunk && a->Line_line < b->Line_line)))
}

/// `chosen` holds the diff lines that the rows `lo..hi` show, each once, from
/// the top down.
pub open spec fn chosen_from(chosen: Seq<Row>, rows: Seq<Row>, lo: int, hi: int) -> bool {
    &&& forall|k: int| 0 <= k < chosen.len() ==> (#[trigger] chosen[k]) is Line
    &&& forall|k: int|
        0 <= k < chosen.len() ==> exists|i: int|
            lo <= i < hi && one_and_the_same(#[trigger] rows[i], #[trigger] chosen[k])
    &&& forall|i: int|
        lo <= i < hi && (#[trigger] rows[i]) is Line ==> exists|k: int|
            0 <= k < chosen.len() && one_and_the_same(rows[i], #[trigger] chosen[k])
    &&& forall|j: int, k: int|
        0 <= j < k < chosen.len() ==> stands_before(#[trigger] chosen[j], #[trigger] chosen[k])
}

proof fn lemma_chain(chosen: Seq<Row>, j: int, k: int)
    requires
        forall|i: int| 0 <= i < chosen.len() ==> (#[trigger] chosen[i]) is Line,
        forall|i: int|
            0 <= i < chosen.len() - 1 ==> selection_laws::follows(
                Some(#[trigger] chosen[i]),
                chosen[i + 1],
            ),
        0 <= j < k < chosen.len(),
    ensures
        stands_before(chosen[j], chosen[k]),
    decreases k - j,
{
    assert(selection_laws::follows(Some(chosen[k - 1]), chosen[k - 1 + 1]));
    assert(chosen[k] is Line && chosen[k - 1] is Line && chosen[j] is Line);
    if j < k - 1 {
        lemma_chain(chosen, j, k - 1);
    }
}

proof fn lemma_covered(rows: Seq<Row>, lo: int, hi: int)
    requires
        0 <= lo <= hi <= rows.len(),
    ensures
        ({
            let chosen = review::picked(rows, lo, hi);
            &&& forall|k: int|
                0 <= k < chosen.len() ==> exists|i: int|
                    lo <= i < hi && one_and_the_same(#[trigger] rows[i], #[trigger] chosen[k])
            &&& forall|i: int|
                lo <= i < hi && (#[trigger] rows[i]) is Line ==> exists|k: int|
                    0 <= k < chosen.len() && one_and_the_same(rows[i], #[trigger] chosen[k])
        }),
    decreases hi - lo,
{
    if lo < hi {
        lemma_covered(rows, lo, hi - 1);
        let before = review::picked(rows, lo, hi - 1);
        let chosen = review::picked(rows, lo, hi);
        let row = rows[hi - 1];
        assert forall|k: int| 0 <= k < chosen.len() implies exists|i: int|
            lo <= i < hi && one_and_the_same(#[trigger] rows[i], #[trigger] chosen[k]) by {
            if k < before.len() {
                assert(chosen[k] == before[k]);
                let i = choose|i: int|
                    lo <= i < hi - 1 && one_and_the_same(#[trigger] rows[i], before[k]);
                assert(one_and_the_same(rows[i], chosen[k]));
            } else {
                assert(one_and_the_same(rows[hi - 1], chosen[k]));
            }
        }
        assert forall|i: int| lo <= i < hi && (#[trigger] rows[i]) is Line implies exists|k: int|
            0 <= k < chosen.len() && one_and_the_same(rows[i], #[trigger] chosen[k]) by {
            if i < hi - 1 {
                let k = choose|k: int|
                    0 <= k < before.len() && one_and_the_same(rows[i], #[trigger] before[k]);
                assert(chosen[k] == before[k]);
                assert(one_and_the_same(rows[i], chosen[k]));
            } else if hi - 1 == lo || !review::same_line(rows[hi - 2], row) {
                assert(chosen.last() == row);
                assert(one_and_the_same(rows[i], chosen[chosen.len() - 1]));
            } else {
                assert(rows[hi - 2] is Line);
                let k = choose|k: int|
                    0 <= k < before.len() && one_and_the_same(
                        rows[hi - 2],
                        #[trigger] before[k],
                    );
                assert(chosen[k] == before[k]);
                assert(one_and_the_same(rows[i], chosen[k]));
            }
        }
    }
}

proof fn lemma_chosen(rows: Seq<Row>, lo: int, hi: int)
    requires
        selection_laws::orderly(rows),
        0 <= lo <= hi <= rows.len(),
    ensures
        chosen_from(review::picked(rows, lo, hi), rows, lo, hi),
{
    let chosen = review::picked(rows, lo, hi);
    selection_laws::lemma_picked_in_order(rows, lo, hi);
    lemma_covered(rows, lo, hi);
    assert forall|j: int, k: int| 0 <= j < k < chosen.len() implies stands_before(
        #[trigger] chosen[j],
        #[trigger] chosen[k],
    ) by {
        lemma_chain(chosen, j, k);
    }
}

/// The code of diff lines: the contents of those that the new side has.
pub open spec fn code(files: Seq<FileDiffView>, chosen: Seq<Row>) -> Seq<Seq<char>> {
    chosen.map_values(|r: Row| line_of(files, r)).filter(
        |l: DiffLineView| l.new_lineno is Some,
    ).map_values(|l: DiffLineView| l.content)
}

/// Every line of the files is numbered as its origin says.
pub open spec fn origins_agree(files: Seq<FileDiffView>) -> bool {
    forall|f: int, h: int, l: int|
        0 <= f < files.len() && 0 <= h < files[f].hunks.len() && 0 <= l
            < files[f].hunks[h].lines.len() ==> numbering::line_numbered(
            #[trigger] files[f].hunks[h].lines[l],
        )
}

proof fn lemma_copied_code(rows: Seq<Row>, files: Seq<FileDiffView>, lo: int, hi: int)
    requires
        0 <= lo <= hi <= rows.len(),
        rows::rows_in(rows, files),
        origins_agree(files),
    ensures
        review::copied(rows, files, false, lo, hi) == lines::joined(
            code(files, review::picked(rows, lo, hi)),
        ),
    decreases hi - lo,
{
    let chosen = review::picked(rows, lo, hi);
    let on_new = |l: DiffLineView| l.new_lineno is Some;
    let now = chosen.map_values(|r: Row| line_of(files, r));
    if lo == hi {
        reveal(Seq::filter);
        assert(code(files, chosen) =~= Seq::empty());
    } else {
        lemma_copied_code(rows, files, lo, hi - 1);
        let before = review::picked(rows, lo, hi - 1);
        let row = rows[hi - 1];
        assert(rows::row_in(rows[hi - 1], files));
        if row is Line && (hi - 1 == lo || !review::same_line(rows[hi - 2], row)) {
            let l = line_of(files, row);
            assert(review::line_at(files, row) == l);
            let then = before.map_values(|r: Row| line_of(files, r));
            assert(chosen.drop_last() =~= before);
            assert(now =~= then.push(l));
            assert(now.drop_last() =~= then);
            assert(numbering::line_numbered(
                files[row->Line_file as int].hunks[row->Line_hunk as int].lines[row->Line_line as int],
            ));
            reveal(Seq::filter);
            reveal_strlit("\n");
            assert("\n"@ =~= seq!['\n']);
            if on_new(l) {
                assert(code(files, chosen) =~= code(files, before).push(l.content));
                assert(code(files, chosen).drop_last() =~= code(files, before));
                assert(review::copied(rows, files, false, lo, hi) =~= lines::joined(
                    code(files, chosen),
                ));
            } else {
                assert(code(files, chosen) =~= code(files, before));
            }
        }
    }
}

/// Copying a selection as code gives the contents of exactly those selected
/// lines that exist on the new side, each once, from the top down, and each
/// followed by a line feed.
pub proof fn lemma_copied_code_is_the_new_side(
    files: Seq<FileDiffView>,
    placed: Seq<Placed>,
    cs: Seq<CommentView>,
    comment_width: usize,
    line_width: Option<usize>,
    lo: int,
    hi: int,
) -> (chosen: Seq<Row>)
    requires
        comments::countable(files),
        origins_agree(files),
        rows::names_comments(placed, cs.len()),
        rows::stream_rows(files, placed, cs, files.len() as int).len() <= usize::MAX,
        0 <= lo <= hi <= selection_laws::shown_rows(
            files,
            placed,
            cs,
            comment_width,
            line_width,
        ).len(),
    ensures
        ({
            let rows = selection_laws::shown_rows(files, placed, cs, comment_width, line_width);
            &&& chosen_from(chosen, rows, lo, hi)
            &&& review::copied(rows, files, false, lo, hi) == lines::joined(code(files, chosen))
        }),
{
    let rows = selection_laws::shown_rows(files, placed, cs, comment_width, line_width);
    lemma_shown(files, placed, cs, comment_width, line_width);
    lemma_chosen(rows, lo, hi);
    lemma_copied_code(rows, files, lo, hi);
    review::picked(rows, lo, hi)
}

proof fn lemma_shown(
    files: Seq<FileDiffView>,
    placed: Seq<Placed>,
    cs: Seq<CommentView>,
    comment_width: usize,
    line_width: Option<usize>,
)
    requires
        comments::countable(files),
        rows::names_comments(placed, cs.len()),
        rows::stream_rows(files, placed, cs, files.len() as int).len() <= usize::MAX,
    ensures
        ({
            let rows = selection_laws::shown_rows(files, placed, cs, comment_width, line_width);
            selection_laws::orderly(rows) && rows::rows_in(rows, files)
        }),
{
    let rows = selection_laws::shown_rows(files, placed, cs, comment_width, line_width);
    let template = rows::stream_rows(files, placed, cs, files.len() as int);
    selection_laws::lemma_stream_in_order(files, placed, cs, files.len() as int);
    assert(template.take(template.len() as int) =~= template);
    selection_laws::lemma_laid_in_order(
        template,
        files,
        cs,
        comment_width,
        line_width,
        template.len() as int,
    );
    rows::lemma_stream_valid(files, placed, cs, files.len() as int);
    rows::lemma_laid_valid(template, files, cs, comment_width, line_width);
    assert forall|i: int| 0 <= i < rows.len() implies rows::row_in(#[trigger] rows[i], files) by {
        assert(rows::row_valid(rows[i], files, cs.len()));
    }
}

/// What copying a single row as a patch gives: a line with its sign, a hunk
/// header, or nothing.
pub open spec fn patch_of(row: Row, files: Seq<FileDiffView>) -> Seq<char> {
    match row {
        Row::Line { file, hunk, line, .. } => {
            let l = files[file as int].hunks[hunk as int].lines[line as int];
            (seq![l.origin] + l.content).push('\n')
        },
        Row::HunkHeader(fi, hi) => files[fi as int].hunks[hi as int].header.push('\n'),
        _ => Seq::empty(),
    }
}

/// Copying goes row by row: a further row adds its own text, unless it only
/// goes on with the line of the row above it. As a patch that is the line with
/// its sign or the hunk header; as code, the content of a line of the new side.
pub proof fn lemma_copying_goes_row_by_row(
    rows: Seq<Row>,
    files: Seq<FileDiffView>,
    lo: int,
    hi: int,
)
    requires
        0 <= lo < hi <= rows.len(),
        rows::rows_in(rows, files),
        origins_agree(files),
    ensures
        review::copied(rows, files, true, lo, lo) == Seq::<char>::empty(),
        review::copied(rows, files, false, lo, lo) == Seq::<char>::empty(),
        review::copied(rows, files, true, lo, hi) == review::copied(rows, files, true, lo, hi - 1)
            + (if hi - 1 > lo && one_and_the_same(rows[hi - 2], rows[hi - 1]) {
            Seq::empty()
        } else {
            patch_of(rows[hi - 1], files)
        }),
        review::copied(rows, files, false, lo, hi) == review::copied(
            rows,
            files,
            false,
            lo,
            hi - 1,
        ) + (if rows[hi - 1] is Line && !(hi - 1 > lo && one_and_the_same(
            rows[hi - 2],
            rows[hi - 1],
        )) && line_of(files, rows[hi - 1]).new_lineno is Some {
            line_of(files, rows[hi - 1]).content.push('\n')
        } else {
            Seq::empty()
        }),
{
    reveal_strlit("\n");
    assert("\n"@ =~= seq!['\n']);
    let row = rows[hi - 1];
    assert(rows::row_in(rows[hi - 1], files));
    if row is Line {
        assert(numbering::line_numbered(
            files[row->Line_file as int].hunks[row->Line_hunk as int].lines[row->Line_line as int],
        ));
    }
    assert(review::copied(rows, files, true, lo, hi) =~= review::copied(
        rows,
        files,
        true,
        lo,
        hi - 1,
    ) + (if hi - 1 > lo && one_and_the_same(rows[hi - 2], rows[hi - 1]) {
        Seq::empty()
    } else {
        patch_of(rows[hi - 1], files)
    }));
}

/// `i` lies from `a` to `b` or from `b` to `a`, the ends included.
pub open spec fn between(a: int, b: int, i: int) -> bool {
    a <= i <= b || b <= i <= a
}

/// A selection is every row from its anchor to the cursor, both included,
/// whichever of them is further up.
pub proof fn lemma_selection_spans_anchor_and_cursor(s: StreamView)
    requires
        s.ok(),
        s.rows.len() > 0,
    ensures
        s.selection is None ==> s.selected() is None,
        s.selection matches Some(a) ==> ({
            let (lo, hi) = s.selected()->0;
            &&& s.selected() is Some
            &&& forall|i: int|
                lo <= i < hi <==> #[trigger] between(a as int, s.cursor as int, i)
            &&& 0 <= lo < hi <= s.rows.len()
        }),
{
}

/// A comment on a selection holds all of its lines with their signs, from the
/// top down, and the numbers of the first and the last of them on the new side;
/// on the old side only if none of them is on the new one.
pub proof fn lemma_comment_holds_the_selected_lines(
    files: Seq<FileDiffView>,
    chosen: Seq<Row>,
    i: int,
)
    requires
        0 <= i < chosen.len(),
        forall|k: int| 0 <= k < chosen.len() ==> (#[trigger] chosen[k]) is Line,
        review::target_of(files, chosen) is Some,
    ensures
        ({
            let t = review::target_of(files, chosen)->0;
            let all = chosen.map_values(|r: Row| line_of(files, r));
            let new = all.filter(|l: DiffLineView| l.new_lineno is Some);
            let old = all.filter(|l: DiffLineView| l.old_lineno is Some);
            &&& t.path == files[chosen[0]->Line_file as int].path
            &&& t.snippet.len() == chosen.len()
            &&& t.snippet[i] == seq![line_of(files, chosen[i]).origin] + line_of(
                files,
                chosen[i],
            ).content
            &&& t.new_side == (new.len() > 0)
            &&& t.new_side ==> t.lines == (new[0].new_lineno->0, new.last().new_lineno->0)
            &&& !t.new_side ==> old.len() > 0 && t.lines == (
                old[0].old_lineno->0,
                old.last().old_lineno->0,
            )
        }),
{
    lemma_numbers(files, chosen);
    let t = review::target_of(files, chosen)->0;
    assert(review::line_at(files, chosen[i]) == line_of(files, chosen[i]));
}

proof fn lemma_numbers(files: Seq<FileDiffView>, chosen: Seq<Row>)
    requires
        forall|k: int| 0 <= k < chosen.len() ==> (#[trigger] chosen[k]) is Line,
    ensures
        ({
            let all = chosen.map_values(|r: Row| line_of(files, r));
            let new = all.filter(|l: DiffLineView| l.new_lineno is Some);
            let old = all.filter(|l: DiffLineView| l.old_lineno is Some);
            &&& review::new_numbers(files, chosen) == new.map_values(
                |l: DiffLineView| l.new_lineno->0,
            )
            &&& review::old_numbers(files, chosen) == old.map_values(
                |l: DiffLineView| l.old_lineno->0,
            )
        }),
    decreases chosen.len(),
{
    reveal(Seq::filter);
    let all = chosen.map_values(|r: Row| line_of(files, r));
    let on_new = |l: DiffLineView| l.new_lineno is Some;
    let on_old = |l: DiffLineView| l.old_lineno is Some;
    if chosen.len() > 0 {
        let front = chosen.drop_last();
        assert forall|k: int| 0 <= k < front.len() implies (#[trigger] front[k]) is Line by {
            assert(front[k] == chosen[k]);
        }
        lemma_numbers(files, front);
        assert(chosen[chosen.len() - 1] is Line);
        assert(review::line_at(files, chosen.last()) == line_of(files, chosen.last()));
        assert(all.drop_last() =~= front.map_values(|r: Row| line_of(files, r)));
        assert(all.last() == line_of(files, chosen.last()));
    }
    assert(review::new_numbers(files, chosen) =~= all.filter(on_new).map_values(
        |l: DiffLineView| l.new_lineno->0,
    ));
    assert(review::old_numbers(files, chosen) =~= all.filter(on_old).map_values(
        |l: DiffLineView| l.old_lineno->0,
    ));
}

} // verus!
