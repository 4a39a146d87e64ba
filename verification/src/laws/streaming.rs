//! What the rows of a diff show, and in which order.

use crate::comments::{Anchor, CommentView, Placed};
use crate::git::diff::FileDiffView;
use crate::text;
use crate::ui::rows;
use crate::ui::rows::Row;
use vstd::prelude::*;

verus! {

/// `part` stands in `all` from `at` on.
pub open spec fn stands_at(all: Seq<Row>, part: Seq<Row>, at: int) -> bool {
    0 <= at && at + part.len() <= all.len() && all.subrange(at, at + part.len()) == part
}

proof fn lemma_around(a: Seq<Row>, b: Seq<Row>, c: Seq<Row>, part: Seq<Row>, at: int)
    requires
        stands_at(b, part, at),
    ensures
        stands_at(a + b + c, part, a.len() + at),
{
    assert((a + b + c).subrange(a.len() + at, a.len() + at + part.len()) =~= b.subrange(
        at,
        at + part.len(),
    ));
}

// ---- comments -----------------------------------------------------------------------

/// The rows of a comment: its header, its snippet where that is shown, and its
/// text line by line, or an empty line where it has none.
pub open spec fn shape(ci: usize, c: CommentView, with_snippet: bool) -> Seq<Row> {
    let snippet = if with_snippet {
        Seq::new(c.snippet.len(), |i: int| Row::CommentSnippet(ci, i as usize))
    } else {
        Seq::empty()
    };
    let said = text::lines(c.body);
    let body = if said.len() == 0 {
        seq![Row::CommentBody { comment: ci, line: 0, start: 0, end: 0 }]
    } else {
        Seq::new(
            said.len(),
            |i: int|
                Row::CommentBody {
                    comment: ci,
                    line: i as usize,
                    start: 0,
                    end: said[i].len() as usize,
                },
        )
    };
    seq![Row::CommentHeader(ci)] + snippet + body
}

/// The rows of comments, one after the other.
pub open spec fn shapes(list: Seq<usize>, cs: Seq<CommentView>, with_snippet: bool) -> Seq<Row>
    decreases list.len(),
{
    if list.len() == 0 {
        Seq::empty()
    } else {
        shape(list[0], cs[list[0] as int], with_snippet) + shapes(list.skip(1), cs, with_snippet)
    }
}

/// The comments placed at an anchor of a file, as they were placed.
pub open spec fn placed_at(placed: Seq<Placed>, fi: usize, anchor: Anchor) -> Seq<usize> {
    placed.filter(|p: Placed| p.file == fi && p.anchor == anchor).map_values(
        |p: Placed| p.comment,
    )
}

proof fn lemma_shape(ci: usize, c: CommentView, with_snippet: bool)
    ensures
        rows::comment_rows(ci, c, with_snippet) == shape(ci, c, with_snippet),
{
    assert(rows::comment_rows(ci, c, with_snippet) =~= shape(ci, c, with_snippet));
}

proof fn lemma_shapes_push(list: Seq<usize>, ci: usize, cs: Seq<CommentView>, with_snippet: bool)
    ensures
        shapes(list.push(ci), cs, with_snippet) == shapes(list, cs, with_snippet) + shape(
            ci,
            cs[ci as int],
            with_snippet,
        ),
    decreases list.len(),
{
    let more = list.push(ci);
    if list.len() == 0 {
        assert(more.skip(1) =~= Seq::empty());
        assert(shapes(more.skip(1), cs, with_snippet) == Seq::<Row>::empty());
        assert(shapes(more, cs, with_snippet) =~= shape(ci, cs[ci as int], with_snippet));
        assert(shapes(list, cs, with_snippet) + shape(ci, cs[ci as int], with_snippet) =~= shape(
            ci,
            cs[ci as int],
            with_snippet,
        ));
    } else {
        assert(more.skip(1) =~= list.skip(1).push(ci));
        lemma_shapes_push(list.skip(1), ci, cs, with_snippet);
        assert(shapes(more, cs, with_snippet) =~= shapes(list, cs, with_snippet) + shape(
            ci,
            cs[ci as int],
            with_snippet,
        ));
    }
}

proof fn lemma_block(list: Seq<usize>, cs: Seq<CommentView>, with_snippet: bool)
    ensures
        rows::block_rows(list, cs, with_snippet) == shapes(list, cs, with_snippet),
    decreases list.len(),
{
    if list.len() > 0 {
        lemma_block(list.drop_last(), cs, with_snippet);
        lemma_shape(list.last(), cs[list.last() as int], with_snippet);
        lemma_shapes_push(list.drop_last(), list.last(), cs, with_snippet);
        assert(list.drop_last().push(list.last()) =~= list);
    }
}

proof fn lemma_placed(placed: Seq<Placed>, fi: usize, anchor: Anchor)
    ensures
        rows::comments_at(placed, fi, anchor) == placed_at(placed, fi, anchor),
    decreases placed.len(),
{
    reveal(Seq::filter);
    if placed.len() > 0 {
        lemma_placed(placed.drop_last(), fi, anchor);
    }
    assert(rows::comments_at(placed, fi, anchor) =~= placed_at(placed, fi, anchor));
}

// ---- lines --------------------------------------------------------------------------

/// The row of a whole diff line.
pub open spec fn whole_line(files: Seq<FileDiffView>, fi: int, h: int, l: int) -> Row {
    Row::Line {
        file: fi as usize,
        hunk: h as usize,
        line: l as usize,
        start: 0,
        end: files[fi].hunks[h].lines[l].content.len() as usize,
    }
}

/// A diff line and below it the comments on it.
pub open spec fn line_block(
    files: Seq<FileDiffView>,
    placed: Seq<Placed>,
    cs: Seq<CommentView>,
    fi: int,
    h: int,
    l: int,
) -> Seq<Row> {
    seq![whole_line(files, fi, h, l)] + shapes(
        placed_at(placed, fi as usize, Anchor::Line { hunk: h as usize, line: l as usize }),
        cs,
        false,
    )
}

/// The blocks of the first `n` lines of a hunk.
pub open spec fn line_blocks(
    files: Seq<FileDiffView>,
    placed: Seq<Placed>,
    cs: Seq<CommentView>,
    fi: int,
    h: int,
    n: int,
) -> Seq<Row>
    decreases n,
{
    if n <= 0 {
        Seq::empty()
    } else {
        line_blocks(files, placed, cs, fi, h, n - 1) + line_block(files, placed, cs, fi, h, n - 1)
    }
}

proof fn lemma_lines(
    files: Seq<FileDiffView>,
    placed: Seq<Placed>,
    cs: Seq<CommentView>,
    fi: int,
    h: int,
    n: int,
)
    ensures
        rows::lines_rows(
            fi as usize,
            h as usize,
            files[fi].hunks[h].lines,
            placed,
            cs,
            n,
        ) == line_blocks(files, placed, cs, fi, h, n),
    decreases n,
{
    if n > 0 {
        lemma_lines(files, placed, cs, fi, h, n - 1);
        let anchor = Anchor::Line { hunk: h as usize, line: (n - 1) as usize };
        lemma_placed(placed, fi as usize, anchor);
        lemma_block(placed_at(placed, fi as usize, anchor), cs, false);
        assert(rows::lines_rows(
            fi as usize,
            h as usize,
            files[fi].hunks[h].lines,
            placed,
            cs,
            n,
        ) =~= line_blocks(files, placed, cs, fi, h, n));
    }
}

proof fn lemma_line_in_hunk(
    files: Seq<FileDiffView>,
    placed: Seq<Placed>,
    cs: Seq<CommentView>,
    fi: int,
    h: int,
    l: int,
    n: int,
) -> (at: int)
    requires
        0 <= l < n,
    ensures
        stands_at(
            line_blocks(files, placed, cs, fi, h, n),
            line_block(files, placed, cs, fi, h, l),
            at,
        ),
    decreases n,
{
    let before = line_blocks(files, placed, cs, fi, h, n - 1);
    let last = line_block(files, placed, cs, fi, h, n - 1);
    let all = line_blocks(files, placed, cs, fi, h, n);
    let none = Seq::<Row>::empty();
    if l == n - 1 {
        assert(last.subrange(0, last.len() as int) =~= last);
        lemma_around(before, last, none, last, 0);
        assert(before + last + none =~= all);
        before.len() as int
    } else {
        let at = lemma_line_in_hunk(files, placed, cs, fi, h, l, n - 1);
        lemma_around(none, before, last, line_block(files, placed, cs, fi, h, l), at);
        assert(none + before + last =~= all);
        none.len() + at
    }
}

/// A hunk: its header, then its lines with the comments on them.
pub open spec fn hunk_block(
    files: Seq<FileDiffView>,
    placed: Seq<Placed>,
    cs: Seq<CommentView>,
    fi: int,
    h: int,
) -> Seq<Row> {
    seq![Row::HunkHeader(fi as usize, h as usize)] + line_blocks(
        files,
        placed,
        cs,
        fi,
        h,
        files[fi].hunks[h].lines.len() as int,
    )
}

proof fn lemma_hunk_in_file(
    files: Seq<FileDiffView>,
    placed: Seq<Placed>,
    cs: Seq<CommentView>,
    fi: int,
    h: int,
    n: int,
) -> (at: int)
    requires
        0 <= h < n <= files[fi].hunks.len(),
    ensures
        stands_at(
            rows::hunks_rows(fi as usize, files[fi].hunks, placed, cs, n),
            hunk_block(files, placed, cs, fi, h),
            at,
        ),
    decreases n,
{
    let before = rows::hunks_rows(fi as usize, files[fi].hunks, placed, cs, n - 1);
    let last = hunk_block(files, placed, cs, fi, n - 1);
    let all = rows::hunks_rows(fi as usize, files[fi].hunks, placed, cs, n);
    let none = Seq::<Row>::empty();
    lemma_lines(files, placed, cs, fi, n - 1, files[fi].hunks[n - 1].lines.len() as int);
    assert(all =~= before + last + none);
    assert(all =~= none + before + last);
    if h == n - 1 {
        assert(last.subrange(0, last.len() as int) =~= last);
        lemma_around(before, last, none, last, 0);
        before.len() as int
    } else {
        let at = lemma_hunk_in_file(files, placed, cs, fi, h, n - 1);
        lemma_around(none, before, last, hunk_block(files, placed, cs, fi, h), at);
        none.len() + at
    }
}

// ---- files --------------------------------------------------------------------------

/// What stands at the top of a file: an empty row before every file but the
/// first, the header, and the outdated comments with what they were made on.
pub open spec fn top(fi: int, placed: Seq<Placed>, cs: Seq<CommentView>) -> Seq<Row> {
    (if fi > 0 {
        seq![Row::Spacer]
    } else {
        Seq::empty()
    }) + seq![Row::FileHeader(fi as usize)] + shapes(
        placed_at(placed, fi as usize, Anchor::Outdated),
        cs,
        true,
    )
}

/// What stands below: the stub of a directory or of content left out, the mark
/// of a binary file, or the hunks.
pub open spec fn rest(
    files: Seq<FileDiffView>,
    placed: Seq<Placed>,
    cs: Seq<CommentView>,
    fi: int,
) -> Seq<Row> {
    let f = files[fi];
    if f.untracked_dir || (f.large && f.hunks.len() == 0) {
        seq![Row::LargeStub(fi as usize)]
    } else if f.binary {
        seq![Row::Binary]
    } else {
        rows::hunks_rows(fi as usize, f.hunks, placed, cs, f.hunks.len() as int)
    }
}

/// Every file is shown: an empty row before it unless it is the first, its
/// header, its outdated comments, and what there is of its content.
pub proof fn lemma_every_file_is_shown(
    files: Seq<FileDiffView>,
    placed: Seq<Placed>,
    cs: Seq<CommentView>,
    fi: int,
    n: int,
) -> (at: int)
    requires
        0 <= fi < n <= files.len(),
    ensures
        stands_at(
            rows::stream_rows(files, placed, cs, n),
            top(fi, placed, cs) + rest(files, placed, cs, fi),
            at,
        ),
        fi == 0 ==> at == 0,
        n == fi + 1 ==> at + (top(fi, placed, cs) + rest(files, placed, cs, fi)).len()
            == rows::stream_rows(files, placed, cs, n).len(),
    decreases n,
{
    let before = rows::stream_rows(files, placed, cs, n - 1);
    let last = top(n - 1, placed, cs) + rest(files, placed, cs, n - 1);
    let all = rows::stream_rows(files, placed, cs, n);
    let none = Seq::<Row>::empty();
    lemma_placed(placed, (n - 1) as usize, Anchor::Outdated);
    lemma_block(placed_at(placed, (n - 1) as usize, Anchor::Outdated), cs, true);
    assert(all =~= before + last + none);
    assert(all =~= none + before + last);
    if fi == n - 1 {
        assert(last.subrange(0, last.len() as int) =~= last);
        lemma_around(before, last, none, last, 0);
        before.len() as int
    } else {
        let at = lemma_every_file_is_shown(files, placed, cs, fi, n - 1);
        lemma_around(
            none,
            before,
            last,
            top(fi, placed, cs) + rest(files, placed, cs, fi),
            at,
        );
        none.len() + at
    }
}

/// Every line of a file whose content is shown has its row, and right below it
/// come the comments on it, in order and without their snippets.
pub proof fn lemma_every_line_is_shown_with_its_comments(
    files: Seq<FileDiffView>,
    placed: Seq<Placed>,
    cs: Seq<CommentView>,
    fi: int,
    h: int,
    l: int,
) -> (at: int)
    requires
        0 <= fi < files.len(),
        0 <= h < files[fi].hunks.len(),
        0 <= l < files[fi].hunks[h].lines.len(),
        !files[fi].untracked_dir,
        !files[fi].binary,
    ensures
        stands_at(
            rows::stream_rows(files, placed, cs, files.len() as int),
            line_block(files, placed, cs, fi, h, l),
            at,
        ),
{
    let all = rows::stream_rows(files, placed, cs, files.len() as int);
    let hunks = rows::hunks_rows(
        fi as usize,
        files[fi].hunks,
        placed,
        cs,
        files[fi].hunks.len() as int,
    );
    let one = hunk_block(files, placed, cs, fi, h);
    let w = line_block(files, placed, cs, fi, h, l);
    let n = files[fi].hunks[h].lines.len() as int;
    let none = Seq::<Row>::empty();
    let a = lemma_line_in_hunk(files, placed, cs, fi, h, l, n);
    let head = seq![Row::HunkHeader(fi as usize, h as usize)];
    lemma_around(head, line_blocks(files, placed, cs, fi, h, n), none, w, a);
    assert(one =~= head + line_blocks(files, placed, cs, fi, h, n) + none);
    let b = lemma_hunk_in_file(files, placed, cs, fi, h, files[fi].hunks.len() as int);
    lemma_nested(hunks, one, w, b, head.len() + a);
    let file = top(fi, placed, cs) + rest(files, placed, cs, fi);
    lemma_around(top(fi, placed, cs), hunks, none, w, b + (head.len() + a));
    assert(file =~= top(fi, placed, cs) + hunks + none);
    let c = lemma_every_file_is_shown(files, placed, cs, fi, files.len() as int);
    let d = top(fi, placed, cs).len() + (b + (head.len() + a));
    lemma_nested(all, file, w, c, d);
    c + d
}

proof fn lemma_nested(all: Seq<Row>, mid: Seq<Row>, part: Seq<Row>, a: int, b: int)
    requires
        stands_at(all, mid, a),
        stands_at(mid, part, b),
    ensures
        stands_at(all, part, a + b),
{
    assert(all.subrange(a + b, a + b + part.len()) =~= all.subrange(
        a,
        a + mid.len(),
    ).subrange(b, b + part.len()));
}

} // verus!
