//! The rows of the diff stream: which rows there are, and how long ones are
//! broken to the width of the pane.

use crate::comments::{Anchor, Comment, CommentView, Placed};
use crate::deep;
use crate::git::diff::{DiffLine, DiffLineView, FileDiff, FileDiffView, Hunk, HunkView};
use crate::markdown;
use crate::text;
use crate::ui::wrap;
use crate::ui::wrap::VisualLine;
use vstd::prelude::*;

verus! {

broadcast use crate::deep::group_deep;

/// One renderable row of the concatenated diff stream.
#[derive(Clone, Copy, Debug, PartialEq, Eq, Structural)]
pub enum Row {
    Spacer,
    FileHeader(usize),
    Binary,
    /// Oversized file whose diff wasn't loaded; Enter expands it.
    LargeStub(usize),
    HunkHeader(usize, usize),
    /// A wrapped segment of one diff line; `start` and `end` are character
    /// positions in its content.
    Line { file: usize, hunk: usize, line: usize, start: usize, end: usize },
    /// Comment block header; the index is into the comment store slice.
    CommentHeader(usize),
    /// One preserved-snippet line of an outdated comment.
    CommentSnippet(usize, usize),
    /// A wrapped segment of one comment body line.
    CommentBody { comment: usize, line: usize, start: usize, end: usize },
}

/// Which unwrapped row a row comes from, and where in its text it starts.
#[derive(Clone, Copy, Debug, PartialEq, Eq, Structural)]
pub struct RowOrigin {
    pub template: usize,
    pub offset: usize,
}

// ---- comment blocks -------------------------------------------------------------------

/// Line `i` of a comment's text; empty past the last one.
pub open spec fn body_line(body: Seq<char>, i: int) -> Seq<char> {
    let lines = text::lines(body);
    if 0 <= i < lines.len() {
        lines[i]
    } else {
        Seq::empty()
    }
}

/// How many body rows a comment has before wrapping: one at the least.
pub open spec fn body_count(body: Seq<char>) -> nat {
    let n = text::lines(body).len();
    if n == 0 {
        1
    } else {
        n
    }
}

/// The rows of one comment: header, snippet if asked for, body.
pub open spec fn comment_rows(ci: usize, c: CommentView, with_snippet: bool) -> Seq<Row> {
    seq![Row::CommentHeader(ci)] + (if with_snippet {
        Seq::new(c.snippet.len(), |i: int| Row::CommentSnippet(ci, i as usize))
    } else {
        Seq::empty()
    }) + Seq::new(
        body_count(c.body),
        |i: int|
            Row::CommentBody {
                comment: ci,
                line: i as usize,
                start: 0,
                end: body_line(c.body, i).len() as usize,
            },
    )
}

/// The comments placed at an anchor of a file, in order.
pub open spec fn comments_at(placed: Seq<Placed>, file: usize, anchor: Anchor) -> Seq<usize>
    decreases placed.len(),
{
    if placed.len() == 0 {
        Seq::empty()
    } else if placed.last().file == file && placed.last().anchor == anchor {
        comments_at(placed.drop_last(), file, anchor).push(placed.last().comment)
    } else {
        comments_at(placed.drop_last(), file, anchor)
    }
}

/// The rows of several comments.
pub open spec fn block_rows(
    list: Seq<usize>,
    comments: Seq<CommentView>,
    with_snippet: bool,
) -> Seq<Row>
    decreases list.len(),
{
    if list.len() == 0 {
        Seq::empty()
    } else {
        block_rows(list.drop_last(), comments, with_snippet) + comment_rows(
            list.last(),
            comments[list.last() as int],
            with_snippet,
        )
    }
}

// ---- files ----------------------------------------------------------------------------

/// The unwrapped row of a diff line.
pub open spec fn line_row(fi: usize, hi: usize, li: usize, line: DiffLineView) -> Row {
    Row::Line { file: fi, hunk: hi, line: li, start: 0, end: line.content.len() as usize }
}

/// The rows of the first `n` lines of a hunk, comments below the lines they are on.
pub open spec fn lines_rows(
    fi: usize,
    hi: usize,
    lines: Seq<DiffLineView>,
    placed: Seq<Placed>,
    comments: Seq<CommentView>,
    n: int,
) -> Seq<Row>
    decreases n,
{
    if n <= 0 {
        Seq::empty()
    } else {
        let li = (n - 1) as usize;
        lines_rows(fi, hi, lines, placed, comments, n - 1).push(
            line_row(fi, hi, li, lines[n - 1]),
        ) + block_rows(
            comments_at(placed, fi, Anchor::Line { hunk: hi, line: li }),
            comments,
            false,
        )
    }
}

/// The rows of the first `n` hunks of a file.
pub open spec fn hunks_rows(
    fi: usize,
    hunks: Seq<HunkView>,
    placed: Seq<Placed>,
    comments: Seq<CommentView>,
    n: int,
) -> Seq<Row>
    decreases n,
{
    if n <= 0 {
        Seq::empty()
    } else {
        let hi = (n - 1) as usize;
        let lines = hunks[n - 1].lines;
        hunks_rows(fi, hunks, placed, comments, n - 1).push(Row::HunkHeader(fi, hi)) + lines_rows(
            fi,
            hi,
            lines,
            placed,
            comments,
            lines.len() as int,
        )
    }
}

/// Is the file shown as a stub that Enter loads?
pub open spec fn is_stub(f: FileDiffView) -> bool {
    f.untracked_dir || (f.large && f.hunks.len() == 0)
}

/// The rows of one file: header, outdated comments, then its stub, binary
/// marker or hunks.
pub open spec fn file_rows(
    fi: usize,
    f: FileDiffView,
    placed: Seq<Placed>,
    comments: Seq<CommentView>,
) -> Seq<Row> {
    seq![Row::FileHeader(fi)] + block_rows(
        comments_at(placed, fi, Anchor::Outdated),
        comments,
        true,
    ) + (if is_stub(f) {
        seq![Row::LargeStub(fi)]
    } else if f.binary {
        seq![Row::Binary]
    } else {
        hunks_rows(fi, f.hunks, placed, comments, f.hunks.len() as int)
    })
}

/// The rows of the first `n` files, a spacer between neighbours.
pub open spec fn stream_rows(
    files: Seq<FileDiffView>,
    placed: Seq<Placed>,
    comments: Seq<CommentView>,
    n: int,
) -> Seq<Row>
    decreases n,
{
    if n <= 0 {
        Seq::empty()
    } else {
        stream_rows(files, placed, comments, n - 1) + (if n > 1 {
            seq![Row::Spacer]
        } else {
            Seq::empty()
        }) + file_rows((n - 1) as usize, files[n - 1], placed, comments)
    }
}

/// Every placement names one of the comments.
pub open spec fn names_comments(placed: Seq<Placed>, comments: nat) -> bool {
    forall|i: int| 0 <= i < placed.len() ==> (#[trigger] placed[i]).comment < comments
}

fn push_comment(rows: &mut Vec<Row>, ci: usize, c: &Comment, with_snippet: bool)
    ensures
        final(rows)@ == old(rows)@ + comment_rows(ci, c@, with_snippet),
{
    let ghost start = rows@;
    rows.push(Row::CommentHeader(ci));
    let ghost head = seq![Row::CommentHeader(ci)];
    assert(rows@ =~= start + head);
    let ghost snip: Seq<Row> = if with_snippet {
        Seq::new(c@.snippet.len(), |i: int| Row::CommentSnippet(ci, i as usize))
    } else {
        Seq::empty()
    };
    if with_snippet {
        let mut i: usize = 0;
        while i < c.snippet.len()
            invariant
                i <= c.snippet@.len(),
                snip == Seq::new(
                    c.snippet@.len(),
                    |i: int| Row::CommentSnippet(ci, i as usize),
                ),
                rows@ =~= start + head + snip.take(i as int),
            decreases c.snippet@.len() - i,
        {
            rows.push(Row::CommentSnippet(ci, i));
            i += 1;
        }
        assert(snip.take(i as int) =~= snip);
    }
    assert(rows@ =~= start + head + snip);
    let lines: Vec<String> = markdown::lines_of(c.body.as_str());
    let ghost bodies: Seq<Row> = Seq::new(
        body_count(c@.body),
        |i: int|
            Row::CommentBody {
                comment: ci,
                line: i as usize,
                start: 0,
                end: body_line(c@.body, i).len() as usize,
            },
    );
    if lines.len() == 0 {
        rows.push(Row::CommentBody { comment: ci, line: 0, start: 0, end: 0 });
        assert(rows@ =~= start + head + snip + bodies);
    } else {
        let mut i: usize = 0;
        while i < lines.len()
            invariant
                i <= lines@.len(),
                deep::deep(lines@) == text::lines(c@.body),
                lines@.len() > 0,
                bodies == Seq::new(
                    body_count(c@.body),
                    |i: int|
                        Row::CommentBody {
                            comment: ci,
                            line: i as usize,
                            start: 0,
                            end: body_line(c@.body, i).len() as usize,
                        },
                ),
                rows@ =~= start + head + snip + bodies.take(i as int),
            decreases lines@.len() - i,
        {
            let cs: Vec<char> = text::to_chars(lines[i].as_str());
            assert(text::lines(c@.body)[i as int] == lines@[i as int]@);
            rows.push(Row::CommentBody { comment: ci, line: i, start: 0, end: cs.len() });
            assert(bodies[i as int] == rows@.last());
            i += 1;
        }
        assert(bodies.take(i as int) =~= bodies);
    }
    assert(rows@ =~= start + comment_rows(ci, c@, with_snippet));
}

fn push_blocks(
    rows: &mut Vec<Row>,
    placed: &[Placed],
    file: usize,
    anchor: Anchor,
    comments: &[Comment],
    with_snippet: bool,
)
    requires
        names_comments(placed@, comments@.len()),
    ensures
        final(rows)@ == old(rows)@ + block_rows(
            comments_at(placed@, file, anchor),
            deep::deep(comments@),
            with_snippet,
        ),
{
    let ghost start = rows@;
    let ghost cs = deep::deep(comments@);
    let mut i: usize = 0;
    assert(rows@ =~= start + block_rows(
        comments_at(placed@.take(0), file, anchor),
        cs,
        with_snippet,
    ));
    while i < placed.len()
        invariant
            i <= placed@.len(),
            cs == deep::deep(comments@),
            names_comments(placed@, comments@.len()),
            rows@ == start + block_rows(
                comments_at(placed@.take(i as int), file, anchor),
                cs,
                with_snippet,
            ),
        decreases placed@.len() - i,
    {
        let p: Placed = placed[i];
        let ghost list = comments_at(placed@.take(i as int), file, anchor);
        assert(placed@.take(i + 1).drop_last() =~= placed@.take(i as int));
        assert(placed@[i as int].comment < comments@.len());
        if p.file == file && p.anchor == anchor {
            assert(cs[p.comment as int] == comments@[p.comment as int]@);
            push_comment(rows, p.comment, &comments[p.comment], with_snippet);
            assert(list.push(p.comment).drop_last() =~= list);
            assert(rows@ =~= start + block_rows(
                comments_at(placed@.take(i + 1), file, anchor),
                cs,
                with_snippet,
            ));
        }
        i += 1;
    }
    assert(placed@.take(i as int) =~= placed@);
}

fn push_lines(
    rows: &mut Vec<Row>,
    fi: usize,
    hi: usize,
    lines: &[DiffLine],
    placed: &[Placed],
    comments: &[Comment],
)
    requires
        names_comments(placed@, comments@.len()),
    ensures
        final(rows)@ == old(rows)@ + lines_rows(
            fi,
            hi,
            deep::deep(lines@),
            placed@,
            deep::deep(comments@),
            lines@.len() as int,
        ),
{
    let ghost start = rows@;
    let ghost cs = deep::deep(comments@);
    let ghost ls = deep::deep(lines@);
    let mut i: usize = 0;
    assert(rows@ =~= start + lines_rows(fi, hi, ls, placed@, cs, 0));
    while i < lines.len()
        invariant
            i <= lines@.len(),
            cs == deep::deep(comments@),
            ls == deep::deep(lines@),
            names_comments(placed@, comments@.len()),
            rows@ == start + lines_rows(fi, hi, ls, placed@, cs, i as int),
        decreases lines@.len() - i,
    {
        let content: Vec<char> = text::to_chars(lines[i].content.as_str());
        assert(ls[i as int] == lines@[i as int]@);
        rows.push(Row::Line { file: fi, hunk: hi, line: i, start: 0, end: content.len() });
        push_blocks(rows, placed, fi, Anchor::Line { hunk: hi, line: i }, comments, false);
        assert(rows@ =~= start + lines_rows(fi, hi, ls, placed@, cs, i + 1));
        i += 1;
    }
}

fn push_file(
    rows: &mut Vec<Row>,
    fi: usize,
    file: &FileDiff,
    placed: &[Placed],
    comments: &[Comment],
)
    requires
        names_comments(placed@, comments@.len()),
    ensures
        final(rows)@ == old(rows)@ + file_rows(fi, file@, placed@, deep::deep(comments@)),
{
    let ghost start = rows@;
    let ghost cs = deep::deep(comments@);
    rows.push(Row::FileHeader(fi));
    push_blocks(rows, placed, fi, Anchor::Outdated, comments, true);
    if file.untracked_dir || (file.large && file.hunks.len() == 0) {
        rows.push(Row::LargeStub(fi));
        assert(rows@ =~= start + file_rows(fi, file@, placed@, cs));
        return;
    }
    if file.binary {
        rows.push(Row::Binary);
        assert(rows@ =~= start + file_rows(fi, file@, placed@, cs));
        return;
    }
    let ghost so_far = rows@;
    let ghost hs = deep::deep(file.hunks@);
    let mut h: usize = 0;
    assert(rows@ =~= so_far + hunks_rows(fi, hs, placed@, cs, 0));
    while h < file.hunks.len()
        invariant
            h <= file.hunks@.len(),
            cs == deep::deep(comments@),
            hs == deep::deep(file.hunks@),
            names_comments(placed@, comments@.len()),
            rows@ == so_far + hunks_rows(fi, hs, placed@, cs, h as int),
        decreases file.hunks@.len() - h,
    {
        assert(hs[h as int] == file.hunks@[h as int]@);
        rows.push(Row::HunkHeader(fi, h));
        push_lines(rows, fi, h, file.hunks[h].lines.as_slice(), placed, comments);
        assert(rows@ =~= so_far + hunks_rows(fi, hs, placed@, cs, h + 1));
        h += 1;
    }
    assert(rows@ =~= start + file_rows(fi, file@, placed@, cs));
}

/// The unwrapped rows of a whole diff.
pub fn build_rows(files: &[FileDiff], placed: &[Placed], comments: &[Comment]) -> (r: Vec<Row>)
    requires
        names_comments(placed@, comments@.len()),
    ensures
        r@ == stream_rows(
            deep::deep(files@),
            placed@,
            deep::deep(comments@),
            files@.len() as int,
        ),
{
    let ghost cs = deep::deep(comments@);
    let ghost fs = deep::deep(files@);
    let mut rows: Vec<Row> = Vec::new();
    let mut i: usize = 0;
    while i < files.len()
        invariant
            i <= files@.len(),
            cs == deep::deep(comments@),
            fs == deep::deep(files@),
            names_comments(placed@, comments@.len()),
            rows@ == stream_rows(fs, placed@, cs, i as int),
        decreases files@.len() - i,
    {
        let ghost before = rows@;
        assert(fs[i as int] == files@[i as int]@);
        if i > 0 {
            rows.push(Row::Spacer);
        }
        push_file(&mut rows, i, &files[i], placed, comments);
        assert(rows@ =~= stream_rows(fs, placed@, cs, i + 1));
        i += 1;
    }
    rows
}

// ---- rows that refer to what is there ---------------------------------------------------

/// The row refers to a file, hunk, line or comment that is there.
pub open spec fn row_valid(row: Row, files: Seq<FileDiffView>, comments: nat) -> bool {
    match row {
        Row::Spacer => true,
        Row::Binary => true,
        Row::FileHeader(fi) => fi < files.len(),
        Row::LargeStub(fi) => fi < files.len(),
        Row::HunkHeader(fi, hi) => fi < files.len() && hi < files[fi as int].hunks.len(),
        Row::Line { file, hunk, line, .. } => file < files.len() && hunk
            < files[file as int].hunks.len() && line
            < files[file as int].hunks[hunk as int].lines.len(),
        Row::CommentHeader(ci) => ci < comments,
        Row::CommentSnippet(ci, _) => ci < comments,
        Row::CommentBody { comment, .. } => comment < comments,
    }
}

/// Every row refers to something that is there.
pub open spec fn rows_valid(rows: Seq<Row>, files: Seq<FileDiffView>, comments: nat) -> bool {
    forall|i: int| 0 <= i < rows.len() ==> row_valid(#[trigger] rows[i], files, comments)
}

proof fn lemma_rows_valid_add(
    a: Seq<Row>,
    b: Seq<Row>,
    files: Seq<FileDiffView>,
    comments: nat,
)
    requires
        rows_valid(a, files, comments),
        rows_valid(b, files, comments),
    ensures
        rows_valid(a + b, files, comments),
{
    assert forall|i: int| 0 <= i < (a + b).len() implies row_valid(
        #[trigger] (a + b)[i],
        files,
        comments,
    ) by {
        if i < a.len() {
            assert((a + b)[i] == a[i]);
        } else {
            assert((a + b)[i] == b[i - a.len()]);
        }
    }
}

proof fn lemma_comments_at(placed: Seq<Placed>, file: usize, anchor: Anchor, comments: nat)
    requires
        names_comments(placed, comments),
    ensures
        forall|i: int|
            0 <= i < comments_at(placed, file, anchor).len() ==> #[trigger] comments_at(
                placed,
                file,
                anchor,
            )[i] < comments,
    decreases placed.len(),
{
    if placed.len() > 0 {
        let front = placed.drop_last();
        assert(names_comments(front, comments)) by {
            assert forall|i: int| 0 <= i < front.len() implies (#[trigger] front[i]).comment
                < comments by {
                assert(front[i] == placed[i]);
            }
        }
        lemma_comments_at(front, file, anchor, comments);
        assert(placed[placed.len() - 1].comment < comments);
        let before = comments_at(front, file, anchor);
        let all = comments_at(placed, file, anchor);
        assert forall|i: int| 0 <= i < all.len() implies #[trigger] all[i] < comments by {
            if i < before.len() {
                assert(all[i] == before[i]);
            }
        }
    }
}

proof fn lemma_block_valid(
    list: Seq<usize>,
    cs: Seq<CommentView>,
    with_snippet: bool,
    files: Seq<FileDiffView>,
)
    requires
        forall|i: int| 0 <= i < list.len() ==> #[trigger] list[i] < cs.len(),
    ensures
        rows_valid(block_rows(list, cs, with_snippet), files, cs.len()),
    decreases list.len(),
{
    if list.len() > 0 {
        let front = list.drop_last();
        assert forall|i: int| 0 <= i < front.len() implies #[trigger] front[i] < cs.len() by {
            assert(front[i] == list[i]);
        }
        lemma_block_valid(front, cs, with_snippet, files);
        let ci = list.last();
        assert(list[list.len() - 1] < cs.len());
        assert(rows_valid(comment_rows(ci, cs[ci as int], with_snippet), files, cs.len()));
        lemma_rows_valid_add(
            block_rows(front, cs, with_snippet),
            comment_rows(ci, cs[ci as int], with_snippet),
            files,
            cs.len(),
        );
    }
}

proof fn lemma_lines_valid(
    fi: usize,
    hi: usize,
    files: Seq<FileDiffView>,
    placed: Seq<Placed>,
    cs: Seq<CommentView>,
    n: int,
)
    requires
        crate::comments::countable(files),
        names_comments(placed, cs.len()),
        fi < files.len(),
        hi < files[fi as int].hunks.len(),
        0 <= n <= files[fi as int].hunks[hi as int].lines.len(),
    ensures
        rows_valid(
            lines_rows(fi, hi, files[fi as int].hunks[hi as int].lines, placed, cs, n),
            files,
            cs.len(),
        ),
    decreases n,
{
    if n > 0 {
        lemma_lines_valid(fi, hi, files, placed, cs, n - 1);
        let lines = files[fi as int].hunks[hi as int].lines;
        assert(crate::comments::countable_hunks(files[fi as int].hunks));
        assert(lines.len() <= usize::MAX);
        let li = (n - 1) as usize;
        let before = lines_rows(fi, hi, lines, placed, cs, n - 1);
        let row = line_row(fi, hi, li, lines[n - 1]);
        assert(row_valid(row, files, cs.len()));
        assert(rows_valid(before.push(row), files, cs.len()));
        let anchor = Anchor::Line { hunk: hi, line: li };
        lemma_comments_at(placed, fi, anchor, cs.len());
        lemma_block_valid(comments_at(placed, fi, anchor), cs, false, files);
        lemma_rows_valid_add(
            before.push(row),
            block_rows(comments_at(placed, fi, anchor), cs, false),
            files,
            cs.len(),
        );
    }
}

proof fn lemma_hunks_valid(
    fi: usize,
    files: Seq<FileDiffView>,
    placed: Seq<Placed>,
    cs: Seq<CommentView>,
    n: int,
)
    requires
        crate::comments::countable(files),
        names_comments(placed, cs.len()),
        fi < files.len(),
        0 <= n <= files[fi as int].hunks.len(),
    ensures
        rows_valid(
            hunks_rows(fi, files[fi as int].hunks, placed, cs, n),
            files,
            cs.len(),
        ),
    decreases n,
{
    if n > 0 {
        lemma_hunks_valid(fi, files, placed, cs, n - 1);
        let hunks = files[fi as int].hunks;
        assert(crate::comments::countable_hunks(hunks));
        let hi = (n - 1) as usize;
        let lines = hunks[n - 1].lines;
        let before = hunks_rows(fi, hunks, placed, cs, n - 1);
        let row = Row::HunkHeader(fi, hi);
        assert(row_valid(row, files, cs.len()));
        assert(rows_valid(before.push(row), files, cs.len()));
        lemma_lines_valid(fi, hi, files, placed, cs, lines.len() as int);
        lemma_rows_valid_add(
            before.push(row),
            lines_rows(fi, hi, lines, placed, cs, lines.len() as int),
            files,
            cs.len(),
        );
    }
}

/// The rows of a diff refer to its files and to the comments.
pub proof fn lemma_stream_valid(
    files: Seq<FileDiffView>,
    placed: Seq<Placed>,
    cs: Seq<CommentView>,
    n: int,
)
    requires
        crate::comments::countable(files),
        names_comments(placed, cs.len()),
        0 <= n <= files.len(),
    ensures
        rows_valid(stream_rows(files, placed, cs, n), files, cs.len()),
    decreases n,
{
    if n > 0 {
        lemma_stream_valid(files, placed, cs, n - 1);
        let fi = (n - 1) as usize;
        let f = files[n - 1];
        let before = stream_rows(files, placed, cs, n - 1);
        let gap: Seq<Row> = if n > 1 {
            seq![Row::Spacer]
        } else {
            Seq::empty()
        };
        lemma_rows_valid_add(before, gap, files, cs.len());
        lemma_comments_at(placed, fi, Anchor::Outdated, cs.len());
        let top = comments_at(placed, fi, Anchor::Outdated);
        lemma_block_valid(top, cs, true, files);
        let head = seq![Row::FileHeader(fi)];
        assert(rows_valid(head, files, cs.len()));
        lemma_rows_valid_add(head, block_rows(top, cs, true), files, cs.len());
        let rest: Seq<Row> = if is_stub(f) {
            seq![Row::LargeStub(fi)]
        } else if f.binary {
            seq![Row::Binary]
        } else {
            hunks_rows(fi, f.hunks, placed, cs, f.hunks.len() as int)
        };
        lemma_hunks_valid(fi, files, placed, cs, f.hunks.len() as int);
        assert(rows_valid(rest, files, cs.len()));
        lemma_rows_valid_add(head + block_rows(top, cs, true), rest, files, cs.len());
        lemma_rows_valid_add(before + gap, file_rows(fi, f, placed, cs), files, cs.len());
    }
}

/// The row refers to a file, hunk or line that is there, if it refers to one.
pub open spec fn row_in(row: Row, files: Seq<FileDiffView>) -> bool {
    match row {
        Row::FileHeader(fi) => fi < files.len(),
        Row::LargeStub(fi) => fi < files.len(),
        Row::HunkHeader(fi, hi) => fi < files.len() && hi < files[fi as int].hunks.len(),
        Row::Line { file, hunk, line, .. } => file < files.len() && hunk
            < files[file as int].hunks.len() && line
            < files[file as int].hunks[hunk as int].lines.len(),
        _ => true,
    }
}

/// Every row refers to a file, hunk or line that is there, if it refers to one.
pub open spec fn rows_in(rows: Seq<Row>, files: Seq<FileDiffView>) -> bool {
    forall|i: int| 0 <= i < rows.len() ==> row_in(#[trigger] rows[i], files)
}

// ---- file headers -----------------------------------------------------------------------

/// The files that the header rows name, in order.
pub open spec fn headers(rows: Seq<Row>) -> Seq<usize>
    decreases rows.len(),
{
    if rows.len() == 0 {
        Seq::empty()
    } else {
        match rows.last() {
            Row::FileHeader(fi) => headers(rows.drop_last()).push(fi),
            _ => headers(rows.drop_last()),
        }
    }
}

/// The first `n` file numbers.
pub open spec fn numbers(n: nat) -> Seq<usize> {
    Seq::new(n, |i: int| i as usize)
}

proof fn lemma_headers_add(a: Seq<Row>, b: Seq<Row>)
    ensures
        headers(a + b) == headers(a) + headers(b),
    decreases b.len(),
{
    if b.len() == 0 {
        assert(a + b =~= a);
        assert(headers(a) + headers(b) =~= headers(a));
    } else {
        assert((a + b).drop_last() =~= a + b.drop_last());
        lemma_headers_add(a, b.drop_last());
        assert(headers(a + b) =~= headers(a) + headers(b));
    }
}

proof fn lemma_no_headers(rows: Seq<Row>)
    requires
        forall|i: int| 0 <= i < rows.len() ==> !((#[trigger] rows[i]) is FileHeader),
    ensures
        headers(rows) == Seq::<usize>::empty(),
    decreases rows.len(),
{
    if rows.len() > 0 {
        let front = rows.drop_last();
        assert forall|i: int| 0 <= i < front.len() implies !((#[trigger] front[i]) is FileHeader) by {
            assert(front[i] == rows[i]);
        }
        assert(!(rows[rows.len() - 1] is FileHeader));
        lemma_no_headers(front);
    }
}

proof fn lemma_one_header(fi: usize)
    ensures
        headers(seq![Row::FileHeader(fi)]) == seq![fi],
{
    let rows = seq![Row::FileHeader(fi)];
    assert(rows.drop_last() =~= Seq::empty());
    assert(headers(rows.drop_last()) =~= Seq::empty());
    assert(headers(rows) =~= seq![fi]);
}

proof fn lemma_block_headers(list: Seq<usize>, cs: Seq<CommentView>, with_snippet: bool)
    ensures
        headers(block_rows(list, cs, with_snippet)) == Seq::<usize>::empty(),
    decreases list.len(),
{
    if list.len() > 0 {
        lemma_block_headers(list.drop_last(), cs, with_snippet);
        let rows = comment_rows(list.last(), cs[list.last() as int], with_snippet);
        lemma_no_headers(rows);
        lemma_headers_add(block_rows(list.drop_last(), cs, with_snippet), rows);
        assert(headers(block_rows(list, cs, with_snippet)) =~= Seq::empty());
    }
}

proof fn lemma_lines_headers(
    fi: usize,
    hi: usize,
    lines: Seq<DiffLineView>,
    placed: Seq<Placed>,
    cs: Seq<CommentView>,
    n: int,
)
    ensures
        headers(lines_rows(fi, hi, lines, placed, cs, n)) == Seq::<usize>::empty(),
    decreases n,
{
    if n > 0 {
        lemma_lines_headers(fi, hi, lines, placed, cs, n - 1);
        let li = (n - 1) as usize;
        let before = lines_rows(fi, hi, lines, placed, cs, n - 1);
        let row = line_row(fi, hi, li, lines[n - 1]);
        assert(before.push(row).drop_last() =~= before);
        let list = comments_at(placed, fi, Anchor::Line { hunk: hi, line: li });
        lemma_block_headers(list, cs, false);
        lemma_headers_add(before.push(row), block_rows(list, cs, false));
        assert(headers(lines_rows(fi, hi, lines, placed, cs, n)) =~= Seq::empty());
    }
}

proof fn lemma_hunks_headers(
    fi: usize,
    hunks: Seq<HunkView>,
    placed: Seq<Placed>,
    cs: Seq<CommentView>,
    n: int,
)
    ensures
        headers(hunks_rows(fi, hunks, placed, cs, n)) == Seq::<usize>::empty(),
    decreases n,
{
    if n > 0 {
        lemma_hunks_headers(fi, hunks, placed, cs, n - 1);
        let hi = (n - 1) as usize;
        let lines = hunks[n - 1].lines;
        let before = hunks_rows(fi, hunks, placed, cs, n - 1);
        let row = Row::HunkHeader(fi, hi);
        assert(before.push(row).drop_last() =~= before);
        lemma_lines_headers(fi, hi, lines, placed, cs, lines.len() as int);
        lemma_headers_add(
            before.push(row),
            lines_rows(fi, hi, lines, placed, cs, lines.len() as int),
        );
        assert(headers(hunks_rows(fi, hunks, placed, cs, n)) =~= Seq::empty());
    }
}

/// Every file has one header row, in order; the first row is the first header.
pub proof fn lemma_stream_headers(
    files: Seq<FileDiffView>,
    placed: Seq<Placed>,
    cs: Seq<CommentView>,
    n: int,
)
    requires
        0 <= n <= files.len(),
    ensures
        headers(stream_rows(files, placed, cs, n)) == numbers(n as nat),
        n > 0 ==> stream_rows(files, placed, cs, n).len() > 0 && stream_rows(
            files,
            placed,
            cs,
            n,
        )[0] == Row::FileHeader(0),
    decreases n,
{
    if n > 0 {
        lemma_stream_headers(files, placed, cs, n - 1);
        let fi = (n - 1) as usize;
        let f = files[n - 1];
        let before = stream_rows(files, placed, cs, n - 1);
        let gap: Seq<Row> = if n > 1 {
            seq![Row::Spacer]
        } else {
            Seq::empty()
        };
        lemma_no_headers(gap);
        lemma_headers_add(before, gap);
        let head = seq![Row::FileHeader(fi)];
        lemma_one_header(fi);
        let top = comments_at(placed, fi, Anchor::Outdated);
        lemma_block_headers(top, cs, true);
        lemma_headers_add(head, block_rows(top, cs, true));
        let rest: Seq<Row> = if is_stub(f) {
            seq![Row::LargeStub(fi)]
        } else if f.binary {
            seq![Row::Binary]
        } else {
            hunks_rows(fi, f.hunks, placed, cs, f.hunks.len() as int)
        };
        lemma_hunks_headers(fi, f.hunks, placed, cs, f.hunks.len() as int);
        if is_stub(f) || f.binary {
            lemma_no_headers(rest);
        }
        lemma_headers_add(head + block_rows(top, cs, true), rest);
        lemma_headers_add(before + gap, file_rows(fi, f, placed, cs));
        assert(headers(stream_rows(files, placed, cs, n)) =~= numbers(n as nat));
        let all = stream_rows(files, placed, cs, n);
        if n > 1 {
            assert(all[0] == before[0]);
        } else {
            assert(before.len() == 0);
            assert(all[0] == Row::FileHeader(fi));
        }
    }
}

/// The header rows stand where the file landmarks say.
pub proof fn lemma_headers_at(rows: Seq<Row>)
    requires
        rows.len() <= usize::MAX,
    ensures
        headers(rows).len() == landmarks(rows, Landmark::File).len(),
        forall|k: int|
            0 <= k < headers(rows).len() ==> rows[landmarks(rows, Landmark::File)[k] as int]
                == Row::FileHeader(#[trigger] headers(rows)[k]),
    decreases rows.len(),
{
    if rows.len() > 0 {
        let front = rows.drop_last();
        lemma_headers_at(front);
        lemma_landmarks(front, Landmark::File);
        let a = landmarks(front, Landmark::File);
        let all = landmarks(rows, Landmark::File);
        assert forall|k: int| 0 <= k < headers(rows).len() implies rows[all[k] as int]
            == Row::FileHeader(#[trigger] headers(rows)[k]) by {
            if k < headers(front).len() {
                assert(headers(rows)[k] == headers(front)[k]);
                assert(all[k] == a[k]);
                assert(front[a[k] as int] == rows[a[k] as int]);
            }
        }
    }
}

/// Wrapping leaves the header rows as they are.
pub proof fn lemma_laid_headers(
    template: Seq<Row>,
    files: Seq<FileDiffView>,
    comments: Seq<CommentView>,
    comment_width: usize,
    line_width: Option<usize>,
    n: int,
)
    requires
        0 <= n <= template.len(),
    ensures
        headers(laid_rows(template, files, comments, comment_width, line_width, n)) == headers(
            template.take(n),
        ),
    decreases n,
{
    assert(template.take(0) =~= Seq::empty());
    if n > 0 {
        lemma_laid_headers(template, files, comments, comment_width, line_width, n - 1);
        let row = template[n - 1];
        let segs = segments(row, files, comments, comment_width, line_width);
        let pieces = segs.map_values(|seg: VisualLine| piece(row, seg));
        assert(template.take(n).drop_last() =~= template.take(n - 1));
        lemma_headers_add(
            laid_rows(template, files, comments, comment_width, line_width, n - 1),
            pieces,
        );
        if row is FileHeader {
            assert(pieces =~= seq![row]);
            lemma_one_header(row->FileHeader_0);
        } else {
            lemma_no_headers(pieces);
        }
        assert(headers(laid_rows(template, files, comments, comment_width, line_width, n))
            =~= headers(template.take(n)));
    }
}

// ---- wrapping ---------------------------------------------------------------------------

/// The pieces that a row is broken into. Rows without wrapped text stay whole;
/// so do diff lines when no line width is given.
pub open spec fn segments(
    row: Row,
    files: Seq<FileDiffView>,
    comments: Seq<CommentView>,
    comment_width: usize,
    line_width: Option<usize>,
) -> Seq<VisualLine> {
    match row {
        Row::CommentBody { comment, line, .. } => wrap::wrapped(
            body_line(comments[comment as int].body, line as int),
            comment_width,
        ),
        Row::Line { file, hunk, line, start, end } => match line_width {
            Some(w) => wrap::wrapped(
                files[file as int].hunks[hunk as int].lines[line as int].content,
                w,
            ),
            None => seq![VisualLine { start: 0, end }],
        },
        _ => seq![VisualLine { start: 0, end: 0 }],
    }
}

/// The row that shows one piece.
pub open spec fn piece(row: Row, seg: VisualLine) -> Row {
    match row {
        Row::CommentBody { comment, line, .. } => Row::CommentBody {
            comment,
            line,
            start: seg.start,
            end: seg.end,
        },
        Row::Line { file, hunk, line, .. } => Row::Line {
            file,
            hunk,
            line,
            start: seg.start,
            end: seg.end,
        },
        _ => row,
    }
}

/// The rows of the first `n` unwrapped ones.
pub open spec fn laid_rows(
    template: Seq<Row>,
    files: Seq<FileDiffView>,
    comments: Seq<CommentView>,
    comment_width: usize,
    line_width: Option<usize>,
    n: int,
) -> Seq<Row>
    decreases n,
{
    if n <= 0 {
        Seq::empty()
    } else {
        let row = template[n - 1];
        laid_rows(template, files, comments, comment_width, line_width, n - 1) + segments(
            row,
            files,
            comments,
            comment_width,
            line_width,
        ).map_values(|seg: VisualLine| piece(row, seg))
    }
}

/// Where the rows of the first `n` unwrapped ones come from.
pub open spec fn laid_origins(
    template: Seq<Row>,
    files: Seq<FileDiffView>,
    comments: Seq<CommentView>,
    comment_width: usize,
    line_width: Option<usize>,
    n: int,
) -> Seq<RowOrigin>
    decreases n,
{
    if n <= 0 {
        Seq::empty()
    } else {
        let row = template[n - 1];
        laid_origins(template, files, comments, comment_width, line_width, n - 1) + segments(
            row,
            files,
            comments,
            comment_width,
            line_width,
        ).map_values(
            |seg: VisualLine| RowOrigin { template: (n - 1) as usize, offset: seg.start },
        )
    }
}

/// The first piece of a row starts at the beginning of its text.
pub proof fn lemma_segments(
    row: Row,
    files: Seq<FileDiffView>,
    comments: Seq<CommentView>,
    comment_width: usize,
    line_width: Option<usize>,
)
    ensures
        segments(row, files, comments, comment_width, line_width).len() > 0,
        segments(row, files, comments, comment_width, line_width)[0].start == 0,
{
    match row {
        Row::CommentBody { comment, line, .. } => {
            lemma_wrapped_start(
                body_line(comments[comment as int].body, line as int),
                comment_width,
            );
        },
        Row::Line { file, hunk, line, .. } => {
            if let Some(w) = line_width {
                lemma_wrapped_start(
                    files[file as int].hunks[hunk as int].lines[line as int].content,
                    w,
                );
            }
        },
        _ => {},
    }
}

proof fn lemma_wrapped_start(s: Seq<char>, w: usize)
    ensures
        wrap::wrapped(s, w).len() > 0,
        wrap::wrapped(s, w)[0].start == 0,
{
}

/// Rows and their origins go together, and every unwrapped row has a first piece.
pub proof fn lemma_laid(
    template: Seq<Row>,
    files: Seq<FileDiffView>,
    comments: Seq<CommentView>,
    comment_width: usize,
    line_width: Option<usize>,
    n: int,
)
    requires
        0 <= n <= template.len() <= usize::MAX,
    ensures
        ({
            let rows = laid_rows(template, files, comments, comment_width, line_width, n);
            let origins = laid_origins(template, files, comments, comment_width, line_width, n);
            &&& rows.len() == origins.len()
            &&& rows.len() >= n
            &&& forall|i: int| 0 <= i < origins.len() ==> (#[trigger] origins[i]).template < n
            &&& forall|t: int| 0 <= t < n ==> has_first_piece(origins, t)
            &&& forall|i: int|
                0 <= i < rows.len() ==> same_kind(
                    #[trigger] rows[i],
                    template[origins[i].template as int],
                )
            &&& n > 0 ==> origins[0].template == 0 && same_kind(rows[0], template[0])
        }),
    decreases n,
{
    if n > 0 {
        lemma_laid(template, files, comments, comment_width, line_width, n - 1);
        let row = template[n - 1];
        let segs = segments(row, files, comments, comment_width, line_width);
        lemma_segments(row, files, comments, comment_width, line_width);
        let r0 = laid_rows(template, files, comments, comment_width, line_width, n - 1);
        let o0 = laid_origins(template, files, comments, comment_width, line_width, n - 1);
        let rows = laid_rows(template, files, comments, comment_width, line_width, n);
        let origins = laid_origins(template, files, comments, comment_width, line_width, n);
        assert forall|i: int| 0 <= i < origins.len() implies (#[trigger] origins[i]).template
            < n by {
            if i < o0.len() {
                assert(origins[i] == o0[i]);
            }
        }
        assert forall|t: int| 0 <= t < n implies has_first_piece(origins, t) by {
            if t < n - 1 {
                assert(has_first_piece(o0, t));
                let i = choose|i: int|
                    0 <= i < o0.len() && (#[trigger] o0[i]).template == t && o0[i].offset == 0;
                assert(origins[i] == o0[i]);
            } else {
                assert(origins[o0.len() as int].template == t);
                assert(origins[o0.len() as int].offset == 0);
            }
        }
        assert forall|i: int| 0 <= i < rows.len() implies same_kind(
            #[trigger] rows[i],
            template[origins[i].template as int],
        ) by {
            if i < r0.len() {
                assert(rows[i] == r0[i]);
                assert(origins[i] == o0[i]);
            } else {
                assert(rows[i] == piece(row, segs[i - r0.len()]));
                assert(origins[i].template == n - 1);
            }
        }
        if n == 1 {
            assert(r0.len() == 0);
            assert(rows[0] == piece(row, segs[0]));
        } else {
            assert(rows[0] == r0[0]);
            assert(origins[0] == o0[0]);
        }
    }
}

/// Some row is the first piece of the unwrapped row `t`.
pub open spec fn has_first_piece(origins: Seq<RowOrigin>, t: int) -> bool {
    exists|i: int|
        0 <= i < origins.len() && (#[trigger] origins[i]).template == t && origins[i].offset == 0
}

/// Two rows show pieces of the same thing.
pub open spec fn same_kind(a: Row, b: Row) -> bool {
    match (a, b) {
        (
            Row::CommentBody { comment: c1, line: l1, .. },
            Row::CommentBody { comment: c2, line: l2, .. },
        ) => c1 == c2 && l1 == l2,
        (
            Row::Line { file: f1, hunk: h1, line: l1, .. },
            Row::Line { file: f2, hunk: h2, line: l2, .. },
        ) => f1 == f2 && h1 == h2 && l1 == l2,
        _ => a == b,
    }
}

/// Wrapped rows refer to the same things as the unwrapped ones.
pub proof fn lemma_laid_valid(
    template: Seq<Row>,
    files: Seq<FileDiffView>,
    comments: Seq<CommentView>,
    comment_width: usize,
    line_width: Option<usize>,
)
    requires
        template.len() <= usize::MAX,
        rows_valid(template, files, comments.len()),
    ensures
        rows_valid(
            laid_rows(
                template,
                files,
                comments,
                comment_width,
                line_width,
                template.len() as int,
            ),
            files,
            comments.len(),
        ),
{
    let n = template.len() as int;
    lemma_laid(template, files, comments, comment_width, line_width, n);
    let rows = laid_rows(template, files, comments, comment_width, line_width, n);
    let origins = laid_origins(template, files, comments, comment_width, line_width, n);
    assert forall|i: int| 0 <= i < rows.len() implies row_valid(
        #[trigger] rows[i],
        files,
        comments.len(),
    ) by {
        assert(same_kind(rows[i], template[origins[i].template as int]));
        assert(origins[i].template < n);
        assert(row_valid(template[origins[i].template as int], files, comments.len()));
    }
}

/// Line `i` of a comment's text; empty past the last one.
pub fn body_line_chars(body: &str, i: usize) -> (r: Vec<char>)
    ensures
        r@ == body_line(body@, i as int),
{
    let cs: Vec<char> = text::to_chars(body);
    let lines: Vec<Vec<char>> = text::line_chars(cs.as_slice());
    if i < lines.len() {
        assert(text::lines(body@)[i as int] == lines@[i as int]@);
        let r: Vec<char> = text::copy_range(lines[i].as_slice(), 0, lines[i].len());
        assert(r@ =~= body_line(body@, i as int));
        r
    } else {
        let r: Vec<char> = Vec::new();
        assert(r@ =~= body_line(body@, i as int));
        r
    }
}

fn row_segments(
    row: Row,
    files: &[FileDiff],
    comments: &[Comment],
    comment_width: usize,
    line_width: Option<usize>,
) -> (r: Vec<VisualLine>)
    requires
        line_width is Some ==> row_valid(row, deep::deep(files@), comments@.len()),
        row is CommentBody ==> row->CommentBody_comment < comments@.len(),
    ensures
        r@ == segments(row, deep::deep(files@), deep::deep(comments@), comment_width, line_width),
{
    match row {
        Row::CommentBody { comment, line, .. } => {
            let body: Vec<char> = body_line_chars(comments[comment].body.as_str(), line);
            wrap::wrap_ranges(body.as_slice(), comment_width)
        },
        Row::Line { file, hunk, line, end, .. } => match line_width {
            Some(w) => {
                assert(deep::deep(files@)[file as int] == files@[file as int]@);
                let content: Vec<char> = text::to_chars(
                    files[file].hunks[hunk].lines[line].content.as_str(),
                );
                wrap::wrap_ranges(content.as_slice(), w)
            },
            None => {
                let mut v: Vec<VisualLine> = Vec::new();
                v.push(VisualLine { start: 0, end });
                v
            },
        },
        _ => {
            let mut v: Vec<VisualLine> = Vec::new();
            v.push(VisualLine { start: 0, end: 0 });
            v
        },
    }
}

fn show_piece(row: Row, seg: VisualLine) -> (r: Row)
    ensures
        r == piece(row, seg),
{
    match row {
        Row::CommentBody { comment, line, .. } => Row::CommentBody {
            comment,
            line,
            start: seg.start,
            end: seg.end,
        },
        Row::Line { file, hunk, line, .. } => Row::Line {
            file,
            hunk,
            line,
            start: seg.start,
            end: seg.end,
        },
        _ => row,
    }
}

/// Rows that only comments are needed for to wrap.
pub open spec fn bodies_valid(rows: Seq<Row>, comments: nat) -> bool {
    forall|i: int|
        0 <= i < rows.len() ==> ((#[trigger] rows[i]) is CommentBody
            ==> rows[i]->CommentBody_comment < comments)
}

/// Breaks the unwrapped rows to the given widths.
pub fn lay_out(
    template: &[Row],
    files: &[FileDiff],
    comments: &[Comment],
    comment_width: usize,
    line_width: Option<usize>,
) -> (r: (Vec<Row>, Vec<RowOrigin>))
    requires
        line_width is Some ==> rows_valid(template@, deep::deep(files@), comments@.len()),
        bodies_valid(template@, comments@.len()),
    ensures
        r.0@ == laid_rows(
            template@,
            deep::deep(files@),
            deep::deep(comments@),
            comment_width,
            line_width,
            template@.len() as int,
        ),
        r.1@ == laid_origins(
            template@,
            deep::deep(files@),
            deep::deep(comments@),
            comment_width,
            line_width,
            template@.len() as int,
        ),
{
    let ghost fs = deep::deep(files@);
    let ghost cs = deep::deep(comments@);
    let mut rows: Vec<Row> = Vec::new();
    let mut origins: Vec<RowOrigin> = Vec::new();
    let mut t: usize = 0;
    while t < template.len()
        invariant
            t <= template@.len(),
            fs == deep::deep(files@),
            cs == deep::deep(comments@),
            line_width is Some ==> rows_valid(template@, fs, comments@.len()),
            bodies_valid(template@, comments@.len()),
            rows@ == laid_rows(template@, fs, cs, comment_width, line_width, t as int),
            origins@ == laid_origins(template@, fs, cs, comment_width, line_width, t as int),
        decreases template@.len() - t,
    {
        let row: Row = template[t];
        assert(bodies_valid(template@, comments@.len()));
        assert(template@[t as int] == row);
        if line_width.is_some() {
            assert(row_valid(template@[t as int], fs, comments@.len()));
        }
        let segs: Vec<VisualLine> = row_segments(row, files, comments, comment_width, line_width);
        let ghost r0 = rows@;
        let ghost o0 = origins@;
        let ghost shown = segs@.map_values(|seg: VisualLine| piece(row, seg));
        let ghost from = segs@.map_values(
            |seg: VisualLine| RowOrigin { template: t, offset: seg.start },
        );
        let mut k: usize = 0;
        while k < segs.len()
            invariant
                k <= segs@.len(),
                shown == segs@.map_values(|seg: VisualLine| piece(row, seg)),
                from == segs@.map_values(
                    |seg: VisualLine| RowOrigin { template: t, offset: seg.start },
                ),
                rows@ =~= r0 + shown.take(k as int),
                origins@ =~= o0 + from.take(k as int),
            decreases segs@.len() - k,
        {
            rows.push(show_piece(row, segs[k]));
            origins.push(RowOrigin { template: t, offset: segs[k].start });
            k += 1;
        }
        assert(shown.take(k as int) =~= shown);
        assert(from.take(k as int) =~= from);
        assert(rows@ =~= laid_rows(template@, fs, cs, comment_width, line_width, t + 1));
        assert(origins@ =~= laid_origins(
            template@,
            fs,
            cs,
            comment_width,
            line_width,
            t + 1,
        ));
        t += 1;
    }
    (rows, origins)
}

// ---- finding rows -----------------------------------------------------------------------

/// The rows that navigation jumps to.
#[derive(Clone, Copy, Debug, PartialEq, Eq, Structural)]
pub enum Landmark {
    File,
    Hunk,
    Comment,
}

/// Is the row a landmark of this kind?
pub open spec fn is_landmark(row: Row, kind: Landmark) -> bool {
    match kind {
        Landmark::File => row is FileHeader,
        Landmark::Hunk => row is HunkHeader,
        Landmark::Comment => row is CommentHeader,
    }
}

/// The positions of the landmarks, ascending.
pub open spec fn landmarks(rows: Seq<Row>, kind: Landmark) -> Seq<usize>
    decreases rows.len(),
{
    if rows.len() == 0 {
        Seq::empty()
    } else if is_landmark(rows.last(), kind) {
        landmarks(rows.drop_last(), kind).push((rows.len() - 1) as usize)
    } else {
        landmarks(rows.drop_last(), kind)
    }
}

/// The listed positions are exactly those of the landmarks, in ascending order.
pub proof fn lemma_landmarks(rows: Seq<Row>, kind: Landmark)
    requires
        rows.len() <= usize::MAX,
    ensures
        forall|i: int|
            0 <= i < landmarks(rows, kind).len() ==> (#[trigger] landmarks(rows, kind)[i])
                < rows.len() && is_landmark(rows[landmarks(rows, kind)[i] as int], kind),
        forall|i: int, j: int|
            0 <= i < j < landmarks(rows, kind).len() ==> (#[trigger] landmarks(rows, kind)[i]) < (
            #[trigger] landmarks(rows, kind)[j]),
        forall|r: int|
            0 <= r < rows.len() && is_landmark(#[trigger] rows[r], kind) ==> landmarks(
                rows,
                kind,
            ).contains(r as usize),
    decreases rows.len(),
{
    if rows.len() > 0 {
        let front = rows.drop_last();
        lemma_landmarks(front, kind);
        let a = landmarks(front, kind);
        let all = landmarks(rows, kind);
        assert forall|i: int| 0 <= i < all.len() implies (#[trigger] all[i]) < rows.len()
            && is_landmark(rows[all[i] as int], kind) by {
            if i < a.len() {
                assert(all[i] == a[i]);
                assert(front[a[i] as int] == rows[a[i] as int]);
            }
        }
        assert forall|r: int| 0 <= r < rows.len() && is_landmark(#[trigger] rows[r], kind) implies all.contains(
            r as usize,
        ) by {
            if r < rows.len() - 1 {
                assert(front[r] == rows[r]);
                assert(a.contains(r as usize));
                let k = a.index_of(r as usize);
                assert(all[k] == a[k]);
            } else {
                assert(all[all.len() - 1] == r as usize);
            }
        }
    }
}

/// Finds the positions of the landmarks.
pub fn find_landmarks(rows: &[Row], kind: Landmark) -> (r: Vec<usize>)
    ensures
        r@ == landmarks(rows@, kind),
{
    let mut out: Vec<usize> = Vec::new();
    let mut i: usize = 0;
    while i < rows.len()
        invariant
            i <= rows@.len(),
            out@ == landmarks(rows@.take(i as int), kind),
        decreases rows@.len() - i,
    {
        assert(rows@.take(i + 1).drop_last() =~= rows@.take(i as int));
        let hit: bool = match (rows[i], kind) {
            (Row::FileHeader(_), Landmark::File) => true,
            (Row::HunkHeader(_, _), Landmark::Hunk) => true,
            (Row::CommentHeader(_), Landmark::Comment) => true,
            _ => false,
        };
        if hit {
            out.push(i);
        }
        i += 1;
    }
    assert(rows@.take(i as int) =~= rows@);
    out
}

/// Position of the last row, before `n`, that comes from the same unwrapped row
/// and starts no later in its text.
pub open spec fn located(origins: Seq<RowOrigin>, o: RowOrigin, n: int) -> Option<usize>
    decreases n,
{
    if n <= 0 {
        None
    } else if origins[n - 1].template == o.template && origins[n - 1].offset <= o.offset {
        Some((n - 1) as usize)
    } else {
        located(origins, o, n - 1)
    }
}

/// What `located` finds lies within the rows, and is found if there is one.
pub proof fn lemma_located(origins: Seq<RowOrigin>, o: RowOrigin, n: int)
    requires
        0 <= n <= origins.len() <= usize::MAX,
    ensures
        match located(origins, o, n) {
            Some(i) => i < n && origins[i as int].template == o.template && origins[i as int].offset
                <= o.offset,
            None => forall|i: int|
                0 <= i < n ==> !((#[trigger] origins[i]).template == o.template && origins[i].offset
                    <= o.offset),
        },
    decreases n,
{
    if n > 0 {
        lemma_located(origins, o, n - 1);
    }
}

/// Finds where a row went.
pub fn find_origin(origins: &[RowOrigin], o: RowOrigin) -> (r: Option<usize>)
    ensures
        r == located(origins@, o, origins@.len() as int),
{
    let mut n: usize = origins.len();
    while n > 0
        invariant
            n <= origins@.len(),
            located(origins@, o, n as int) == located(origins@, o, origins@.len() as int),
        decreases n,
    {
        let c: RowOrigin = origins[n - 1];
        if c.template == o.template && c.offset <= o.offset {
            return Some(n - 1);
        }
        n -= 1;
    }
    None
}

} // verus!
