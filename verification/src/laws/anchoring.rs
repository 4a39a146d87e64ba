//! Where a comment goes when the code it was made on moves.

use crate::comments;
use crate::comments::{Anchor, CommentView, Placed};
use crate::git::diff;
use crate::git::diff::{DiffLineView, FileDiffView, HunkView};
use crate::git::numbering;
use crate::text;
use crate::ui::selection_laws;
use vstd::prelude::*;

verus! {

// ---- what is looked for, and where it stands ----------------------------------------------

/// The number of a line on the side that a comment is on.
pub open spec fn number_on(line: DiffLineView, new_side: bool) -> Option<u32> {
    if new_side {
        line.new_lineno
    } else {
        line.old_lineno
    }
}

/// The code that a comment was made on: the lines of its snippet that are on its
/// side, without their signs.
pub open spec fn code_of(c: CommentView) -> Seq<Seq<char>> {
    c.snippet.filter(
        |l: Seq<char>|
            l.len() == 0 || l[0] != (if c.new_side {
                '-'
            } else {
                '+'
            }),
    ).map_values(
        |l: Seq<char>|
            if l.len() > 0 && (l[0] == '+' || l[0] == '-' || l[0] == ' ') {
                l.skip(1)
            } else {
                l
            },
    )
}

/// The code of a piece of a hunk on one side.
pub open spec fn code_in(lines: Seq<DiffLineView>, new_side: bool) -> Seq<Seq<char>> {
    lines.filter(|l: DiffLineView| number_on(l, new_side) is Some).map_values(
        |l: DiffLineView| l.content,
    )
}

/// A place in a file's diff: the lines `start..end` of a hunk.
pub struct Place {
    pub hunk: int,
    pub start: int,
    pub end: int,
}

/// The code of the comment stands at the place, up to its last line.
pub open spec fn stands(c: CommentView, file: FileDiffView, p: Place) -> bool {
    &&& 0 <= p.hunk < file.hunks.len()
    &&& 0 <= p.start < p.end <= file.hunks[p.hunk].lines.len()
    &&& number_on(file.hunks[p.hunk].lines[p.end - 1], c.new_side) is Some
    &&& code_in(file.hunks[p.hunk].lines.subrange(p.start, p.end), c.new_side) == code_of(c)
}

/// The number of the last line of a place.
pub open spec fn last_number(c: CommentView, file: FileDiffView, p: Place) -> u32 {
    number_on(file.hunks[p.hunk].lines[p.end - 1], c.new_side)->0
}

/// Has one of the lines a character that is not white space?
pub open spec fn says_something(lines: Seq<Seq<char>>) -> bool {
    exists|i: int, k: int|
        0 <= i < lines.len() && 0 <= k < lines[i].len() && !text::white(#[trigger] lines[i][k])
}

/// How far apart two lines are.
pub open spec fn apart(a: u32, b: u32) -> int {
    if a >= b {
        a - b
    } else {
        b - a
    }
}

/// Every hunk is numbered the way a diff numbers it.
pub open spec fn well_numbered(file: FileDiffView) -> bool {
    &&& comments::countable_hunks(file.hunks)
    &&& forall|h: int|
        0 <= h < file.hunks.len() ==> numbering::numbered((#[trigger] file.hunks[h]).lines)
}

// ---- the parts of a snippet ---------------------------------------------------------------

proof fn lemma_code_of(snippet: Seq<Seq<char>>, c: CommentView)
    requires
        c.snippet == snippet,
    ensures
        comments::target(snippet, c.new_side) == code_of(c),
    decreases snippet.len(),
{
    reveal(Seq::filter);
    if snippet.len() > 0 {
        let less = CommentView { snippet: snippet.drop_last(), ..c };
        lemma_code_of(snippet.drop_last(), less);
    }
    assert(comments::target(snippet, c.new_side) =~= code_of(c));
}

proof fn lemma_code_in(lines: Seq<DiffLineView>, new_side: bool)
    requires
        forall|i: int| 0 <= i < lines.len() ==> numbering::line_numbered(#[trigger] lines[i]),
    ensures
        comments::target(selection_laws::snippet_of(lines), new_side) == code_in(lines, new_side),
    decreases lines.len(),
{
    reveal(Seq::filter);
    let snippet = selection_laws::snippet_of(lines);
    if lines.len() > 0 {
        let front = lines.drop_last();
        assert forall|i: int| 0 <= i < front.len() implies numbering::line_numbered(
            #[trigger] front[i],
        ) by {
            assert(front[i] == lines[i]);
        }
        lemma_code_in(front, new_side);
        assert(snippet.drop_last() =~= selection_laws::snippet_of(front));
        let line = lines[lines.len() - 1];
        let s = snippet.last();
        assert(numbering::line_numbered(line));
        assert(s.len() > 0 && s[0] == line.origin);
        assert(s.skip(1) =~= line.content);
    }
    assert(comments::target(snippet, new_side) =~= code_in(lines, new_side));
}

proof fn lemma_trim_start_keeps(s: Seq<char>, k: int)
    requires
        0 <= k < s.len(),
        !text::white(s[k]),
    ensures
        exists|j: int| 0 <= j < text::trim_start(s).len() && !text::white(#[trigger] text::trim_start(s)[j]),
    decreases s.len(),
{
    if text::white(s[0]) {
        assert(s.drop_first()[k - 1] == s[k]);
        lemma_trim_start_keeps(s.drop_first(), k - 1);
        let t = text::trim_start(s.drop_first());
        assert(text::trim_start(s) == t);
        let j = choose|j: int| 0 <= j < t.len() && !text::white(#[trigger] t[j]);
        assert(!text::white(text::trim_start(s)[j]));
    } else {
        assert(text::trim_start(s) == s);
        assert(!text::white(text::trim_start(s)[k]));
    }
}

proof fn lemma_trim_end_keeps(s: Seq<char>, k: int)
    requires
        0 <= k < s.len(),
        !text::white(s[k]),
    ensures
        text::trim_end(s).len() > 0,
    decreases s.len(),
{
    if text::white(s.last()) {
        lemma_trim_end_keeps(s.drop_last(), k);
    }
}

proof fn lemma_all_white(s: Seq<char>)
    requires
        forall|k: int| 0 <= k < s.len() ==> text::white(#[trigger] s[k]),
    ensures
        text::trim_start(s).len() == 0,
    decreases s.len(),
{
    if s.len() > 0 {
        assert(text::white(s[0]));
        let rest = s.drop_first();
        assert forall|k: int| 0 <= k < rest.len() implies text::white(#[trigger] rest[k]) by {
            assert(rest[k] == s[k + 1]);
        }
        lemma_all_white(rest);
    }
}

proof fn lemma_movable(lines: Seq<Seq<char>>)
    ensures
        comments::movable(lines) == says_something(lines),
{
    if says_something(lines) {
        let (i, k) = choose|i: int, k: int|
            0 <= i < lines.len() && 0 <= k < lines[i].len() && !text::white(
                #[trigger] lines[i][k],
            );
        lemma_trim_start_keeps(lines[i], k);
        let t = text::trim_start(lines[i]);
        let j = choose|j: int| 0 <= j < t.len() && !text::white(#[trigger] t[j]);
        lemma_trim_end_keeps(t, j);
        assert(text::trim(lines[i]).len() > 0);
    } else {
        assert forall|i: int| 0 <= i < lines.len() implies text::trim(
            #[trigger] lines[i],
        ).len() == 0 by {
            assert forall|k: int| 0 <= k < lines[i].len() implies text::white(
                #[trigger] lines[i][k],
            ) by {}
            lemma_all_white(lines[i]);
        }
    }
}

// ---- places and candidates ------------------------------------------------------------------

/// A candidate of a hunk is one of its lines, and those before it are the
/// candidates of the lines before it.
proof fn lemma_candidate_line(lines: Seq<DiffLineView>, new_side: bool, h: int, j: int)
    requires
        lines.len() <= usize::MAX,
        0 <= j < comments::hunk_candidates(lines, new_side, h).len(),
    ensures
        ({
            let cand = comments::hunk_candidates(lines, new_side, h)[j];
            let x = cand.line as int;
            &&& 0 <= x < lines.len()
            &&& cand.hunk == h as usize
            &&& number_on(lines[x], new_side) == Some(cand.n)
            &&& comments::hunk_candidates(lines.take(x), new_side, h).len() == j
            &&& comments::hunk_candidates(lines.take(x + 1), new_side, h).len() == j + 1
        }),
    decreases lines.len(),
{
    let front = lines.drop_last();
    let own = comments::hunk_candidates(lines, new_side, h);
    let less = comments::hunk_candidates(front, new_side, h);
    assert(lines.take(lines.len() as int) =~= lines);
    assert(lines.take(lines.len() - 1) =~= front);
    if j < less.len() {
        lemma_candidate_line(front, new_side, h, j);
        assert(own[j] == less[j]);
        let x = less[j].line as int;
        assert(front.take(x) =~= lines.take(x));
        assert(front.take(x + 1) =~= lines.take(x + 1));
    }
}

/// Each candidate of a file is one of its hunks'.
proof fn lemma_candidate_home(hunks: Seq<HunkView>, new_side: bool, k: int) -> (at: (int, int))
    requires
        0 <= k < comments::candidates(hunks, new_side).len(),
    ensures
        ({
            let (h, j) = at;
            let own = comments::hunk_candidates(hunks[h].lines, new_side, h);
            &&& 0 <= h < hunks.len()
            &&& 0 <= j < own.len()
            &&& k == comments::candidates(hunks.take(h), new_side).len() + j
            &&& comments::candidates(hunks, new_side)[k] == own[j]
        }),
    decreases hunks.len(),
{
    let front = hunks.drop_last();
    let before = comments::candidates(front, new_side);
    let last = hunks.len() - 1;
    assert(hunks.take(last as int) =~= front);
    if k < before.len() {
        let (h, j) = lemma_candidate_home(front, new_side, k);
        assert(front.take(h) =~= hunks.take(h));
        assert(front[h] == hunks[h]);
        (h, j)
    } else {
        (last as int, k - before.len())
    }
}

/// A run of candidates of one hunk is the code of the lines from its first to
/// its last one.
proof fn lemma_run_of_candidates(
    lines: Seq<DiffLineView>,
    new_side: bool,
    h: int,
    j: int,
    n: int,
) -> (at: (int, int))
    requires
        lines.len() <= usize::MAX,
        numbering::numbered(lines),
        n > 0,
        0 <= j,
        j + n <= comments::hunk_candidates(lines, new_side, h).len(),
    ensures
        ({
            let (a, b) = at;
            let own = comments::hunk_candidates(lines, new_side, h);
            let code = code_in(lines.subrange(a, b), new_side);
            &&& 0 <= a < b <= lines.len()
            &&& own[j + n - 1].line == b - 1
            &&& number_on(lines[b - 1], new_side) == Some(own[j + n - 1].n)
            &&& code.len() == n
            &&& forall|i: int| 0 <= i < n ==> #[trigger] code[i] == own[j + i].content
        }),
{
    let own = comments::hunk_candidates(lines, new_side, h);
    lemma_candidate_line(lines, new_side, h, j);
    lemma_candidate_line(lines, new_side, h, j + n - 1);
    let a = own[j].line as int;
    let b = own[j + n - 1].line as int + 1;
    let count = lines.len() as int;
    assert(lines.take(count) =~= lines);
    if b - 1 < a {
        lemma_take_grows(lines, new_side, h, b, a);
    }
    let part = lines.subrange(a, b);
    selection_laws::lemma_window(lines, a, b, new_side, h);
    selection_laws::lemma_window(lines, b, count, new_side, h);
    assert forall|i: int| 0 <= i < part.len() implies numbering::line_numbered(
        #[trigger] part[i],
    ) by {
        assert(part[i] == lines[a + i]);
    }
    lemma_code_in(part, new_side);
    let code = code_in(part, new_side);
    let upto = comments::hunk_candidates(lines.take(b), new_side, h);
    assert forall|i: int| 0 <= i < n implies #[trigger] code[i] == own[j + i].content by {
        assert(upto[j + i].content == code[j + i - j]);
        assert(upto[j + i] == own[j + i]);
    }
    (a, b)
}

/// Where a window of candidates fits, the code stands.
proof fn lemma_window_stands(c: CommentView, file: FileDiffView, k: int) -> (p: Place)
    requires
        well_numbered(file),
        comments::fits(
            comments::candidates(file.hunks, c.new_side),
            comments::target(c.snippet, c.new_side),
            k,
        ),
    ensures
        stands(c, file, p),
        ({
            let end = comments::window_end(
                comments::candidates(file.hunks, c.new_side),
                comments::target(c.snippet, c.new_side),
                k,
            );
            end.n == last_number(c, file, p) && end.hunk == p.hunk && end.line == p.end - 1
        }),
{
    let cs = comments::candidates(file.hunks, c.new_side);
    let t = comments::target(c.snippet, c.new_side);
    let n = t.len() as int;
    let (h, j) = lemma_candidate_home(file.hunks, c.new_side, k);
    let (h2, j2) = lemma_candidate_home(file.hunks, c.new_side, k + n - 1);
    comments::lemma_anchor_is_contiguous(cs, t, k, k, k + n - 1);
    assert(file.hunks[h].lines.len() <= usize::MAX);
    assert(file.hunks[h2].lines.len() <= usize::MAX);
    lemma_candidate_line(file.hunks[h].lines, c.new_side, h, j);
    lemma_candidate_line(file.hunks[h2].lines, c.new_side, h2, j2);
    assert(h == h2);
    assert(j2 == j + n - 1);
    let lines = file.hunks[h].lines;
    assert(numbering::numbered(lines));
    let (a, b) = lemma_run_of_candidates(lines, c.new_side, h, j, n);
    let count = file.hunks.len() as int;
    assert(file.hunks.take(count) =~= file.hunks);
    lemma_offset(file.hunks, c.new_side, h, count);
    let own = comments::hunk_candidates(lines, c.new_side, h);
    let code = code_in(lines.subrange(a, b), c.new_side);
    let off = comments::candidates(file.hunks.take(h), c.new_side).len() as int;
    assert forall|i: int| 0 <= i < n implies code[i] == t[i] by {
        assert(code[i] == own[j + i].content);
        assert(cs[off + (j + i)] == own[j + i]);
        assert(cs[k + i].content == t[k + i - k]);
    }
    assert(code =~= t);
    lemma_code_of(c.snippet, c);
    Place { hunk: h, start: a, end: b }
}

proof fn lemma_take_grows(lines: Seq<DiffLineView>, new_side: bool, h: int, x: int, y: int)
    requires
        0 <= x <= y <= lines.len(),
    ensures
        comments::hunk_candidates(lines.take(x), new_side, h).len() <= comments::hunk_candidates(
            lines.take(y),
            new_side,
            h,
        ).len(),
    decreases y - x,
{
    if x < y {
        lemma_take_grows(lines, new_side, h, x, y - 1);
        assert(lines.take(y).drop_last() =~= lines.take(y - 1));
    }
}

/// The candidates of hunk `h` start after those of the hunks before it.
proof fn lemma_offset(hunks: Seq<HunkView>, new_side: bool, h: int, n: int)
    requires
        0 <= h < n <= hunks.len(),
    ensures
        ({
            let part = comments::hunk_candidates(hunks[h].lines, new_side, h);
            let all = comments::candidates(hunks.take(n), new_side);
            let off = comments::candidates(hunks.take(h), new_side).len() as int;
            &&& off + part.len() <= all.len()
            &&& forall|i: int| 0 <= i < part.len() ==> all[off + i] == #[trigger] part[i]
        }),
    decreases n - h,
{
    let upto = hunks.take(n);
    assert(upto.drop_last() =~= hunks.take(n - 1));
    assert(upto.last() == hunks[n - 1]);
    let before = comments::candidates(hunks.take(n - 1), new_side);
    let part = comments::hunk_candidates(hunks[h].lines, new_side, h);
    let all = comments::candidates(upto, new_side);
    let off = comments::candidates(hunks.take(h), new_side).len() as int;
    if n - 1 > h {
        lemma_offset(hunks, new_side, h, n - 1);
        assert forall|i: int| 0 <= i < part.len() implies all[off + i] == #[trigger] part[i] by {
            assert(all[off + i] == before[off + i]);
        }
    }
}

/// Where the code stands, a window of candidates fits.
proof fn lemma_standing_fits(c: CommentView, file: FileDiffView, p: Place) -> (k: int)
    requires
        well_numbered(file),
        stands(c, file, p),
    ensures
        ({
            let cs = comments::candidates(file.hunks, c.new_side);
            let t = comments::target(c.snippet, c.new_side);
            &&& comments::fits(cs, t, k)
            &&& comments::window_end(cs, t, k).n == last_number(c, file, p)
        }),
{
    let lines = file.hunks[p.hunk].lines;
    let part = lines.subrange(p.start, p.end);
    assert(numbering::numbered(lines));
    assert forall|i: int| 0 <= i < part.len() implies numbering::line_numbered(
        #[trigger] part[i],
    ) by {
        assert(part[i] == lines[p.start + i]);
    }
    lemma_code_in(part, c.new_side);
    lemma_code_of(c.snippet, c);
    let nums = numbering::side_numbers(part, c.new_side);
    assert(part.last() == lines[p.end - 1]);
    assert(nums.len() > 0 && nums.last() == last_number(c, file, p));
    selection_laws::lemma_part_fits(file, p.hunk, p.start, p.end, c.new_side)
}

// ---- the laws -------------------------------------------------------------------------------

/// The file that a comment is on: the first one of its path.
pub open spec fn home_of(files: Seq<FileDiffView>, c: CommentView, f: int) -> bool {
    &&& 0 <= f < files.len()
    &&& files[f].path == c.path
    &&& forall|j: int| 0 <= j < f ==> (#[trigger] files[j]).path != c.path
}

proof fn lemma_home(files: Seq<FileDiffView>, c: CommentView, f: int)
    requires
        home_of(files, c, f),
    ensures
        diff::path_index(files, c.path) == f,
{
    diff::lemma_path_index(files, c.path);
    let k = diff::path_index(files, c.path);
    if k < f {
        assert(files[k].path != c.path);
    }
}

/// A comment follows its code. If the code stands somewhere in the file's diff,
/// and is not all white space or still ends at the comment's own last line, then
/// the comment is not outdated and sits at such a place, the nearest one there
/// is; its range moves along as a whole.
pub proof fn lemma_comment_follows_its_code(
    files: Seq<FileDiffView>,
    c: CommentView,
    f: int,
    p: Place,
) -> (q: Place)
    requires
        home_of(files, c, f),
        well_numbered(files[f]),
        stands(c, files[f], p),
        says_something(code_of(c)) || last_number(c, files[f], p) == c.lines.1,
        c.lines.0 <= c.lines.1,
    ensures
        stands(c, files[f], q),
        forall|o: Place| #[trigger]
            stands(c, files[f], o) ==> apart(last_number(c, files[f], q), c.lines.1) <= apart(
                last_number(c, files[f], o),
                c.lines.1,
            ),
        !comments::settled(files, c).outdated,
        comments::settled(files, c).lines.1 == last_number(c, files[f], q),
        comments::anchor_of(c, files[f]) == (Anchor::Line {
            hunk: q.hunk as usize,
            line: (q.end - 1) as usize,
        }),
        ({
            let r = comments::settled(files, c).lines;
            let by = r.1 - c.lines.1;
            r.0 == (if by == 0 || c.lines.0 + by >= 1 {
                c.lines.0 + by
            } else {
                1
            })
        }),
{
    let file = files[f];
    lemma_home(files, c, f);
    let cs = comments::candidates(file.hunks, c.new_side);
    let t = comments::target(c.snippet, c.new_side);
    lemma_code_of(c.snippet, c);
    lemma_movable(t);
    let n = cs.len() as int;
    comments::lemma_nearest(cs, t, c.lines.1, n);
    let k0 = lemma_standing_fits(c, file, p);
    let best = comments::nearest(cs, t, c.lines.1, n);
    assert(best is Some);
    let k = best->0;
    let q = lemma_window_stands(c, file, k);
    assert forall|o: Place| #[trigger] stands(c, file, o) implies apart(
        last_number(c, file, q),
        c.lines.1,
    ) <= apart(last_number(c, file, o), c.lines.1) by {
        let ko = lemma_standing_fits(c, file, o);
        assert(comments::fits(cs, t, ko));
    }
    q
}

/// A comment is flagged as outdated, and left where it was, exactly if its code
/// stands nowhere in the file's diff, or is all white space and does not end at
/// the comment's own last line.
pub proof fn lemma_outdated_exactly_without_code(files: Seq<FileDiffView>, c: CommentView, f: int)
    requires
        home_of(files, c, f),
        well_numbered(files[f]),
    ensures
        comments::settled(files, c).outdated <==> forall|o: Place| #[trigger]
            stands(c, files[f], o) ==> !says_something(code_of(c)) && last_number(c, files[f], o)
                != c.lines.1,
        comments::settled(files, c).outdated <==> comments::anchor_of(c, files[f])
            == Anchor::Outdated,
        comments::settled(files, c).outdated ==> comments::settled(files, c).lines == c.lines,
{
    let file = files[f];
    lemma_home(files, c, f);
    let cs = comments::candidates(file.hunks, c.new_side);
    let t = comments::target(c.snippet, c.new_side);
    lemma_code_of(c.snippet, c);
    lemma_movable(t);
    let n = cs.len() as int;
    comments::lemma_nearest(cs, t, c.lines.1, n);
    if comments::settled(files, c).outdated {
        assert forall|o: Place| #[trigger] stands(c, file, o) implies !says_something(code_of(c))
            && last_number(c, file, o) != c.lines.1 by {
            let k = lemma_standing_fits(c, file, o);
            assert(comments::fits(cs, t, k));
        }
    } else {
        let k = comments::nearest(cs, t, c.lines.1, n)->0;
        let q = lemma_window_stands(c, file, k);
        assert(stands(c, file, q));
    }
}

/// A comment on a file that the diff does not hold is left as it is.
pub proof fn lemma_other_files_leave_a_comment_alone(files: Seq<FileDiffView>, c: CommentView)
    requires
        forall|j: int| 0 <= j < files.len() ==> (#[trigger] files[j]).path != c.path,
    ensures
        comments::settled(files, c) == c,
{
    diff::lemma_path_index(files, c.path);
    let k = diff::path_index(files, c.path);
    if k < files.len() {
        assert(files[k].path != c.path);
    }
}

/// Every comment on a file of the diff is placed once, in order, in its file;
/// the others are not placed.
pub proof fn lemma_every_comment_is_placed(
    files: Seq<FileDiffView>,
    comments: Seq<CommentView>,
    i: int,
)
    requires
        0 <= i < comments.len() <= usize::MAX,
        files.len() <= usize::MAX,
    ensures
        ({
            let placed = comments::placements(files, comments);
            &&& forall|f: int|
                home_of(files, comments[i], f) ==> placed.contains(
                    Placed {
                        comment: i as usize,
                        file: f as usize,
                        anchor: comments::anchor_of(comments[i], #[trigger] files[f]),
                    },
                )
            &&& forall|p: int|
                0 <= p < placed.len() ==> (#[trigger] placed[p]).comment < comments.len()
                    && home_of(files, comments[placed[p].comment as int], placed[p].file as int)
            &&& forall|p: int, q: int|
                0 <= p < q < placed.len() ==> (#[trigger] placed[p]).comment
                    < (#[trigger] placed[q]).comment
        }),
    decreases comments.len(),
{
    let placed = comments::placements(files, comments);
    let front = comments.drop_last();
    let before = comments::placements(files, front);
    let c = comments.last();
    let k = diff::path_index(files, c.path);
    diff::lemma_path_index(files, c.path);
    if front.len() > 0 {
        lemma_every_comment_is_placed(files, front, if i < front.len() {
            i
        } else {
            0
        });
    }
    assert forall|p: int| 0 <= p < placed.len() implies (#[trigger] placed[p]).comment
        < comments.len() && home_of(
        files,
        comments[placed[p].comment as int],
        placed[p].file as int,
    ) by {
        if p < before.len() {
            assert(placed[p] == before[p]);
            assert(front[before[p].comment as int] == comments[before[p].comment as int]);
        }
    }
    assert forall|f: int| home_of(files, comments[i], f) implies placed.contains(
        Placed {
            comment: i as usize,
            file: f as usize,
            anchor: comments::anchor_of(comments[i], #[trigger] files[f]),
        },
    ) by {
        let want = Placed {
            comment: i as usize,
            file: f as usize,
            anchor: comments::anchor_of(comments[i], files[f]),
        };
        if i < front.len() {
            assert(front[i] == comments[i]);
            assert(before.contains(want));
            let x = before.index_of(want);
            assert(placed[x] == want);
        } else {
            lemma_home(files, c, f);
            assert(placed.last() == want);
        }
    }
    assert forall|p: int, q: int| 0 <= p < q < placed.len() implies (#[trigger] placed[p]).comment
        < (#[trigger] placed[q]).comment by {
        assert(placed[p] == before[p]);
        if q < before.len() {
            assert(placed[q] == before[q]);
        }
    }
}

} // verus!
