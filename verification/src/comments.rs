//! Review comments: what they hold, and how they are re-anchored to a diff.

use crate::deep;
use crate::git::diff;
use crate::git::diff::{DiffLine, DiffLineView, DiffResult, FileDiff, FileDiffView, Hunk, HunkView};
use crate::text;
use vstd::prelude::*;

verus! {

broadcast use crate::deep::group_deep;

/// A review note: it owns a snippet of the code it was made on, so it can be
/// re-anchored — or shown as "outdated" — but never lost.
#[derive(Debug)]
pub struct Comment {
    pub id: u64,
    pub path: String,
    /// Line numbers refer to the new side (or old side for pure deletions).
    pub new_side: bool,
    /// Inclusive 1-based line range.
    pub lines: (u32, u32),
    /// The lines as displayed when commenting, +/- signs included.
    pub snippet: Vec<String>,
    pub body: String,
    /// Unix seconds.
    pub created_at: u64,
    /// Scope label at creation time; metadata for export only.
    pub scope: String,
    /// Set when the last re-anchor failed; the snippet preserves context.
    pub outdated: bool,
}

/// What a comment holds.
#[verifier::ext_equal]
pub struct CommentView {
    pub id: u64,
    pub path: Seq<char>,
    pub new_side: bool,
    pub lines: (u32, u32),
    pub snippet: Seq<Seq<char>>,
    pub body: Seq<char>,
    pub created_at: u64,
    pub scope: Seq<char>,
    pub outdated: bool,
}

impl View for Comment {
    type V = CommentView;

    open spec fn view(&self) -> CommentView {
        CommentView {
            id: self.id,
            path: self.path@,
            new_side: self.new_side,
            lines: self.lines,
            snippet: deep::deep(self.snippet@),
            body: self.body@,
            created_at: self.created_at,
            scope: self.scope@,
            outdated: self.outdated,
        }
    }
}

impl Comment {
    /// A copy of the comment.
    pub fn copy(&self) -> (r: Comment)
        ensures
            r@ == self@,
    {
        Comment {
            id: self.id,
            path: text::copy(self.path.as_str()),
            new_side: self.new_side,
            lines: self.lines,
            snippet: text::copy_all(self.snippet.as_slice()),
            body: text::copy(self.body.as_str()),
            created_at: self.created_at,
            scope: text::copy(self.scope.as_str()),
            outdated: self.outdated,
        }
    }
}

impl Clone for Comment {
    fn clone(&self) -> (r: Self)
        ensures
            r@ == self@,
    {
        self.copy()
    }
}

/// A copy of a list of comments.
pub fn copy_comments(comments: &[Comment]) -> (r: Vec<Comment>)
    ensures
        deep::deep(r@) == deep::deep(comments@),
{
    let mut out: Vec<Comment> = Vec::new();
    let mut i: usize = 0;
    while i < comments.len()
        invariant
            i <= comments@.len(),
            deep::deep(out@) == deep::deep(comments@).take(i as int),
        decreases comments@.len() - i,
    {
        out.push(comments[i].copy());
        i += 1;
        assert(deep::deep(comments@).take(i as int) =~= deep::deep(comments@).take(i - 1).push(
            comments@[i - 1]@,
        ));
    }
    assert(deep::deep(out@) =~= deep::deep(comments@));
    out
}

/// What a comment anchors to in the currently displayed diff.
#[derive(Debug, Clone, Copy, PartialEq, Eq, Structural)]
pub enum Anchor {
    /// After this (hunk, line) of the file.
    Line { hunk: usize, line: usize },
    /// Re-anchoring failed: shown at the top of the file's section with the
    /// preserved snippet as context.
    Outdated,
}

#[derive(Debug, Clone, Copy, PartialEq, Eq, Structural)]
pub struct Placed {
    pub comment: usize,
    pub file: usize,
    pub anchor: Anchor,
}

// ---- what a comment looks for -------------------------------------------------------

/// Is the character one of the signs that a snippet line is stored with?
pub open spec fn is_sign(c: char) -> bool {
    c == '+' || c == '-' || c == ' '
}

/// A snippet line without its sign.
pub open spec fn unsigned(line: Seq<char>) -> Seq<char> {
    if line.len() > 0 && is_sign(line[0]) {
        line.skip(1)
    } else {
        line
    }
}

/// Strip the +/-/space sign a snippet line was stored with.
pub fn snippet_text(line: &str) -> (r: String)
    ensures
        r@ == unsigned(line@),
{
    let cs: Vec<char> = text::to_chars(line);
    if cs.len() > 0 && (cs[0] == '+' || cs[0] == '-' || cs[0] == ' ') {
        let r: String = text::text_range(cs.as_slice(), 1, cs.len());
        assert(r@ =~= unsigned(line@));
        r
    } else {
        text::copy(line)
    }
}

/// Does a snippet line exist on the given side?
pub open spec fn on_side(line: Seq<char>, new_side: bool) -> bool {
    if line.len() == 0 {
        true
    } else if line[0] == '+' {
        new_side
    } else if line[0] == '-' {
        !new_side
    } else {
        true
    }
}

/// The part of a snippet that exists on one side, without signs.
pub open spec fn target(snippet: Seq<Seq<char>>, new_side: bool) -> Seq<Seq<char>>
    decreases snippet.len(),
{
    if snippet.len() == 0 {
        Seq::empty()
    } else if on_side(snippet.last(), new_side) {
        target(snippet.drop_last(), new_side).push(unsigned(snippet.last()))
    } else {
        target(snippet.drop_last(), new_side)
    }
}

fn line_on_side(line: &str, new_side: bool) -> (r: bool)
    ensures
        r == on_side(line@, new_side),
{
    let cs: Vec<char> = text::to_chars(line);
    if cs.len() == 0 {
        true
    } else if cs[0] == '+' {
        new_side
    } else if cs[0] == '-' {
        !new_side
    } else {
        true
    }
}

fn target_lines(snippet: &[String], new_side: bool) -> (r: Vec<String>)
    ensures
        deep::deep(r@) == target(deep::deep(snippet@), new_side),
{
    let ghost all = deep::deep(snippet@);
    let mut out: Vec<String> = Vec::new();
    let mut i: usize = 0;
    while i < snippet.len()
        invariant
            i <= snippet@.len(),
            all == deep::deep(snippet@),
            deep::deep(out@) == target(all.take(i as int), new_side),
        decreases snippet@.len() - i,
    {
        assert(all.take(i + 1).drop_last() =~= all.take(i as int));
        assert(all.take(i + 1).last() == snippet@[i as int]@);
        if line_on_side(snippet[i].as_str(), new_side) {
            out.push(snippet_text(snippet[i].as_str()));
        }
        i += 1;
    }
    assert(all.take(i as int) =~= all);
    out
}

/// Has the snippet a line that is not blank? All-blank snippets would move
/// too promiscuously.
pub open spec fn movable(target: Seq<Seq<char>>) -> bool {
    exists|i: int| 0 <= i < target.len() && text::trim(#[trigger] target[i]).len() > 0
}

fn can_move(lines: &[String]) -> (r: bool)
    ensures
        r == movable(deep::deep(lines@)),
{
    let ghost all = deep::deep(lines@);
    let mut i: usize = 0;
    while i < lines.len()
        invariant
            i <= lines@.len(),
            all == deep::deep(lines@),
            forall|j: int| 0 <= j < i ==> text::trim(#[trigger] all[j]).len() == 0,
        decreases lines@.len() - i,
    {
        let cs: Vec<char> = text::to_chars(lines[i].as_str());
        assert(all[i as int] == cs@);
        if text::trim_chars(cs.as_slice()).len() > 0 {
            return true;
        }
        i += 1;
    }
    false
}

// ---- where it can be found ----------------------------------------------------------

/// A line of the diff on the side a comment looks at.
#[verifier::ext_equal]
pub struct Candidate {
    pub n: u32,
    pub hunk: usize,
    pub line: usize,
    pub content: Seq<char>,
}

/// The number of a line on one side.
pub open spec fn side_number(line: DiffLineView, new_side: bool) -> Option<u32> {
    if new_side {
        line.new_lineno
    } else {
        line.old_lineno
    }
}

/// The lines of hunk `h` that exist on one side, in order.
pub open spec fn hunk_candidates(
    lines: Seq<DiffLineView>,
    new_side: bool,
    h: int,
) -> Seq<Candidate>
    decreases lines.len(),
{
    if lines.len() == 0 {
        Seq::empty()
    } else {
        let before = hunk_candidates(lines.drop_last(), new_side, h);
        match side_number(lines.last(), new_side) {
            Some(n) => before.push(
                Candidate {
                    n,
                    hunk: h as usize,
                    line: (lines.len() - 1) as usize,
                    content: lines.last().content,
                },
            ),
            None => before,
        }
    }
}

/// Every line of the hunks that exists on one side, in order.
pub open spec fn candidates(hunks: Seq<HunkView>, new_side: bool) -> Seq<Candidate>
    decreases hunks.len(),
{
    if hunks.len() == 0 {
        Seq::empty()
    } else {
        candidates(hunks.drop_last(), new_side) + hunk_candidates(
            hunks.last().lines,
            new_side,
            hunks.len() - 1,
        )
    }
}

/// The candidates from `k` on are the target: the same content, in one hunk,
/// with consecutive line numbers.
pub open spec fn fits(c: Seq<Candidate>, target: Seq<Seq<char>>, k: int) -> bool {
    &&& target.len() > 0
    &&& 0 <= k
    &&& k + target.len() <= c.len()
    &&& forall|i: int| k <= i < k + target.len() ==> (#[trigger] c[i]).content == target[i - k]
    &&& forall|i: int|
        k <= i < k + target.len() - 1 ==> (#[trigger] c[i]).hunk == c[i + 1].hunk && c[i].n + 1
            == c[i + 1].n
}

/// The candidate that the window at `k` ends on.
pub open spec fn window_end(c: Seq<Candidate>, target: Seq<Seq<char>>, k: int) -> Candidate {
    c[k + target.len() - 1]
}

/// Distance between two line numbers.
pub open spec fn distance(a: u32, b: u32) -> int {
    if a >= b {
        a - b
    } else {
        b - a
    }
}

/// Of the windows before `k` that fit, the one ending nearest to line `want`;
/// the first of several.
pub open spec fn nearest(
    c: Seq<Candidate>,
    target: Seq<Seq<char>>,
    want: u32,
    k: int,
) -> Option<int>
    decreases k,
{
    if k <= 0 {
        None
    } else {
        let best = nearest(c, target, want, k - 1);
        if !fits(c, target, k - 1) {
            best
        } else {
            match best {
                None => Some(k - 1),
                Some(b) => if distance(window_end(c, target, k - 1).n, want) < distance(
                    window_end(c, target, b).n,
                    want,
                ) {
                    Some(k - 1)
                } else {
                    Some(b)
                },
            }
        }
    }
}

/// Where a comment is found: at its own line, or else, if it may move, at the
/// nearest place with the same content.
pub open spec fn found(c: Seq<Candidate>, target: Seq<Seq<char>>, want: u32) -> Option<Candidate> {
    match nearest(c, target, want, c.len() as int) {
        None => None,
        Some(k) => if window_end(c, target, k).n == want || movable(target) {
            Some(window_end(c, target, k))
        } else {
            None
        },
    }
}

/// What `nearest` means: a fitting window with none nearer, and none as near before it.
pub proof fn lemma_nearest(c: Seq<Candidate>, target: Seq<Seq<char>>, want: u32, k: int)
    requires
        0 <= k,
    ensures
        match nearest(c, target, want, k) {
            None => forall|j: int| 0 <= j < k ==> !#[trigger] fits(c, target, j),
            Some(b) => {
                &&& 0 <= b < k
                &&& fits(c, target, b)
                &&& forall|j: int|
                    0 <= j < k && #[trigger] fits(c, target, j) ==> distance(
                        window_end(c, target, b).n,
                        want,
                    ) <= distance(window_end(c, target, j).n, want)
                &&& forall|j: int|
                    0 <= j < b && #[trigger] fits(c, target, j) ==> distance(
                        window_end(c, target, b).n,
                        want,
                    ) < distance(window_end(c, target, j).n, want)
            },
        },
    decreases k,
{
    if k > 0 {
        lemma_nearest(c, target, want, k - 1);
    }
}

struct Spot<'a> {
    n: u32,
    hunk: usize,
    line: usize,
    content: &'a String,
}

impl<'a> View for Spot<'a> {
    type V = Candidate;

    closed spec fn view(&self) -> Candidate {
        Candidate { n: self.n, hunk: self.hunk, line: self.line, content: self.content@ }
    }
}

fn collect_spots<'a>(hunks: &'a [Hunk], new_side: bool) -> (r: Vec<Spot<'a>>)
    ensures
        deep::deep(r@) == candidates(deep::deep(hunks@), new_side),
{
    let ghost all = deep::deep(hunks@);
    let mut out: Vec<Spot<'a>> = Vec::new();
    let mut h: usize = 0;
    while h < hunks.len()
        invariant
            h <= hunks@.len(),
            all == deep::deep(hunks@),
            deep::deep(out@) == candidates(all.take(h as int), new_side),
        decreases hunks@.len() - h,
    {
        let lines: &'a Vec<DiffLine> = &hunks[h].lines;
        let ghost shown = deep::deep(lines@);
        let ghost before = deep::deep(out@);
        assert(before + hunk_candidates(shown.take(0), new_side, h as int) =~= before);
        let mut k: usize = 0;
        while k < lines.len()
            invariant
                k <= lines@.len(),
                shown == deep::deep(lines@),
                deep::deep(out@) == before + hunk_candidates(
                    shown.take(k as int),
                    new_side,
                    h as int,
                ),
            decreases lines@.len() - k,
        {
            let line: &'a DiffLine = &lines[k];
            assert(shown.take(k + 1).drop_last() =~= shown.take(k as int));
            assert(shown.take(k + 1).last() == line@);
            let number: Option<u32> = if new_side {
                line.new_lineno
            } else {
                line.old_lineno
            };
            if let Some(n) = number {
                out.push(Spot { n, hunk: h, line: k, content: &line.content });
                assert(deep::deep(out@) =~= before + hunk_candidates(
                    shown.take(k + 1),
                    new_side,
                    h as int,
                ));
            }
            k += 1;
        }
        assert(shown.take(k as int) =~= shown);
        assert(all.take(h + 1).drop_last() =~= all.take(h as int));
        assert(all.take(h + 1).last() == hunks@[h as int]@);
        h += 1;
    }
    assert(all.take(h as int) =~= all);
    out
}

fn window_fits(spots: &[Spot], lines: &[String], k: usize) -> (r: bool)
    requires
        lines@.len() > 0,
        k + lines@.len() <= spots@.len(),
    ensures
        r == fits(deep::deep(spots@), deep::deep(lines@), k as int),
{
    let ghost c = deep::deep(spots@);
    let ghost t = deep::deep(lines@);
    let total: usize = spots.len();
    let m: usize = lines.len();
    let mut i: usize = 0;
    while i < m
        invariant
            m == lines@.len(),
            total == spots@.len(),
            k + m <= total,
            i <= m,
            c == deep::deep(spots@),
            t == deep::deep(lines@),
            forall|j: int| k <= j < k + i ==> (#[trigger] c[j]).content == t[j - k],
            forall|j: int|
                k <= j < k + i && j < k + m - 1 ==> (#[trigger] c[j]).hunk == c[j + 1].hunk
                    && c[j].n + 1 == c[j + 1].n,
        decreases m - i,
    {
        let spot: &Spot = &spots[k + i];
        assert(c[k + i] == spot@);
        assert(t[i as int] == lines@[i as int]@);
        if !text::same(spot.content.as_str(), lines[i].as_str()) {
            return false;
        }
        if i < m - 1 {
            let next: &Spot = &spots[k + i + 1];
            assert(c[k + i + 1] == next@);
            if spot.hunk != next.hunk || spot.n.checked_add(1) != Some(next.n) {
                return false;
            }
        }
        i += 1;
    }
    true
}

fn abs_diff(a: u32, b: u32) -> (r: u32)
    ensures
        r == distance(a, b),
{
    if a >= b {
        a - b
    } else {
        b - a
    }
}

fn find_spot(spots: &[Spot], lines: &[String], want: u32) -> (r: Option<(u32, usize, usize)>)
    ensures
        match (r, found(deep::deep(spots@), deep::deep(lines@), want)) {
            (Some((n, hunk, line)), Some(c)) => n == c.n && hunk == c.hunk && line == c.line,
            (None, None) => true,
            _ => false,
        },
{
    let ghost c = deep::deep(spots@);
    let ghost t = deep::deep(lines@);
    let total: usize = spots.len();
    let m: usize = lines.len();
    let mut best: Option<usize> = None;
    let mut k: usize = 0;
    while k < total
        invariant
            m == lines@.len(),
            total == spots@.len(),
            k <= total,
            c == deep::deep(spots@),
            t == deep::deep(lines@),
            match best {
                Some(b) => nearest(c, t, want, k as int) == Some(b as int) && b < k && m > 0 && b
                    + m <= total,
                None => nearest(c, t, want, k as int) is None,
            },
        decreases total - k,
    {
        if m > 0 && m <= total - k && window_fits(spots, lines, k) {
            assert(c[k + m - 1] == spots@[k + m - 1]@);
            let n: u32 = spots[k + (m - 1)].n;
            match best {
                None => {
                    best = Some(k);
                },
                Some(b) => {
                    assert(c[b + m - 1] == spots@[b + m - 1]@);
                    if abs_diff(n, want) < abs_diff(spots[b + (m - 1)].n, want) {
                        best = Some(k);
                    }
                },
            }
        }
        k += 1;
    }
    match best {
        None => None,
        Some(b) => {
            assert(c[b + m - 1] == spots@[b + m - 1]@);
            let spot: &Spot = &spots[b + (m - 1)];
            if spot.n == want || can_move(lines) {
                Some((spot.n, spot.hunk, spot.line))
            } else {
                None
            }
        },
    }
}

// ---- re-anchoring -------------------------------------------------------------------

/// The place a comment is found at in a file's diff.
pub open spec fn spot_of(c: CommentView, file: FileDiffView) -> Option<Candidate> {
    found(candidates(file.hunks, c.new_side), target(c.snippet, c.new_side), c.lines.1)
}

/// The first line of a range shifted by `delta`, at least one.
pub open spec fn shifted(first: u32, delta: int) -> u32 {
    let n = first + delta;
    (if n < 1 {
        1
    } else {
        n % 0x1_0000_0000
    }) as u32
}

/// A comment after re-anchoring against the diff of its file: moved along with
/// its content, or flagged as outdated.
pub open spec fn reanchored(c: CommentView, file: FileDiffView) -> CommentView {
    match spot_of(c, file) {
        Some(s) => CommentView {
            lines: if s.n == c.lines.1 {
                c.lines
            } else {
                (shifted(c.lines.0, s.n - c.lines.1), s.n)
            },
            outdated: false,
            ..c
        },
        None => CommentView { outdated: true, ..c },
    }
}

/// What a comment anchors to in the diff of its file.
pub open spec fn anchor_of(c: CommentView, file: FileDiffView) -> Anchor {
    match spot_of(c, file) {
        Some(s) => Anchor::Line { hunk: s.hunk, line: s.line },
        None => Anchor::Outdated,
    }
}

/// A comment after re-anchoring against a diff; untouched if the diff does
/// not hold its file.
pub open spec fn settled(files: Seq<FileDiffView>, c: CommentView) -> CommentView {
    let k = diff::path_index(files, c.path);
    if k < files.len() {
        reanchored(c, files[k])
    } else {
        c
    }
}

/// All comments after re-anchoring.
pub open spec fn all_settled(
    files: Seq<FileDiffView>,
    comments: Seq<CommentView>,
) -> Seq<CommentView> {
    comments.map_values(|c: CommentView| settled(files, c))
}

/// Where the comments are placed: those whose file is in the diff, in order.
pub open spec fn placements(files: Seq<FileDiffView>, comments: Seq<CommentView>) -> Seq<Placed>
    decreases comments.len(),
{
    if comments.len() == 0 {
        Seq::empty()
    } else {
        let before = placements(files, comments.drop_last());
        let c = comments.last();
        let k = diff::path_index(files, c.path);
        if k < files.len() {
            before.push(
                Placed {
                    comment: (comments.len() - 1) as usize,
                    file: k as usize,
                    anchor: anchor_of(c, files[k]),
                },
            )
        } else {
            before
        }
    }
}

fn shift(first: u32, delta: i64) -> (r: u32)
    requires
        -0x1_0000_0000 < delta < 0x1_0000_0000,
    ensures
        r == shifted(first, delta as int),
{
    let n: i64 = first as i64 + delta;
    if n < 1 {
        1
    } else {
        (n as u64 % 0x1_0000_0000) as u32
    }
}

fn settle(comment: &mut Comment, file: &FileDiff) -> (r: (Anchor, bool))
    ensures
        final(comment)@ == reanchored(old(comment)@, file@),
        r.0 == anchor_of(old(comment)@, file@),
        r.1 == (final(comment)@ != old(comment)@),
{
    let ghost before = comment@;
    let lines: Vec<String> = target_lines(comment.snippet.as_slice(), comment.new_side);
    let spots: Vec<Spot> = collect_spots(file.hunks.as_slice(), comment.new_side);
    let mut changed: bool = false;
    let anchor: Anchor = match find_spot(spots.as_slice(), lines.as_slice(), comment.lines.1) {
        Some((n, hunk, line)) => {
            if n != comment.lines.1 {
                let delta: i64 = n as i64 - comment.lines.1 as i64;
                comment.lines = (shift(comment.lines.0, delta), n);
                changed = true;
            }
            if comment.outdated {
                comment.outdated = false;
                changed = true;
            }
            Anchor::Line { hunk, line }
        },
        None => {
            if !comment.outdated {
                comment.outdated = true;
                changed = true;
            }
            Anchor::Outdated
        },
    };
    assert(comment@ =~= reanchored(before, file@));
    (anchor, changed)
}

/// Anchor each comment against the diff with a cascade: exact (anchor line
/// still has the snippet content) → moved (same content found elsewhere in
/// the file's diff; stored lines updated) → outdated. Comments whose file
/// isn't in the diff at all are simply not placed (they remain in the store
/// and export). Returns placements and whether any comment was mutated (moved
/// or outdated-flag changed) and needs saving.
pub fn reanchor(diff: &DiffResult, comments: &mut Vec<Comment>) -> (r: (Vec<Placed>, bool))
    ensures
        deep::deep(final(comments)@) == all_settled(diff@.files, deep::deep(old(comments)@)),
        r.0@ == placements(diff@.files, deep::deep(old(comments)@)),
        r.1 == (deep::deep(final(comments)@) != deep::deep(old(comments)@)),
{
    let ghost start = deep::deep(comments@);
    let ghost files = diff@.files;
    let mut placed: Vec<Placed> = Vec::new();
    let mut changed: bool = false;
    let total: usize = comments.len();
    let mut i: usize = 0;
    while i < total
        invariant
            i <= total,
            total == comments@.len(),
            total == start.len(),
            files == diff@.files,
            forall|j: int|
                0 <= j < i ==> (#[trigger] deep::deep(comments@)[j]) == settled(files, start[j]),
            forall|j: int| i <= j < total ==> (#[trigger] deep::deep(comments@)[j]) == start[j],
            placed@ == placements(files, start.take(i as int)),
            changed == exists|j: int| 0 <= j < i && settled(files, #[trigger] start[j]) != start[j],
        decreases total - i,
    {
        let ghost now = deep::deep(comments@);
        assert(now[i as int] == comments@[i as int]@);
        assert(start.take(i + 1).drop_last() =~= start.take(i as int));
        assert(start.take(i + 1).last() == start[i as int]);
        let k: usize = diff::position(diff.files.as_slice(), comments[i].path.as_str());
        if k < diff.files.len() {
            let mut c: Comment = comments[i].copy();
            let (anchor, touched) = settle(&mut c, &diff.files[k]);
            assert(files[k as int] == diff.files@[k as int]@);
            assert(c@ == settled(files, start[i as int]));
            comments.set(i, c);
            assert(deep::deep(comments@) =~= now.update(i as int, c@));
            if touched {
                assert(settled(files, start[i as int]) != start[i as int]);
                changed = true;
            }
            placed.push(Placed { comment: i, file: k, anchor });
        }
        i += 1;
    }
    assert(start.take(i as int) =~= start);
    let ghost end = deep::deep(comments@);
    assert(end =~= all_settled(files, start));
    proof {
        if changed {
            let j = choose|j: int|
                0 <= j < total && settled(files, #[trigger] start[j]) != start[j];
            assert(end[j] != start[j]);
        } else {
            assert forall|j: int| 0 <= j < total implies end[j] == start[j] by {
                assert(settled(files, start[j]) == start[j]);
            }
            assert(end =~= start);
        }
    }
    (placed, changed)
}

/// Re-anchoring only ever touches a comment's position and its outdated flag:
/// no comment is lost and what it says is kept.
pub proof fn lemma_reanchoring_loses_nothing(
    files: Seq<FileDiffView>,
    comments: Seq<CommentView>,
    i: int,
)
    requires
        0 <= i < comments.len(),
    ensures
        all_settled(files, comments).len() == comments.len(),
        ({
            let a = comments[i];
            let b = all_settled(files, comments)[i];
            &&& b.id == a.id
            &&& b.path == a.path
            &&& b.new_side == a.new_side
            &&& b.snippet == a.snippet
            &&& b.body == a.body
            &&& b.created_at == a.created_at
            &&& b.scope == a.scope
        }),
{
}

/// A comment whose snippet still ends at its stored line stays where it is.
pub proof fn lemma_exact_anchor_wins(c: CommentView, file: FileDiffView, k: int)
    requires
        ({
            let cs = candidates(file.hunks, c.new_side);
            let t = target(c.snippet, c.new_side);
            fits(cs, t, k) && window_end(cs, t, k).n == c.lines.1
        }),
    ensures
        reanchored(c, file).lines == c.lines,
        !reanchored(c, file).outdated,
        anchor_of(c, file) is Line,
{
    let cs = candidates(file.hunks, c.new_side);
    let t = target(c.snippet, c.new_side);
    lemma_nearest(cs, t, c.lines.1, cs.len() as int);
}

/// A comment is outdated exactly when no place fits it, or only places fit
/// that an all-blank snippet may not move to.
pub proof fn lemma_outdated_when_nothing_fits(c: CommentView, file: FileDiffView)
    ensures
        ({
            let cs = candidates(file.hunks, c.new_side);
            let t = target(c.snippet, c.new_side);
            reanchored(c, file).outdated <==> forall|k: int|
                0 <= k < cs.len() && #[trigger] fits(cs, t, k) ==> !movable(t) && window_end(
                    cs,
                    t,
                    k,
                ).n != c.lines.1
        }),
{
    let cs = candidates(file.hunks, c.new_side);
    let t = target(c.snippet, c.new_side);
    lemma_nearest(cs, t, c.lines.1, cs.len() as int);
}

/// A multi-line anchor never spans hunks or gaps between line numbers: the
/// lines it is found on lie in one hunk and are numbered consecutively.
pub proof fn lemma_anchor_is_contiguous(
    c: Seq<Candidate>,
    target: Seq<Seq<char>>,
    k: int,
    i: int,
    j: int,
)
    requires
        fits(c, target, k),
        k <= i <= j < k + target.len(),
    ensures
        c[i].hunk == c[j].hunk,
        c[j].n == c[i].n + (j - i),
    decreases j - i,
{
    if i < j {
        lemma_anchor_is_contiguous(c, target, k, i, j - 1);
        assert(c[j - 1].hunk == c[j - 1 + 1].hunk);
    }
}

/// Re-anchoring against the same diff again changes nothing, and the comment
/// is found at the same place.
pub proof fn lemma_reanchoring_is_stable(c: CommentView, file: FileDiffView)
    ensures
        reanchored(reanchored(c, file), file) == reanchored(c, file),
        anchor_of(reanchored(c, file), file) == anchor_of(c, file),
{
    let cs = candidates(file.hunks, c.new_side);
    let t = target(c.snippet, c.new_side);
    let r = reanchored(c, file);
    let n = cs.len() as int;
    lemma_nearest(cs, t, c.lines.1, n);
    lemma_nearest(cs, t, r.lines.1, n);
    match nearest(cs, t, c.lines.1, n) {
        None => {},
        Some(k) => {
            if window_end(cs, t, k).n == c.lines.1 || movable(t) {
                let again = nearest(cs, t, r.lines.1, n);
                assert(r.lines.1 == window_end(cs, t, k).n);
                assert(again is Some);
                let q = again->0;
                assert(distance(window_end(cs, t, q).n, r.lines.1) <= distance(
                    window_end(cs, t, k).n,
                    r.lines.1,
                ));
                assert(window_end(cs, t, q).n == window_end(cs, t, k).n);
                if q < k {
                    assert(fits(cs, t, q));
                } else if k < q {
                    assert(fits(cs, t, k));
                }
                assert(q == k);
            }
        },
    }
}

// ---- placements in the displayed diff -----------------------------------------------

/// Index of the first line with the same origin and numbers; the length if there is none.
pub open spec fn line_index(lines: Seq<DiffLineView>, want: DiffLineView, from: int) -> int
    decreases lines.len() - from,
{
    if from < 0 || from >= lines.len() {
        lines.len() as int
    } else if lines[from].origin == want.origin && lines[from].old_lineno == want.old_lineno
        && lines[from].new_lineno == want.new_lineno {
        from
    } else {
        line_index(lines, want, from + 1)
    }
}

/// The first place at or after hunk `h` that shows the same line.
pub open spec fn locate(hunks: Seq<HunkView>, want: DiffLineView, h: int) -> Anchor
    decreases hunks.len() - h,
{
    if h < 0 || h >= hunks.len() {
        Anchor::Outdated
    } else {
        let k = line_index(hunks[h].lines, want, 0);
        if k < hunks[h].lines.len() {
            Anchor::Line { hunk: h as usize, line: k as usize }
        } else {
            locate(hunks, want, h + 1)
        }
    }
}

/// A placement in the original diff carried over to the displayed one.
pub open spec fn displayed(
    canonical: Seq<FileDiffView>,
    display: Seq<FileDiffView>,
    p: Placed,
) -> Placed {
    let file = canonical[p.file as int];
    let k = diff::path_index(display, file.path);
    Placed {
        file: k as usize,
        anchor: match p.anchor {
            Anchor::Outdated => Anchor::Outdated,
            Anchor::Line { hunk, line } => locate(
                display[k].hunks,
                file.hunks[hunk as int].lines[line as int],
                0,
            ),
        },
        ..p
    }
}

/// The placements that the displayed diff can show: those whose file it holds.
pub open spec fn display_placements(
    canonical: Seq<FileDiffView>,
    display: Seq<FileDiffView>,
    placed: Seq<Placed>,
) -> Seq<Placed>
    decreases placed.len(),
{
    if placed.len() == 0 {
        Seq::empty()
    } else {
        let before = display_placements(canonical, display, placed.drop_last());
        let p = placed.last();
        if diff::path_index(display, canonical[p.file as int].path) < display.len() {
            before.push(displayed(canonical, display, p))
        } else {
            before
        }
    }
}

/// Every placement names a line of the diff.
pub open spec fn placed_in(files: Seq<FileDiffView>, placed: Seq<Placed>) -> bool {
    forall|i: int| 0 <= i < placed.len() ==> in_diff(files, #[trigger] placed[i])
}

/// The placement names a file of the diff, and a line of it if it has an anchor line.
pub open spec fn in_diff(files: Seq<FileDiffView>, p: Placed) -> bool {
    &&& p.file < files.len()
    &&& p.anchor matches Anchor::Line { hunk, line } ==> hunk < files[p.file as int].hunks.len()
        && line < files[p.file as int].hunks[hunk as int].lines.len()
}

fn locate_line(hunks: &[Hunk], want: &DiffLine) -> (r: Anchor)
    ensures
        r == locate(deep::deep(hunks@), want@, 0),
{
    let ghost all = deep::deep(hunks@);
    let mut h: usize = 0;
    while h < hunks.len()
        invariant
            h <= hunks@.len(),
            all == deep::deep(hunks@),
            locate(all, want@, h as int) == locate(all, want@, 0),
        decreases hunks@.len() - h,
    {
        let lines: &Vec<DiffLine> = &hunks[h].lines;
        let ghost shown = deep::deep(lines@);
        assert(all[h as int].lines == shown);
        let mut k: usize = 0;
        while k < lines.len()
            invariant
                k <= lines@.len(),
                h < hunks@.len(),
                all == deep::deep(hunks@),
                shown == deep::deep(lines@),
                all[h as int].lines == shown,
                locate(all, want@, h as int) == locate(all, want@, 0),
                line_index(shown, want@, k as int) == line_index(shown, want@, 0),
            decreases lines@.len() - k,
        {
            let line: &DiffLine = &lines[k];
            assert(shown[k as int] == line@);
            if line.origin == want.origin && line.old_lineno == want.old_lineno && line.new_lineno
                == want.new_lineno {
                return Anchor::Line { hunk: h, line: k };
            }
            k += 1;
        }
        h += 1;
    }
    Anchor::Outdated
}

/// Carries placements in the original diff over to the displayed one, which
/// may show some files in full.
pub fn placements_for_display(
    canonical: &DiffResult,
    display: &DiffResult,
    placed: &[Placed],
) -> (r: Vec<Placed>)
    requires
        placed_in(canonical@.files, placed@),
    ensures
        r@ == display_placements(canonical@.files, display@.files, placed@),
{
    let ghost cf = canonical@.files;
    let ghost df = display@.files;
    let mut out: Vec<Placed> = Vec::new();
    let mut i: usize = 0;
    while i < placed.len()
        invariant
            i <= placed@.len(),
            cf == canonical@.files,
            df == display@.files,
            placed_in(cf, placed@),
            out@ == display_placements(cf, df, placed@.take(i as int)),
        decreases placed@.len() - i,
    {
        let p: Placed = placed[i];
        assert(placed@.take(i + 1).drop_last() =~= placed@.take(i as int));
        assert(placed@.take(i + 1).last() == p);
        assert(in_diff(cf, placed@[i as int]));
        let file: &FileDiff = &canonical.files[p.file];
        assert(cf[p.file as int] == file@);
        let k: usize = diff::position(display.files.as_slice(), file.path.as_str());
        if k < display.files.len() {
            assert(df[k as int] == display.files@[k as int]@);
            let anchor: Anchor = match p.anchor {
                Anchor::Outdated => Anchor::Outdated,
                Anchor::Line { hunk, line } => {
                    assert(file@.hunks[hunk as int] == file.hunks@[hunk as int]@);
                    locate_line(display.files[k].hunks.as_slice(), &file.hunks[hunk].lines[line])
                },
            };
            out.push(Placed { comment: p.comment, file: k, anchor });
        }
        i += 1;
    }
    assert(placed@.take(i as int) =~= placed@);
    out
}

// ---- placements stay inside the diff ------------------------------------------------

/// The hunks fit the machine's memory: every list has a length it can count.
pub open spec fn countable_hunks(hunks: Seq<HunkView>) -> bool {
    &&& hunks.len() <= usize::MAX
    &&& forall|h: int| 0 <= h < hunks.len() ==> (#[trigger] hunks[h]).lines.len() <= usize::MAX
}

/// The files fit the machine's memory.
pub open spec fn countable(files: Seq<FileDiffView>) -> bool {
    &&& files.len() <= usize::MAX
    &&& forall|i: int| 0 <= i < files.len() ==> countable_hunks((#[trigger] files[i]).hunks)
}

/// A list of files that a program holds fits its memory.
pub proof fn lemma_countable(files: Vec<FileDiff>)
    ensures
        countable(deep::deep(files@)),
{
    let all = deep::deep(files@);
    assert(files@.len() == files.len());
    assert forall|i: int| 0 <= i < all.len() implies countable_hunks((#[trigger] all[i]).hunks) by {
        let f = files@[i];
        assert(all[i] == f@);
        assert(f.hunks@.len() == f.hunks.len());
        assert forall|h: int| 0 <= h < all[i].hunks.len() implies (#[trigger] all[i].hunks[h]).lines.len()
            <= usize::MAX by {
            assert(all[i].hunks[h] == f.hunks@[h]@);
            assert(f.hunks@[h].lines@.len() == f.hunks@[h].lines.len());
        }
    }
}

/// The candidate names a line of the hunks.
pub open spec fn names_line(hunks: Seq<HunkView>, c: Candidate) -> bool {
    c.hunk < hunks.len() && c.line < hunks[c.hunk as int].lines.len()
}

proof fn lemma_hunk_candidates(lines: Seq<DiffLineView>, new_side: bool, h: int)
    requires
        lines.len() <= usize::MAX,
        0 <= h <= usize::MAX,
    ensures
        forall|i: int|
            0 <= i < hunk_candidates(lines, new_side, h).len() ==> (#[trigger] hunk_candidates(
                lines,
                new_side,
                h,
            )[i]).hunk == h && hunk_candidates(lines, new_side, h)[i].line < lines.len(),
    decreases lines.len(),
{
    if lines.len() > 0 {
        lemma_hunk_candidates(lines.drop_last(), new_side, h);
        let before = hunk_candidates(lines.drop_last(), new_side, h);
        let all = hunk_candidates(lines, new_side, h);
        assert forall|i: int| 0 <= i < all.len() implies (#[trigger] all[i]).hunk == h
            && all[i].line < lines.len() by {
            if i < before.len() {
                assert(all[i] == before[i]);
            }
        }
    }
}

proof fn lemma_candidates(hunks: Seq<HunkView>, new_side: bool)
    requires
        countable_hunks(hunks),
    ensures
        forall|i: int|
            0 <= i < candidates(hunks, new_side).len() ==> names_line(
                hunks,
                #[trigger] candidates(hunks, new_side)[i],
            ),
    decreases hunks.len(),
{
    if hunks.len() > 0 {
        let front = hunks.drop_last();
        assert(countable_hunks(front)) by {
            assert forall|h: int| 0 <= h < front.len() implies (#[trigger] front[h]).lines.len()
                <= usize::MAX by {
                assert(front[h] == hunks[h]);
            }
        }
        lemma_candidates(front, new_side);
        assert(hunks[hunks.len() - 1].lines.len() <= usize::MAX);
        lemma_hunk_candidates(hunks.last().lines, new_side, hunks.len() - 1);
        let a = candidates(front, new_side);
        let b = hunk_candidates(hunks.last().lines, new_side, hunks.len() - 1);
        let all = candidates(hunks, new_side);
        assert forall|i: int| 0 <= i < all.len() implies names_line(hunks, #[trigger] all[i]) by {
            if i < a.len() {
                assert(all[i] == a[i]);
                assert(names_line(front, a[i]));
                assert(front[a[i].hunk as int] == hunks[a[i].hunk as int]);
            } else {
                assert(all[i] == b[i - a.len()]);
            }
        }
    }
}

/// Every placement names a file and a line of the diff, and one of the comments.
pub proof fn lemma_placements_in_diff(files: Seq<FileDiffView>, comments: Seq<CommentView>)
    requires
        countable(files),
        comments.len() <= usize::MAX,
    ensures
        placed_in(files, placements(files, comments)),
        forall|i: int|
            0 <= i < placements(files, comments).len() ==> (#[trigger] placements(
                files,
                comments,
            )[i]).comment < comments.len(),
    decreases comments.len(),
{
    if comments.len() > 0 {
        lemma_placements_in_diff(files, comments.drop_last());
        let before = placements(files, comments.drop_last());
        let all = placements(files, comments);
        let c = comments.last();
        let k = diff::path_index(files, c.path);
        diff::lemma_path_index(files, c.path);
        if k < files.len() {
            assert(countable_hunks(files[k].hunks));
            lemma_candidates(files[k].hunks, c.new_side);
            let cs = candidates(files[k].hunks, c.new_side);
            let t = target(c.snippet, c.new_side);
            lemma_nearest(cs, t, c.lines.1, cs.len() as int);
            let p = all.last();
            assert(in_diff(files, p)) by {
                match nearest(cs, t, c.lines.1, cs.len() as int) {
                    Some(w) => {
                        assert(names_line(files[k].hunks, cs[w + t.len() - 1]));
                    },
                    None => {},
                }
            }
            assert forall|i: int| 0 <= i < all.len() implies in_diff(files, #[trigger] all[i])
                && all[i].comment < comments.len() by {
                if i < before.len() {
                    assert(all[i] == before[i]);
                }
            }
        }
    }
}

proof fn lemma_line_index(lines: Seq<DiffLineView>, want: DiffLineView, from: int)
    requires
        0 <= from,
    ensures
        0 <= line_index(lines, want, from) <= lines.len(),
    decreases lines.len() - from,
{
    if from < lines.len() {
        lemma_line_index(lines, want, from + 1);
    }
}

proof fn lemma_locate(hunks: Seq<HunkView>, want: DiffLineView, h: int)
    requires
        0 <= h,
        countable_hunks(hunks),
    ensures
        locate(hunks, want, h) matches Anchor::Line { hunk, line } ==> hunk < hunks.len() && line
            < hunks[hunk as int].lines.len(),
    decreases hunks.len() - h,
{
    if h < hunks.len() {
        lemma_line_index(hunks[h].lines, want, 0);
        lemma_locate(hunks, want, h + 1);
    }
}

/// Every placement carried over names a line of the displayed diff.
pub proof fn lemma_display_placements_in_diff(
    canonical: Seq<FileDiffView>,
    display: Seq<FileDiffView>,
    placed: Seq<Placed>,
    comments: nat,
)
    requires
        countable(display),
        forall|i: int| 0 <= i < placed.len() ==> (#[trigger] placed[i]).comment < comments,
    ensures
        placed_in(display, display_placements(canonical, display, placed)),
        forall|i: int|
            0 <= i < display_placements(canonical, display, placed).len() ==> (
            #[trigger] display_placements(canonical, display, placed)[i]).comment < comments,
    decreases placed.len(),
{
    if placed.len() > 0 {
        let front = placed.drop_last();
        assert forall|i: int| 0 <= i < front.len() implies (#[trigger] front[i]).comment
            < comments by {
            assert(front[i] == placed[i]);
        }
        lemma_display_placements_in_diff(canonical, display, front, comments);
        let before = display_placements(canonical, display, front);
        let all = display_placements(canonical, display, placed);
        let p = placed.last();
        assert(placed[placed.len() - 1].comment < comments);
        let file = canonical[p.file as int];
        let k = diff::path_index(display, file.path);
        diff::lemma_path_index(display, file.path);
        if k < display.len() {
            assert(countable_hunks(display[k].hunks));
            match p.anchor {
                Anchor::Line { hunk, line } => {
                    lemma_locate(
                        display[k].hunks,
                        file.hunks[hunk as int].lines[line as int],
                        0,
                    );
                },
                Anchor::Outdated => {},
            }
            assert forall|i: int| 0 <= i < all.len() implies in_diff(display, #[trigger] all[i])
                && all[i].comment < comments by {
                if i < before.len() {
                    assert(all[i] == before[i]);
                }
            }
        }
    }
}

} // verus!
