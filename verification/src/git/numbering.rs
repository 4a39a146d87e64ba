//! How the lines of a hunk are numbered.

use crate::comments;
use crate::git::cli;
use crate::git::cli::PatchState;
use crate::git::diff;
use crate::git::diff::{DiffLineView, FileDiffView, HunkView};
use crate::text;
use vstd::prelude::*;

verus! {

/// Is the line numbered as its origin says: context on both sides, an addition
/// on the new one, a deletion on the old one?
pub open spec fn line_numbered(line: DiffLineView) -> bool {
    &&& diff::content_origin(line.origin)
    &&& line.new_lineno is Some <==> line.origin != '-'
    &&& line.old_lineno is Some <==> line.origin != '+'
}

/// The numbers that the lines have on one side, in order.
pub open spec fn side_numbers(lines: Seq<DiffLineView>, new_side: bool) -> Seq<u32>
    decreases lines.len(),
{
    if lines.len() == 0 {
        Seq::empty()
    } else {
        let before = side_numbers(lines.drop_last(), new_side);
        match comments::side_number(lines.last(), new_side) {
            Some(n) => before.push(n),
            None => before,
        }
    }
}

/// Each number is one more than the number before it.
pub open spec fn counts_up(numbers: Seq<u32>) -> bool {
    forall|i: int| 0 <= i < numbers.len() - 1 ==> (#[trigger] numbers[i]) + 1 == numbers[i + 1]
}

/// The lines of a hunk are numbered the way a diff numbers them: by their
/// origins, and without gaps on either side.
pub open spec fn numbered(lines: Seq<DiffLineView>) -> bool {
    &&& forall|i: int| 0 <= i < lines.len() ==> line_numbered(#[trigger] lines[i])
    &&& counts_up(side_numbers(lines, true))
    &&& counts_up(side_numbers(lines, false))
}

/// A side has run out of line numbers.
pub open spec fn tops_out(lines: Seq<DiffLineView>) -> bool {
    exists|i: int|
        0 <= i < lines.len() && ((#[trigger] lines[i]).new_lineno == Some(u32::MAX)
            || lines[i].old_lineno == Some(u32::MAX))
}

/// Each number is the next one after the number before it, which wraps around
/// past the last one.
spec fn goes_round(numbers: Seq<u32>) -> bool {
    forall|i: int|
        0 <= i < numbers.len() - 1 ==> numbers[i + 1] == cli::next_ln(#[trigger] numbers[i])
}

/// The lines are numbered by their origins, and each side goes on without gaps.
spec fn sound(lines: Seq<DiffLineView>) -> bool {
    &&& forall|i: int| 0 <= i < lines.len() ==> line_numbered(#[trigger] lines[i])
    &&& goes_round(side_numbers(lines, true))
    &&& goes_round(side_numbers(lines, false))
}

spec fn hunks_sound(hunks: Seq<HunkView>) -> bool {
    forall|h: int| 0 <= h < hunks.len() ==> sound((#[trigger] hunks[h]).lines)
}

/// `next` is the number that the next line gets.
spec fn expects(numbers: Seq<u32>, next: u32) -> bool {
    numbers.len() > 0 ==> next == cli::next_ln(numbers.last())
}

/// What a parse keeps up.
spec fn in_step(s: PatchState) -> bool {
    &&& forall|f: int| 0 <= f < s.files.len() ==> hunks_sound((#[trigger] s.files[f]).hunks)
    &&& s.files.len() > 0 && s.files.last().hunks.len() > 0 ==> {
        let lines = s.files.last().hunks.last().lines;
        expects(side_numbers(lines, true), s.new_ln) && expects(
            side_numbers(lines, false),
            s.old_ln,
        )
    }
}

proof fn lemma_pushed(lines: Seq<DiffLineView>, line: DiffLineView, old_ln: u32, new_ln: u32)
    requires
        sound(lines),
        expects(side_numbers(lines, true), new_ln),
        expects(side_numbers(lines, false), old_ln),
        line_numbered(line),
        line.new_lineno is Some ==> line.new_lineno == Some(new_ln),
        line.old_lineno is Some ==> line.old_lineno == Some(old_ln),
    ensures
        sound(lines.push(line)),
        expects(
            side_numbers(lines.push(line), true),
            if line.new_lineno is Some {
                cli::next_ln(new_ln)
            } else {
                new_ln
            },
        ),
        expects(
            side_numbers(lines.push(line), false),
            if line.old_lineno is Some {
                cli::next_ln(old_ln)
            } else {
                old_ln
            },
        ),
{
    let all = lines.push(line);
    assert(all.drop_last() =~= lines);
    assert(all.last() == line);
    assert forall|i: int| 0 <= i < all.len() implies line_numbered(#[trigger] all[i]) by {
        if i < lines.len() {
            assert(all[i] == lines[i]);
        }
    }
    lemma_next_number(side_numbers(lines, true), new_ln);
    lemma_next_number(side_numbers(lines, false), old_ln);
}

proof fn lemma_next_number(numbers: Seq<u32>, next: u32)
    requires
        goes_round(numbers),
        expects(numbers, next),
    ensures
        goes_round(numbers.push(next)),
{
    let all = numbers.push(next);
    assert forall|i: int| 0 <= i < all.len() - 1 implies all[i + 1] == cli::next_ln(
        #[trigger] all[i],
    ) by {
        if i < numbers.len() - 1 {
            assert(all[i] == numbers[i]);
            assert(all[i + 1] == numbers[i + 1]);
        }
    }
}

proof fn lemma_last_replaced(files: Seq<FileDiffView>, f: FileDiffView)
    requires
        files.len() > 0,
        forall|k: int| 0 <= k < files.len() ==> hunks_sound((#[trigger] files[k]).hunks),
        hunks_sound(f.hunks),
    ensures
        forall|k: int|
            0 <= k < diff::with_last(files, f).len() ==> hunks_sound(
                (#[trigger] diff::with_last(files, f)[k]).hunks,
            ),
        diff::with_last(files, f).last() == f,
        diff::with_last(files, f).len() == files.len(),
{
    let all = diff::with_last(files, f);
    assert forall|k: int| 0 <= k < all.len() implies hunks_sound((#[trigger] all[k]).hunks) by {
        if k < files.len() - 1 {
            assert(all[k] == files[k]);
        }
    }
}

proof fn lemma_content_in_step(s: PatchState, line: DiffLineView)
    requires
        in_step(s),
        s.files.len() > 0,
        s.files.last().hunks.len() > 0,
        line_numbered(line),
        line.new_lineno is Some ==> line.new_lineno == Some(s.new_ln),
        line.old_lineno is Some ==> line.old_lineno == Some(s.old_ln),
    ensures
        forall|left: (u64, u64)|
            in_step(
                #[trigger] stepped(s, line, left),
            ),
{
    let f = s.files.last();
    assert(hunks_sound(s.files[s.files.len() - 1].hunks));
    let hunks = f.hunks;
    let lines = hunks.last().lines;
    assert(sound(hunks[hunks.len() - 1].lines));
    lemma_pushed(lines, line, s.old_ln, s.new_ln);
    let g = diff::with_line(f, line);
    assert(g.hunks.last().lines == lines.push(line));
    assert forall|h: int| 0 <= h < g.hunks.len() implies sound((#[trigger] g.hunks[h]).lines) by {
        if h < hunks.len() - 1 {
            assert(g.hunks[h] == hunks[h]);
        }
    }
    lemma_last_replaced(s.files, g);
}

/// The state after a content line, with the given numbers of lines left.
spec fn stepped(s: PatchState, line: DiffLineView, left: (u64, u64)) -> PatchState {
    PatchState {
        files: diff::with_last(s.files, diff::with_line(s.files.last(), line)),
        old_ln: if line.old_lineno is Some {
            cli::next_ln(s.old_ln)
        } else {
            s.old_ln
        },
        new_ln: if line.new_lineno is Some {
            cli::next_ln(s.new_ln)
        } else {
            s.new_ln
        },
        old_left: left.0,
        new_left: left.1,
    }
}

proof fn lemma_step(s: PatchState, line: Seq<char>)
    requires
        in_step(s),
    ensures
        in_step(cli::patch_step(s, line)),
{
    let next = cli::patch_step(s, line);
    if text::starts_with(line, "diff --git "@) {
        assert forall|f: int| 0 <= f < next.files.len() implies hunks_sound(
            (#[trigger] next.files[f]).hunks,
        ) by {
            if f < s.files.len() {
                assert(next.files[f] == s.files[f]);
            }
        }
        assert(next.files.last().hunks.len() == 0);
    } else if s.files.len() > 0 {
        let f = s.files.last();
        assert(hunks_sound(s.files[s.files.len() - 1].hunks));
        if s.old_left > 0 || s.new_left > 0 {
            if f.hunks.len() > 0 && line.len() > 0 && diff::content_origin(line[0]) {
                let made = DiffLineView {
                    origin: line[0],
                    old_lineno: if line[0] == '+' {
                        None
                    } else {
                        Some(s.old_ln)
                    },
                    new_lineno: if line[0] == '-' {
                        None
                    } else {
                        Some(s.new_ln)
                    },
                    content: line.skip(1),
                    expanded_context: false,
                };
                lemma_content_in_step(s, made);
                assert(next == stepped(s, made, (next.old_left, next.new_left)));
            }
        } else {
            match cli::described(f, line) {
                Some(g) => {
                    assert(g.hunks == f.hunks);
                    lemma_last_replaced(s.files, g);
                },
                None => {
                    if let Some((os, oc, ns, nc)) = cli::hunk_header(line) {
                        let g = diff::with_hunk(f, line);
                        assert forall|h: int| 0 <= h < g.hunks.len() implies sound(
                            (#[trigger] g.hunks[h]).lines,
                        ) by {
                            if h < f.hunks.len() {
                                assert(g.hunks[h] == f.hunks[h]);
                            }
                        }
                        lemma_last_replaced(s.files, g);
                        assert(g.hunks.last().lines.len() == 0);
                    }
                },
            }
        }
    }
}

proof fn lemma_run(lines: Seq<Seq<char>>)
    ensures
        in_step(cli::patch_run(lines)),
    decreases lines.len(),
{
    if lines.len() > 0 {
        lemma_run(lines.drop_last());
        lemma_step(cli::patch_run(lines.drop_last()), lines.last());
    }
}

proof fn lemma_side_number(lines: Seq<DiffLineView>, new_side: bool, k: int) -> (i: int)
    requires
        0 <= k < side_numbers(lines, new_side).len(),
    ensures
        0 <= i < lines.len(),
        comments::side_number(lines[i], new_side) == Some(side_numbers(lines, new_side)[k]),
    decreases lines.len(),
{
    let front = lines.drop_last();
    if k < side_numbers(front, new_side).len() {
        let i = lemma_side_number(front, new_side, k);
        assert(front[i] == lines[i]);
        i
    } else {
        lines.len() - 1
    }
}

proof fn lemma_counts_up(lines: Seq<DiffLineView>, new_side: bool)
    requires
        goes_round(side_numbers(lines, new_side)),
        !tops_out(lines),
    ensures
        counts_up(side_numbers(lines, new_side)),
{
    let numbers = side_numbers(lines, new_side);
    assert forall|k: int| 0 <= k < numbers.len() - 1 implies (#[trigger] numbers[k]) + 1
        == numbers[k + 1] by {
        let i = lemma_side_number(lines, new_side, k);
        assert(numbers[k] != u32::MAX) by {
            if numbers[k] == u32::MAX {
                assert(lines[i].new_lineno == Some(u32::MAX) || lines[i].old_lineno == Some(
                    u32::MAX,
                ));
            }
        }
        assert(numbers[k + 1] == cli::next_ln(numbers[k]));
    }
}

/// The hunks of a parsed patch are numbered the way a diff numbers them, as
/// long as the numbers last.
pub proof fn lemma_parsed_hunks_are_numbered(patch: Seq<char>, f: int, h: int)
    requires
        0 <= f < cli::patch_files(patch).len(),
        0 <= h < cli::patch_files(patch)[f].hunks.len(),
        !tops_out(cli::patch_files(patch)[f].hunks[h].lines),
    ensures
        numbered(cli::patch_files(patch)[f].hunks[h].lines),
{
    lemma_run(text::lines(patch));
    let files = cli::patch_files(patch);
    let lines = files[f].hunks[h].lines;
    assert(hunks_sound(files[f].hunks));
    assert(sound(files[f].hunks[h].lines));
    lemma_counts_up(lines, true);
    lemma_counts_up(lines, false);
}

} // verus!
