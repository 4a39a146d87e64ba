//! Showing a whole file inline: which lines the original diff already had, and
//! whether the expanded diff still describes the same changes.

use crate::deep;
use crate::git::diff::{DiffLine, DiffLineView, FileDiff, FileDiffView, FileStatus, Hunk, HunkView};
use crate::text;
use vstd::prelude::*;

verus! {

broadcast use crate::deep::group_deep;

/// The changed lines of a list of lines, in order.
pub open spec fn changed_lines(lines: Seq<DiffLineView>) -> Seq<DiffLineView>
    decreases lines.len(),
{
    if lines.len() == 0 {
        Seq::empty()
    } else if lines.last().origin == ' ' {
        changed_lines(lines.drop_last())
    } else {
        changed_lines(lines.drop_last()).push(
            DiffLineView { expanded_context: false, ..lines.last() },
        )
    }
}

/// The changed lines of a list of hunks, in order.
pub open spec fn changes(hunks: Seq<HunkView>) -> Seq<DiffLineView>
    decreases hunks.len(),
{
    if hunks.len() == 0 {
        Seq::empty()
    } else {
        changes(hunks.drop_last()) + changed_lines(hunks.last().lines)
    }
}

fn collect_changes(hunks: &[Hunk]) -> (r: Vec<DiffLine>)
    ensures
        deep::deep(r@) == changes(deep::deep(hunks@)),
{
    let ghost all = deep::deep(hunks@);
    let mut out: Vec<DiffLine> = Vec::new();
    let mut i: usize = 0;
    while i < hunks.len()
        invariant
            i <= hunks@.len(),
            all == deep::deep(hunks@),
            deep::deep(out@) == changes(all.take(i as int)),
        decreases hunks@.len() - i,
    {
        let lines: &Vec<DiffLine> = &hunks[i].lines;
        let ghost shown = deep::deep(lines@);
        let ghost before = deep::deep(out@);
        let mut k: usize = 0;
        assert(before + changed_lines(shown.take(0)) =~= before);
        while k < lines.len()
            invariant
                k <= lines@.len(),
                shown == deep::deep(lines@),
                deep::deep(out@) == before + changed_lines(shown.take(k as int)),
            decreases lines@.len() - k,
        {
            assert(shown.take(k + 1).drop_last() =~= shown.take(k as int));
            assert(shown.take(k + 1).last() == lines@[k as int]@);
            if lines[k].origin != ' ' {
                let mut line: DiffLine = lines[k].copy();
                line.expanded_context = false;
                out.push(line);
                assert(deep::deep(out@) =~= before + changed_lines(shown.take(k + 1)));
            }
            k += 1;
        }
        assert(shown.take(k as int) =~= shown);
        assert(all.take(i + 1).drop_last() =~= all.take(i as int));
        assert(all.take(i + 1).last() == hunks@[i as int]@);
        i += 1;
    }
    assert(all.take(i as int) =~= all);
    out
}

fn same_line(a: &DiffLine, b: &DiffLine) -> (r: bool)
    ensures
        r == (a@ == b@),
{
    a.origin == b.origin && a.old_lineno == b.old_lineno && a.new_lineno == b.new_lineno
        && a.expanded_context == b.expanded_context && text::same(
        a.content.as_str(),
        b.content.as_str(),
    )
}

/// Do two diffs of a file add and delete the same lines at the same places?
pub fn same_changes(a: &FileDiff, b: &FileDiff) -> (r: bool)
    ensures
        r == (changes(a@.hunks) == changes(b@.hunks)),
{
    let ca: Vec<DiffLine> = collect_changes(a.hunks.as_slice());
    let cb: Vec<DiffLine> = collect_changes(b.hunks.as_slice());
    let ghost sa = deep::deep(ca@);
    let ghost sb = deep::deep(cb@);
    if ca.len() != cb.len() {
        assert(sa.len() != sb.len());
        return false;
    }
    let mut i: usize = 0;
    while i < ca.len()
        invariant
            i <= ca@.len(),
            ca@.len() == cb@.len(),
            sa == deep::deep(ca@),
            sb == deep::deep(cb@),
            sa == changes(a@.hunks),
            sb == changes(b@.hunks),
            forall|j: int| 0 <= j < i ==> sa[j] == sb[j],
        decreases ca@.len() - i,
    {
        if !same_line(&ca[i], &cb[i]) {
            assert(sa[i as int] != sb[i as int]);
            return false;
        }
        i += 1;
    }
    assert(sa =~= sb);
    true
}

/// The lines hold an unchanged line with the given numbers.
pub open spec fn lines_show(
    lines: Seq<DiffLineView>,
    old_lineno: Option<u32>,
    new_lineno: Option<u32>,
) -> bool {
    exists|i: int|
        0 <= i < lines.len() && (#[trigger] lines[i]).origin == ' ' && lines[i].old_lineno
            == old_lineno && lines[i].new_lineno == new_lineno
}

/// The diff shows the unchanged line with the given numbers.
pub open spec fn shows(
    hunks: Seq<HunkView>,
    old_lineno: Option<u32>,
    new_lineno: Option<u32>,
) -> bool {
    exists|h: int|
        0 <= h < hunks.len() && lines_show(#[trigger] hunks[h].lines, old_lineno, new_lineno)
}

/// A line of an expanded diff: unchanged lines that `base` does not show are marked.
pub open spec fn marked_line(base: Seq<HunkView>, line: DiffLineView) -> DiffLineView {
    if line.origin == ' ' && !shows(base, line.old_lineno, line.new_lineno) {
        DiffLineView { expanded_context: true, ..line }
    } else {
        line
    }
}

/// A hunk of an expanded diff, its lines marked.
pub open spec fn marked_hunk(base: Seq<HunkView>, hunk: HunkView) -> HunkView {
    HunkView {
        header: hunk.header,
        lines: hunk.lines.map_values(|l: DiffLineView| marked_line(base, l)),
    }
}

/// An expanded diff, its lines marked against the original.
pub open spec fn marked(base: FileDiffView, expanded: FileDiffView) -> FileDiffView {
    FileDiffView {
        full_context: true,
        hunks: expanded.hunks.map_values(|h: HunkView| marked_hunk(base.hunks, h)),
        ..expanded
    }
}

fn shows_line(hunks: &[Hunk], old_lineno: Option<u32>, new_lineno: Option<u32>) -> (r: bool)
    ensures
        r == shows(deep::deep(hunks@), old_lineno, new_lineno),
{
    let ghost all = deep::deep(hunks@);
    let mut i: usize = 0;
    while i < hunks.len()
        invariant
            i <= hunks@.len(),
            all == deep::deep(hunks@),
            forall|h: int|
                0 <= h < i ==> !lines_show(#[trigger] all[h].lines, old_lineno, new_lineno),
        decreases hunks@.len() - i,
    {
        let lines: &Vec<DiffLine> = &hunks[i].lines;
        let ghost shown = deep::deep(lines@);
        assert(all[i as int].lines == shown);
        let mut k: usize = 0;
        while k < lines.len()
            invariant
                k <= lines@.len(),
                i < hunks@.len(),
                all == deep::deep(hunks@),
                shown == deep::deep(lines@),
                all[i as int].lines == shown,
                forall|j: int|
                    0 <= j < k ==> !((#[trigger] shown[j]).origin == ' ' && shown[j].old_lineno
                        == old_lineno && shown[j].new_lineno == new_lineno),
            decreases lines@.len() - k,
        {
            let line: &DiffLine = &lines[k];
            assert(shown[k as int] == line@);
            if line.origin == ' ' && line.old_lineno == old_lineno && line.new_lineno
                == new_lineno {
                assert(lines_show(all[i as int].lines, old_lineno, new_lineno));
                return true;
            }
            k += 1;
        }
        i += 1;
    }
    false
}

fn mark_lines(base: &[Hunk], lines: &mut Vec<DiffLine>)
    ensures
        deep::deep(final(lines)@) == deep::deep(old(lines)@).map_values(
            |l: DiffLineView| marked_line(deep::deep(base@), l),
        ),
{
    let ghost start = deep::deep(lines@);
    let mut i: usize = 0;
    while i < lines.len()
        invariant
            i <= lines@.len(),
            lines@.len() == start.len(),
            forall|j: int|
                0 <= j < i ==> (#[trigger] deep::deep(lines@)[j]) == marked_line(
                    deep::deep(base@),
                    start[j],
                ),
            forall|j: int| i <= j < start.len() ==> (#[trigger] deep::deep(lines@)[j]) == start[j],
        decreases lines@.len() - i,
    {
        let ghost now = deep::deep(lines@);
        assert(now[i as int] == lines@[i as int]@);
        if lines[i].origin == ' ' && !shows_line(base, lines[i].old_lineno, lines[i].new_lineno) {
            let mut line: DiffLine = lines[i].copy();
            line.expanded_context = true;
            lines.set(i, line);
            assert(deep::deep(lines@) =~= now.update(i as int, line@));
        }
        i += 1;
    }
    assert(deep::deep(lines@) =~= start.map_values(
        |l: DiffLineView| marked_line(deep::deep(base@), l),
    ));
}

/// Marks the unchanged lines that only the expanded diff shows.
pub fn mark_expanded_context(base: &FileDiff, expanded: &mut FileDiff)
    ensures
        final(expanded)@ == marked(base@, old(expanded)@),
{
    let ghost start = expanded@;
    let ghost b = deep::deep(base.hunks@);
    let mut hunks: Vec<Hunk> = Vec::new();
    let mut i: usize = 0;
    while i < expanded.hunks.len()
        invariant
            i <= expanded.hunks@.len(),
            start == expanded@,
            b == deep::deep(base.hunks@),
            hunks@.len() == i,
            forall|j: int|
                0 <= j < i ==> (#[trigger] deep::deep(hunks@)[j]) == marked_hunk(
                    b,
                    start.hunks[j],
                ),
        decreases expanded.hunks@.len() - i,
    {
        let mut hunk: Hunk = expanded.hunks[i].copy();
        let ghost was = hunk@;
        mark_lines(base.hunks.as_slice(), &mut hunk.lines);
        assert(hunk@ =~= marked_hunk(b, was));
        let ghost before = deep::deep(hunks@);
        hunks.push(hunk);
        assert(deep::deep(hunks@) =~= before.push(hunk@));
        i += 1;
    }
    assert(deep::deep(hunks@) =~= start.hunks.map_values(|h: HunkView| marked_hunk(b, h)));
    expanded.hunks = hunks;
    expanded.full_context = true;
    assert(expanded@ =~= marked(base@, start));
}

/// Marking a diff leaves its changed lines as they are.
pub proof fn lemma_marking_keeps_changes(base: FileDiffView, expanded: FileDiffView)
    ensures
        changes(marked(base, expanded).hunks) == changes(expanded.hunks),
{
    lemma_marked_changes(base.hunks, expanded.hunks);
}

proof fn lemma_marked_changes(base: Seq<HunkView>, hunks: Seq<HunkView>)
    ensures
        changes(hunks.map_values(|h: HunkView| marked_hunk(base, h))) == changes(hunks),
    decreases hunks.len(),
{
    let m = hunks.map_values(|h: HunkView| marked_hunk(base, h));
    if hunks.len() > 0 {
        lemma_marked_changes(base, hunks.drop_last());
        assert(m.drop_last() =~= hunks.drop_last().map_values(
            |h: HunkView| marked_hunk(base, h),
        ));
        lemma_marked_lines(base, hunks.last().lines);
    }
}

proof fn lemma_marked_lines(base: Seq<HunkView>, lines: Seq<DiffLineView>)
    ensures
        changed_lines(lines.map_values(|l: DiffLineView| marked_line(base, l))) == changed_lines(
            lines,
        ),
    decreases lines.len(),
{
    let m = lines.map_values(|l: DiffLineView| marked_line(base, l));
    if lines.len() > 0 {
        lemma_marked_lines(base, lines.drop_last());
        assert(m.drop_last() =~= lines.drop_last().map_values(
            |l: DiffLineView| marked_line(base, l),
        ));
    }
}

/// Can the file be expanded inline to its full content?
pub open spec fn eligible(f: FileDiffView) -> bool {
    &&& f.status == FileStatus::Modified || f.status == FileStatus::Renamed
    &&& !f.binary
    &&& !f.large
    &&& !f.untracked_dir
    &&& f.hunks.len() > 0
}

/// Can the file be expanded inline to its full content?
pub fn full_context_eligible(file: &FileDiff) -> (r: bool)
    ensures
        r == eligible(file@),
{
    (file.status == FileStatus::Modified || file.status == FileStatus::Renamed) && !file.binary
        && !file.large && !file.untracked_dir && file.hunks.len() > 0
}

} // verus!
