//! What a diff counts, in which order it is read, and what expanding marks.

use crate::git::context;
use crate::git::diff;
use crate::git::diff::{DiffLineView, FileDelta, FileDiffView, FileStatus, HunkView};
use crate::git::order;
use crate::laws::splitting;
use crate::text;
use vstd::prelude::*;

verus! {

// ---- counting -----------------------------------------------------------------------

/// All lines of the hunks, from the top down.
pub open spec fn lines_of(hunks: Seq<HunkView>) -> Seq<DiffLineView>
    decreases hunks.len(),
{
    if hunks.len() == 0 {
        Seq::empty()
    } else {
        lines_of(hunks.drop_last()) + hunks.last().lines
    }
}

/// How many lines have the origin.
pub open spec fn count(hunks: Seq<HunkView>, origin: char) -> nat {
    lines_of(hunks).filter(|l: DiffLineView| l.origin == origin).len()
}

/// The counts of a file are those of its added and its deleted lines.
pub open spec fn counts_right(f: FileDiffView) -> bool {
    f.additions == count(f.hunks, '+') && f.deletions == count(f.hunks, '-')
}

proof fn lemma_count_push(lines: Seq<DiffLineView>, l: DiffLineView, origin: char)
    ensures
        lines.push(l).filter(|l: DiffLineView| l.origin == origin).len() == lines.filter(
            |l: DiffLineView| l.origin == origin,
        ).len() + (if l.origin == origin {
            1nat
        } else {
            0nat
        }),
{
    reveal(Seq::filter);
    assert(lines.push(l).drop_last() =~= lines);
}

/// A file counts its added and its deleted lines, however they arrive: the
/// counts are right at the start, and stay right with every hunk and line.
pub proof fn lemma_counts_stay_right(
    f: FileDiffView,
    delta: FileDelta,
    header: Seq<char>,
    line: DiffLineView,
)
    requires
        counts_right(f),
        f.hunks.len() > 0,
        f.additions < usize::MAX,
        f.deletions < usize::MAX,
    ensures
        counts_right(delta.entry()),
        counts_right(diff::with_hunk(f, header)),
        lines_of(diff::with_hunk(f, header).hunks) == lines_of(f.hunks),
        counts_right(diff::with_line(f, line)),
        lines_of(diff::with_line(f, line).hunks) == lines_of(f.hunks).push(line),
{
    reveal(Seq::filter);
    let opened = diff::with_hunk(f, header);
    assert(opened.hunks.drop_last() =~= f.hunks);
    assert(lines_of(opened.hunks) =~= lines_of(f.hunks));
    let grown = diff::with_line(f, line);
    assert(grown.hunks.drop_last() =~= f.hunks.drop_last());
    assert(grown.hunks.last().lines =~= f.hunks.last().lines.push(line));
    assert(lines_of(grown.hunks) =~= lines_of(f.hunks).push(line));
    lemma_count_push(lines_of(f.hunks), line, '+');
    lemma_count_push(lines_of(f.hunks), line, '-');
}

/// A file is listed under its new path, or its old one where it has no new one;
/// it remembers the old path only where it was renamed or copied; and its
/// content is left out exactly where a side has more than a mebibyte.
pub proof fn lemma_listing(delta: FileDelta)
    ensures
        delta.new_path matches Some(p) ==> delta.entry().path == p@,
        delta.new_path is None ==> (delta.old_path matches Some(p) ==> delta.entry().path == p@),
        delta.entry().old_path is Some <==> delta.old_path is Some && (delta.status
            == diff::Delta::Renamed || delta.status == diff::Delta::Copied),
        delta.entry().old_path matches Some(p) ==> delta.old_path->0@ == p,
        delta.entry().large <==> delta.new_size > 1048576 || delta.old_size > 1048576,
        delta.entry().byte_size >= delta.new_size && delta.entry().byte_size >= delta.old_size,
        delta.entry().byte_size == delta.new_size || delta.entry().byte_size == delta.old_size,
        delta.entry().binary <==> !delta.entry().large && (delta.new_binary || delta.old_binary),
        delta.entry().hunks.len() == 0,
        delta.entry().status == FileStatus::Added <==> (delta.status == diff::Delta::Added
            || delta.status == diff::Delta::Untracked || delta.status == diff::Delta::Copied),
        delta.entry().status == FileStatus::Deleted <==> delta.status == diff::Delta::Deleted,
        delta.entry().status == FileStatus::Renamed <==> delta.status == diff::Delta::Renamed,
        delta.entry().status == FileStatus::Typechange <==> delta.status == diff::Delta::Typechange,
{
}

/// A content line loses the line ends behind it and nothing else.
pub proof fn lemma_line_ends_are_cut(s: Seq<char>)
    ensures
        diff::strip_eol(s).is_prefix_of(s),
        diff::strip_eol(s).len() > 0 ==> diff::strip_eol(s).last() != '\n' && diff::strip_eol(
            s,
        ).last() != '\r',
        forall|i: int|
            diff::strip_eol(s).len() <= i < s.len() ==> #[trigger] s[i] == '\n' || s[i] == '\r',
    decreases s.len(),
{
    if s.len() > 0 && (s.last() == '\n' || s.last() == '\r') {
        lemma_line_ends_are_cut(s.drop_last());
        let r = diff::strip_eol(s);
        assert(s.take(r.len() as int) =~= s.drop_last().take(r.len() as int));
        assert forall|i: int| r.len() <= i < s.len() implies #[trigger] s[i] == '\n' || s[i]
            == '\r' by {
            if i < s.len() - 1 {
                assert(s.drop_last()[i] == s[i]);
            }
        }
    } else {
        assert(s.take(s.len() as int) =~= s);
    }
}

proof fn lemma_insert_totals(s: Seq<FileDiffView>, x: FileDiffView)
    ensures
        diff::total_additions(diff::insert_file(s, x)) == diff::total_additions(s) + x.additions,
        diff::total_deletions(diff::insert_file(s, x)) == diff::total_deletions(s) + x.deletions,
    decreases s.len(),
{
    let r = diff::insert_file(s, x);
    assert(r.len() > 0 && r.drop_last().len() == r.len() - 1);
    if s.len() == 0 || order::rank(s.last().path, x.path) <= 0 {
        assert(r == s.push(x));
        assert(r.drop_last() =~= s);
    } else {
        lemma_insert_totals(s.drop_last(), x);
        assert(r.drop_last() =~= diff::insert_file(s.drop_last(), x));
    }
}

/// The totals do not depend on the order of the files.
pub proof fn lemma_sorting_keeps_totals(s: Seq<FileDiffView>)
    ensures
        diff::total_additions(diff::sort_files(s)) == diff::total_additions(s),
        diff::total_deletions(diff::sort_files(s)) == diff::total_deletions(s),
    decreases s.len(),
{
    if s.len() > 0 {
        lemma_sorting_keeps_totals(s.drop_last());
        lemma_insert_totals(diff::sort_files(s.drop_last()), s.last());
    }
}

/// The total of a diff is what its files add and delete together.
pub proof fn lemma_totals(s: Seq<FileDiffView>)
    requires
        s.map_values(|f: FileDiffView| f.additions as int).fold_right(
            |a: int, b: int| a + b,
            0,
        ) <= usize::MAX,
        s.map_values(|f: FileDiffView| f.deletions as int).fold_right(
            |a: int, b: int| a + b,
            0,
        ) <= usize::MAX,
    ensures
        diff::diff_of(s).additions == s.map_values(|f: FileDiffView| f.additions as int).fold_right(
            |a: int, b: int| a + b,
            0,
        ),
        diff::diff_of(s).deletions == s.map_values(|f: FileDiffView| f.deletions as int).fold_right(
            |a: int, b: int| a + b,
            0,
        ),
{
    lemma_sorting_keeps_totals(s);
    lemma_sums(s);
    diff::lemma_as_word(diff::total_additions(s));
    diff::lemma_as_word(diff::total_deletions(s));
}

proof fn lemma_fold_plus(s: Seq<int>, n: int)
    ensures
        s.fold_right(|a: int, b: int| a + b, n) == s.fold_right(|a: int, b: int| a + b, 0) + n,
    decreases s.len(),
{
    if s.len() > 0 {
        lemma_fold_plus(s.drop_last(), s.last() + n);
        lemma_fold_plus(s.drop_last(), s.last() + 0);
    }
}

proof fn lemma_sums(s: Seq<FileDiffView>)
    ensures
        diff::total_additions(s) == s.map_values(|f: FileDiffView| f.additions as int).fold_right(
            |a: int, b: int| a + b,
            0,
        ),
        diff::total_deletions(s) == s.map_values(|f: FileDiffView| f.deletions as int).fold_right(
            |a: int, b: int| a + b,
            0,
        ),
        diff::total_additions(s) >= 0,
        diff::total_deletions(s) >= 0,
    decreases s.len(),
{
    if s.len() > 0 {
        lemma_sums(s.drop_last());
        let a = s.map_values(|f: FileDiffView| f.additions as int);
        let d = s.map_values(|f: FileDiffView| f.deletions as int);
        assert(a.drop_last() =~= s.drop_last().map_values(|f: FileDiffView| f.additions as int));
        assert(d.drop_last() =~= s.drop_last().map_values(|f: FileDiffView| f.deletions as int));
        lemma_fold_plus(a.drop_last(), a.last());
        lemma_fold_plus(d.drop_last(), d.last());
    }
}

// ---- reading order ------------------------------------------------------------------

proof fn lemma_filter_push(
    s: Seq<FileDiffView>,
    x: FileDiffView,
    pick: spec_fn(FileDiffView) -> bool,
)
    ensures
        s.push(x).filter(pick) == (if pick(x) {
            s.filter(pick).push(x)
        } else {
            s.filter(pick)
        }),
{
    reveal(Seq::filter);
    assert(s.push(x).drop_last() =~= s);
}

proof fn lemma_insert_keeps(s: Seq<FileDiffView>, x: FileDiffView, path: Seq<char>)
    ensures
        diff::insert_file(s, x).filter(|f: FileDiffView| f.path == path) == s.push(x).filter(
            |f: FileDiffView| f.path == path,
        ),
    decreases s.len(),
{
    if s.len() == 0 || order::rank(s.last().path, x.path) <= 0 {
    } else {
        let pick = |f: FileDiffView| f.path == path;
        let front = s.drop_last();
        let l = s.last();
        lemma_insert_keeps(front, x, path);
        let inner = diff::insert_file(front, x);
        order::lemma_rank_swap(l.path, l.path);
        assert(!(pick(l) && pick(x)));
        lemma_filter_push(inner, l, pick);
        lemma_filter_push(s, x, pick);
        lemma_filter_push(front, x, pick);
        lemma_filter_push(front, l, pick);
        assert(front.push(l) =~= s);
        assert(diff::insert_file(s, x).filter(pick) =~= s.push(x).filter(pick));
    }
}

/// Entries of one path keep the order they came in.
pub proof fn lemma_entries_of_a_path_keep_their_order(s: Seq<FileDiffView>, path: Seq<char>)
    ensures
        diff::sort_files(s).filter(|f: FileDiffView| f.path == path) == s.filter(
            |f: FileDiffView| f.path == path,
        ),
    decreases s.len(),
{
    if s.len() > 0 {
        let pick = |f: FileDiffView| f.path == path;
        let front = s.drop_last();
        lemma_entries_of_a_path_keep_their_order(front, path);
        let sorted = diff::sort_files(front);
        lemma_insert_keeps(sorted, s.last(), path);
        lemma_filter_push(sorted, s.last(), pick);
        lemma_filter_push(front, s.last(), pick);
        assert(front.push(s.last()) =~= s);
    }
}

/// The path of what is called `name` in a directory.
pub open spec fn inside(dir: Seq<char>, name: Seq<char>) -> Seq<char> {
    dir.push('/') + name
}

proof fn lemma_rank_past(d: Seq<char>, a: Seq<Seq<char>>, b: Seq<Seq<char>>, i: int)
    requires
        0 <= i,
    ensures
        order::rank_from(seq![d] + a, seq![d] + b, i + 1) == order::rank_from(a, b, i),
    decreases a.len() - i,
{
    if i < a.len() && i < b.len() {
        assert((seq![d] + a)[i + 1] == a[i]);
        assert((seq![d] + b)[i + 1] == b[i]);
        lemma_rank_past(d, a, b, i + 1);
    }
}

/// Directories are read before the files beside them.
pub proof fn lemma_directories_come_first(dir: Seq<char>, below: Seq<char>, name: Seq<char>)
    requires
        !dir.contains('/'),
        !name.contains('/'),
    ensures
        order::rank(inside(dir, below), name) < 0,
        order::rank(name, inside(dir, below)) > 0,
{
    splitting::lemma_split_first(dir, below, '/');
    splitting::lemma_split_one(name, '/');
    lemma_split_some(below);
    reveal_with_fuel(order::rank_from, 2);
}

proof fn lemma_split_some(s: Seq<char>)
    ensures
        text::split(s, '/').len() > 0,
{
}

/// What is in one directory is read as it would be without the directory, and
/// different directories or files side by side go by their names.
pub proof fn lemma_siblings_go_by_name(
    a: Seq<char>,
    b: Seq<char>,
    x: Seq<char>,
    y: Seq<char>,
)
    requires
        !a.contains('/'),
        !b.contains('/'),
    ensures
        order::rank(inside(a, x), inside(a, y)) == order::rank(x, y),
        order::rank(a, b) == text::order(a, b),
        a != b ==> order::rank(inside(a, x), inside(b, y)) == text::order(a, b),
{
    splitting::lemma_split_first(a, x, '/');
    splitting::lemma_split_first(a, y, '/');
    splitting::lemma_split_first(b, y, '/');
    splitting::lemma_split_one(a, '/');
    splitting::lemma_split_one(b, '/');
    lemma_split_some(x);
    lemma_split_some(y);
    let xs = text::split(x, '/');
    let ys = text::split(y, '/');
    lemma_rank_past(a, xs, ys, 0);
    text::lemma_order_equal(a, a);
    text::lemma_order_equal(a, b);
    reveal_with_fuel(order::rank_from, 2);
    assert((seq![a] + xs)[0] == a);
    assert((seq![a] + ys)[0] == a);
    assert((seq![b] + ys)[0] == b);
}

// ---- expanding ----------------------------------------------------------------------

/// The hunks hold an unchanged line with the same numbers.
pub open spec fn visible(hunks: Seq<HunkView>, l: DiffLineView) -> bool {
    exists|h: int, i: int|
        0 <= h < hunks.len() && 0 <= i < hunks[h].lines.len() && (
        #[trigger] hunks[h].lines[i]).origin == ' ' && hunks[h].lines[i].old_lineno
            == l.old_lineno && hunks[h].lines[i].new_lineno == l.new_lineno
}

/// Expanding marks exactly the unchanged lines that were not visible before, and
/// changes nothing else of a line.
pub proof fn lemma_expanding_marks_what_was_hidden(
    base: FileDiffView,
    full: FileDiffView,
    h: int,
    i: int,
)
    requires
        0 <= h < full.hunks.len(),
        0 <= i < full.hunks[h].lines.len(),
    ensures
        ({
            let m = context::marked(base, full);
            let was = full.hunks[h].lines[i];
            let is = m.hunks[h].lines[i];
            &&& m.full_context
            &&& m.hunks.len() == full.hunks.len()
            &&& m.hunks[h].lines.len() == full.hunks[h].lines.len()
            &&& m.hunks[h].header == full.hunks[h].header
            &&& m.path == full.path && m.old_path == full.old_path && m.status == full.status
            &&& m.additions == full.additions && m.deletions == full.deletions
            &&& is.content == was.content && is.origin == was.origin
            &&& is.old_lineno == was.old_lineno && is.new_lineno == was.new_lineno
            &&& is.expanded_context <==> was.expanded_context || (was.origin == ' ' && !visible(
                base.hunks,
                was,
            ))
        }),
{
    let was = full.hunks[h].lines[i];
    if context::shows(base.hunks, was.old_lineno, was.new_lineno) {
        let k = choose|k: int|
            0 <= k < base.hunks.len() && context::lines_show(
                #[trigger] base.hunks[k].lines,
                was.old_lineno,
                was.new_lineno,
            );
        let lines = base.hunks[k].lines;
        let j = choose|j: int|
            0 <= j < lines.len() && (#[trigger] lines[j]).origin == ' ' && lines[j].old_lineno
                == was.old_lineno && lines[j].new_lineno == was.new_lineno;
        assert(base.hunks[k].lines[j].origin == ' ');
    }
    if visible(base.hunks, was) {
        let (k, j) = choose|k: int, j: int|
            0 <= k < base.hunks.len() && 0 <= j < base.hunks[k].lines.len() && (
            #[trigger] base.hunks[k].lines[j]).origin == ' ' && base.hunks[k].lines[j].old_lineno
                == was.old_lineno && base.hunks[k].lines[j].new_lineno == was.new_lineno;
        assert(context::lines_show(base.hunks[k].lines, was.old_lineno, was.new_lineno));
    }
}

/// Two diffs of a file make the same changes when their added and deleted lines
/// agree, whatever unchanged lines stand around them.
pub proof fn lemma_changes_leave_out_context(hunks: Seq<HunkView>)
    ensures
        context::changes(hunks) == lines_of(hunks).filter(
            |l: DiffLineView| l.origin != ' ',
        ).map_values(|l: DiffLineView| DiffLineView { expanded_context: false, ..l }),
    decreases hunks.len(),
{
    let pick = |l: DiffLineView| l.origin != ' ';
    let plain = |l: DiffLineView| DiffLineView { expanded_context: false, ..l };
    reveal(Seq::filter);
    if hunks.len() > 0 {
        let front = hunks.drop_last();
        lemma_changes_leave_out_context(front);
        lemma_changed(hunks.last().lines);
        Seq::filter_distributes_over_add(lines_of(front), hunks.last().lines, pick);
        assert(lines_of(hunks).filter(pick).map_values(plain) =~= lines_of(front).filter(
            pick,
        ).map_values(plain) + hunks.last().lines.filter(pick).map_values(plain));
    } else {
        assert(context::changes(hunks) =~= lines_of(hunks).filter(pick).map_values(plain));
    }
}

proof fn lemma_changed(lines: Seq<DiffLineView>)
    ensures
        context::changed_lines(lines) == lines.filter(
            |l: DiffLineView| l.origin != ' ',
        ).map_values(|l: DiffLineView| DiffLineView { expanded_context: false, ..l }),
    decreases lines.len(),
{
    reveal(Seq::filter);
    if lines.len() > 0 {
        lemma_changed(lines.drop_last());
    }
    assert(context::changed_lines(lines) =~= lines.filter(
        |l: DiffLineView| l.origin != ' ',
    ).map_values(|l: DiffLineView| DiffLineView { expanded_context: false, ..l }));
}

/// Only files that were modified or renamed, and whose content is shown, can be
/// expanded.
pub proof fn lemma_what_can_be_expanded(f: FileDiffView)
    ensures
        context::eligible(f) <==> (f.hunks.len() > 0 && !(f.binary || f.large || f.untracked_dir)
            && !(f.status == FileStatus::Added || f.status == FileStatus::Deleted || f.status
            == FileStatus::Typechange)),
{
}

} // verus!
