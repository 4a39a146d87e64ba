//! What the file tree shows.

use crate::git::diff::FileDiffView;
use crate::laws::splitting;
use crate::text;
use crate::ui::picker;
use crate::ui::tree;
use crate::ui::tree::{EntryView, TreeView};
use vstd::prelude::*;

verus! {

// ---- the outline --------------------------------------------------------------------

/// The names on the way down to the last of the first `n` entries: each entry
/// stands below the last one before it that is less deep.
pub open spec fn trail(entries: Seq<EntryView>, n: int) -> Seq<Seq<char>>
    decreases n,
{
    if n <= 0 {
        Seq::empty()
    } else {
        trail(entries, n - 1).take(entries[n - 1].depth as int).push(entries[n - 1].name)
    }
}

proof fn lemma_trail_prefix(a: Seq<EntryView>, b: Seq<EntryView>, n: int)
    requires
        0 <= n <= a.len(),
    ensures
        trail(a + b, n) == trail(a, n),
    decreases n,
{
    if n > 0 {
        lemma_trail_prefix(a, b, n - 1);
        assert((a + b)[n - 1] == a[n - 1]);
    }
}

proof fn lemma_shared(a: Seq<Seq<char>>, b: Seq<Seq<char>>, i: int)
    requires
        0 <= i,
        i < a.len(),
        i < b.len(),
        a.take(i) == b.take(i),
    ensures
        ({
            let k = tree::shared(a, b, i);
            &&& i <= k < a.len() && k < b.len() && a.take(k) == b.take(k)
            &&& k + 1 < a.len() && k + 1 < b.len() ==> a[k] != b[k]
        }),
    decreases a.len() - i,
{
    if i + 1 < a.len() && i + 1 < b.len() && a[i] == b[i] {
        assert(a.take(i + 1) =~= a.take(i).push(a[i]));
        assert(b.take(i + 1) =~= b.take(i).push(b[i]));
        lemma_shared(a, b, i + 1);
    }
}

/// What the entry at `i` says of where it stands is right: the way down to a
/// file spells its path, and the way down to a directory spells the path of the
/// directory. No directory is entered that the entries before are in already.
pub open spec fn told_right(
    entries: Seq<EntryView>,
    files: Seq<FileDiffView>,
    counts: Seq<usize>,
    i: int,
) -> bool {
    let way = trail(entries, i + 1);
    let before = trail(entries, i);
    &&& way.len() == entries[i].depth + 1
    &&& entries[i].file is None ==> !(before.len() > way.len() && before.take(way.len() as int)
        == way)
    &&& entries[i].file matches Some(f) ==> f < files.len() && splitting::separated(way, '/')
        == files[f as int].path && entries[i].status == Some(files[f as int].status)
        && entries[i].count == counts[f as int]
    &&& entries[i].file is None ==> entries[i].status is None && (way[0].len() > 0
        ==> entries[i].path == splitting::separated(way, '/'))
}

proof fn lemma_separated_push(a: Seq<Seq<char>>, x: Seq<char>)
    requires
        a.len() > 0,
    ensures
        splitting::separated(a.push(x), '/') == splitting::separated(a, '/') + "/"@ + x,
    decreases a.len(),
{
    reveal_strlit("/");
    let more = a.push(x);
    if a.len() == 1 {
        assert(more.skip(1) =~= seq![x]);
        assert(splitting::separated(seq![x], '/') == x);
        assert(splitting::separated(more, '/') =~= a[0] + "/"@ + x);
    } else {
        assert(more.skip(1) =~= a.skip(1).push(x));
        lemma_separated_push(a.skip(1), x);
        assert(splitting::separated(more, '/') =~= splitting::separated(a, '/') + "/"@ + x);
    }
}

proof fn lemma_separated_some(a: Seq<Seq<char>>)
    requires
        a.len() > 0,
        a[0].len() > 0,
    ensures
        splitting::separated(a, '/').len() > 0,
{
}

proof fn lemma_dir_path(parts: Seq<Seq<char>>, d: int)
    requires
        0 <= d < parts.len(),
        parts[0].len() > 0,
    ensures
        tree::dir_path(parts, d) == splitting::separated(parts.take(d + 1), '/'),
    decreases d,
{
    if d == 0 {
        assert(parts.take(1) =~= seq![parts[0]]);
    } else {
        lemma_dir_path(parts, d - 1);
        lemma_separated_some(parts.take(d));
        assert(parts.take(d + 1) =~= parts.take(d).push(parts[d]));
        lemma_separated_push(parts.take(d), parts[d]);
    }
}

proof fn lemma_dirs(
    above: Seq<EntryView>,
    files: Seq<FileDiffView>,
    counts: Seq<usize>,
    parts: Seq<Seq<char>>,
    k: int,
    m: int,
)
    requires
        0 <= k <= m < parts.len(),
        parts.len() <= usize::MAX,
        trail(above, above.len() as int).len() >= k,
        trail(above, above.len() as int).take(k) == parts.take(k),
        k < m && trail(above, above.len() as int).len() > k + 1 ==> trail(
            above,
            above.len() as int,
        ).take(k + 1) != parts.take(k + 1),
        forall|i: int| 0 <= i < above.len() ==> #[trigger] told_right(above, files, counts, i),
    ensures
        ({
            let all = above + tree::dir_entries(parts, k, m);
            &&& trail(all, all.len() as int).len() >= m
            &&& trail(all, all.len() as int).take(m) == parts.take(m)
            &&& k < m ==> trail(all, all.len() as int).len() == m
            &&& forall|i: int| 0 <= i < all.len() ==> #[trigger] told_right(all, files, counts, i)
        }),
    decreases m - k,
{
    let dirs = tree::dir_entries(parts, k, m);
    let all = above + dirs;
    if k == m {
        assert(all =~= above);
    } else {
        lemma_dirs(above, files, counts, parts, k, m - 1);
        let less = above + tree::dir_entries(parts, k, m - 1);
        let e = tree::dir_entry(parts, m - 1);
        assert(all =~= less.push(e));
        assert(less.push(e) =~= less + seq![e]);
        let n = less.len() as int;
        lemma_trail_prefix(less, seq![e], n);
        let way = trail(all, n + 1);
        assert(way =~= parts.take(m)) by {
            assert(all[n] == e);
            assert(way == parts.take(m - 1).push(parts[m - 1]));
        }
        assert(way.take(m) =~= parts.take(m));
        if parts[0].len() > 0 {
            lemma_dir_path(parts, m - 1);
        }
        assert forall|i: int| 0 <= i < all.len() implies #[trigger] told_right(all, files, counts, i) by {
            if i < n {
                assert(told_right(less, files, counts, i));
                lemma_trail_prefix(less, seq![e], i);
                lemma_trail_prefix(less, seq![e], i + 1);
                assert(all[i] == less[i]);
            } else {
                assert(way[0] == parts[0]);
                if m - 1 == k {
                    assert(less =~= above);
                }
            }
        }
    }
}

/// Files that can be listed: their paths have machine-sized depths.
pub open spec fn listable(files: Seq<FileDiffView>) -> bool {
    files.len() <= usize::MAX && forall|i: int|
        0 <= i < files.len() ==> text::split((#[trigger] files[i]).path, '/').len() <= usize::MAX
}

proof fn lemma_joined_parts(s: Seq<char>, from: int)
    requires
        0 <= from <= s.len(),
    ensures
        splitting::separated(text::split_from(s, '/', from), '/') == s.skip(from),
        text::split_from(s, '/', from).len() > 0,
    decreases s.len() - from,
{
    text::lemma_next_index(s, '/', from);
    let k = text::next_index(s, '/', from);
    let all = text::split_from(s, '/', from);
    if k < s.len() {
        lemma_joined_parts(s, k + 1);
        let rest = text::split_from(s, '/', k + 1);
        assert(all.skip(1) =~= rest);
        assert(s.subrange(from, k).push('/') + s.skip(k + 1) =~= s.skip(from));
    } else {
        assert(s.subrange(from, s.len() as int) =~= s.skip(from));
    }
}

proof fn lemma_outline(
    files: Seq<FileDiffView>,
    counts: Seq<usize>,
    sorted: Seq<usize>,
    n: int,
)
    requires
        listable(files),
        0 <= n <= sorted.len(),
        forall|k: int| 0 <= k < sorted.len() ==> #[trigger] sorted[k] < files.len(),
    ensures
        ({
            let all = tree::entries_of(files, counts, sorted, n);
            &&& forall|i: int| 0 <= i < all.len() ==> #[trigger] told_right(all, files, counts, i)
            &&& n > 0 ==> trail(all, all.len() as int) == tree::parts_at(files, sorted, n - 1)
            &&& n > 0 ==> all.len() > 0
        }),
    decreases n,
{
    if n > 0 {
        lemma_outline(files, counts, sorted, n - 1);
        let above = tree::entries_of(files, counts, sorted, n - 1);
        let f = sorted[n - 1];
        assert(f < files.len());
        let path = files[f as int].path;
        let parts = tree::parts_at(files, sorted, n - 1);
        lemma_joined_parts(path, 0);
        assert(path.skip(0) =~= path);
        if tree::repeated(files, sorted, n - 1) {
        } else {
            let k = tree::open_dirs(files, sorted, n - 1);
            let way = trail(above, above.len() as int);
            if n > 1 {
                let before = tree::parts_at(files, sorted, n - 2);
                assert(sorted[n - 2] < files.len());
                lemma_joined_parts(files[sorted[n - 2] as int].path, 0);
                assert(before.take(0) =~= parts.take(0));
                lemma_shared(before, parts, 0);
            } else {
                assert(way.take(0) =~= parts.take(0));
            }
            let m = parts.len() - 1;
            if k < m && way.len() > k + 1 {
                assert(way[k] != parts[k]);
                assert(way.take(k + 1)[k] == way[k] && parts.take(k + 1)[k] == parts[k]);
            }
            assert(parts.len() <= usize::MAX) by {
                assert(text::split(files[f as int].path, '/').len() <= usize::MAX);
            }
            lemma_dirs(above, files, counts, parts, k, m);
            let dirs = above + tree::dir_entries(parts, k, m);
            let leaf = tree::file_entry(parts, f, files[f as int].status, counts[f as int]);
            let all = tree::entries_of(files, counts, sorted, n);
            assert(all =~= dirs + seq![leaf]);
            let at = dirs.len() as int;
            lemma_trail_prefix(dirs, seq![leaf], at);
            assert(all[at] == leaf);
            assert(trail(all, at + 1) =~= parts);
            assert forall|i: int| 0 <= i < all.len() implies #[trigger] told_right(
                all,
                files,
                counts,
                i,
            ) by {
                if i < at {
                    assert(told_right(dirs, files, counts, i));
                    lemma_trail_prefix(dirs, seq![leaf], i);
                    lemma_trail_prefix(dirs, seq![leaf], i + 1);
                    assert(all[i] == dirs[i]);
                }
            }
        }
    }
}

proof fn lemma_reading_order(files: Seq<FileDiffView>, n: int)
    requires
        0 <= n <= files.len() <= usize::MAX,
    ensures
        tree::reading_order(files, n).len() == n,
        forall|k: int|
            0 <= k < n ==> #[trigger] tree::reading_order(files, n)[k] < files.len(),
    decreases n,
{
    if n > 0 {
        lemma_reading_order(files, n - 1);
        lemma_with_file(tree::reading_order(files, n - 1), files, (n - 1) as usize);
    }
}

proof fn lemma_with_file(sorted: Seq<usize>, files: Seq<FileDiffView>, i: usize)
    requires
        i < files.len(),
        forall|k: int| 0 <= k < sorted.len() ==> #[trigger] sorted[k] < files.len(),
    ensures
        tree::with_file(sorted, files, i).len() == sorted.len() + 1,
        forall|k: int|
            0 <= k < sorted.len() + 1 ==> #[trigger] tree::with_file(sorted, files, i)[k]
                < files.len(),
    decreases sorted.len(),
{
    if sorted.len() > 0 {
        assert forall|k: int| 0 <= k < sorted.drop_last().len() implies #[trigger] sorted.drop_last()[k]
            < files.len() by {
            assert(sorted.drop_last()[k] == sorted[k]);
        }
        lemma_with_file(sorted.drop_last(), files, i);
        assert(sorted[sorted.len() - 1] < files.len());
    }
}

/// The tree is an outline of the paths: the names on the way down to a file
/// spell its path, and those on the way down to a directory the directory's.
pub proof fn lemma_tree_spells_the_paths(files: Seq<FileDiffView>, counts: Seq<usize>, i: int)
    requires
        listable(files),
        0 <= i < tree::planted(files, counts).entries.len(),
    ensures
        told_right(tree::planted(files, counts).entries, files, counts, i),
{
    let n = files.len() as int;
    lemma_reading_order(files, n);
    lemma_outline(files, counts, tree::reading_order(files, n), n);
}

// ---- folding ------------------------------------------------------------------------

/// Entry `p` is the directory that entry `i` is in: the last one before it that
/// is less deep.
pub open spec fn parent_of(entries: Seq<EntryView>, p: int, i: int) -> bool {
    &&& 0 <= p < i < entries.len()
    &&& entries[p].depth < entries[i].depth
    &&& forall|k: int| p < k < i ==> (#[trigger] entries[k]).depth >= entries[i].depth
}

/// An entry is shown exactly when the directory it is in is shown and open; one
/// at the top always is.
pub proof fn lemma_shown_when_its_directory_is_open(entries: Seq<EntryView>, p: int, i: int)
    requires
        0 <= i < entries.len(),
    ensures
        entries[i].depth == 0 ==> !tree::hidden(entries, i),
        parent_of(entries, p, i) ==> (tree::hidden(entries, i) <==> tree::hidden(entries, p) || (
        entries[p].file is None && !entries[p].expanded)),
{
    if entries[i].depth == 0 {
        if tree::hidden(entries, i) {
            let j = choose|j: int|
                #[trigger] tree::inside(entries, j, i) && tree::folded(entries[j]);
            assert(entries[i].depth > entries[j].depth);
        }
    }
    if parent_of(entries, p, i) {
        assert(tree::inside(entries, p, i));
        if tree::hidden(entries, i) {
            let j = choose|j: int|
                #[trigger] tree::inside(entries, j, i) && tree::folded(entries[j]);
            assert(entries[i].depth > entries[j].depth);
            if j < p {
                assert(tree::inside(entries, j, p)) by {
                    assert forall|k: int| j < k <= p implies (#[trigger] entries[k]).depth
                        > entries[j].depth by {}
                }
            }
        }
        if tree::hidden(entries, p) {
            let j = choose|j: int|
                #[trigger] tree::inside(entries, j, p) && tree::folded(entries[j]);
            assert(entries[p].depth > entries[j].depth);
            assert(tree::inside(entries, j, i)) by {
                assert forall|k: int| j < k <= i implies (#[trigger] entries[k]).depth
                    > entries[j].depth by {
                    if k > p && k < i {
                        assert(entries[k].depth >= entries[i].depth);
                    }
                }
            }
        }
    }
}

proof fn lemma_visible(entries: Seq<EntryView>, n: int)
    requires
        0 <= n <= entries.len() <= usize::MAX,
    ensures
        ({
            let rows = tree::visible(entries, n);
            &&& forall|k: int| 0 <= k < rows.len() ==> #[trigger] rows[k] < n
            &&& forall|k: int| 0 <= k < rows.len() ==> !tree::hidden(entries, #[trigger] rows[k] as int)
            &&& forall|a: int, b: int|
                0 <= a < b < rows.len() ==> #[trigger] rows[a] < #[trigger] rows[b]
            &&& forall|i: int|
                0 <= i < n && !(#[trigger] tree::hidden(entries, i)) ==> rows.contains(i as usize)
        }),
    decreases n,
{
    if n > 0 {
        lemma_visible(entries, n - 1);
        let before = tree::visible(entries, n - 1);
        let rows = tree::visible(entries, n);
        assert forall|i: int| 0 <= i < n && !(#[trigger] tree::hidden(entries, i)) implies rows.contains(
            i as usize,
        ) by {
            if i < n - 1 {
                let k = before.index_of(i as usize);
                assert(before.contains(i as usize));
                assert(rows[k] == i);
            } else {
                assert(rows.last() == i);
            }
        }
    }
}

/// The rows of a tree are its entries from the top down, each that is not hidden
/// once.
pub proof fn lemma_rows_are_what_is_not_hidden(t: TreeView, i: int)
    requires
        t.entries.len() <= usize::MAX,
        0 <= i < t.entries.len(),
    ensures
        t.rows().contains(i as usize) <==> !tree::hidden(t.entries, i),
        forall|a: int, b: int|
            0 <= a < b < t.rows().len() ==> #[trigger] t.rows()[a] < #[trigger] t.rows()[b],
{
    lemma_visible(t.entries, t.entries.len() as int);
    if t.rows().contains(i as usize) {
        let k = t.rows().index_of(i as usize);
        assert(t.rows()[k] == i);
    }
}

/// Activating a file gives the file and changes nothing; activating a directory
/// opens it if it was closed and closes it if it was open, and touches no other
/// entry.
pub proof fn lemma_activating(t: TreeView, i: int)
    requires
        t.entries.len() <= usize::MAX,
        t.selected < t.rows().len(),
        0 <= i < t.entries.len(),
    ensures
        ({
            let on = t.rows()[t.selected as int] as int;
            let (u, file) = t.activated();
            &&& file == t.entries[on].file
            &&& file is Some ==> u == t
            &&& u.entries.len() == t.entries.len()
            &&& u.entries[i].name == t.entries[i].name && u.entries[i].path == t.entries[i].path
                && u.entries[i].file == t.entries[i].file && u.entries[i].depth
                == t.entries[i].depth && u.entries[i].count == t.entries[i].count
            &&& file is None ==> (u.entries[i].expanded != t.entries[i].expanded <==> i == on)
        }),
{
    lemma_visible(t.entries, t.entries.len() as int);
    assert(t.rows()[t.selected as int] < t.entries.len());
}

proof fn lemma_row_of_file(entries: Seq<EntryView>, rows: Seq<usize>, file: usize, i: int)
    requires
        0 <= i <= rows.len() <= usize::MAX,
    ensures
        match tree::row_of_file(entries, rows, file, i) {
            Some(k) => i <= k < rows.len() && entries[rows[k as int] as int].file == Some(file),
            None => forall|k: int|
                i <= k < rows.len() ==> entries[#[trigger] rows[k] as int].file != Some(file),
        },
    decreases rows.len() - i,
{
    if i < rows.len() && entries[rows[i] as int].file != Some(file) {
        lemma_row_of_file(entries, rows, file, i + 1);
    }
}

/// Selecting a file selects a row that shows it, where there is one; otherwise
/// the selection stays.
pub proof fn lemma_selecting_a_file(t: TreeView, file: usize)
    requires
        t.entries.len() <= usize::MAX,
        t.rows().len() <= usize::MAX,
    ensures
        ({
            let u = t.at_file(file);
            &&& u.entries == t.entries
            &&& (forall|k: int|
                0 <= k < t.rows().len() ==> t.entries[#[trigger] t.rows()[k] as int].file != Some(
                    file,
                )) ==> u == t
            &&& (exists|k: int|
                0 <= k < t.rows().len() && t.entries[#[trigger] t.rows()[k] as int].file == Some(
                    file,
                )) ==> u.selected < t.rows().len() && t.entries[t.rows()[u.selected as int] as int].file
                == Some(file)
        }),
{
    lemma_row_of_file(t.entries, t.rows(), file, 0);
}

proof fn lemma_widest(entries: Seq<EntryView>, rows: Seq<usize>, n: int)
    requires
        0 <= n <= rows.len(),
    ensures
        tree::widest(entries, rows, n) >= 0,
        forall|k: int|
            0 <= k < n ==> tree::entry_cells(entries[#[trigger] rows[k] as int]) <= tree::widest(
                entries,
                rows,
                n,
            ),
        tree::widest(entries, rows, n) == 0 || exists|k: int|
            0 <= k < n && tree::entry_cells(entries[#[trigger] rows[k] as int]) == tree::widest(
                entries,
                rows,
                n,
            ),
    decreases n,
{
    if n > 0 {
        lemma_widest(entries, rows, n - 1);
        let w = tree::widest(entries, rows, n);
        if w == tree::widest(entries, rows, n - 1) && w != 0 {
            let k = choose|k: int|
                0 <= k < n - 1 && tree::entry_cells(entries[#[trigger] rows[k] as int]) == w;
            assert(tree::entry_cells(entries[rows[k] as int]) == w);
        } else {
            assert(w == 0 || tree::entry_cells(entries[rows[n - 1] as int]) == w);
        }
    }
}

/// The preferred width leaves room for every row that is shown and the border,
/// and no more than the widest of them needs.
pub proof fn lemma_preferred_width(t: TreeView)
    requires
        tree::widest(t.entries, t.rows(), t.rows().len() as int) + 2 <= u16::MAX,
    ensures
        forall|k: int|
            0 <= k < t.rows().len() ==> tree::entry_cells(t.entries[#[trigger] t.rows()[k] as int]) + 2
                <= t.preferred_width(),
        t.preferred_width() == 2 || exists|k: int|
            0 <= k < t.rows().len() && tree::entry_cells(
                t.entries[#[trigger] t.rows()[k] as int],
            ) + 2 == t.preferred_width(),
{
    lemma_widest(t.entries, t.rows(), t.rows().len() as int);
}

// ---- lists --------------------------------------------------------------------------

/// A selection moves by so many rows and stops at the ends of the list.
pub proof fn lemma_selection_steps(selected: usize, delta: int, n: nat)
    requires
        selected < n <= usize::MAX,
    ensures
        0 <= selected + delta < n ==> picker::stepped(selected, delta, n) == selected + delta,
        selected + delta < 0 ==> picker::stepped(selected, delta, n) == 0,
        selected + delta >= n ==> picker::stepped(selected, delta, n) == n - 1,
{
}

} // verus!
