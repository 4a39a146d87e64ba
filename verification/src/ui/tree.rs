//! The changed-files tree.
//!
//! The tree is kept flat: every directory is followed by what is in it, one
//! level deeper.

use crate::deep;
use crate::git::diff;
use crate::git::diff::{FileDiff, FileDiffView, FileStatus};
use crate::git::order;
use crate::num;
use crate::text;
use crate::ui::picker;
use crate::ui::style;
use crate::ui::style::{Color, LineView, Rect, SpanView, Style, StyledLine};
use crate::ui::width;
use vstd::prelude::*;

verus! {

broadcast use crate::deep::group_deep;

/// A directory or changed file in the sidebar tree.
#[derive(Debug)]
struct Entry {
    depth: usize,
    name: String,
    /// Slash-joined path of a directory; empty for files.
    path: String,
    /// Index into the diff's file list; None for directories.
    file: Option<usize>,
    status: Option<FileStatus>,
    /// Comments on the file.
    count: usize,
    expanded: bool,
}

/// What an entry shows.
#[verifier::ext_equal]
pub struct EntryView {
    pub depth: usize,
    pub name: Seq<char>,
    pub path: Seq<char>,
    pub file: Option<usize>,
    pub status: Option<FileStatus>,
    pub count: usize,
    pub expanded: bool,
}

impl View for Entry {
    type V = EntryView;

    closed spec fn view(&self) -> EntryView {
        EntryView {
            depth: self.depth,
            name: self.name@,
            path: self.path@,
            file: self.file,
            status: self.status,
            count: self.count,
            expanded: self.expanded,
        }
    }
}

// ---- the shape of the tree ---------------------------------------------------
/// A sorted list of files with one more put in, behind those it does not precede.
pub open spec fn with_file(sorted: Seq<usize>, files: Seq<FileDiffView>, i: usize) -> Seq<usize>
    decreases sorted.len(),
{
    if sorted.len() == 0 {
        seq![i]
    } else if order::rank(files[sorted.last() as int].path, files[i as int].path) <= 0 {
        sorted.push(i)
    } else {
        with_file(sorted.drop_last(), files, i).push(sorted.last())
    }
}

/// The first `n` files in reading order.
pub open spec fn reading_order(files: Seq<FileDiffView>, n: int) -> Seq<usize>
    decreases n,
{
    if n <= 0 {
        Seq::empty()
    } else {
        with_file(reading_order(files, n - 1), files, (n - 1) as usize)
    }
}

/// Leading directories that two paths share, from component `i` on.
pub open spec fn shared(a: Seq<Seq<char>>, b: Seq<Seq<char>>, i: int) -> int
    decreases a.len() - i,
{
    if i + 1 < a.len() && i + 1 < b.len() && a[i] == b[i] {
        shared(a, b, i + 1)
    } else {
        i
    }
}

/// Path of the directory named by the components up to `d`.
pub open spec fn dir_path(parts: Seq<Seq<char>>, d: int) -> Seq<char>
    decreases d,
{
    if d <= 0 {
        parts[0]
    } else if dir_path(parts, d - 1).len() == 0 {
        parts[d]
    } else {
        dir_path(parts, d - 1) + "/"@ + parts[d]
    }
}

/// The entry of a directory.
pub open spec fn dir_entry(parts: Seq<Seq<char>>, d: int) -> EntryView {
    EntryView {
        depth: d as usize,
        name: parts[d],
        path: dir_path(parts, d),
        file: None,
        status: None,
        count: 0,
        expanded: true,
    }
}

/// The entries of the directories from component `from` up to `to`.
pub open spec fn dir_entries(parts: Seq<Seq<char>>, from: int, to: int) -> Seq<EntryView> {
    Seq::new(style::at_least_zero(to - from) as nat, |k: int| dir_entry(parts, from + k))
}

/// The entry of a file.
pub open spec fn file_entry(
    parts: Seq<Seq<char>>,
    file: usize,
    status: FileStatus,
    count: usize,
) -> EntryView {
    EntryView {
        depth: (parts.len() - 1) as usize,
        name: parts.last(),
        path: Seq::empty(),
        file: Some(file),
        status: Some(status),
        count,
        expanded: true,
    }
}

/// Path components of the file at a place of the reading order.
pub open spec fn parts_at(files: Seq<FileDiffView>, sorted: Seq<usize>, k: int) -> Seq<Seq<char>> {
    text::split(files[sorted[k] as int].path, '/')
}

/// Directories that file `k` of the reading order has in common with the one
/// before it.
pub open spec fn open_dirs(files: Seq<FileDiffView>, sorted: Seq<usize>, k: int) -> int {
    if k == 0 {
        0
    } else {
        shared(parts_at(files, sorted, k - 1), parts_at(files, sorted, k), 0)
    }
}

/// Does file `k` of the reading order have the path of the one before it?
pub open spec fn repeated(files: Seq<FileDiffView>, sorted: Seq<usize>, k: int) -> bool {
    k > 0 && files[sorted[k - 1] as int].path == files[sorted[k] as int].path
}

/// The entries of the first `n` files in reading order: each file below its
/// directories, each directory once.
pub open spec fn entries_of(
    files: Seq<FileDiffView>,
    counts: Seq<usize>,
    sorted: Seq<usize>,
    n: int,
) -> Seq<EntryView>
    decreases n,
{
    if n <= 0 {
        Seq::empty()
    } else {
        let above = entries_of(files, counts, sorted, n - 1);
        if repeated(files, sorted, n - 1) {
            above
        } else {
            let parts = parts_at(files, sorted, n - 1);
            let file = sorted[n - 1];
            above + dir_entries(parts, open_dirs(files, sorted, n - 1), parts.len() - 1) + seq![
                file_entry(parts, file, files[file as int].status, counts[file as int]),
            ]
        }
    }
}

/// A directory whose contents are not shown.
pub open spec fn folded(e: EntryView) -> bool {
    e.file is None && !e.expanded
}

/// Does entry `i` lie under entry `j`?
pub open spec fn inside(entries: Seq<EntryView>, j: int, i: int) -> bool {
    0 <= j < i && forall|k: int| j < k <= i ==> (#[trigger] entries[k]).depth > entries[j].depth
}

/// Does entry `i` lie under a folded directory?
pub open spec fn hidden(entries: Seq<EntryView>, i: int) -> bool {
    exists|j: int| #[trigger] inside(entries, j, i) && folded(entries[j])
}

/// The shown ones of the first `n` entries.
pub open spec fn visible(entries: Seq<EntryView>, n: int) -> Seq<usize>
    decreases n,
{
    if n <= 0 {
        Seq::empty()
    } else if hidden(entries, n - 1) {
        visible(entries, n - 1)
    } else {
        visible(entries, n - 1).push((n - 1) as usize)
    }
}

/// The first of the rows from `i` on that shows a file.
pub open spec fn row_of_file(
    entries: Seq<EntryView>,
    rows: Seq<usize>,
    file: usize,
    i: int,
) -> Option<usize>
    decreases rows.len() - i,
{
    if i >= rows.len() {
        None
    } else if entries[rows[i] as int].file == Some(file) {
        Some(i as usize)
    } else {
        row_of_file(entries, rows, file, i + 1)
    }
}

/// Paths of the folded ones of the first `n` entries, each once.
pub open spec fn folded_paths(entries: Seq<EntryView>, n: int) -> Seq<Seq<char>>
    decreases n,
{
    if n <= 0 {
        Seq::empty()
    } else {
        let above = folded_paths(entries, n - 1);
        if folded(entries[n - 1]) && !above.contains(entries[n - 1].path) {
            above.push(entries[n - 1].path)
        } else {
            above
        }
    }
}

/// An entry after the directories of the given paths were folded.
pub open spec fn fold(e: EntryView, paths: Seq<Seq<char>>) -> EntryView {
    EntryView { expanded: e.expanded && !(e.file is None && paths.contains(e.path)), ..e }
}

/// The badge of a file with comments.
pub open spec fn badge(count: usize) -> Seq<char> {
    " ✎ "@ + num::decimal(count as nat)
}

/// Columns of an entry.
pub open spec fn entry_cells(e: EntryView) -> int {
    2 * e.depth + 2 + width::str_cells(e.name) + (if e.file is None {
        1int
    } else if e.count > 0 {
        width::str_cells(badge(e.count)) as int
    } else {
        0
    })
}

/// Columns of the widest of the first `n` rows.
pub open spec fn widest(entries: Seq<EntryView>, rows: Seq<usize>, n: int) -> int
    decreases n,
{
    if n <= 0 {
        0
    } else {
        style::most(widest(entries, rows, n - 1), entry_cells(entries[rows[n - 1] as int]))
    }
}

/// Color of a status letter.
pub open spec fn status_color(status: FileStatus) -> Color {
    match status {
        FileStatus::Added => Color::Green,
        FileStatus::Deleted => Color::Red,
        _ => Color::Yellow,
    }
}

/// An entry as it is shown.
pub open spec fn entry_line(e: EntryView) -> LineView {
    let indent = style::span(text::repeat(' ', (2 * e.depth) as nat), style::no_style());
    match e.status {
        None => style::line(
            seq![
                indent,
                style::span(
                    if e.expanded {
                        "▾ "@
                    } else {
                        "▸ "@
                    },
                    style::colored(Color::DarkGray),
                ),
                style::span(e.name + "/"@, style::only_bold()),
            ],
        ),
        Some(s) => style::line(
            seq![
                indent,
                style::span(seq![s.letter_of(), ' '], style::colored(status_color(s))),
                style::span(e.name, style::no_style()),
            ] + (if e.count > 0 {
                seq![style::span(badge(e.count), style::colored(Color::Cyan))]
            } else {
                Seq::<SpanView>::empty()
            }),
        ),
    }
}

/// The title of the pane.
pub open spec fn pane_title(focused: bool) -> LineView {
    if focused {
        style::line(
            seq![
                style::span(
                    " Files "@,
                    Style {
                        fg: Some(Color::Black),
                        bg: Some(Color::Cyan),
                        bold: true,
                        ..style::no_style()
                    },
                ),
                style::span(" ⏎ open "@, style::colored(Color::Cyan)),
            ],
        )
    } else {
        style::line_of(" Files "@, style::colored(Color::DarkGray))
    }
}

/// The style of the selected row. Active: a bright bar for picking. Passive: a
/// dim "you are here" marker that follows the diff as it scrolls.
pub open spec fn bar_style(focused: bool) -> Style {
    if focused {
        Style { fg: Some(Color::Black), bg: Some(Color::Cyan), bold: true, ..style::no_style() }
    } else {
        Style { bg: Some(Color::DarkGray), ..style::no_style() }
    }
}

// ---- the tree ----------------------------------------------------------------
/// The sidebar tree.
#[derive(Debug)]
pub struct FileTree {
    entries: Vec<Entry>,
    /// Selection index into the currently visible rows.
    pub selected: usize,
    /// First row shown, and where the rows were last shown.
    offset: usize,
    inner: Rect,
}

/// What the tree holds.
#[verifier::ext_equal]
pub struct TreeView {
    pub entries: Seq<EntryView>,
    pub selected: usize,
    pub offset: usize,
    pub inner: Rect,
}

impl View for FileTree {
    type V = TreeView;

    closed spec fn view(&self) -> TreeView {
        TreeView {
            entries: deep::deep(self.entries@),
            selected: self.selected,
            offset: self.offset,
            inner: self.inner,
        }
    }
}

/// A tree that has just been built.
pub open spec fn planted(files: Seq<FileDiffView>, counts: Seq<usize>) -> TreeView {
    TreeView {
        entries: entries_of(
            files,
            counts,
            reading_order(files, files.len() as int),
            files.len() as int,
        ),
        selected: 0,
        offset: 0,
        inner: style::no_area(),
    }
}

impl TreeView {
    /// The entries of the visible rows.
    pub open spec fn rows(self) -> Seq<usize> {
        visible(self.entries, self.entries.len() as int)
    }

    pub open spec fn moved(self, delta: int) -> TreeView {
        TreeView { selected: picker::stepped(self.selected, delta, self.rows().len()), ..self }
    }

    /// The tree with the selection no further than the last row.
    pub open spec fn settled(self) -> TreeView {
        TreeView {
            selected: style::least(
                self.selected as int,
                style::at_least_zero(self.rows().len() - 1),
            ) as usize,
            ..self
        }
    }

    /// The entry of the selected row.
    pub open spec fn selected_entry(self) -> Option<usize> {
        if self.selected < self.rows().len() {
            Some(self.rows()[self.selected as int])
        } else {
            None
        }
    }

    /// What activating the selected row does: a directory opens or closes, a
    /// file is returned.
    pub open spec fn activated(self) -> (TreeView, Option<usize>) {
        match self.selected_entry() {
            None => (self, None),
            Some(i) => {
                let e = self.entries[i as int];
                match e.file {
                    Some(f) => (self, Some(f)),
                    None => (
                        TreeView {
                            entries: self.entries.update(
                                i as int,
                                EntryView { expanded: !e.expanded, ..e },
                            ),
                            ..self
                        }.settled(),
                        None,
                    ),
                }
            },
        }
    }

    /// The tree with a file's row selected, if it is visible.
    pub open spec fn at_file(self, file: usize) -> TreeView {
        match row_of_file(self.entries, self.rows(), file, 0) {
            Some(i) => TreeView { selected: i, ..self },
            None => self,
        }
    }

    /// Paths of the folded directories.
    pub open spec fn collapsed(self) -> Seq<Seq<char>> {
        folded_paths(self.entries, self.entries.len() as int)
    }

    /// The tree after the directories of the given paths were folded.
    pub open spec fn with_collapsed(self, paths: Seq<Seq<char>>) -> TreeView {
        TreeView { entries: self.entries.map_values(|e: EntryView| fold(e, paths)), ..self }.settled()
    }

    /// Columns that show every visible row whole, the border and a blank.
    pub open spec fn preferred_width(self) -> u16 {
        style::at_most_u16(widest(self.entries, self.rows(), self.rows().len() as int) + 2)
    }
}

/// The tree pane.
pub struct TreeScreen {
    pub title: StyledLine,
    pub lines: Vec<StyledLine>,
    /// Style of the selected row.
    pub bar: Style,
}

/// Do the entries from `j` up to `i` all lie under entry `j`?
spec fn reaches(entries: Seq<EntryView>, j: int, i: int) -> bool {
    0 <= j < i && forall|k: int| j < k < i ==> (#[trigger] entries[k]).depth > entries[j].depth
}

proof fn lemma_with_file(sorted: Seq<usize>, files: Seq<FileDiffView>, i: usize, pos: int)
    requires
        0 <= pos <= sorted.len(),
        forall|k: int|
            pos <= k < sorted.len() ==> order::rank(
                files[#[trigger] sorted[k] as int].path,
                files[i as int].path,
            ) > 0,
        pos > 0 ==> order::rank(files[sorted[pos - 1] as int].path, files[i as int].path) <= 0,
    ensures
        with_file(sorted, files, i) == sorted.insert(pos, i),
    decreases sorted.len(),
{
    if pos == sorted.len() {
        assert(sorted.insert(pos, i) =~= sorted.push(i));
    } else {
        assert(order::rank(files[sorted[sorted.len() - 1] as int].path, files[i as int].path) > 0);
        lemma_with_file(sorted.drop_last(), files, i, pos);
        assert(sorted.insert(pos, i) =~= sorted.drop_last().insert(pos, i).push(sorted.last()));
    }
}

/// Files of the first `n` entries, from the top.
pub open spec fn files_listed(entries: Seq<EntryView>, n: int) -> Seq<usize>
    decreases n,
{
    if n <= 0 {
        Seq::empty()
    } else {
        match entries[n - 1].file {
            Some(f) => files_listed(entries, n - 1).push(f),
            None => files_listed(entries, n - 1),
        }
    }
}

proof fn lemma_already_in_order(files: Seq<FileDiffView>, n: int)
    requires
        diff::in_order(files),
        0 <= n <= files.len(),
        files.len() <= usize::MAX,
    ensures
        reading_order(files, n) == Seq::new(n as nat, |i: int| i as usize),
    decreases n,
{
    if n > 0 {
        lemma_already_in_order(files, n - 1);
        let above = reading_order(files, n - 1);
        if n > 1 {
            assert(above.last() == n - 2);
            assert(order::rank(files[n - 2].path, files[n - 1].path) <= 0);
        }
        assert(reading_order(files, n) =~= Seq::new(n as nat, |i: int| i as usize));
    } else {
        assert(reading_order(files, n) =~= Seq::new(n as nat, |i: int| i as usize));
    }
}

proof fn lemma_files_listed_append(a: Seq<EntryView>, b: Seq<EntryView>, n: int)
    requires
        0 <= n <= b.len(),
        forall|k: int| 0 <= k < n ==> (#[trigger] b[k]).file is None,
    ensures
        files_listed(a + b, a.len() + n) == files_listed(a, a.len() as int),
    decreases n,
{
    if n > 0 {
        lemma_files_listed_append(a, b, n - 1);
        assert((a + b)[a.len() + n - 1] == b[n - 1]);
    } else {
        lemma_files_listed_prefix(a, b, a.len() as int);
    }
}

proof fn lemma_files_listed_prefix(a: Seq<EntryView>, b: Seq<EntryView>, n: int)
    requires
        0 <= n <= a.len(),
    ensures
        files_listed(a + b, n) == files_listed(a, n),
    decreases n,
{
    if n > 0 {
        lemma_files_listed_prefix(a, b, n - 1);
        assert((a + b)[n - 1] == a[n - 1]);
    }
}

proof fn lemma_entries_follow_stream(files: Seq<FileDiffView>, counts: Seq<usize>, n: int)
    requires
        diff::in_order(files),
        files.len() <= usize::MAX,
        forall|i: int, j: int|
            #![trigger files[i], files[j]]
            0 <= i < j < files.len() ==> files[i].path != files[j].path,
        0 <= n <= files.len(),
    ensures
        ({
            let entries = entries_of(
                files,
                counts,
                reading_order(files, files.len() as int),
                n,
            );
            files_listed(entries, entries.len() as int) == Seq::new(n as nat, |i: int| i as usize)
        }),
    decreases n,
{
    let sorted = reading_order(files, files.len() as int);
    lemma_already_in_order(files, files.len() as int);
    let entries = entries_of(files, counts, sorted, n);
    if n > 0 {
        lemma_entries_follow_stream(files, counts, n - 1);
        let above = entries_of(files, counts, sorted, n - 1);
        assert(sorted[n - 1] == n - 1);
        if n > 1 {
            assert(sorted[n - 2] == n - 2);
            assert(files[n - 2].path != files[n - 1].path);
        }
        let parts = parts_at(files, sorted, n - 1);
        let dirs = dir_entries(parts, open_dirs(files, sorted, n - 1), parts.len() - 1);
        let leaf = file_entry(
            parts,
            sorted[n - 1],
            files[n - 1].status,
            counts[n - 1],
        );
        let all = dirs + seq![leaf];
        assert(entries =~= above + all);
        lemma_files_listed_append(above, all, dirs.len() as int);
        assert(entries[above.len() + dirs.len() as int] == leaf);
        assert(files_listed(entries, entries.len() as int) =~= Seq::new(
            n as nat,
            |i: int| i as usize,
        ));
    } else {
        assert(files_listed(entries, 0) =~= Seq::new(0, |i: int| i as usize));
    }
}

/// The tree lists the files of a diff in the order in which the stream scrolls
/// through them, every file once.
pub proof fn lemma_tree_follows_stream(files: Seq<FileDiffView>, counts: Seq<usize>)
    requires
        diff::in_order(files),
        files.len() <= usize::MAX,
        forall|i: int, j: int|
            #![trigger files[i], files[j]]
            0 <= i < j < files.len() ==> files[i].path != files[j].path,
    ensures
        files_listed(planted(files, counts).entries, planted(files, counts).entries.len() as int)
            == Seq::new(files.len(), |i: int| i as usize),
{
    lemma_entries_follow_stream(files, counts, files.len() as int);
}

/// Folding the directories that are folded already changes nothing, so the fold
/// state survives a rebuild of an unchanged tree.
pub proof fn lemma_folds_survive(tree: TreeView, fresh: TreeView)
    requires
        tree.entries.len() == fresh.entries.len(),
        forall|i: int|
            0 <= i < fresh.entries.len() ==> (#[trigger] fresh.entries[i]) == (EntryView {
                expanded: true,
                ..tree.entries[i]
            }),
        forall|i: int|
            0 <= i < tree.entries.len() && (#[trigger] tree.entries[i]).file is Some
                ==> tree.entries[i].expanded,
        forall|i: int, j: int|
            #![trigger tree.entries[i], tree.entries[j]]
            0 <= i < j < tree.entries.len() && tree.entries[i].file is None
                && tree.entries[j].file is None ==> tree.entries[i].path != tree.entries[j].path,
    ensures
        fresh.with_collapsed(tree.collapsed()).entries == tree.entries,
{
    let paths = tree.collapsed();
    lemma_folded_paths(tree.entries, tree.entries.len() as int);
    let folded_again = fresh.entries.map_values(|e: EntryView| fold(e, paths));
    assert forall|i: int| 0 <= i < tree.entries.len() implies folded_again[i]
        == tree.entries[i] by {
        let e = tree.entries[i];
        assert(fresh.entries[i] == (EntryView { expanded: true, ..e }));
        if e.file is None {
            if paths.contains(e.path) {
                let j = choose|j: int|
                    0 <= j < tree.entries.len() && folded(tree.entries[j])
                        && (#[trigger] tree.entries[j]).path == e.path;
                assert(j == i);
            }
        }
        assert(folded_again[i] =~= e);
    }
    assert(folded_again =~= tree.entries);
}

proof fn lemma_folded_paths(entries: Seq<EntryView>, n: int)
    requires
        0 <= n <= entries.len(),
    ensures
        forall|p: Seq<char>| #[trigger]
            folded_paths(entries, n).contains(p) <==> exists|j: int|
                0 <= j < n && folded(entries[j]) && (#[trigger] entries[j]).path == p,
    decreases n,
{
    if n > 0 {
        lemma_folded_paths(entries, n - 1);
        let above = folded_paths(entries, n - 1);
        let here = folded_paths(entries, n);
        let e = entries[n - 1];
        assert forall|p: Seq<char>| #[trigger] here.contains(p) <==> exists|j: int|
            0 <= j < n && folded(entries[j]) && (#[trigger] entries[j]).path == p by {
            if here.contains(p) {
                if above.contains(p) {
                } else {
                    let k = here.index_of(p);
                    assert(k == above.len());
                    assert(entries[n - 1].path == p && folded(entries[n - 1]));
                }
            }
            if exists|j: int| 0 <= j < n && folded(entries[j]) && (#[trigger] entries[j]).path == p {
                let j = choose|j: int|
                    0 <= j < n && folded(entries[j]) && (#[trigger] entries[j]).path == p;
                if j < n - 1 {
                    assert(above.contains(p));
                    let k = above.index_of(p);
                    assert(here[k] == p);
                } else if above.contains(p) {
                    let k = above.index_of(p);
                    assert(here[k] == p);
                } else {
                    assert(here[above.len() as int] == p);
                }
            }
        }
    }
}

/// All entries are files of the list.
spec fn listed(sorted: Seq<usize>, n: int) -> bool {
    sorted.len() == n && forall|k: int| 0 <= k < sorted.len() ==> (#[trigger] sorted[k]) < n
}

/// Puts the files in reading order.
fn sort(files: &[FileDiff], keys: &[Vec<Vec<char>>]) -> (r: Vec<usize>)
    requires
        keys@.len() == files@.len(),
        forall|i: int|
            0 <= i < files@.len() ==> deep::deep(#[trigger] keys@[i]@) == text::split(
                files@[i].path@,
                '/',
            ),
    ensures
        r@ == reading_order(deep::deep(files@), files@.len() as int),
        listed(r@, files@.len() as int),
{
    let ghost all = deep::deep(files@);
    let mut out: Vec<usize> = Vec::new();
    let mut i: usize = 0;
    while i < files.len()
        invariant
            i <= files@.len(),
            all == deep::deep(files@),
            keys@.len() == files@.len(),
            forall|i: int|
                0 <= i < files@.len() ==> deep::deep(#[trigger] keys@[i]@) == text::split(
                    files@[i].path@,
                    '/',
                ),
            out@ == reading_order(all, i as int),
            listed(out@, i as int),
        decreases files@.len() - i,
    {
        let mut pos: usize = out.len();
        assert(deep::deep(keys@[i as int]@) == text::split(all[i as int].path, '/'));
        while pos > 0 && order::rank_components(
            keys[out[pos - 1]].as_slice(),
            keys[i].as_slice(),
        ) > 0
            invariant
                pos <= out@.len(),
                i < files@.len(),
                keys@.len() == files@.len(),
                all == deep::deep(files@),
                listed(out@, i as int),
                forall|i: int|
                    0 <= i < files@.len() ==> deep::deep(#[trigger] keys@[i]@) == text::split(
                        files@[i].path@,
                        '/',
                    ),
                deep::deep(keys@[i as int]@) == text::split(all[i as int].path, '/'),
                forall|k: int|
                    pos <= k < out@.len() ==> order::rank(
                        all[#[trigger] out@[k] as int].path,
                        all[i as int].path,
                    ) > 0,
            decreases pos,
        {
            assert(deep::deep(keys@[out@[pos - 1] as int]@) == text::split(
                all[out@[pos - 1] as int].path,
                '/',
            ));
            pos -= 1;
        }
        proof {
            if pos > 0 {
                assert(deep::deep(keys@[out@[pos - 1] as int]@) == text::split(
                    all[out@[pos - 1] as int].path,
                    '/',
                ));
            }
            lemma_with_file(out@, all, i, pos as int);
        }
        out.insert(pos, i);
        i += 1;
    }
    out
}

/// Leading directories that two paths share.
fn shared_dirs(a: &[Vec<char>], b: &[Vec<char>]) -> (r: usize)
    ensures
        r == shared(deep::deep(a@), deep::deep(b@), 0),
        r == 0 || r < b@.len(),
{
    let ghost av = deep::deep(a@);
    let ghost bv = deep::deep(b@);
    let mut i: usize = 0;
    while i < a.len() && i < b.len() && i + 1 < a.len() && i + 1 < b.len() && text::same_chars(
        a[i].as_slice(),
        b[i].as_slice(),
    )
        invariant
            av == deep::deep(a@),
            bv == deep::deep(b@),
            i == 0 || i < b@.len(),
            shared(av, bv, i as int) == shared(av, bv, 0),
        decreases a@.len() - i,
    {
        assert(av[i as int] == bv[i as int]);
        i += 1;
    }
    assert(shared(av, bv, i as int) == i);
    i
}

fn directory(parts: &[Vec<char>], d: usize, above: &str) -> (r: Entry)
    requires
        d < parts@.len(),
        d > 0 ==> above@ == dir_path(deep::deep(parts@), d - 1),
    ensures
        r@ == dir_entry(deep::deep(parts@), d as int),
{
    let name: String = text::to_text(parts[d].as_slice());
    let mut path: String = String::new();
    if d > 0 {
        let cs: Vec<char> = text::to_chars(above);
        if cs.len() > 0 {
            text::put(&mut path, above);
            text::put(&mut path, "/");
        }
    }
    text::put(&mut path, name.as_str());
    let r = Entry { depth: d, name, path, file: None, status: None, count: 0, expanded: true };
    assert(r@ =~= dir_entry(deep::deep(parts@), d as int));
    r
}

/// Appends the entries of a file and of its directories from `from` on.
fn list_file(
    out: &mut Vec<Entry>,
    parts: &[Vec<char>],
    from: usize,
    file: usize,
    status: FileStatus,
    count: usize,
)
    requires
        parts@.len() > 0,
        from < parts@.len(),
    ensures
        deep::deep(final(out)@) == deep::deep(old(out)@) + dir_entries(
            deep::deep(parts@),
            from as int,
            parts@.len() - 1,
        ) + seq![file_entry(deep::deep(parts@), file, status, count)],
{
    let ghost before = deep::deep(out@);
    let ghost pv = deep::deep(parts@);
    let mut above: String = String::new();
    let mut d: usize = 0;
    while d < parts.len() - 1
        invariant
            d <= parts@.len() - 1,
            pv == deep::deep(parts@),
            d > 0 ==> above@ == dir_path(pv, d - 1),
            deep::deep(out@) =~= before + dir_entries(pv, from as int, d as int),
        decreases parts@.len() - d,
    {
        let e: Entry = directory(parts, d, above.as_str());
        above = text::copy(e.path.as_str());
        if d >= from {
            out.push(e);
        }
        d += 1;
    }
    let leaf = Entry {
        depth: d,
        name: text::to_text(parts[d].as_slice()),
        path: String::new(),
        file: Some(file),
        status: Some(status),
        count,
        expanded: true,
    };
    assert(leaf@ =~= file_entry(pv, file, status, count));
    out.push(leaf);
    assert(deep::deep(out@) =~= before + dir_entries(pv, from as int, parts@.len() - 1) + seq![
        file_entry(pv, file, status, count),
    ]);
}

fn all_components(files: &[FileDiff]) -> (r: Vec<Vec<Vec<char>>>)
    ensures
        r@.len() == files@.len(),
        forall|i: int|
            0 <= i < files@.len() ==> deep::deep(#[trigger] r@[i]@) == text::split(
                files@[i].path@,
                '/',
            ),
{
    let mut out: Vec<Vec<Vec<char>>> = Vec::new();
    while out.len() < files.len()
        invariant
            out@.len() <= files@.len(),
            forall|i: int|
                0 <= i < out@.len() ==> deep::deep(#[trigger] out@[i]@) == text::split(
                    files@[i].path@,
                    '/',
                ),
        decreases files@.len() - out@.len(),
    {
        out.push(order::components(files[out.len()].path.as_str()));
    }
    out
}

proof fn lemma_split_some(s: Seq<char>)
    ensures
        text::split(s, '/').len() > 0,
{
}

fn list_all(files: &[FileDiff], counts: &[usize]) -> (r: Vec<Entry>)
    requires
        counts@.len() == files@.len(),
    ensures
        deep::deep(r@) == entries_of(
            deep::deep(files@),
            counts@,
            reading_order(deep::deep(files@), files@.len() as int),
            files@.len() as int,
        ),
{
    let ghost all = deep::deep(files@);
    let keys: Vec<Vec<Vec<char>>> = all_components(files);
    let sorted: Vec<usize> = sort(files, keys.as_slice());
    let mut out: Vec<Entry> = Vec::new();
    let mut k: usize = 0;
    while k < sorted.len()
        invariant
            k <= sorted@.len(),
            counts@.len() == files@.len(),
            keys@.len() == files@.len(),
            all == deep::deep(files@),
            listed(sorted@, files@.len() as int),
            forall|i: int|
                0 <= i < files@.len() ==> deep::deep(#[trigger] keys@[i]@) == text::split(
                    files@[i].path@,
                    '/',
                ),
            deep::deep(out@) == entries_of(all, counts@, sorted@, k as int),
        decreases sorted@.len() - k,
    {
        let file: usize = sorted[k];
        let parts: &Vec<Vec<char>> = &keys[file];
        assert(deep::deep(keys@[file as int]@) == text::split(all[file as int].path, '/'));
        proof {
            lemma_split_some(all[file as int].path);
        }
        let mut from: usize = 0;
        let mut again: bool = false;
        if k > 0 {
            let before: usize = sorted[k - 1];
            assert(deep::deep(keys@[before as int]@) == text::split(all[before as int].path, '/'));
            again = text::same(files[before].path.as_str(), files[file].path.as_str());
            from = shared_dirs(keys[before].as_slice(), parts.as_slice());
        }
        assert(again == repeated(all, sorted@, k as int));
        assert(from == open_dirs(all, sorted@, k as int));
        if !again {
            list_file(&mut out, parts.as_slice(), from, file, files[file].status, counts[file]);
        }
        k += 1;
    }
    out
}

impl FileTree {
    pub fn new(files: &[FileDiff], counts: &[usize]) -> (r: Self)
        requires
            counts@.len() == files@.len(),
        ensures
            r@ == planted(deep::deep(files@), counts@),
    {
        FileTree {
            entries: list_all(files, counts),
            selected: 0,
            offset: 0,
            inner: Rect::empty(),
        }
    }

    /// Entries of the visible rows.
    fn visible(&self) -> (r: Vec<usize>)
        ensures
            r@ == self@.rows(),
            forall|k: int| 0 <= k < r@.len() ==> (#[trigger] r@[k]) < self@.entries.len(),
    {
        let ghost all = self@.entries;
        let mut out: Vec<usize> = Vec::new();
        let mut under: Option<usize> = None;
        let mut i: usize = 0;
        while i < self.entries.len()
            invariant
                i <= self.entries@.len(),
                all == self@.entries,
                all == deep::deep(self.entries@),
                out@ == visible(all, i as int),
                forall|k: int| 0 <= k < out@.len() ==> (#[trigger] out@[k]) < i,
                under is None ==> forall|j: int|
                    reaches(all, j, i as int) ==> !folded(#[trigger] all[j]),
                under matches Some(d) ==> (exists|j: int|
                    reaches(all, j, i as int) && folded(#[trigger] all[j]) && all[j].depth == d)
                    && forall|j: int|
                    reaches(all, j, i as int) && folded(#[trigger] all[j]) ==> all[j].depth >= d,
            decreases self.entries@.len() - i,
        {
            let e: &Entry = &self.entries[i];
            assert(all[i as int] == e@);
            let covered: bool = match under {
                Some(d) => e.depth > d,
                None => false,
            };
            assert(covered == hidden(all, i as int)) by {
                if covered {
                    let d = under->0;
                    let j = choose|j: int|
                        reaches(all, j, i as int) && folded(#[trigger] all[j]) && all[j].depth == d;
                    assert(inside(all, j, i as int));
                } else if hidden(all, i as int) {
                    let j = choose|j: int| #[trigger]
                        inside(all, j, i as int) && folded(all[j]);
                    assert(all[i as int].depth > all[j].depth);
                    assert(reaches(all, j, i as int));
                }
            }
            let ghost old_under = under;
            if !covered {
                out.push(i);
                under = if e.file.is_none() && !e.expanded {
                    Some(e.depth)
                } else {
                    None
                };
            }
            proof {
                assert forall|j: int| reaches(all, j, i + 1) && j < i implies reaches(
                    all,
                    j,
                    i as int,
                ) && all[j].depth < all[i as int].depth by {
                    assert(all[i as int].depth > all[j].depth);
                }
                assert(reaches(all, i as int, i + 1));
                if covered {
                    let d = old_under->0;
                    let j = choose|j: int|
                        reaches(all, j, i as int) && folded(#[trigger] all[j]) && all[j].depth == d;
                    assert(reaches(all, j, i + 1));
                    assert(folded(all[j]) && all[j].depth == d);
                }
            }
            i += 1;
        }
        out
    }

    pub fn len(&self) -> (r: usize)
        ensures
            r == self@.rows().len(),
    {
        self.visible().len()
    }

    /// Map a screen position to a visible row index, if it hits the list.
    pub fn hit(&self, column: u16, row: u16) -> (r: Option<usize>)
        ensures
            r == picker::entry_at(self@.inner, self@.offset, self@.rows().len(), column, row),
    {
        picker::list_hit(self.inner, self.offset, self.len(), column, row)
    }

    /// The first entry that was last shown.
    pub fn offset(&self) -> (r: usize)
        ensures
            r == self@.offset,
    {
        self.offset
    }

    /// Takes over where the rows were shown, and which came first.
    pub fn placed(&mut self, inner: Rect, offset: usize)
        ensures
            final(self)@ == (TreeView { inner, offset, ..old(self)@ }),
    {
        let ghost before = self@;
        self.inner = inner;
        self.offset = offset;
        assert(self@ =~= (TreeView { inner, offset, ..before }));
    }

    /// The selected row.
    pub fn selection(&self) -> (r: usize)
        ensures
            r == self@.selected,
    {
        self.selected
    }

    /// Selects a row.
    pub fn select(&mut self, row: usize)
        ensures
            final(self)@ == (TreeView { selected: row, ..old(self)@ }),
    {
        let ghost before = self@;
        self.selected = row;
        assert(self@ =~= (TreeView { selected: row, ..before }));
    }

    pub fn move_selection(&mut self, delta: isize)
        ensures
            final(self)@ == old(self)@.moved(delta as int),
    {
        let ghost before = self@;
        self.selected = picker::step(self.selected, delta, self.len());
        assert(self@ =~= before.moved(delta as int));
    }

    fn settle(&mut self)
        ensures
            final(self)@ == old(self)@.settled(),
    {
        let ghost before = self@;
        let rows: usize = self.len();
        let last: usize = if rows == 0 {
            0
        } else {
            rows - 1
        };
        if self.selected > last {
            self.selected = last;
        }
        assert(self@ =~= before.settled());
    }

    /// Enter on a directory toggles it; on a file returns its diff index.
    pub fn activate(&mut self) -> (r: Option<usize>)
        ensures
            (final(self)@, r) == old(self)@.activated(),
    {
        let ghost before = self@;
        let rows: Vec<usize> = self.visible();
        if self.selected >= rows.len() {
            return None;
        }
        let i: usize = rows[self.selected];
        assert(before.entries[i as int] == self.entries@[i as int]@);
        match self.entries[i].file {
            Some(f) => Some(f),
            None => {
                let open: bool = !self.entries[i].expanded;
                self.entries[i].expanded = open;
                assert(self@.entries =~= before.entries.update(
                    i as int,
                    EntryView { expanded: open, ..before.entries[i as int] },
                ));
                self.settle();
                None
            },
        }
    }

    /// Move selection to the row for the given file index (stream -> tree sync).
    pub fn select_file(&mut self, file_idx: usize)
        ensures
            final(self)@ == old(self)@.at_file(file_idx),
    {
        let ghost before = self@;
        let rows: Vec<usize> = self.visible();
        let mut i: usize = 0;
        while i < rows.len()
            invariant
                i <= rows@.len(),
                rows@ == self@.rows(),
                before == old(self)@,
                self@ == before,
                before.entries == deep::deep(self.entries@),
                forall|k: int| 0 <= k < rows@.len() ==> (#[trigger] rows@[k]) < before.entries.len(),
                row_of_file(before.entries, rows@, file_idx, i as int) == row_of_file(
                    before.entries,
                    rows@,
                    file_idx,
                    0,
                ),
            decreases rows@.len() - i,
        {
            let e: &Entry = &self.entries[rows[i]];
            assert(before.entries[rows@[i as int] as int] == e@);
            let found: bool = match e.file {
                Some(f) => f == file_idx,
                None => false,
            };
            if found {
                self.selected = i;
                assert(self@ =~= before.at_file(file_idx));
                return;
            }
            i += 1;
        }
    }

    /// Slash-joined paths of collapsed directories, for carrying fold state
    /// across a reload.
    pub fn collapsed_dirs(&self) -> (r: Vec<String>)
        ensures
            deep::deep(r@) == self@.collapsed(),
    {
        let ghost all = self@.entries;
        let mut out: Vec<String> = Vec::new();
        let mut i: usize = 0;
        while i < self.entries.len()
            invariant
                i <= self.entries@.len(),
                all == deep::deep(self.entries@),
                deep::deep(out@) == folded_paths(all, i as int),
            decreases self.entries@.len() - i,
        {
            let e: &Entry = &self.entries[i];
            assert(all[i as int] == e@);
            if e.file.is_none() && !e.expanded && !text::contains_text(
                out.as_slice(),
                e.path.as_str(),
            ) {
                out.push(text::copy(e.path.as_str()));
            }
            i += 1;
        }
        out
    }

    pub fn apply_collapsed(&mut self, collapsed: &[String])
        ensures
            final(self)@ == old(self)@.with_collapsed(deep::deep(collapsed@)),
    {
        let ghost before = self@;
        let ghost paths = deep::deep(collapsed@);
        let mut i: usize = 0;
        while i < self.entries.len()
            invariant
                i <= self.entries@.len(),
                self.entries@.len() == before.entries.len(),
                paths == deep::deep(collapsed@),
                self.selected == before.selected,
                self.offset == before.offset,
                self.inner == before.inner,
                forall|k: int|
                    i <= k < before.entries.len() ==> (#[trigger] self.entries@[k])@
                        == before.entries[k],
                forall|k: int|
                    0 <= k < i ==> (#[trigger] self.entries@[k])@ == fold(before.entries[k], paths),
            decreases self.entries@.len() - i,
        {
            if self.entries[i].file.is_none() && text::contains_text(
                collapsed,
                self.entries[i].path.as_str(),
            ) {
                self.entries[i].expanded = false;
            }
            assert(self.entries@[i as int]@ =~= fold(before.entries[i as int], paths));
            i += 1;
        }
        assert(self@ =~= (TreeView {
            entries: before.entries.map_values(|e: EntryView| fold(e, paths)),
            ..before
        }));
        self.settle();
    }

    /// Columns that show every visible row whole, the border and a blank.
    pub fn preferred_width(&self) -> (r: u16)
        ensures
            r == self@.preferred_width(),
    {
        let ghost all = self@.entries;
        let rows: Vec<usize> = self.visible();
        let mut most: u128 = 0;
        let mut i: usize = 0;
        while i < rows.len()
            invariant
                i <= rows@.len(),
                all == deep::deep(self.entries@),
                forall|k: int| 0 <= k < rows@.len() ==> (#[trigger] rows@[k]) < all.len(),
                most == widest(all, rows@, i as int),
                most <= 0x1_0000_0000_0000_0000_0000,
            decreases rows@.len() - i,
        {
            let e: &Entry = &self.entries[rows[i]];
            assert(all[rows@[i as int] as int] == e@);
            let cells: u128 = e.cells();
            if cells > most {
                most = cells;
            }
            i += 1;
        }
        if most + 2 > 65535 {
            65535
        } else {
            (most + 2) as u16
        }
    }

    /// The tree pane.
    pub fn render(&self, focused: bool) -> (r: TreeScreen)
        ensures
            r.title@ == pane_title(focused),
            r.bar == bar_style(focused),
            r.lines@.len() == self@.rows().len(),
            forall|k: int|
                0 <= k < r.lines@.len() ==> (#[trigger] r.lines@[k])@ == entry_line(
                    self@.entries[self@.rows()[k] as int],
                ),
    {
        let mut title = StyledLine::new();
        let bar: Style;
        if focused {
            let bright = Style {
                fg: Some(Color::Black),
                bg: Some(Color::Cyan),
                bold: true,
                italic: false,
                underlined: false,
            };
            title.put(" Files ", bright);
            title.put(" ⏎ open ", Style::fg(Color::Cyan));
            bar = bright;
        } else {
            title.put(" Files ", Style::fg(Color::DarkGray));
            bar = Style {
                fg: None,
                bg: Some(Color::DarkGray),
                bold: false,
                italic: false,
                underlined: false,
            };
        }
        assert(title@ =~= pane_title(focused));
        let ghost all = self@.entries;
        let rows: Vec<usize> = self.visible();
        let mut lines: Vec<StyledLine> = Vec::new();
        while lines.len() < rows.len()
            invariant
                lines@.len() <= rows@.len(),
                all == deep::deep(self.entries@),
                forall|k: int| 0 <= k < rows@.len() ==> (#[trigger] rows@[k]) < all.len(),
                forall|k: int|
                    0 <= k < lines@.len() ==> (#[trigger] lines@[k])@ == entry_line(
                        all[rows@[k] as int],
                    ),
            decreases rows@.len() - lines@.len(),
        {
            let e: &Entry = &self.entries[rows[lines.len()]];
            assert(all[rows@[lines@.len() as int] as int] == e@);
            lines.push(e.paint());
        }
        TreeScreen { title, lines, bar }
    }
}

impl Entry {
    fn badge(&self) -> (r: String)
        ensures
            r@ == badge(self@.count),
    {
        let mut s: String = text::copy(" ✎ ");
        text::put(&mut s, num::decimal_text(self.count as u64).as_str());
        s
    }

    fn cells(&self) -> (r: u128)
        ensures
            r == entry_cells(self@),
            r <= 0x1_0000_0000_0000_0000_0000,
    {
        let extra: usize = if self.file.is_none() {
            1
        } else if self.count > 0 {
            width::str_width(self.badge().as_str())
        } else {
            0
        };
        2 * (self.depth as u128) + 2 + width::str_width(self.name.as_str()) as u128 + extra as u128
    }

    fn paint(&self) -> (r: StyledLine)
        ensures
            r@ == entry_line(self@),
    {
        let mut line = StyledLine::new();
        let mut indent: String = String::new();
        text::put_repeat(&mut indent, ' ', self.depth);
        text::put_repeat(&mut indent, ' ', self.depth);
        assert(indent@ =~= text::repeat(' ', (2 * self.depth) as nat));
        line.put(indent.as_str(), Style::plain());
        match self.status {
            None => {
                line.put(
                    if self.expanded {
                        "▾ "
                    } else {
                        "▸ "
                    },
                    Style::fg(Color::DarkGray),
                );
                let mut name: String = text::copy(self.name.as_str());
                text::put(&mut name, "/");
                line.put(name.as_str(), Style::strong());
            },
            Some(s) => {
                let mut letter: String = String::new();
                letter.push(s.letter());
                letter.push(' ');
                assert(letter@ =~= seq![s.letter_of(), ' ']);
                let color: Color = match s {
                    FileStatus::Added => Color::Green,
                    FileStatus::Deleted => Color::Red,
                    _ => Color::Yellow,
                };
                line.put(letter.as_str(), Style::fg(color));
                line.put(self.name.as_str(), Style::plain());
                if self.count > 0 {
                    line.put(self.badge().as_str(), Style::fg(Color::Cyan));
                }
            },
        }
        assert(line@ =~= entry_line(self@));
        line
    }
}

} // verus!
