//! A patch is read as what git prints: printing files as a patch and reading it
//! gives the files back.

use crate::git::cli;
use crate::git::cli::PatchState;
use crate::git::diff;
use crate::git::diff::{DiffLineView, FileDiffView, FileStatus, HunkView};
use crate::git::patch_laws;
use crate::laws::lines;
use crate::num;
use crate::text;
use vstd::prelude::*;

verus! {

// ---- hunk headers -----------------------------------------------------------------------

/// A line range as a hunk header prints it; the count may be left out for one line.
pub open spec fn range_text(start: nat, count: nat, short: bool) -> Seq<char> {
    if short {
        num::decimal(start)
    } else {
        num::decimal(start) + ","@ + num::decimal(count)
    }
}

/// A hunk header.
pub open spec fn header_text(old: Seq<char>, new: Seq<char>, tail: Seq<char>) -> Seq<char> {
    "@@ -"@ + old + " +"@ + new + " @@"@ + tail
}

proof fn lemma_first_place(s: Seq<char>, p: Seq<char>, from: int, at: int)
    requires
        0 <= from <= at,
        text::occurs_at(s, p, at),
        forall|i: int| from <= i < at ==> !#[trigger] text::occurs_at(s, p, i),
    ensures
        text::find_from(s, p, from) == Some(at),
    decreases at - from,
{
    if from < at {
        assert(!text::occurs_at(s, p, from));
        lemma_first_place(s, p, from + 1, at);
    }
}

/// A text is split at the first separator; one whose first character the text
/// before it does not hold is the first.
proof fn lemma_split(a: Seq<char>, sep: Seq<char>, b: Seq<char>)
    requires
        sep.len() > 0,
        forall|i: int| 0 <= i < a.len() ==> #[trigger] a[i] != sep[0],
    ensures
        cli::split_once(a + sep + b, sep) == Some((a, b)),
{
    let s = a + sep + b;
    assert(s.subrange(a.len() as int, (a.len() + sep.len()) as int) =~= sep);
    assert forall|i: int| 0 <= i < a.len() implies !#[trigger] text::occurs_at(s, sep, i) by {
        if text::occurs_at(s, sep, i) {
            assert(s.subrange(i, i + sep.len())[0] == s[i]);
            assert(s[i] == a[i]);
        }
    }
    lemma_first_place(s, sep, 0, a.len() as int);
    assert(s.take(a.len() as int) =~= a);
    assert(s.skip((a.len() + sep.len()) as int) =~= b);
}

proof fn lemma_no_split(s: Seq<char>, c: char, from: int)
    requires
        0 <= from,
        forall|i: int| 0 <= i < s.len() ==> #[trigger] s[i] != c,
    ensures
        text::find_from(s, seq![c], from) is None,
    decreases s.len() + 1 - from,
{
    if from + 1 <= s.len() {
        assert(s.subrange(from, from + 1)[0] == s[from]);
        assert(seq![c][0] == c);
        lemma_no_split(s, c, from + 1);
    }
}

/// A range reads as what it prints, and holds digits and commas only.
proof fn lemma_range(start: nat, count: nat, short: bool)
    requires
        start <= u32::MAX,
        count <= u64::MAX,
        short ==> count == 1,
    ensures
        cli::line_range(range_text(start, count, short)) == Some((start, count)),
        forall|i: int|
            0 <= i < range_text(start, count, short).len() ==> #[trigger] range_text(
                start,
                count,
                short,
            )[i] != ' ',
{
    reveal_strlit(",");
    lines::lemma_decimal(start);
    lines::lemma_decimal(count);
    lines::lemma_parse_decimal(start, u32::MAX as nat);
    lines::lemma_parse_decimal(count, u64::MAX as nat);
    let a = num::decimal(start);
    assert(","@ =~= seq![',']);
    assert forall|i: int| 0 <= i < a.len() implies #[trigger] a[i] != ',' by {
        assert('0' <= a[i] <= '9');
    }
    if short {
        lemma_no_split(a, ',', 0);
    } else {
        lemma_split(a, ","@, num::decimal(count));
        let s = a + ","@ + num::decimal(count);
        assert forall|i: int| 0 <= i < s.len() implies #[trigger] s[i] != ' ' by {
            if i < a.len() {
                assert(s[i] == a[i]);
            } else if i > a.len() {
                assert(s[i] == num::decimal(count)[i - a.len() - 1]);
            }
        }
    }
}

/// A hunk header reads as the four numbers it prints.
pub proof fn lemma_header_reads_as_printed(
    a: nat,
    b: nat,
    c: nat,
    d: nat,
    short_old: bool,
    short_new: bool,
    tail: Seq<char>,
)
    requires
        a <= u32::MAX,
        c <= u32::MAX,
        b <= u64::MAX,
        d <= u64::MAX,
        short_old ==> b == 1,
        short_new ==> d == 1,
    ensures
        cli::hunk_header(
            header_text(range_text(a, b, short_old), range_text(c, d, short_new), tail),
        ) == Some((a, b, c, d)),
{
    reveal_strlit("@@ -");
    reveal_strlit(" +");
    reveal_strlit(" @@");
    let old = range_text(a, b, short_old);
    let new = range_text(c, d, short_new);
    let line = header_text(old, new, tail);
    lemma_range(a, b, short_old);
    lemma_range(c, d, short_new);
    let rest = new + " @@"@ + tail;
    assert(line =~= "@@ -"@ + (old + " +"@ + rest));
    patch_laws::lemma_starts("@@ -"@, old + " +"@ + rest);
    assert(line.skip(4) == old + " +"@ + rest);
    lemma_split(old, " +"@, rest);
    lemma_split(new, " @@"@, tail);
}

// ---- files as a patch -------------------------------------------------------------------

/// A content line: its origin and its content.
pub struct LineText {
    pub origin: char,
    pub content: Seq<char>,
}

/// A hunk: where it starts on either side, what follows its numbers, its lines.
pub struct HunkText {
    pub old_start: nat,
    pub new_start: nat,
    pub tail: Seq<char>,
    pub lines: Seq<LineText>,
}

/// What happened to a file.
pub enum Change {
    Modified,
    Added,
    Deleted,
    Renamed(Seq<char>),
}

/// A changed file.
pub struct FileText {
    pub path: Seq<char>,
    pub change: Change,
    pub binary: bool,
    /// Its names are printed in quotes.
    pub quoted: bool,
    pub hunks: Seq<HunkText>,
}

/// How many of the lines are on the old side.
pub open spec fn on_old(lines: Seq<LineText>) -> nat {
    lines.filter(|l: LineText| l.origin != '+').len()
}

/// How many of the lines are on the new side.
pub open spec fn on_new(lines: Seq<LineText>) -> nat {
    lines.filter(|l: LineText| l.origin != '-').len()
}

impl HunkText {
    pub open spec fn header(self) -> Seq<char> {
        header_text(
            range_text(self.old_start, on_old(self.lines), false),
            range_text(self.new_start, on_new(self.lines), false),
            self.tail,
        )
    }

    /// The hunk as a patch prints it.
    pub open spec fn printed(self) -> Seq<Seq<char>> {
        seq![self.header()] + self.lines.map_values(|l: LineText| seq![l.origin] + l.content)
    }

    /// Line `i` of the hunk. Its number on a side is where the hunk starts there
    /// plus the lines before it that are on that side.
    pub open spec fn line(self, i: int) -> DiffLineView {
        let before = self.lines.take(i);
        let l = self.lines[i];
        DiffLineView {
            origin: l.origin,
            old_lineno: if l.origin == '+' {
                None
            } else {
                Some((self.old_start + on_old(before)) as u32)
            },
            new_lineno: if l.origin == '-' {
                None
            } else {
                Some((self.new_start + on_new(before)) as u32)
            },
            content: l.content,
            expanded_context: false,
        }
    }

    /// The hunk as it is read.
    pub open spec fn read(self) -> HunkView {
        HunkView {
            header: self.header(),
            lines: Seq::new(self.lines.len(), |i: int| self.line(i)),
        }
    }

    pub open spec fn ok(self) -> bool {
        &&& self.old_start + self.lines.len() <= u32::MAX
        &&& self.new_start + self.lines.len() <= u32::MAX
        &&& forall|i: int|
            0 <= i < self.lines.len() ==> {
                let o = (#[trigger] self.lines[i]).origin;
                o == ' ' || o == '+' || o == '-'
            }
    }
}

/// The lines of all hunks, one after the other.
pub open spec fn all_lines(hunks: Seq<HunkText>) -> Seq<LineText>
    decreases hunks.len(),
{
    if hunks.len() == 0 {
        Seq::empty()
    } else {
        all_lines(hunks.drop_last()) + hunks.last().lines
    }
}

/// The hunks as a patch prints them.
pub open spec fn printed_hunks(hunks: Seq<HunkText>) -> Seq<Seq<char>>
    decreases hunks.len(),
{
    if hunks.len() == 0 {
        Seq::empty()
    } else {
        printed_hunks(hunks.drop_last()) + hunks.last().printed()
    }
}

impl FileText {
    /// A name of the file with the prefix of its side.
    pub open spec fn name(self, side: Seq<char>, path: Seq<char>) -> Seq<char> {
        if self.quoted {
            patch_laws::quoted_name(side + path)
        } else {
            side + path
        }
    }

    /// The path on the old side.
    pub open spec fn old_name(self) -> Seq<char> {
        match self.change {
            Change::Renamed(from) => from,
            _ => self.path,
        }
    }

    pub open spec fn first_line(self) -> Seq<char> {
        "diff --git "@ + (self.name("a/"@, self.old_name()) + seq![' '] + self.name(
            "b/"@,
            self.path,
        ))
    }

    /// What is printed of the change itself.
    pub open spec fn change_lines(self) -> Seq<Seq<char>> {
        match self.change {
            Change::Modified => Seq::empty(),
            Change::Added => seq!["new file mode 100644"@],
            Change::Deleted => seq!["deleted file mode 100644"@],
            Change::Renamed(from) => seq![
                "rename from "@ + self.name(Seq::empty(), from),
                "rename to "@ + self.name(Seq::empty(), self.path),
            ],
        }
    }

    /// The two lines that name the sides.
    pub open spec fn side_lines(self) -> Seq<Seq<char>> {
        seq![
            if self.change is Added {
                "--- /dev/null"@
            } else {
                "--- "@ + self.name("a/"@, self.old_name())
            },
            if self.change is Deleted {
                "+++ /dev/null"@
            } else {
                "+++ "@ + self.name("b/"@, self.path)
            },
        ]
    }

    /// The file as a patch prints it.
    pub open spec fn printed(self) -> Seq<Seq<char>> {
        seq![self.first_line()] + self.change_lines() + (if self.binary {
            seq!["Binary files differ"@]
        } else if self.hunks.len() > 0 {
            self.side_lines() + printed_hunks(self.hunks)
        } else {
            Seq::empty()
        })
    }

    /// The file as it is read.
    pub open spec fn read(self) -> FileDiffView {
        FileDiffView {
            path: self.path,
            old_path: match self.change {
                Change::Renamed(from) => Some(from),
                _ => None,
            },
            status: match self.change {
                Change::Modified => FileStatus::Modified,
                Change::Added => FileStatus::Added,
                Change::Deleted => FileStatus::Deleted,
                Change::Renamed(_) => FileStatus::Renamed,
            },
            binary: self.binary,
            large: false,
            byte_size: 0,
            untracked_dir: false,
            full_context: false,
            hunks: if self.binary {
                Seq::empty()
            } else {
                self.hunks.map_values(|h: HunkText| h.read())
            },
            additions: if self.binary {
                0
            } else {
                all_lines(self.hunks).filter(|l: LineText| l.origin == '+').len() as usize
            },
            deletions: if self.binary {
                0
            } else {
                all_lines(self.hunks).filter(|l: LineText| l.origin == '-').len() as usize
            },
        }
    }

    /// Names without quotes are such as git prints without them, and can be told
    /// apart on the first line.
    pub open spec fn ok(self) -> bool {
        &&& !self.quoted ==> plain_name(self.path) && plain_name(self.old_name())
        &&& forall|i: int| 0 <= i < self.hunks.len() ==> (#[trigger] self.hunks[i]).ok()
        &&& all_lines(self.hunks).len() <= usize::MAX
    }
}

/// A name that is printed without quotes: it is not empty, holds no quote and no
/// tab, and no ` b/`.
pub open spec fn plain_name(s: Seq<char>) -> bool {
    &&& s.len() > 0
    &&& !s.contains('"')
    &&& !s.contains('\t')
    &&& forall|i: int| !#[trigger] text::occurs_at(s, " b/"@, i)
}

// ---- reading the lines ------------------------------------------------------------------

spec fn run_from(s: PatchState, lines: Seq<Seq<char>>) -> PatchState
    decreases lines.len(),
{
    if lines.len() == 0 {
        s
    } else {
        cli::patch_step(run_from(s, lines.drop_last()), lines.last())
    }
}

proof fn lemma_run_from_start(lines: Seq<Seq<char>>)
    ensures
        run_from(cli::patch_start(), lines) == cli::patch_run(lines),
    decreases lines.len(),
{
    if lines.len() > 0 {
        lemma_run_from_start(lines.drop_last());
    }
}

proof fn lemma_run_add(s: PatchState, a: Seq<Seq<char>>, b: Seq<Seq<char>>)
    ensures
        run_from(s, a + b) == run_from(run_from(s, a), b),
    decreases b.len(),
{
    if b.len() == 0 {
        assert(a + b =~= a);
    } else {
        assert((a + b).drop_last() =~= a + b.drop_last());
        lemma_run_add(s, a, b.drop_last());
    }
}

proof fn lemma_run_one(s: PatchState, line: Seq<char>)
    ensures
        run_from(s, seq![line]) == cli::patch_step(s, line),
{
    assert(seq![line].drop_last() =~= Seq::empty());
    assert(run_from(s, seq![line].drop_last()) == s);
}

/// One file has been read so far, and no hunk is open.
spec fn holds_file(s: PatchState, f: FileDiffView) -> bool {
    s.files == seq![f] && s.old_left == 0 && s.new_left == 0
}

proof fn lemma_other_start(line: Seq<char>, p: Seq<char>)
    requires
        line.len() > 0,
        p.len() > 0,
        line[0] != p[0],
    ensures
        !text::starts_with(line, p),
{
    if text::starts_with(line, p) {
        assert(line.subrange(0, p.len() as int)[0] == line[0]);
    }
}

/// A line that starts with none of the characters that the described lines do.
proof fn lemma_described_step(s: PatchState, f: FileDiffView, line: Seq<char>, g: FileDiffView)
    requires
        holds_file(s, f),
        line.len() > 0,
        !text::starts_with(line, "diff --git "@),
        cli::described(f, line) == Some(g),
    ensures
        holds_file(cli::patch_step(s, line), g),
{
    assert(s.files.last() == f);
    assert(diff::with_last(s.files, g) =~= seq![g]);
}

proof fn lemma_ignored_step(s: PatchState, f: FileDiffView, line: Seq<char>)
    requires
        holds_file(s, f),
        line.len() > 0,
        !text::starts_with(line, "diff --git "@),
        cli::described(f, line) is None,
        cli::hunk_header(line) is None,
    ensures
        holds_file(cli::patch_step(s, line), f),
{
    assert(s.files.last() == f);
}

proof fn lemma_heads()
    ensures
        "diff --git "@[0] == 'd' && "diff --git "@.len() == 11,
        "new file mode"@[0] == 'n' && "new file mode"@.len() == 13,
        "deleted file mode"@[0] == 'd' && "deleted file mode"@[1] == 'e' && "deleted file mode"@.len()
            == 17,
        "diff --git "@[1] == 'i',
        "rename from "@[0] == 'r' && "rename from "@[7] == 'f' && "rename from "@.len() == 12,
        "rename to "@[0] == 'r' && "rename to "@[7] == 't' && "rename to "@.len() == 10,
        "Binary files "@[0] == 'B' && "Binary files "@.len() == 13,
        "GIT binary patch"@[0] == 'G',
        "--- "@[0] == '-' && "--- "@.len() == 4,
        "+++ "@[0] == '+' && "+++ "@.len() == 4,
        "@@ -"@[0] == '@' && "@@ -"@.len() == 4,
        "a/"@ == seq!['a', '/'],
        "b/"@ == seq!['b', '/'],
{
    reveal_strlit("diff --git ");
    reveal_strlit("new file mode");
    reveal_strlit("deleted file mode");
    reveal_strlit("rename from ");
    reveal_strlit("rename to ");
    reveal_strlit("Binary files ");
    reveal_strlit("GIT binary patch");
    reveal_strlit("--- ");
    reveal_strlit("+++ ");
    reveal_strlit("@@ -");
    reveal_strlit("a/");
    reveal_strlit("b/");
    assert("a/"@ =~= seq!['a', '/']);
    assert("b/"@ =~= seq!['b', '/']);
}

/// Lines that start otherwise are no described lines.
proof fn lemma_not_described(f: FileDiffView, line: Seq<char>)
    requires
        line.len() > 0,
        line[0] != 'n' && line[0] != 'd' && line[0] != 'r' && line[0] != 'B' && line[0] != 'G'
            && line[0] != '-' && line[0] != '+',
    ensures
        cli::described(f, line) is None,
        !text::starts_with(line, "diff --git "@),
{
    lemma_heads();
    lemma_other_start(line, "diff --git "@);
    lemma_other_start(line, "new file mode"@);
    lemma_other_start(line, "deleted file mode"@);
    lemma_other_start(line, "rename from "@);
    lemma_other_start(line, "rename to "@);
    lemma_other_start(line, "Binary files "@);
    lemma_other_start(line, "--- "@);
    lemma_other_start(line, "+++ "@);
}

// ---- reading a hunk ---------------------------------------------------------------------

/// How many of the lines are of an origin.
spec fn of_origin(lines: Seq<LineText>, c: char) -> nat {
    lines.filter(|l: LineText| l.origin == c).len()
}

/// The file after the first `i` lines of a hunk.
spec fn with_lines(f: FileDiffView, h: HunkText, i: int) -> FileDiffView {
    FileDiffView {
        hunks: f.hunks.push(HunkView { header: h.header(), lines: h.read().lines.take(i) }),
        additions: (f.additions + of_origin(h.lines.take(i), '+')) as usize,
        deletions: (f.deletions + of_origin(h.lines.take(i), '-')) as usize,
        ..f
    }
}

proof fn lemma_counts(lines: Seq<LineText>, i: int)
    requires
        0 <= i < lines.len(),
    ensures
        on_old(lines.take(i + 1)) == on_old(lines.take(i)) + (if lines[i].origin != '+' {
            1nat
        } else {
            0
        }),
        on_new(lines.take(i + 1)) == on_new(lines.take(i)) + (if lines[i].origin != '-' {
            1nat
        } else {
            0
        }),
        of_origin(lines.take(i + 1), '+') == of_origin(lines.take(i), '+') + (if lines[i].origin
            == '+' {
            1nat
        } else {
            0
        }),
        of_origin(lines.take(i + 1), '-') == of_origin(lines.take(i), '-') + (if lines[i].origin
            == '-' {
            1nat
        } else {
            0
        }),
{
    reveal(Seq::filter);
    assert(lines.take(i + 1).drop_last() =~= lines.take(i));
    assert(lines.take(i + 1).last() == lines[i]);
}

proof fn lemma_counts_bounded(lines: Seq<LineText>, i: int)
    requires
        0 <= i <= lines.len(),
    ensures
        on_old(lines.take(i)) <= on_old(lines) <= lines.len(),
        on_new(lines.take(i)) <= on_new(lines) <= lines.len(),
        of_origin(lines.take(i), '+') <= i,
        of_origin(lines.take(i), '-') <= i,
    decreases lines.len() - i,
{
    broadcast use vstd::seq_lib::group_filter_ensures;

    assert(lines.take(lines.len() as int) =~= lines);
    if i < lines.len() {
        lemma_counts_bounded(lines, i + 1);
        lemma_counts(lines, i);
    }
}

/// What is known after the first `i` lines of a hunk.
spec fn in_hunk(s: PatchState, f: FileDiffView, h: HunkText, i: int) -> bool {
    let done = h.lines.take(i);
    &&& s.files == seq![with_lines(f, h, i)]
    &&& s.old_ln == h.old_start + on_old(done)
    &&& s.new_ln == h.new_start + on_new(done)
    &&& s.old_left == on_old(h.lines) - on_old(done)
    &&& s.new_left == on_new(h.lines) - on_new(done)
}

proof fn lemma_hunk_line(s: PatchState, f: FileDiffView, h: HunkText, i: int)
    requires
        h.ok(),
        0 <= i < h.lines.len(),
        f.additions + h.lines.len() <= usize::MAX,
        f.deletions + h.lines.len() <= usize::MAX,
        in_hunk(s, f, h, i),
    ensures
        in_hunk(cli::patch_step(s, seq![h.lines[i].origin] + h.lines[i].content), f, h, i + 1),
{
    let l = h.lines[i];
    let line = seq![l.origin] + l.content;
    let next = cli::patch_step(s, line);
    lemma_heads();
    lemma_other_start(line, "diff --git "@);
    lemma_counts(h.lines, i);
    lemma_counts_bounded(h.lines, i);
    lemma_counts_bounded(h.lines, i + 1);
    assert(line[0] == l.origin);
    assert(line.skip(1) =~= l.content);
    let g = with_lines(f, h, i);
    assert(s.files.last() == g);
    let all = h.read().lines;
    assert(all[i] == h.line(i));
    let grown = diff::with_line(g, h.line(i));
    assert(g.hunks.last().lines.push(h.line(i)) =~= all.take(i + 1));
    assert(grown.hunks =~= with_lines(f, h, i + 1).hunks);
    assert(grown =~= with_lines(f, h, i + 1));
    assert(diff::with_last(s.files, grown) =~= seq![with_lines(f, h, i + 1)]);
}

proof fn lemma_hunk_lines(s: PatchState, f: FileDiffView, h: HunkText, i: int)
    requires
        h.ok(),
        0 <= i <= h.lines.len(),
        f.additions + h.lines.len() <= usize::MAX,
        f.deletions + h.lines.len() <= usize::MAX,
        in_hunk(s, f, h, 0),
    ensures
        in_hunk(
            run_from(s, h.lines.map_values(|l: LineText| seq![l.origin] + l.content).take(i)),
            f,
            h,
            i,
        ),
    decreases i,
{
    let texts = h.lines.map_values(|l: LineText| seq![l.origin] + l.content);
    if i > 0 {
        lemma_hunk_lines(s, f, h, i - 1);
        assert(texts.take(i).drop_last() =~= texts.take(i - 1));
        assert(texts.take(i).last() == seq![h.lines[i - 1].origin] + h.lines[i - 1].content);
        lemma_hunk_line(run_from(s, texts.take(i - 1)), f, h, i - 1);
    }
}

/// A printed hunk is read as that hunk, behind those read before.
proof fn lemma_hunk_read(s: PatchState, f: FileDiffView, h: HunkText)
    requires
        h.ok(),
        holds_file(s, f),
        f.additions + h.lines.len() <= usize::MAX,
        f.deletions + h.lines.len() <= usize::MAX,
    ensures
        holds_file(
            run_from(s, h.printed()),
            (FileDiffView {
                hunks: f.hunks.push(h.read()),
                additions: (f.additions + of_origin(h.lines, '+')) as usize,
                deletions: (f.deletions + of_origin(h.lines, '-')) as usize,
                ..f
            }),
        ),
{
    let n = h.lines.len() as int;
    let texts = h.lines.map_values(|l: LineText| seq![l.origin] + l.content);
    lemma_heads();
    lemma_counts_bounded(h.lines, n);
    assert(h.lines.take(n) =~= h.lines);
    assert(texts.take(n) =~= texts);
    assert(h.read().lines.take(n) =~= h.read().lines);
    assert(h.read().lines.take(0) =~= Seq::empty());
    assert(h.lines.take(0) =~= Seq::empty());
    assert(on_old(h.lines.take(0)) == 0 && on_new(h.lines.take(0)) == 0 && of_origin(
        h.lines.take(0),
        '+',
    ) == 0 && of_origin(h.lines.take(0), '-') == 0) by {
        reveal(Seq::filter);
    }
    let header = h.header();
    assert(header[0] == '@');
    lemma_not_described(f, header);
    lemma_header_reads_as_printed(
        h.old_start,
        on_old(h.lines),
        h.new_start,
        on_new(h.lines),
        false,
        false,
        h.tail,
    );
    let opened = cli::patch_step(s, header);
    assert(s.files.last() == f);
    assert(diff::with_hunk(f, header).hunks =~= with_lines(f, h, 0).hunks);
    assert(diff::with_hunk(f, header) =~= with_lines(f, h, 0));
    assert(diff::with_last(s.files, diff::with_hunk(f, header)) =~= seq![with_lines(f, h, 0)]);
    assert(in_hunk(opened, f, h, 0));
    lemma_hunk_lines(opened, f, h, n);
    lemma_run_one(s, header);
    lemma_run_add(s, seq![header], texts);
    let want = FileDiffView {
        hunks: f.hunks.push(h.read()),
        additions: (f.additions + of_origin(h.lines, '+')) as usize,
        deletions: (f.deletions + of_origin(h.lines, '-')) as usize,
        ..f
    };
    assert(with_lines(f, h, n).hunks =~= want.hunks);
    assert(with_lines(f, h, n) =~= want);
}

/// The file with the first `n` hunks read.
spec fn with_hunks(f: FileDiffView, hunks: Seq<HunkText>) -> FileDiffView {
    FileDiffView {
        hunks: hunks.map_values(|h: HunkText| h.read()),
        additions: of_origin(all_lines(hunks), '+') as usize,
        deletions: of_origin(all_lines(hunks), '-') as usize,
        ..f
    }
}

proof fn lemma_hunks_read(s: PatchState, f: FileDiffView, hunks: Seq<HunkText>)
    requires
        holds_file(s, f),
        f.hunks.len() == 0 && f.additions == 0 && f.deletions == 0,
        forall|i: int| 0 <= i < hunks.len() ==> (#[trigger] hunks[i]).ok(),
        all_lines(hunks).len() <= usize::MAX,
    ensures
        holds_file(run_from(s, printed_hunks(hunks)), with_hunks(f, hunks)),
    decreases hunks.len(),
{
    broadcast use vstd::seq_lib::group_filter_ensures;

    if hunks.len() == 0 {
        reveal(Seq::filter);
        assert(with_hunks(f, hunks).hunks =~= f.hunks);
        assert(with_hunks(f, hunks) =~= f);
    } else {
        let front = hunks.drop_last();
        let h = hunks.last();
        assert(hunks[hunks.len() - 1].ok());
        assert forall|i: int| 0 <= i < front.len() implies (#[trigger] front[i]).ok() by {
            assert(front[i] == hunks[i]);
        }
        lemma_hunks_read(s, f, front);
        let before = run_from(s, printed_hunks(front));
        let g = with_hunks(f, front);
        let plus = |l: LineText| l.origin == '+';
        let minus = |l: LineText| l.origin == '-';
        Seq::filter_distributes_over_add(all_lines(front), h.lines, plus);
        Seq::filter_distributes_over_add(all_lines(front), h.lines, minus);
        assert(all_lines(front).filter(plus).len() <= all_lines(front).len());
        assert(all_lines(front).filter(minus).len() <= all_lines(front).len());
        assert(h.lines.filter(plus).len() <= h.lines.len());
        assert(h.lines.filter(minus).len() <= h.lines.len());
        assert(of_origin(all_lines(front), '+') == all_lines(front).filter(plus).len());
        assert(of_origin(all_lines(front), '-') == all_lines(front).filter(minus).len());
        assert(of_origin(h.lines, '+') == h.lines.filter(plus).len());
        assert(of_origin(h.lines, '-') == h.lines.filter(minus).len());
        assert(of_origin(all_lines(hunks), '+') == all_lines(hunks).filter(plus).len());
        assert(of_origin(all_lines(hunks), '-') == all_lines(hunks).filter(minus).len());
        lemma_hunk_read(before, g, h);
        lemma_run_add(s, printed_hunks(front), h.printed());
        assert(g.hunks.push(h.read()) =~= with_hunks(f, hunks).hunks);
        assert(run_from(s, printed_hunks(hunks)).files[0] =~= with_hunks(f, hunks));
    }
}

// ---- reading a file ---------------------------------------------------------------------

proof fn lemma_other_at(line: Seq<char>, p: Seq<char>, k: int)
    requires
        0 <= k < line.len(),
        k < p.len(),
        line[k] != p[k],
    ensures
        !text::starts_with(line, p),
{
    if text::starts_with(line, p) {
        assert(line.subrange(0, p.len() as int)[k] == line[k]);
    }
}

proof fn lemma_plain_guess(first: Seq<char>, path: Seq<char>)
    requires
        plain_name(path),
    ensures
        cli::guessed_path(first + seq![' '] + ("b/"@ + path)) == path,
{
    lemma_heads();
    reveal_strlit(" b/");
    let p = " b/"@;
    let rest = first + seq![' '] + ("b/"@ + path);
    let at = first.len() as int;
    assert(rest.last() == path.last());
    assert(path.contains(path.last()));
    assert(rest.subrange(at, at + 3) =~= p);
    assert forall|i: int| at < i <= rest.len() - p.len() implies !#[trigger] text::occurs_at(
        rest,
        p,
        i,
    ) by {
        if text::occurs_at(rest, p, i) {
            assert(rest.subrange(i, i + 3)[0] == ' ');
            assert(rest[i] == ' ');
            assert(i >= at + 3);
            assert(path.subrange(i - at - 3, i - at) =~= rest.subrange(i, i + 3));
            assert(text::occurs_at(path, p, i - at - 3));
        }
    }
    patch_laws::lemma_last_place(rest, p, at, rest.len() - p.len());
    assert(rest.skip(at + 3) =~= path);
    assert(path.contains(path[0]));
}

impl FileText {
    /// The file before its hunks.
    spec fn bare(self) -> FileDiffView {
        FileDiffView { hunks: Seq::empty(), additions: 0, deletions: 0, binary: false, ..self.read() }
    }
}

proof fn lemma_first_line_read(f: FileText)
    requires
        f.ok(),
    ensures
        holds_file(
            cli::patch_step(cli::patch_start(), f.first_line()),
            cli::fresh_file(f.path),
        ),
{
    lemma_heads();
    let a = f.name("a/"@, f.old_name());
    let b = f.name("b/"@, f.path);
    let rest = a + seq![' '] + b;
    patch_laws::lemma_starts("diff --git "@, rest);
    if f.quoted {
        patch_laws::lemma_quoted_guess_is_exact(a, f.path);
    } else {
        lemma_plain_guess(a, f.path);
    }
    assert(cli::guessed_path(rest) == f.path);
    let next = cli::patch_step(cli::patch_start(), f.first_line());
    assert(next.files =~= seq![cli::fresh_file(f.path)]);
}

proof fn lemma_rename_name(f: FileText, path: Seq<char>)
    requires
        !f.quoted ==> plain_name(path),
    ensures
        cli::unquoted(f.name(Seq::empty(), path)) == path,
{
    assert(Seq::<char>::empty() + path =~= path);
    patch_laws::lemma_unquoting_undoes_quoting(path);
    if !f.quoted {
        assert(path.contains(path[0]));
    }
}

proof fn lemma_change_read(f: FileText, s: PatchState)
    requires
        f.ok(),
        holds_file(s, cli::fresh_file(f.path)),
    ensures
        holds_file(run_from(s, f.change_lines()), f.bare()),
{
    lemma_heads();
    let f0 = cli::fresh_file(f.path);
    match f.change {
        Change::Modified => {
            assert(f.bare() =~= f0);
        },
        Change::Added => {
            let line = "new file mode 100644"@;
            reveal_strlit("new file mode 100644");
            reveal_strlit("new file mode");
            assert(line.subrange(0, 13) =~= "new file mode"@);
            lemma_other_start(line, "diff --git "@);
            assert(f.bare() =~= (FileDiffView { status: FileStatus::Added, ..f0 }));
            lemma_described_step(s, f0, line, f.bare());
            lemma_run_one(s, line);
        },
        Change::Deleted => {
            let line = "deleted file mode 100644"@;
            reveal_strlit("deleted file mode 100644");
            reveal_strlit("deleted file mode");
            assert(line.subrange(0, 17) =~= "deleted file mode"@);
            lemma_other_at(line, "diff --git "@, 1);
            lemma_other_start(line, "new file mode"@);
            assert(f.bare() =~= (FileDiffView { status: FileStatus::Deleted, ..f0 }));
            lemma_described_step(s, f0, line, f.bare());
            lemma_run_one(s, line);
        },
        Change::Renamed(from) => {
            let l1 = "rename from "@ + f.name(Seq::empty(), from);
            let l2 = "rename to "@ + f.name(Seq::empty(), f.path);
            patch_laws::lemma_starts("rename from "@, f.name(Seq::empty(), from));
            patch_laws::lemma_starts("rename to "@, f.name(Seq::empty(), f.path));
            lemma_rename_name(f, from);
            lemma_rename_name(f, f.path);
            assert(l1[0] == 'r' && l2[0] == 'r' && l2[7] == 't');
            lemma_other_start(l1, "diff --git "@);
            lemma_other_start(l1, "new file mode"@);
            lemma_other_start(l1, "deleted file mode"@);
            lemma_other_start(l2, "diff --git "@);
            lemma_other_start(l2, "new file mode"@);
            lemma_other_start(l2, "deleted file mode"@);
            lemma_other_at(l2, "rename from "@, 7);
            let f1 = FileDiffView { status: FileStatus::Renamed, old_path: Some(from), ..f0 };
            lemma_described_step(s, f0, l1, f1);
            let s1 = cli::patch_step(s, l1);
            assert(f.bare() =~= (FileDiffView { path: f.path, ..f1 }));
            lemma_described_step(s1, f1, l2, f.bare());
            lemma_run_one(s, l1);
            lemma_run_one(s1, l2);
            lemma_run_add(s, seq![l1], seq![l2]);
            assert(f.change_lines() =~= seq![l1] + seq![l2]);
        },
    }
}

/// A header line is read as one: the path is taken from it unless something
/// else has named the file.
proof fn lemma_side_read(
    f: FileText,
    s: PatchState,
    mark: Seq<char>,
    side: Seq<char>,
    path: Seq<char>,
)
    requires
        f.ok(),
        holds_file(s, f.bare()),
        (mark == "--- "@ && side == "a/"@ && path == f.old_name() && !(f.change is Added)) || (mark
            == "+++ "@ && side == "b/"@ && path == f.path && !(f.change is Deleted)),
    ensures
        holds_file(cli::patch_step(s, mark + f.name(side, path)), f.bare()),
{
    lemma_heads();
    let line = mark + f.name(side, path);
    let g = f.bare();
    assert(line[0] == mark[0]);
    patch_laws::lemma_header_names_its_file(mark, side, path);
    if !f.quoted {
        assert((side + path).last() == path.last());
        assert(path.contains(path.last()));
    }
    assert(cli::header_path(line, mark, side) == Some(path));
    lemma_other_start(line, "diff --git "@);
    lemma_other_start(line, "new file mode"@);
    lemma_other_start(line, "deleted file mode"@);
    lemma_other_start(line, "rename from "@);
    lemma_other_start(line, "rename to "@);
    lemma_other_start(line, "Binary files "@);
    if mark == "+++ "@ {
        lemma_other_start(line, "--- "@);
    }
    assert(cli::described(g, line) is Some);
    assert(cli::described(g, line)->0 =~= g);
    lemma_described_step(s, g, line, g);
}

proof fn lemma_null_read(f: FileText, s: PatchState, line: Seq<char>)
    requires
        holds_file(s, f.bare()),
        line == "--- /dev/null"@ || line == "+++ /dev/null"@,
    ensures
        holds_file(cli::patch_step(s, line), f.bare()),
{
    lemma_heads();
    reveal_strlit("--- /dev/null");
    reveal_strlit("+++ /dev/null");
    reveal_strlit("--- ");
    reveal_strlit("+++ ");
    let g = f.bare();
    lemma_other_start(line, "diff --git "@);
    lemma_other_start(line, "new file mode"@);
    lemma_other_start(line, "deleted file mode"@);
    lemma_other_start(line, "rename from "@);
    lemma_other_start(line, "rename to "@);
    lemma_other_start(line, "Binary files "@);
    lemma_other_start(line, "@@ -"@);
    if line == "--- /dev/null"@ {
        lemma_other_start(line, "+++ "@);
    } else {
        lemma_other_start(line, "--- "@);
    }
    let rest = line.skip(4);
    assert(rest[0] == '/' && rest.last() == 'l');
    lemma_other_start(rest, "a/"@);
    lemma_other_start(rest, "b/"@);
    lemma_ignored_step(s, g, line);
}

proof fn lemma_sides_read(f: FileText, s: PatchState)
    requires
        f.ok(),
        holds_file(s, f.bare()),
    ensures
        holds_file(run_from(s, f.side_lines()), f.bare()),
{
    let l1 = f.side_lines()[0];
    let l2 = f.side_lines()[1];
    if f.change is Added {
        lemma_null_read(f, s, l1);
    } else {
        lemma_side_read(f, s, "--- "@, "a/"@, f.old_name());
    }
    let s1 = cli::patch_step(s, l1);
    if f.change is Deleted {
        lemma_null_read(f, s1, l2);
    } else {
        lemma_side_read(f, s1, "+++ "@, "b/"@, f.path);
    }
    lemma_run_one(s, l1);
    lemma_run_one(s1, l2);
    lemma_run_add(s, seq![l1], seq![l2]);
    assert(f.side_lines() =~= seq![l1] + seq![l2]);
}

proof fn lemma_file_read(f: FileText)
    requires
        f.ok(),
    ensures
        cli::patch_run(f.printed()).files == seq![f.read()],
{
    let start = cli::patch_start();
    let one = seq![f.first_line()];
    let s1 = cli::patch_step(start, f.first_line());
    lemma_first_line_read(f);
    lemma_run_one(start, f.first_line());
    lemma_change_read(f, s1);
    lemma_run_add(start, one, f.change_lines());
    let s2 = run_from(start, one + f.change_lines());
    lemma_run_from_start(f.printed());
    if f.binary {
        lemma_heads();
        let line = "Binary files differ"@;
        reveal_strlit("Binary files differ");
        reveal_strlit("Binary files ");
        assert(line.subrange(0, 13) =~= "Binary files "@);
        lemma_other_start(line, "diff --git "@);
        lemma_other_start(line, "new file mode"@);
        lemma_other_start(line, "deleted file mode"@);
        lemma_other_start(line, "rename from "@);
        lemma_other_start(line, "rename to "@);
        let g = FileDiffView { binary: true, ..f.bare() };
        lemma_described_step(s2, f.bare(), line, g);
        lemma_run_one(s2, line);
        lemma_run_add(start, one + f.change_lines(), seq![line]);
        assert(g =~= f.read());
    } else if f.hunks.len() > 0 {
        lemma_sides_read(f, s2);
        let s3 = run_from(s2, f.side_lines());
        lemma_hunks_read(s3, f.bare(), f.hunks);
        lemma_run_add(s2, f.side_lines(), printed_hunks(f.hunks));
        lemma_run_add(
            start,
            one + f.change_lines(),
            f.side_lines() + printed_hunks(f.hunks),
        );
        assert(with_hunks(f.bare(), f.hunks) =~= f.read());
    } else {
        assert(f.printed() =~= one + f.change_lines());
        assert(all_lines(f.hunks).filter(|l: LineText| l.origin == '+').len() == 0
            && all_lines(f.hunks).filter(|l: LineText| l.origin == '-').len() == 0) by {
            reveal(Seq::filter);
        }
        assert(f.read().hunks =~= Seq::empty());
        assert(f.bare() =~= f.read());
    }
}

/// The lines of a whole patch.
pub open spec fn printed_files(files: Seq<FileText>) -> Seq<Seq<char>>
    decreases files.len(),
{
    if files.len() == 0 {
        Seq::empty()
    } else {
        printed_files(files.drop_last()) + files.last().printed()
    }
}

proof fn lemma_files_read(files: Seq<FileText>)
    requires
        forall|i: int| 0 <= i < files.len() ==> (#[trigger] files[i]).ok(),
    ensures
        cli::patch_run(printed_files(files)).files == files.map_values(|f: FileText| f.read()),
    decreases files.len(),
{
    if files.len() == 0 {
        assert(cli::patch_run(printed_files(files)).files =~= files.map_values(
            |f: FileText| f.read(),
        ));
    } else {
        let front = files.drop_last();
        let f = files.last();
        assert(files[files.len() - 1].ok());
        assert forall|i: int| 0 <= i < front.len() implies (#[trigger] front[i]).ok() by {
            assert(front[i] == files[i]);
        }
        lemma_files_read(front);
        lemma_file_read(f);
        let q = f.printed();
        assert(q[0] == f.first_line());
        lemma_heads();
        patch_laws::lemma_starts(
            "diff --git "@,
            f.name("a/"@, f.old_name()) + seq![' '] + f.name("b/"@, f.path),
        );
        patch_laws::lemma_run_alongside(printed_files(front), q);
        assert(cli::patch_run(printed_files(files)).files =~= files.map_values(
            |f: FileText| f.read(),
        ));
    }
}

/// Reading a patch gives back the files that it was printed from: their paths
/// and what happened to them, their hunks, and every line with its origin, its
/// content and its number on either side.
pub proof fn lemma_patch_reads_as_printed(files: Seq<FileText>)
    requires
        forall|i: int| 0 <= i < files.len() ==> (#[trigger] files[i]).ok(),
        forall|i: int|
            0 <= i < printed_files(files).len() ==> lines::one_line(
                #[trigger] printed_files(files)[i],
            ),
    ensures
        cli::patch_files(lines::joined(printed_files(files))) == files.map_values(
            |f: FileText| f.read(),
        ),
{
    lines::lemma_lines_of_joined(printed_files(files));
    lemma_files_read(files);
}

// ---- where hunks start ------------------------------------------------------------------

/// Line `i` is the first one on the old side.
pub open spec fn first_old(lines: Seq<DiffLineView>, i: int) -> bool {
    &&& 0 <= i < lines.len()
    &&& lines[i].old_lineno is Some
    &&& forall|j: int| 0 <= j < i ==> (#[trigger] lines[j]).old_lineno is None
}

/// Line `i` is the first one on the new side.
pub open spec fn first_new(lines: Seq<DiffLineView>, i: int) -> bool {
    &&& 0 <= i < lines.len()
    &&& lines[i].new_lineno is Some
    &&& forall|j: int| 0 <= j < i ==> (#[trigger] lines[j]).new_lineno is None
}

spec fn old_start(header: Seq<char>) -> u32 {
    match cli::hunk_header(header) {
        Some((a, _, _, _)) => a as u32,
        None => 0,
    }
}

spec fn new_start(header: Seq<char>) -> u32 {
    match cli::hunk_header(header) {
        Some((_, _, c, _)) => c as u32,
        None => 0,
    }
}

/// The first line of a side has the number that the header says.
spec fn starts_right(h: HunkView) -> bool {
    &&& cli::hunk_header(h.header) is Some
    &&& forall|i: int|
        #![trigger h.lines[i]]
        first_old(h.lines, i) ==> h.lines[i].old_lineno == Some(
            old_start(h.header),
        )
    &&& forall|i: int|
        #![trigger h.lines[i]]
        first_new(h.lines, i) ==> h.lines[i].new_lineno == Some(
            new_start(h.header),
        )
}

/// While a hunk has no line of a side, the number it starts with is next.
spec fn about_to_start(s: PatchState) -> bool {
    let h = s.files.last().hunks.last();
    &&& (forall|j: int| 0 <= j < h.lines.len() ==> (#[trigger] h.lines[j]).old_lineno is None)
        ==> s.old_ln == old_start(h.header)
    &&& (forall|j: int| 0 <= j < h.lines.len() ==> (#[trigger] h.lines[j]).new_lineno is None)
        ==> s.new_ln == new_start(h.header)
}

spec fn all_start_right(s: PatchState) -> bool {
    &&& forall|f: int, h: int|
        0 <= f < s.files.len() && 0 <= h < s.files[f].hunks.len() ==> starts_right(
            #[trigger] s.files[f].hunks[h],
        )
    &&& s.files.len() > 0 && s.files.last().hunks.len() > 0 ==> about_to_start(s)
}

proof fn lemma_content_starts(s: PatchState, line: DiffLineView)
    requires
        all_start_right(s),
        s.files.len() > 0,
        s.files.last().hunks.len() > 0,
        line.old_lineno is Some ==> line.old_lineno == Some(s.old_ln),
        line.new_lineno is Some ==> line.new_lineno == Some(s.new_ln),
    ensures
        ({
            let f = s.files.last();
            let h = f.hunks.last();
            starts_right(HunkView { header: h.header, lines: h.lines.push(line) })
        }),
{
    let f = s.files.last();
    let h = f.hunks.last();
    let all = h.lines.push(line);
    assert(starts_right(s.files[s.files.len() - 1].hunks[f.hunks.len() - 1]));
    assert forall|i: int|
        #![trigger all[i]]
        first_old(all, i) implies all[i].old_lineno == Some(
        old_start(h.header),
    ) by {
        if i < h.lines.len() {
            assert(all[i] == h.lines[i]);
            assert forall|j: int| 0 <= j < i implies (#[trigger] h.lines[j]).old_lineno is None by {
                assert(all[j].old_lineno is None);
            }
            assert(first_old(h.lines, i));
        } else {
            assert forall|j: int| 0 <= j < h.lines.len() implies (
            #[trigger] h.lines[j]).old_lineno is None by {
                assert(all[j].old_lineno is None);
            }
        }
    }
    assert forall|i: int|
        #![trigger all[i]]
        first_new(all, i) implies all[i].new_lineno == Some(
        new_start(h.header),
    ) by {
        if i < h.lines.len() {
            assert(all[i] == h.lines[i]);
            assert forall|j: int| 0 <= j < i implies (#[trigger] h.lines[j]).new_lineno is None by {
                assert(all[j].new_lineno is None);
            }
            assert(first_new(h.lines, i));
        } else {
            assert forall|j: int| 0 <= j < h.lines.len() implies (
            #[trigger] h.lines[j]).new_lineno is None by {
                assert(all[j].new_lineno is None);
            }
        }
    }
}

proof fn lemma_last_starts(s: PatchState, g: FileDiffView)
    requires
        forall|f: int, h: int|
            0 <= f < s.files.len() && 0 <= h < s.files[f].hunks.len() ==> starts_right(
                #[trigger] s.files[f].hunks[h],
            ),
        s.files.len() > 0,
        forall|h: int| 0 <= h < g.hunks.len() ==> starts_right(#[trigger] g.hunks[h]),
    ensures
        forall|f: int, h: int|
            0 <= f < diff::with_last(s.files, g).len() && 0 <= h < diff::with_last(
                s.files,
                g,
            )[f].hunks.len() ==> starts_right(
                #[trigger] diff::with_last(s.files, g)[f].hunks[h],
            ),
        diff::with_last(s.files, g).last() == g,
{
    let all = diff::with_last(s.files, g);
    assert forall|f: int, h: int|
        0 <= f < all.len() && 0 <= h < all[f].hunks.len() implies starts_right(
        #[trigger] all[f].hunks[h],
    ) by {
        if f < s.files.len() - 1 {
            assert(all[f] == s.files[f]);
            assert(starts_right(s.files[f].hunks[h]));
        } else {
            assert(all[f] == g);
        }
    }
}

proof fn lemma_step_starts(s: PatchState, line: Seq<char>)
    requires
        all_start_right(s),
    ensures
        all_start_right(cli::patch_step(s, line)),
{
    let next = cli::patch_step(s, line);
    if text::starts_with(line, "diff --git "@) {
        assert forall|f: int, h: int|
            0 <= f < next.files.len() && 0 <= h < next.files[f].hunks.len() implies starts_right(
            #[trigger] next.files[f].hunks[h],
        ) by {
            if f < s.files.len() {
                assert(next.files[f] == s.files[f]);
                assert(starts_right(s.files[f].hunks[h]));
            }
        }
        assert(next.files.last().hunks.len() == 0);
    } else if s.files.len() > 0 {
        let f = s.files.last();
        assert forall|h: int| 0 <= h < f.hunks.len() implies starts_right(
            #[trigger] f.hunks[h],
        ) by {
            assert(starts_right(s.files[s.files.len() - 1].hunks[h]));
        }
        if s.old_left > 0 || s.new_left > 0 {
            if f.hunks.len() > 0 && line.len() > 0 && diff::content_origin(line[0]) {
                let made = DiffLineView {
                    origin: line[0],
                    old_lineno: if line[0] == '+' {
                        None
                    } else {
                        Some(s.old_ln)
                    },
                    new_lineno: if line[0] == '-' {
                        None
                    } else {
                        Some(s.new_ln)
                    },
                    content: line.skip(1),
                    expanded_context: false,
                };
                lemma_content_starts(s, made);
                let g = diff::with_line(f, made);
                assert(next.files == diff::with_last(s.files, g));
                assert forall|h: int| 0 <= h < g.hunks.len() implies starts_right(
                    #[trigger] g.hunks[h],
                ) by {
                    if h < f.hunks.len() - 1 {
                        assert(g.hunks[h] == f.hunks[h]);
                    }
                }
                lemma_last_starts(s, g);
                let old_lines = f.hunks.last().lines;
                let lines = g.hunks.last().lines;
                assert(lines == old_lines.push(made));
                assert(lines[old_lines.len() as int] == made);
                if made.old_lineno is None {
                    assert((forall|j: int|
                        0 <= j < lines.len() ==> (#[trigger] lines[j]).old_lineno is None) ==> (
                    forall|j: int|
                        0 <= j < old_lines.len() ==> (#[trigger] old_lines[j]).old_lineno is None))
                        by {
                        assert forall|j: int| 0 <= j < old_lines.len() implies lines[j]
                            == #[trigger] old_lines[j] by {}
                    }
                }
                if made.new_lineno is None {
                    assert((forall|j: int|
                        0 <= j < lines.len() ==> (#[trigger] lines[j]).new_lineno is None) ==> (
                    forall|j: int|
                        0 <= j < old_lines.len() ==> (#[trigger] old_lines[j]).new_lineno is None))
                        by {
                        assert forall|j: int| 0 <= j < old_lines.len() implies lines[j]
                            == #[trigger] old_lines[j] by {}
                    }
                }
                assert(about_to_start(next));
            }
        } else {
            match cli::described(f, line) {
                Some(g) => {
                    assert(g.hunks == f.hunks);
                    lemma_last_starts(s, g);
                },
                None => {
                    if let Some((os, oc, ns, nc)) = cli::hunk_header(line) {
                        let g = diff::with_hunk(f, line);
                        assert forall|h: int| 0 <= h < g.hunks.len() implies starts_right(
                            #[trigger] g.hunks[h],
                        ) by {
                            if h < f.hunks.len() {
                                assert(g.hunks[h] == f.hunks[h]);
                            }
                        }
                        lemma_last_starts(s, g);
                    }
                },
            }
        }
    }
}

proof fn lemma_run_starts(lines: Seq<Seq<char>>)
    ensures
        all_start_right(cli::patch_run(lines)),
    decreases lines.len(),
{
    if lines.len() > 0 {
        lemma_run_starts(lines.drop_last());
        lemma_step_starts(cli::patch_run(lines.drop_last()), lines.last());
    }
}

/// In every hunk that was read, the first line of the old side has the number
/// that the header gives for it, and the first line of the new side that of the
/// new side, whatever the patch.
pub proof fn lemma_hunks_start_where_their_header_says(
    patch: Seq<char>,
    f: int,
    h: int,
    a: nat,
    b: nat,
    c: nat,
    d: nat,
    short_old: bool,
    short_new: bool,
    tail: Seq<char>,
)
    requires
        0 <= f < cli::patch_files(patch).len(),
        0 <= h < cli::patch_files(patch)[f].hunks.len(),
        a <= u32::MAX,
        c <= u32::MAX,
        b <= u64::MAX,
        d <= u64::MAX,
        short_old ==> b == 1,
        short_new ==> d == 1,
        cli::patch_files(patch)[f].hunks[h].header == header_text(
            range_text(a, b, short_old),
            range_text(c, d, short_new),
            tail,
        ),
    ensures
        ({
            let lines = cli::patch_files(patch)[f].hunks[h].lines;
            &&& forall|i: int|
                #![trigger lines[i]]
                first_old(lines, i) ==> lines[i].old_lineno == Some(a as u32)
            &&& forall|i: int|
                #![trigger lines[i]]
                first_new(lines, i) ==> lines[i].new_lineno == Some(c as u32)
        }),
{
    lemma_run_starts(text::lines(patch));
    lemma_header_reads_as_printed(a, b, c, d, short_old, short_new, tail);
    assert(starts_right(cli::patch_files(patch)[f].hunks[h]));
}

} // verus!
