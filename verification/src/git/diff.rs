//! The structured diff: files, hunks and lines.

use std::cmp::Ordering;

use crate::bytes;
use crate::deep;
use crate::git::order;
use crate::git::scope;
use crate::text;
use vstd::prelude::*;

verus! {

broadcast use crate::deep::group_deep;

/// One line inside a hunk.
#[derive(Debug, Clone)]
pub struct DiffLine {
    /// ' ' context, '+' addition, '-' deletion
    pub origin: char,
    pub old_lineno: Option<u32>,
    pub new_lineno: Option<u32>,
    pub content: String,
    /// Unchanged line that only the full-file display reveals.
    pub expanded_context: bool,
}

/// What a line holds.
#[verifier::ext_equal]
pub struct DiffLineView {
    pub origin: char,
    pub old_lineno: Option<u32>,
    pub new_lineno: Option<u32>,
    pub content: Seq<char>,
    pub expanded_context: bool,
}

impl View for DiffLine {
    type V = DiffLineView;

    open spec fn view(&self) -> DiffLineView {
        DiffLineView {
            origin: self.origin,
            old_lineno: self.old_lineno,
            new_lineno: self.new_lineno,
            content: self.content@,
            expanded_context: self.expanded_context,
        }
    }
}

impl DiffLine {
    /// A copy of the line.
    pub fn copy(&self) -> (r: DiffLine)
        ensures
            r@ == self@,
    {
        DiffLine {
            origin: self.origin,
            old_lineno: self.old_lineno,
            new_lineno: self.new_lineno,
            content: text::copy(self.content.as_str()),
            expanded_context: self.expanded_context,
        }
    }
}

#[derive(Debug, Clone)]
pub struct Hunk {
    pub header: String,
    pub lines: Vec<DiffLine>,
}

/// What a hunk holds.
#[verifier::ext_equal]
pub struct HunkView {
    pub header: Seq<char>,
    pub lines: Seq<DiffLineView>,
}

impl View for Hunk {
    type V = HunkView;

    open spec fn view(&self) -> HunkView {
        HunkView { header: self.header@, lines: deep::deep(self.lines@) }
    }
}

impl Hunk {
    /// A copy of the hunk.
    pub fn copy(&self) -> (r: Hunk)
        ensures
            r@ == self@,
    {
        let mut lines: Vec<DiffLine> = Vec::new();
        let mut i: usize = 0;
        while i < self.lines.len()
            invariant
                i <= self.lines@.len(),
                deep::deep(lines@) == deep::deep(self.lines@).take(i as int),
            decreases self.lines@.len() - i,
        {
            lines.push(self.lines[i].copy());
            i += 1;
            assert(deep::deep(self.lines@).take(i as int) =~= deep::deep(self.lines@).take(
                i - 1,
            ).push(self.lines@[i - 1]@));
        }
        assert(deep::deep(lines@) =~= deep::deep(self.lines@));
        Hunk { header: text::copy(self.header.as_str()), lines }
    }
}

#[derive(Debug, Clone, Copy, PartialEq, Eq, Structural)]
pub enum FileStatus {
    Modified,
    Added,
    Deleted,
    Renamed,
    Typechange,
}

impl FileStatus {
    /// The letter that stands for a status.
    pub open spec fn letter_of(self) -> char {
        match self {
            FileStatus::Modified => 'M',
            FileStatus::Added => 'A',
            FileStatus::Deleted => 'D',
            FileStatus::Renamed => 'R',
            FileStatus::Typechange => 'T',
        }
    }

    pub fn letter(self) -> (r: char)
        ensures
            r == self.letter_of(),
    {
        match self {
            FileStatus::Modified => 'M',
            FileStatus::Added => 'A',
            FileStatus::Deleted => 'D',
            FileStatus::Renamed => 'R',
            FileStatus::Typechange => 'T',
        }
    }
}

#[derive(Debug, Clone)]
pub struct FileDiff {
    /// Repo-relative path (new side; old side for deletions).
    pub path: String,
    /// Old path when renamed.
    pub old_path: Option<String>,
    pub status: FileStatus,
    pub binary: bool,
    /// Content skipped because the file exceeds the content size cap;
    /// the UI offers to load it on demand.
    pub large: bool,
    /// Size of the bigger side, for the stub label.
    pub byte_size: u64,
    /// An untracked directory, collapsed to one entry; Enter lists it.
    pub untracked_dir: bool,
    /// The hunks hold the whole file, not only the changes and their context.
    pub full_context: bool,
    pub hunks: Vec<Hunk>,
    pub additions: usize,
    pub deletions: usize,
}

/// What a file's diff holds.
#[verifier::ext_equal]
pub struct FileDiffView {
    pub path: Seq<char>,
    pub old_path: Option<Seq<char>>,
    pub status: FileStatus,
    pub binary: bool,
    pub large: bool,
    pub byte_size: u64,
    pub untracked_dir: bool,
    pub full_context: bool,
    pub hunks: Seq<HunkView>,
    pub additions: usize,
    pub deletions: usize,
}

impl View for FileDiff {
    type V = FileDiffView;

    open spec fn view(&self) -> FileDiffView {
        FileDiffView {
            path: self.path@,
            old_path: deep::deep_opt(self.old_path),
            status: self.status,
            binary: self.binary,
            large: self.large,
            byte_size: self.byte_size,
            untracked_dir: self.untracked_dir,
            full_context: self.full_context,
            hunks: deep::deep(self.hunks@),
            additions: self.additions,
            deletions: self.deletions,
        }
    }
}

/// A copy of an optional text.
pub fn copy_opt(s: &Option<String>) -> (r: Option<String>)
    ensures
        deep::deep_opt(r) == deep::deep_opt(*s),
{
    match s {
        Some(t) => Some(text::copy(t.as_str())),
        None => None,
    }
}

/// A copy of a list of hunks.
pub fn copy_hunks(hunks: &[Hunk]) -> (r: Vec<Hunk>)
    ensures
        deep::deep(r@) == deep::deep(hunks@),
{
    let mut out: Vec<Hunk> = Vec::new();
    let mut i: usize = 0;
    while i < hunks.len()
        invariant
            i <= hunks@.len(),
            deep::deep(out@) == deep::deep(hunks@).take(i as int),
        decreases hunks@.len() - i,
    {
        out.push(hunks[i].copy());
        i += 1;
        assert(deep::deep(hunks@).take(i as int) =~= deep::deep(hunks@).take(i - 1).push(
            hunks@[i - 1]@,
        ));
    }
    assert(deep::deep(out@) =~= deep::deep(hunks@));
    out
}

impl FileDiff {
    /// A copy of the file's diff.
    pub fn copy(&self) -> (r: FileDiff)
        ensures
            r@ == self@,
    {
        FileDiff {
            path: text::copy(self.path.as_str()),
            old_path: copy_opt(&self.old_path),
            status: self.status,
            binary: self.binary,
            large: self.large,
            byte_size: self.byte_size,
            untracked_dir: self.untracked_dir,
            full_context: self.full_context,
            hunks: copy_hunks(self.hunks.as_slice()),
            additions: self.additions,
            deletions: self.deletions,
        }
    }
}

/// A copy of a list of files.
pub fn copy_files(files: &[FileDiff]) -> (r: Vec<FileDiff>)
    ensures
        deep::deep(r@) == deep::deep(files@),
{
    let mut out: Vec<FileDiff> = Vec::new();
    let mut i: usize = 0;
    while i < files.len()
        invariant
            i <= files@.len(),
            deep::deep(out@) == deep::deep(files@).take(i as int),
        decreases files@.len() - i,
    {
        out.push(files[i].copy());
        i += 1;
        assert(deep::deep(files@).take(i as int) =~= deep::deep(files@).take(i - 1).push(
            files@[i - 1]@,
        ));
    }
    assert(deep::deep(out@) =~= deep::deep(files@));
    out
}

// ---- reading order --------------------------------------------------------------

/// Directories before files at each level, siblings alphabetical.
pub fn tree_order(a: &str, b: &str) -> (r: Ordering)
    ensures
        r == (if order::rank(a@, b@) < 0 {
            Ordering::Less
        } else if order::rank(a@, b@) == 0 {
            Ordering::Equal
        } else {
            Ordering::Greater
        }),
{
    let rank: i8 = order::rank_paths(a, b);
    if rank < 0 {
        Ordering::Less
    } else if rank == 0 {
        Ordering::Equal
    } else {
        Ordering::Greater
    }
}

/// `x` placed behind everything that does not come after it.
pub open spec fn insert_file(s: Seq<FileDiffView>, x: FileDiffView) -> Seq<FileDiffView>
    decreases s.len(),
{
    if s.len() == 0 || order::rank(s.last().path, x.path) <= 0 {
        s.push(x)
    } else {
        insert_file(s.drop_last(), x).push(s.last())
    }
}

/// The files in reading order; files of equal rank keep their order.
pub open spec fn sort_files(s: Seq<FileDiffView>) -> Seq<FileDiffView>
    decreases s.len(),
{
    if s.len() == 0 {
        s
    } else {
        insert_file(sort_files(s.drop_last()), s.last())
    }
}

/// Every file comes no later than those behind it.
pub open spec fn in_order(s: Seq<FileDiffView>) -> bool {
    forall|i: int, j: int|
        #![trigger s[i], s[j]]
        0 <= i < j < s.len() ==> order::rank(s[i].path, s[j].path) <= 0
}

proof fn lemma_insert_file(s: Seq<FileDiffView>, x: FileDiffView)
    requires
        in_order(s),
    ensures
        in_order(insert_file(s, x)),
        insert_file(s, x).to_multiset() == s.to_multiset().insert(x),
        insert_file(s, x).len() == s.len() + 1,
    decreases s.len(),
{
    broadcast use vstd::seq_lib::group_to_multiset_ensures;

    let r = insert_file(s, x);
    if s.len() == 0 {
    } else if order::rank(s.last().path, x.path) <= 0 {
        assert forall|i: int, j: int|
            #![trigger r[i], r[j]]
            0 <= i < j < r.len() implies order::rank(r[i].path, r[j].path) <= 0 by {
            if j == s.len() && i < s.len() - 1 {
                assert(order::rank(s[i].path, s.last().path) <= 0);
                order::lemma_rank_transitive(s[i].path, s.last().path, x.path);
            }
        }
    } else {
        let front = s.drop_last();
        assert(in_order(front));
        lemma_insert_file(front, x);
        order::lemma_rank_swap(s.last().path, x.path);
        let q = insert_file(front, x);
        assert(s =~= front.push(s.last()));
        assert(r.to_multiset() =~= s.to_multiset().insert(x));
        assert forall|i: int, j: int|
            #![trigger r[i], r[j]]
            0 <= i < j < r.len() implies order::rank(r[i].path, r[j].path) <= 0 by {
            if j == q.len() {
                assert(q.to_multiset().count(q[i]) > 0) by {
                    assert(q.contains(q[i]));
                }
                assert(r[i] == q[i]);
                if q[i] != x {
                    assert(front.to_multiset().count(q[i]) > 0);
                    assert(front.contains(q[i]));
                    let k = front.index_of(q[i]);
                    assert(s[k] == q[i]);
                    assert(order::rank(s[k].path, s.last().path) <= 0);
                }
            } else {
                assert(order::rank(q[i].path, q[j].path) <= 0);
            }
        }
    }
}

/// Sorting puts the files in reading order and neither adds nor drops one.
pub proof fn lemma_sort_files(s: Seq<FileDiffView>)
    ensures
        in_order(sort_files(s)),
        sort_files(s).to_multiset() == s.to_multiset(),
        sort_files(s).len() == s.len(),
    decreases s.len(),
{
    broadcast use vstd::seq_lib::group_to_multiset_ensures;

    if s.len() > 0 {
        lemma_sort_files(s.drop_last());
        lemma_insert_file(sort_files(s.drop_last()), s.last());
        assert(s =~= s.drop_last().push(s.last()));
    }
}

proof fn lemma_insert_split(s: Seq<FileDiffView>, x: FileDiffView, pos: int)
    requires
        0 <= pos <= s.len(),
        forall|i: int| pos <= i < s.len() ==> order::rank(#[trigger] s[i].path, x.path) > 0,
        pos > 0 ==> order::rank(s[pos - 1].path, x.path) <= 0,
    ensures
        insert_file(s, x) == s.insert(pos, x),
    decreases s.len(),
{
    if pos == s.len() {
        assert(s.insert(pos, x) =~= s.push(x));
    } else {
        assert(order::rank(s[s.len() - 1].path, x.path) > 0);
        lemma_insert_split(s.drop_last(), x, pos);
        assert(s.insert(pos, x) =~= s.drop_last().insert(pos, x).push(s.last()));
    }
}

/// Inserts a file behind everything that does not come after it. `keys` holds
/// the path components of the files, index by index.
fn insert_sorted(files: &mut Vec<FileDiff>, keys: &mut Vec<Vec<Vec<char>>>, x: FileDiff)
    requires
        old(keys)@.len() == old(files)@.len(),
        forall|i: int|
            0 <= i < old(files)@.len() ==> deep::deep(#[trigger] old(keys)@[i]@) == text::split(
                old(files)@[i].path@,
                '/',
            ),
    ensures
        deep::deep(final(files)@) == insert_file(deep::deep(old(files)@), x@),
        final(keys)@.len() == final(files)@.len(),
        forall|i: int|
            0 <= i < final(files)@.len() ==> deep::deep(#[trigger] final(keys)@[i]@)
                == text::split(final(files)@[i].path@, '/'),
{
    let key: Vec<Vec<char>> = order::components(x.path.as_str());
    let ghost s = deep::deep(files@);
    let mut pos: usize = files.len();
    while pos > 0 && order::rank_components(keys[pos - 1].as_slice(), key.as_slice()) > 0
        invariant
            pos <= files@.len(),
            keys@.len() == files@.len(),
            s == deep::deep(files@),
            deep::deep(key@) == text::split(x.path@, '/'),
            forall|i: int|
                0 <= i < files@.len() ==> deep::deep(#[trigger] keys@[i]@) == text::split(
                    files@[i].path@,
                    '/',
                ),
            forall|i: int| pos <= i < s.len() ==> order::rank(#[trigger] s[i].path, x@.path) > 0,
        decreases pos,
    {
        assert(deep::deep(keys@[pos - 1]@) == text::split(files@[pos - 1].path@, '/'));
        assert(s[pos - 1].path == files@[pos - 1].path@);
        pos -= 1;
    }
    proof {
        if pos > 0 {
            assert(deep::deep(keys@[pos - 1]@) == text::split(files@[pos - 1].path@, '/'));
            assert(s[pos - 1].path == files@[pos - 1].path@);
        }
        lemma_insert_split(s, x@, pos as int);
    }
    files.insert(pos, x);
    keys.insert(pos, key);
}

/// The files in reading order, stably.
fn sorted(files: Vec<FileDiff>) -> (r: Vec<FileDiff>)
    ensures
        deep::deep(r@) == sort_files(deep::deep(files@)),
{
    let ghost all = deep::deep(files@);
    let mut out: Vec<FileDiff> = Vec::new();
    let mut keys: Vec<Vec<Vec<char>>> = Vec::new();
    for f in it: files
        invariant
            deep::deep(it.seq()) == all,
            deep::deep(out@) == sort_files(all.take(it.index() as int)),
            keys@.len() == out@.len(),
            forall|i: int|
                0 <= i < out@.len() ==> deep::deep(#[trigger] keys@[i]@) == text::split(
                    out@[i].path@,
                    '/',
                ),
    {
        proof {
            let i = it.index() as int;
            assert(all.take(i + 1).drop_last() =~= all.take(i));
            assert(all.take(i + 1).last() == f@);
        }
        insert_sorted(&mut out, &mut keys, f);
    }
    assert(all.take(all.len() as int) =~= all);
    out
}

// ---- the whole diff -------------------------------------------------------------

#[derive(Debug)]
pub struct DiffResult {
    pub files: Vec<FileDiff>,
    pub additions: usize,
    pub deletions: usize,
}

/// What a diff holds.
#[verifier::ext_equal]
pub struct DiffView {
    pub files: Seq<FileDiffView>,
    pub additions: usize,
    pub deletions: usize,
}

impl View for DiffResult {
    type V = DiffView;

    open spec fn view(&self) -> DiffView {
        DiffView {
            files: deep::deep(self.files@),
            additions: self.additions,
            deletions: self.deletions,
        }
    }
}

impl Default for DiffResult {
    fn default() -> (r: Self)
        ensures
            r@ == (DiffView { files: Seq::empty(), additions: 0, deletions: 0 }),
    {
        let r = DiffResult { files: Vec::new(), additions: 0, deletions: 0 };
        assert(r@ =~= (DiffView { files: Seq::empty(), additions: 0, deletions: 0 }));
        r
    }
}

/// Added lines over all the files.
pub open spec fn total_additions(files: Seq<FileDiffView>) -> int
    decreases files.len(),
{
    if files.len() == 0 {
        0
    } else {
        total_additions(files.drop_last()) + files.last().additions
    }
}

/// Deleted lines over all the files.
pub open spec fn total_deletions(files: Seq<FileDiffView>) -> int
    decreases files.len(),
{
    if files.len() == 0 {
        0
    } else {
        total_deletions(files.drop_last()) + files.last().deletions
    }
}

/// A count as the machine holds it: modulo the word size.
pub open spec fn as_word(n: int) -> usize {
    (n % (usize::MAX + 1)) as usize
}

/// The diff of the given files: in reading order, with the totals.
pub open spec fn diff_of(files: Seq<FileDiffView>) -> DiffView {
    DiffView {
        files: sort_files(files),
        additions: as_word(total_additions(sort_files(files))),
        deletions: as_word(total_deletions(sort_files(files))),
    }
}

/// A count that fits the machine word is held exactly.
pub proof fn lemma_as_word(n: int)
    requires
        0 <= n <= usize::MAX,
    ensures
        as_word(n) == n,
{
    vstd::arithmetic::div_mod::lemma_small_mod(n as nat, (usize::MAX + 1) as nat);
}

proof fn lemma_word_add(n: int, x: usize)
    requires
        0 <= n,
    ensures
        as_word(n + x) == (if as_word(n) + x > usize::MAX {
            as_word(n) + x - (usize::MAX + 1)
        } else {
            as_word(n) + x
        }),
        0 <= n % (usize::MAX + 1) <= usize::MAX,
        0 <= (n + x) % (usize::MAX + 1) <= usize::MAX,
{
    let m: int = usize::MAX + 1;
    vstd::arithmetic::div_mod::lemma_mod_bound(n, m);
    vstd::arithmetic::div_mod::lemma_mod_bound(n + x, m);
    vstd::arithmetic::div_mod::lemma_add_mod_noop(n, x as int, m);
    vstd::arithmetic::div_mod::lemma_small_mod(x as nat, m as nat);
    let y: int = n % m + x;
    assert((n + x) % m == y % m);
    if y < m {
        vstd::arithmetic::div_mod::lemma_small_mod(y as nat, m as nat);
    } else {
        vstd::arithmetic::div_mod::lemma_mod_sub_multiples_vanish(y, m);
        vstd::arithmetic::div_mod::lemma_small_mod((y - m) as nat, m as nat);
    }
}

proof fn lemma_totals_nonnegative(files: Seq<FileDiffView>)
    ensures
        total_additions(files) >= 0,
        total_deletions(files) >= 0,
    decreases files.len(),
{
    if files.len() > 0 {
        lemma_totals_nonnegative(files.drop_last());
    }
}

impl DiffResult {
    /// Sort into tree order and compute totals.
    pub fn from_files(files: Vec<FileDiff>) -> (r: Self)
        ensures
            r@ == diff_of(deep::deep(files@)),
    {
        let files = sorted(files);
        let ghost all = deep::deep(files@);
        let mut additions: usize = 0;
        let mut deletions: usize = 0;
        let mut i: usize = 0;
        proof {
            lemma_as_word(0);
        }
        while i < files.len()
            invariant
                i <= files@.len(),
                all == deep::deep(files@),
                additions == as_word(total_additions(all.take(i as int))),
                deletions == as_word(total_deletions(all.take(i as int))),
            decreases files@.len() - i,
        {
            proof {
                let front = all.take(i as int);
                assert(all.take(i + 1).drop_last() =~= front);
                lemma_totals_nonnegative(front);
                lemma_word_add(total_additions(front), files@[i as int].additions);
                lemma_word_add(total_deletions(front), files@[i as int].deletions);
            }
            additions = additions.wrapping_add(files[i].additions);
            deletions = deletions.wrapping_add(files[i].deletions);
            i += 1;
        }
        assert(all.take(i as int) =~= all);
        DiffResult { files, additions, deletions }
    }

    /// A copy of the diff.
    pub fn copy(&self) -> (r: DiffResult)
        ensures
            r@ == self@,
    {
        DiffResult {
            files: copy_files(self.files.as_slice()),
            additions: self.additions,
            deletions: self.deletions,
        }
    }
}

// ---- collecting a diff delta by delta --------------------------------------------

/// How a file changed, as the object database reports it.
#[derive(Debug, Clone, Copy, PartialEq, Eq, Structural)]
pub enum Delta {
    Unmodified,
    Added,
    Deleted,
    Modified,
    Renamed,
    Copied,
    Ignored,
    Untracked,
    Typechange,
    Unreadable,
    Conflicted,
}

/// The status shown for a kind of change.
pub open spec fn status_of(delta: Delta) -> FileStatus {
    match delta {
        Delta::Added => FileStatus::Added,
        Delta::Untracked => FileStatus::Added,
        Delta::Copied => FileStatus::Added,
        Delta::Deleted => FileStatus::Deleted,
        Delta::Renamed => FileStatus::Renamed,
        Delta::Typechange => FileStatus::Typechange,
        _ => FileStatus::Modified,
    }
}

pub fn delta_status(delta: Delta) -> (r: FileStatus)
    ensures
        r == status_of(delta),
{
    match delta {
        Delta::Added | Delta::Untracked | Delta::Copied => FileStatus::Added,
        Delta::Deleted => FileStatus::Deleted,
        Delta::Renamed => FileStatus::Renamed,
        Delta::Typechange => FileStatus::Typechange,
        _ => FileStatus::Modified,
    }
}

/// One changed file as a diff walk announces it.
pub struct FileDelta {
    pub new_path: Option<String>,
    pub old_path: Option<String>,
    pub status: Delta,
    pub new_size: u64,
    pub old_size: u64,
    pub new_binary: bool,
    pub old_binary: bool,
}

impl FileDelta {
    /// The path the file is listed under.
    pub open spec fn path(&self) -> Seq<char> {
        match (self.new_path, self.old_path) {
            (Some(p), _) => p@,
            (None, Some(p)) => p@,
            (None, None) => Seq::empty(),
        }
    }

    /// Size of the bigger side.
    pub open spec fn bigger(&self) -> u64 {
        if self.new_size >= self.old_size {
            self.new_size
        } else {
            self.old_size
        }
    }

    /// Is the file too large to show its content up front?
    pub open spec fn over_cap(&self) -> bool {
        self.bigger() > scope::MAX_CONTENT_FILE_SIZE
    }

    /// The entry that the walk starts for the file.
    pub open spec fn entry(&self) -> FileDiffView {
        FileDiffView {
            path: self.path(),
            old_path: if self.status == Delta::Renamed || self.status == Delta::Copied {
                deep::deep_opt(self.old_path)
            } else {
                None
            },
            status: status_of(self.status),
            binary: !self.over_cap() && (self.new_binary || self.old_binary),
            large: self.over_cap(),
            byte_size: self.bigger(),
            untracked_dir: false,
            full_context: false,
            hunks: Seq::empty(),
            additions: 0,
            deletions: 0,
        }
    }
}

/// One more, in a machine word.
pub open spec fn bump(n: usize) -> usize {
    if n == usize::MAX {
        0
    } else {
        (n + 1) as usize
    }
}

/// `s` without trailing line terminators.
pub open spec fn strip_eol(s: Seq<char>) -> Seq<char>
    decreases s.len(),
{
    if s.len() > 0 && (s.last() == '\n' || s.last() == '\r') {
        strip_eol(s.drop_last())
    } else {
        s
    }
}

fn without_eol(s: &str) -> (r: String)
    ensures
        r@ == strip_eol(s@),
{
    let cs: Vec<char> = text::to_chars(s);
    let mut hi: usize = cs.len();
    assert(cs@.take(hi as int) =~= cs@);
    while hi > 0 && (cs[hi - 1] == '\n' || cs[hi - 1] == '\r')
        invariant
            hi <= cs@.len(),
            strip_eol(cs@.take(hi as int)) == strip_eol(cs@),
        decreases hi,
    {
        assert(cs@.take(hi as int).drop_last() =~= cs@.take(hi - 1));
        hi -= 1;
    }
    text::text_range(cs.as_slice(), 0, hi)
}

/// `s` with its last element replaced.
pub open spec fn with_last<T>(s: Seq<T>, x: T) -> Seq<T> {
    s.drop_last().push(x)
}

/// A file after a binary marker.
pub open spec fn marked_binary(f: FileDiffView) -> FileDiffView {
    FileDiffView { binary: true, ..f }
}

/// A file after a hunk header.
pub open spec fn with_hunk(f: FileDiffView, header: Seq<char>) -> FileDiffView {
    FileDiffView { hunks: f.hunks.push(HunkView { header, lines: Seq::empty() }), ..f }
}

/// A file after a content line: counted by its origin, and kept if a hunk is open.
pub open spec fn with_line(f: FileDiffView, line: DiffLineView) -> FileDiffView {
    FileDiffView {
        additions: if line.origin == '+' {
            bump(f.additions)
        } else {
            f.additions
        },
        deletions: if line.origin == '-' {
            bump(f.deletions)
        } else {
            f.deletions
        },
        hunks: if f.hunks.len() == 0 {
            f.hunks
        } else {
            with_last(
                f.hunks,
                HunkView {
                    header: f.hunks.last().header,
                    lines: f.hunks.last().lines.push(line),
                },
            )
        },
        ..f
    }
}

/// Is this the origin of a content line, rather than of a meta line?
pub open spec fn content_origin(c: char) -> bool {
    c == ' ' || c == '+' || c == '-'
}

impl FileDiff {
    /// Adds a content line: counted by its origin, and kept if a hunk is open.
    pub fn push_line(&mut self, line: DiffLine)
        ensures
            final(self)@ == with_line(old(self)@, line@),
    {
        let ghost before = self@;
        if line.origin == '+' {
            self.additions = self.additions.wrapping_add(1);
        } else if line.origin == '-' {
            self.deletions = self.deletions.wrapping_add(1);
        }
        let ghost added = line@;
        match self.hunks.pop() {
            None => {},
            Some(mut h) => {
                h.lines.push(line);
                self.hunks.push(h);
            },
        }
        assert(self@ =~= with_line(before, added));
    }

    /// Opens a hunk.
    pub fn push_hunk(&mut self, header: String)
        ensures
            final(self)@ == with_hunk(old(self)@, header@),
    {
        let ghost before = self@;
        let h = Hunk { header, lines: Vec::new() };
        assert(h@ =~= (HunkView { header: header@, lines: Seq::empty() }));
        self.hunks.push(h);
        assert(self@ =~= with_hunk(before, header@));
    }
}

/// Gathers a diff from a walk that announces files, binary markers, hunks and
/// lines one after the other.
pub struct Collector {
    pub files: Vec<FileDiff>,
}

impl View for Collector {
    type V = Seq<FileDiffView>;

    open spec fn view(&self) -> Seq<FileDiffView> {
        deep::deep(self.files@)
    }
}

impl Collector {
    pub fn new() -> (r: Collector)
        ensures
            r@ == Seq::<FileDiffView>::empty(),
    {
        Collector { files: Vec::new() }
    }

    /// The walk enters a file.
    pub fn on_file(&mut self, delta: FileDelta)
        ensures
            final(self)@ == old(self)@.push(delta.entry()),
    {
        let byte_size: u64 = if delta.new_size >= delta.old_size {
            delta.new_size
        } else {
            delta.old_size
        };
        let large: bool = byte_size > scope::MAX_CONTENT_FILE_SIZE as u64;
        let old_path: Option<String> = if delta.status == Delta::Renamed || delta.status
            == Delta::Copied {
            copy_opt(&delta.old_path)
        } else {
            None
        };
        let path: String = match (&delta.new_path, &delta.old_path) {
            (Some(p), _) => text::copy(p.as_str()),
            (None, Some(p)) => text::copy(p.as_str()),
            (None, None) => String::new(),
        };
        let file = FileDiff {
            path,
            old_path,
            status: delta_status(delta.status),
            binary: !large && (delta.new_binary || delta.old_binary),
            large,
            byte_size,
            untracked_dir: false,
            full_context: false,
            hunks: Vec::new(),
            additions: 0,
            deletions: 0,
        };
        assert(file@ =~= delta.entry());
        self.files.push(file);
    }

    /// The walk found the current file to be binary.
    pub fn on_binary(&mut self)
        ensures
            final(self)@ == (if old(self)@.len() == 0 {
                old(self)@
            } else {
                with_last(old(self)@, marked_binary(old(self)@.last()))
            }),
    {
        let ghost before = self@;
        match self.files.pop() {
            None => {},
            Some(mut f) => {
                let ghost was = f@;
                f.binary = true;
                assert(f@ =~= marked_binary(was));
                self.files.push(f);
                assert(self@ =~= with_last(before, marked_binary(before.last())));
            },
        }
    }

    /// The walk enters a hunk of the current file.
    pub fn on_hunk(&mut self, header: &[u8])
        ensures
            final(self)@ == (if old(self)@.len() == 0 {
                old(self)@
            } else {
                with_last(
                    old(self)@,
                    with_hunk(old(self)@.last(), text::trim_end(bytes::lossy(header@))),
                )
            }),
    {
        let ghost before = self@;
        match self.files.pop() {
            None => {},
            Some(mut f) => {
                let line: String = bytes::lossy_text(header);
                let cs: Vec<char> = text::to_chars(line.as_str());
                let trimmed: Vec<char> = text::trim_end_chars(cs.as_slice());
                f.push_hunk(text::to_text(trimmed.as_slice()));
                self.files.push(f);
                assert(self@ =~= with_last(
                    before,
                    with_hunk(before.last(), text::trim_end(bytes::lossy(header@))),
                ));
            },
        }
    }

    /// The walk reports a line of the current hunk; meta lines are passed over.
    pub fn on_line(
        &mut self,
        origin: char,
        old_lineno: Option<u32>,
        new_lineno: Option<u32>,
        content: &[u8],
    )
        ensures
            final(self)@ == (if old(self)@.len() == 0 || !content_origin(origin) {
                old(self)@
            } else {
                with_last(
                    old(self)@,
                    with_line(
                        old(self)@.last(),
                        DiffLineView {
                            origin,
                            old_lineno,
                            new_lineno,
                            content: strip_eol(bytes::lossy(content@)),
                            expanded_context: false,
                        },
                    ),
                )
            }),
    {
        if origin != ' ' && origin != '+' && origin != '-' {
            return;
        }
        let ghost before = self@;
        match self.files.pop() {
            None => {},
            Some(mut f) => {
                let line: String = bytes::lossy_text(content);
                let added = DiffLine {
                    origin,
                    old_lineno,
                    new_lineno,
                    content: without_eol(line.as_str()),
                    expanded_context: false,
                };
                let ghost shown = added@;
                f.push_line(added);
                self.files.push(f);
                assert(self@ =~= with_last(before, with_line(before.last(), shown)));
            },
        }
    }

    /// The finished diff, in reading order so that scrolling the stream and
    /// walking the tree traverse files in the same sequence.
    pub fn finish(self) -> (r: DiffResult)
        ensures
            r@ == diff_of(self@),
    {
        DiffResult::from_files(self.files)
    }
}

/// Position of the first file with the given path; the length if there is none.
pub open spec fn path_index(files: Seq<FileDiffView>, path: Seq<char>) -> int
    decreases files.len(),
{
    if files.len() == 0 {
        0
    } else if files[0].path == path {
        0
    } else {
        1 + path_index(files.drop_first(), path)
    }
}

/// The first file with the path is one with the path, and none before it is.
pub proof fn lemma_path_index(files: Seq<FileDiffView>, path: Seq<char>)
    ensures
        0 <= path_index(files, path) <= files.len(),
        path_index(files, path) < files.len() ==> files[path_index(files, path)].path == path,
        forall|i: int| 0 <= i < path_index(files, path) ==> #[trigger] files[i].path != path,
    decreases files.len(),
{
    if files.len() > 0 && files[0].path != path {
        lemma_path_index(files.drop_first(), path);
        assert forall|i: int| 0 <= i < path_index(files, path) implies #[trigger] files[i].path
            != path by {
            if i > 0 {
                assert(files.drop_first()[i - 1] == files[i]);
            }
        }
    }
}

proof fn lemma_path_index_is(files: Seq<FileDiffView>, path: Seq<char>, k: int)
    requires
        0 <= k <= files.len(),
        k < files.len() ==> files[k].path == path,
        forall|i: int| 0 <= i < k ==> #[trigger] files[i].path != path,
    ensures
        path_index(files, path) == k,
{
    lemma_path_index(files, path);
    let r = path_index(files, path);
    if r < k {
        assert(files[r].path != path);
    } else if k < r {
        assert(files[k].path != path);
    }
}

/// Position of the file with the given path, or the length.
pub fn position(files: &[FileDiff], path: &str) -> (r: usize)
    ensures
        r == path_index(deep::deep(files@), path@),
        r <= files@.len(),
        r < files@.len() ==> files@[r as int].path@ == path@,
{
    let ghost all = deep::deep(files@);
    let mut i: usize = 0;
    while i < files.len() && !text::same(files[i].path.as_str(), path)
        invariant
            i <= files@.len(),
            all == deep::deep(files@),
            forall|j: int| 0 <= j < i ==> #[trigger] all[j].path != path@,
        decreases files@.len() - i,
    {
        assert(all[i as int].path == files@[i as int].path@);
        i += 1;
    }
    proof {
        if i < files@.len() {
            assert(all[i as int].path == files@[i as int].path@);
        }
        lemma_path_index_is(all, path@, i as int);
    }
    i
}

/// The message for a path that a reload no longer finds.
pub open spec fn gone_message(path: Seq<char>) -> Seq<char> {
    "'"@ + path + "' no longer in the diff"@
}

/// The one file asked for, out of a diff loaded for it. With `uncap` the size
/// stub is lifted: the file was loaded without a size cap.
pub fn load_file(files: &[FileDiff], path: &str, uncap: bool) -> (r: Result<FileDiff, String>)
    ensures
        ({
            let all = deep::deep(files@);
            let k = path_index(all, path@);
            if k < all.len() {
                &&& r matches Ok(f)
                &&& f@ == (if uncap {
                    FileDiffView { large: false, ..all[k] }
                } else {
                    all[k]
                })
            } else {
                &&& r matches Err(e)
                &&& e@ == gone_message(path@)
            }
        }),
{
    let k: usize = position(files, path);
    if k < files.len() {
        let mut f: FileDiff = files[k].copy();
        if uncap {
            f.large = false;
        }
        Ok(f)
    } else {
        let mut e: String = String::new();
        text::put(&mut e, "'");
        text::put(&mut e, path);
        text::put(&mut e, "' no longer in the diff");
        assert(e@ =~= gone_message(path@));
        Err(e)
    }
}

} // verus!
