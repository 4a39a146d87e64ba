//! Loading a worktree diff: size stubs, untracked files shown as additions,
//! and how much untracked content is read up front.

use crate::bytes;
use crate::deep;
use crate::git::cli;
use crate::git::diff;
use crate::git::diff::{
    DiffLine,
    DiffLineView,
    DiffResult,
    FileDiff,
    FileDiffView,
    FileStatus,
    Hunk,
    HunkView,
};
use crate::git::scope;
use crate::num;
use crate::text;
use vstd::prelude::*;

verus! {

broadcast use crate::deep::group_deep;

// ---- oversized content --------------------------------------------------------------

/// Bytes that lines hold, each with its line terminator.
pub open spec fn line_bytes(lines: Seq<DiffLineView>) -> int
    decreases lines.len(),
{
    if lines.len() == 0 {
        0
    } else {
        line_bytes(lines.drop_last()) + cli::utf8(lines.last().content).len() + 1
    }
}

/// Bytes that hunks hold.
pub open spec fn content_bytes(hunks: Seq<HunkView>) -> int
    decreases hunks.len(),
{
    if hunks.len() == 0 {
        0
    } else {
        content_bytes(hunks.drop_last()) + line_bytes(hunks.last().lines)
    }
}

/// `n`, or the largest 64-bit number if it is larger.
pub open spec fn at_most_u64(n: int) -> u64 {
    if n > u64::MAX {
        u64::MAX
    } else {
        n as u64
    }
}

/// A file whose content is over the size cap collapses to a stub.
pub open spec fn stubbed(f: FileDiffView) -> FileDiffView {
    let n = content_bytes(f.hunks);
    if n > scope::MAX_CONTENT_FILE_SIZE {
        FileDiffView {
            large: true,
            byte_size: at_most_u64(n),
            hunks: Seq::empty(),
            additions: 0,
            deletions: 0,
            ..f
        }
    } else {
        f
    }
}

proof fn lemma_line_bytes(lines: Seq<DiffLineView>)
    ensures
        line_bytes(lines) >= 0,
    decreases lines.len(),
{
    if lines.len() > 0 {
        lemma_line_bytes(lines.drop_last());
    }
}

proof fn lemma_content_bytes(hunks: Seq<HunkView>)
    ensures
        content_bytes(hunks) >= 0,
    decreases hunks.len(),
{
    if hunks.len() > 0 {
        lemma_content_bytes(hunks.drop_last());
        lemma_line_bytes(hunks.last().lines);
    }
}

fn count_content(hunks: &[Hunk]) -> (r: u64)
    ensures
        r == at_most_u64(content_bytes(deep::deep(hunks@))),
{
    let ghost all = deep::deep(hunks@);
    let mut total: u64 = 0;
    let mut i: usize = 0;
    while i < hunks.len()
        invariant
            i <= hunks@.len(),
            all == deep::deep(hunks@),
            total == at_most_u64(content_bytes(all.take(i as int))),
        decreases hunks@.len() - i,
    {
        let lines: &Vec<DiffLine> = &hunks[i].lines;
        let ghost shown = deep::deep(lines@);
        let ghost before = content_bytes(all.take(i as int));
        proof {
            lemma_content_bytes(all.take(i as int));
            assert(all.take(i + 1).drop_last() =~= all.take(i as int));
            assert(all.take(i + 1).last() == hunks@[i as int]@);
        }
        let mut k: usize = 0;
        while k < lines.len()
            invariant
                k <= lines@.len(),
                shown == deep::deep(lines@),
                before >= 0,
                total == at_most_u64(before + line_bytes(shown.take(k as int))),
            decreases lines@.len() - k,
        {
            proof {
                lemma_line_bytes(shown.take(k as int));
                assert(shown.take(k + 1).drop_last() =~= shown.take(k as int));
                assert(shown.take(k + 1).last() == lines@[k as int]@);
            }
            let size: usize = lines[k].content.as_str().as_bytes().len();
            total = total.saturating_add(size as u64).saturating_add(1);
            k += 1;
        }
        assert(shown.take(k as int) =~= shown);
        i += 1;
    }
    assert(all.take(i as int) =~= all);
    total
}

/// Collapses a file whose content is over the size cap to a stub.
pub fn stub_oversized(file: &mut FileDiff)
    ensures
        final(file)@ == stubbed(old(file)@),
{
    let ghost before = file@;
    let n: u64 = count_content(file.hunks.as_slice());
    proof {
        lemma_content_bytes(before.hunks);
    }
    if n > scope::MAX_CONTENT_FILE_SIZE as u64 {
        file.large = true;
        file.byte_size = n;
        file.hunks = Vec::new();
        file.additions = 0;
        file.deletions = 0;
        assert(file@ =~= stubbed(before));
    }
}

// ---- untracked files ----------------------------------------------------------------

/// Inline untracked contents only this far; everything beyond becomes a
/// stub (Enter loads it), so a sea of untracked files can't dominate loads.
pub const UNTRACKED_INLINE_MAX_FILES: usize = 200;

pub const UNTRACKED_INLINE_MAX_BYTES: u64 = 4 * 1024 * 1024;

/// How much untracked content has been read so far.
#[derive(Debug, Clone, Copy)]
pub struct UntrackedBudget {
    pub files: usize,
    pub inlined_bytes: u64,
}

impl UntrackedBudget {
    pub fn new() -> (r: Self)
        ensures
            r.files == 0,
            r.inlined_bytes == 0,
    {
        UntrackedBudget { files: 0, inlined_bytes: 0 }
    }

    /// The size cap for the next file: none of its content is read once the
    /// budget is spent.
    pub open spec fn next_cap(self) -> u64 {
        if self.files >= UNTRACKED_INLINE_MAX_FILES || self.inlined_bytes
            > UNTRACKED_INLINE_MAX_BYTES {
            0
        } else {
            scope::MAX_CONTENT_FILE_SIZE as u64
        }
    }

    pub fn cap(&self) -> (r: u64)
        ensures
            r == self.next_cap(),
    {
        if self.files >= UNTRACKED_INLINE_MAX_FILES || self.inlined_bytes
            > UNTRACKED_INLINE_MAX_BYTES {
            0
        } else {
            scope::MAX_CONTENT_FILE_SIZE as u64
        }
    }

    /// Counts a file that was loaded.
    pub open spec fn recorded(self, file: FileDiffView) -> UntrackedBudget {
        UntrackedBudget {
            files: diff::bump(self.files),
            inlined_bytes: if file.large {
                self.inlined_bytes
            } else {
                at_most_u64(self.inlined_bytes + file.byte_size)
            },
        }
    }

    /// Counts a file that was loaded.
    pub fn record(&mut self, file: &FileDiff)
        ensures
            *final(self) == old(self).recorded(file@),
    {
        self.files = self.files.wrapping_add(1);
        if !file.large {
            self.inlined_bytes = self.inlined_bytes.saturating_add(file.byte_size);
        }
    }
}

/// The number of line `i` (counted from zero) of a file.
pub open spec fn lineno(i: int) -> u32 {
    ((i + 1) % 0x1_0000_0000) as u32
}

/// Lines of a text, all shown as added.
pub open spec fn added_lines(lines: Seq<Seq<char>>) -> Seq<DiffLineView> {
    Seq::new(
        lines.len(),
        |i: int|
            DiffLineView {
                origin: '+',
                old_lineno: None,
                new_lineno: Some(lineno(i)),
                content: lines[i],
                expanded_context: false,
            },
    )
}

/// An untracked file as an added file. Content over the cap is left out, and
/// so is content with a zero byte, which is taken for binary.
pub open spec fn untracked(path: Seq<char>, size: u64, cap: u64, content: Seq<u8>) -> FileDiffView {
    let stub = FileDiffView { status: FileStatus::Added, byte_size: size, ..cli::fresh_file(path) };
    if size > cap {
        FileDiffView { large: true, ..stub }
    } else if content.contains(0) {
        FileDiffView { binary: true, ..stub }
    } else {
        let lines = text::lines(bytes::lossy(content));
        FileDiffView {
            additions: lines.len() as usize,
            hunks: if lines.len() == 0 {
                Seq::empty()
            } else {
                seq![
                    HunkView {
                        header: "@@ -0,0 +1,"@ + num::decimal(lines.len()) + " @@"@,
                        lines: added_lines(lines),
                    },
                ]
            },
            ..stub
        }
    }
}

fn has_zero(content: &[u8]) -> (r: bool)
    ensures
        r == content@.contains(0),
{
    let mut i: usize = 0;
    while i < content.len()
        invariant
            i <= content@.len(),
            forall|j: int| 0 <= j < i ==> content@[j] != 0,
        decreases content@.len() - i,
    {
        if content[i] == 0 {
            assert(content@[i as int] == 0);
            return true;
        }
        i += 1;
    }
    false
}

fn show_added(lines: &[Vec<char>]) -> (r: Vec<DiffLine>)
    ensures
        deep::deep(r@) == added_lines(deep::deep(lines@)),
{
    let ghost all = deep::deep(lines@);
    let mut out: Vec<DiffLine> = Vec::new();
    let mut i: usize = 0;
    while i < lines.len()
        invariant
            i <= lines@.len(),
            all == deep::deep(lines@),
            deep::deep(out@) =~= added_lines(all).take(i as int),
        decreases lines@.len() - i,
    {
        let n: u32 = ((i as u64 + 1) % 0x1_0000_0000u64) as u32;
        let line = DiffLine {
            origin: '+',
            old_lineno: None,
            new_lineno: Some(n),
            content: text::to_text(lines[i].as_slice()),
            expanded_context: false,
        };
        assert(line@ =~= added_lines(all)[i as int]);
        out.push(line);
        i += 1;
    }
    assert(deep::deep(out@) =~= added_lines(all));
    out
}

/// Is the content of an untracked file of this size to be read at all?
pub fn reads_content(size: u64, cap: u64) -> (r: bool)
    ensures
        r == (size <= cap),
{
    size <= cap
}

/// An untracked file as an "added" diff, content inlined below the size cap.
pub fn untracked_file(path: &str, size: u64, cap: u64, content: &[u8]) -> (r: FileDiff)
    ensures
        r@ == untracked(path@, size, cap, content@),
{
    let mut file = FileDiff {
        path: text::copy(path),
        old_path: None,
        status: FileStatus::Added,
        binary: false,
        large: size > cap,
        byte_size: size,
        untracked_dir: false,
        full_context: false,
        hunks: Vec::new(),
        additions: 0,
        deletions: 0,
    };
    if file.large {
        assert(file@ =~= untracked(path@, size, cap, content@));
        return file;
    }
    if has_zero(content) {
        file.binary = true;
        assert(file@ =~= untracked(path@, size, cap, content@));
        return file;
    }
    let all: String = bytes::lossy_text(content);
    let cs: Vec<char> = text::to_chars(all.as_str());
    let lines: Vec<Vec<char>> = text::line_chars(cs.as_slice());
    file.additions = lines.len();
    if lines.len() > 0 {
        let mut header: String = text::copy("@@ -0,0 +1,");
        text::put(&mut header, num::decimal_text(lines.len() as u64).as_str());
        text::put(&mut header, " @@");
        let hunk = Hunk { header, lines: show_added(lines.as_slice()) };
        file.hunks.push(hunk);
    }
    assert(file@ =~= untracked(path@, size, cap, content@));
    file
}

/// Is the untracked path a whole directory?
pub fn is_untracked_dir(path: &str) -> (r: bool)
    ensures
        r == text::ends_with(path@, "/"@),
{
    let cs: Vec<char> = text::to_chars(path);
    text::ends(cs.as_slice(), "/")
}

/// A directory that is untracked as a whole: one collapsed entry.
pub fn untracked_dir(path: &str) -> (r: FileDiff)
    ensures
        r@ == collapsed(path@),
{
    let cs: Vec<char> = text::to_chars(path);
    let cut: bool = text::ends(cs.as_slice(), "/");
    proof {
        reveal_strlit("/");
    }
    let name: String = if cut {
        text::text_range(cs.as_slice(), 0, cs.len() - 1)
    } else {
        text::copy(path)
    };
    let f = FileDiff {
        path: name,
        old_path: None,
        status: FileStatus::Added,
        binary: false,
        large: false,
        byte_size: 0,
        untracked_dir: true,
        full_context: false,
        hunks: Vec::new(),
        additions: 0,
        deletions: 0,
    };
    assert(f@ =~= collapsed(path@));
    f
}

/// An untracked path as `git status` lists it, with what is on disk.
#[verifier::ext_equal]
pub struct FoundView {
    pub path: Seq<char>,
    pub size: u64,
    pub content: Seq<u8>,
}

/// A directory that is untracked as a whole.
pub open spec fn collapsed(path: Seq<char>) -> FileDiffView {
    FileDiffView {
        status: FileStatus::Added,
        untracked_dir: true,
        ..cli::fresh_file(
            if text::ends_with(path, "/"@) {
                path.drop_last()
            } else {
                path
            },
        )
    }
}

impl UntrackedBudget {
    /// Is the content at the path to be read? That of a directory never is.
    pub open spec fn wants(self, path: Seq<char>, size: u64) -> bool {
        !text::ends_with(path, "/"@) && size <= self.next_cap()
    }

    /// The entry of an untracked path.
    pub open spec fn entry(self, found: FoundView) -> FileDiffView {
        if text::ends_with(found.path, "/"@) {
            collapsed(found.path)
        } else {
            untracked(found.path, found.size, self.next_cap(), found.content)
        }
    }

    /// The budget after an untracked path; a collapsed directory costs nothing.
    pub open spec fn after(self, found: FoundView) -> UntrackedBudget {
        if text::ends_with(found.path, "/"@) {
            self
        } else {
            self.recorded(self.entry(found))
        }
    }

    /// Is the content at the path to be read?
    pub fn reads(&self, path: &str, size: u64) -> (r: bool)
        ensures
            r == self.wants(path@, size),
    {
        !is_untracked_dir(path) && reads_content(size, self.cap())
    }

    /// Adds the next untracked path of the listing: a directory collapsed to one
    /// entry, a file as an added one.
    pub fn list(&mut self, path: &str, size: u64, content: &[u8]) -> (r: FileDiff)
        ensures
            ({
                let found = FoundView { path: path@, size, content: content@ };
                r@ == old(self).entry(found) && *final(self) == old(self).after(found)
            }),
    {
        if is_untracked_dir(path) {
            untracked_dir(path)
        } else {
            let file: FileDiff = untracked_file(path, size, self.cap(), content);
            self.record(&file);
            file
        }
    }
}

/// The budget after a listing of untracked paths.
pub open spec fn spent(listing: Seq<FoundView>) -> UntrackedBudget
    decreases listing.len(),
{
    if listing.len() == 0 {
        UntrackedBudget { files: 0, inlined_bytes: 0 }
    } else {
        spent(listing.drop_last()).after(listing.last())
    }
}

/// The entries of a listing of untracked paths.
pub open spec fn listed(listing: Seq<FoundView>) -> Seq<FileDiffView>
    decreases listing.len(),
{
    if listing.len() == 0 {
        Seq::empty()
    } else {
        listed(listing.drop_last()).push(spent(listing.drop_last()).entry(listing.last()))
    }
}

/// Bytes of the entries that are no stubs.
pub open spec fn inlined(files: Seq<FileDiffView>) -> int
    decreases files.len(),
{
    if files.len() == 0 {
        0
    } else {
        inlined(files.drop_last()) + (if files.last().large {
            0
        } else {
            files.last().byte_size as int
        })
    }
}

/// A sea of untracked files cannot dominate a load: however many there are, the
/// content that is shown up front is bounded by the budget and one file more.
pub proof fn lemma_inlined_content_is_bounded(listing: Seq<FoundView>)
    ensures
        inlined(listed(listing)) == spent(listing).inlined_bytes,
        spent(listing).inlined_bytes <= UNTRACKED_INLINE_MAX_BYTES + scope::MAX_CONTENT_FILE_SIZE,
    decreases listing.len(),
{
    if listing.len() > 0 {
        let before = listing.drop_last();
        lemma_inlined_content_is_bounded(before);
        let next = spent(before).entry(listing.last());
        assert(listed(listing).drop_last() =~= listed(before));
        assert(listed(listing).last() == next);
    }
}

/// How many entries show content.
pub open spec fn with_content(files: Seq<FileDiffView>) -> nat
    decreases files.len(),
{
    if files.len() == 0 {
        0
    } else if files.last().large || files.last().byte_size == 0 {
        with_content(files.drop_last())
    } else {
        with_content(files.drop_last()) + 1
    }
}

/// Nor do more files than the budget allows show content up front.
pub proof fn lemma_inlined_files_are_bounded(listing: Seq<FoundView>)
    requires
        listing.len() <= usize::MAX,
    ensures
        with_content(listed(listing)) <= UNTRACKED_INLINE_MAX_FILES,
        with_content(listed(listing)) <= spent(listing).files <= listing.len(),
    decreases listing.len(),
{
    if listing.len() > 0 {
        let before = listing.drop_last();
        lemma_inlined_files_are_bounded(before);
        let next = spent(before).entry(listing.last());
        assert(listed(listing).drop_last() =~= listed(before));
        assert(listed(listing).last() == next);
    }
}

/// Where one file of a working tree is loaded from.
#[derive(Clone, Copy, Debug, PartialEq, Eq, Structural)]
pub enum FileSource {
    /// It is untracked: what is on disk is all added.
    Disk,
    /// The patch of the file.
    Patch,
}

/// Does a status listing have the path as an untracked one?
pub open spec fn lists_untracked(entries: Seq<cli::StatusView>, path: Seq<char>) -> bool {
    exists|i: int|
        0 <= i < entries.len() && cli::is_untracked_entry(#[trigger] entries[i])
            && entries[i].path == path
}

/// Where to load one file from, given the status listing; there is none where
/// only the index is looked at, which has no untracked files.
pub fn file_source(status: Option<&str>, path: &str) -> (r: FileSource)
    requires
        status matches Some(out) ==> cli::status_well_formed(out@),
    ensures
        r == (match status {
            Some(out) if lists_untracked(cli::status_of(out@), path@) => FileSource::Disk,
            _ => FileSource::Patch,
        }),
{
    match status {
        Some(out) => if cli::is_untracked(out, path) {
            FileSource::Disk
        } else {
            FileSource::Patch
        },
        None => FileSource::Patch,
    }
}

// ---- the whole load -----------------------------------------------------------------

/// The diff of a working tree: what the patch describes, oversized files as
/// stubs, and the untracked files.
pub open spec fn worktree_diff(patch: Seq<char>, extra: Seq<FileDiffView>) -> diff::DiffView {
    diff::diff_of(cli::patch_files(patch).map_values(|f: FileDiffView| stubbed(f)) + extra)
}

/// Working tree + index vs HEAD (untracked included), or index vs HEAD.
pub fn load_worktree(patch: &str, untracked: Vec<FileDiff>) -> (r: DiffResult)
    ensures
        r@ == worktree_diff(patch@, deep::deep(untracked@)),
{
    let parsed: Vec<FileDiff> = cli::parse_patch(patch);
    let ghost all = deep::deep(parsed@);
    let ghost extra = deep::deep(untracked@);
    let mut files: Vec<FileDiff> = Vec::new();
    for f in it: parsed
        invariant
            deep::deep(it.seq()) == all,
            deep::deep(files@) =~= all.take(it.index() as int).map_values(
                |f: FileDiffView| stubbed(f),
            ),
    {
        let ghost shown = f@;
        assert(shown == all[it.index() as int]);
        let mut file = f;
        stub_oversized(&mut file);
        files.push(file);
    }
    assert(all.take(all.len() as int) =~= all);
    let mut rest = untracked;
    files.append(&mut rest);
    DiffResult::from_files(files)
}

/// One file's diff out of a patch made for it.
pub fn load_worktree_file(patch: &str, path: &str) -> (r: Result<FileDiff, String>)
    ensures
        ({
            let all = cli::patch_files(patch@);
            let k = diff::path_index(all, path@);
            if k < all.len() {
                r matches Ok(f) && f@ == all[k]
            } else {
                r matches Err(e) && e@ == diff::gone_message(path@)
            }
        }),
{
    let files: Vec<FileDiff> = cli::parse_patch(patch);
    diff::load_file(files.as_slice(), path, false)
}

/// Inline expansion is offered for files up to this many bytes.
pub const MAX_FULL_CONTEXT_BYTES: u64 = 4 * 1024 * 1024;

/// Refuses inline expansion of a file that is too large for it.
pub fn full_context_allowed(path: &str, size: u64) -> (r: Result<(), String>)
    ensures
        r is Ok <==> size <= MAX_FULL_CONTEXT_BYTES,
        r matches Err(e) ==> e@ == path@ + " is too large to show in full (limit 4 MB)"@,
{
    if size <= MAX_FULL_CONTEXT_BYTES {
        Ok(())
    } else {
        let mut e: String = text::copy(path);
        text::put(&mut e, " is too large to show in full (limit 4 MB)");
        Err(e)
    }
}

} // verus!
