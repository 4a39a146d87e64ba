//! What is being reviewed, and where its two sides come from.

use crate::bytes;
use crate::deep;
use crate::text;
use vstd::prelude::*;

verus! {

broadcast use crate::deep::group_deep;

/// Files above this size (bytes) get no content diff up front; the UI shows
/// a stub and loads the file's diff on demand.
pub const MAX_CONTENT_FILE_SIZE: i64 = 1024 * 1024;

/// Above this many changed files, skip rename detection.
pub const RENAME_DETECTION_LIMIT: usize = 2000;

/// Whether rename detection is worth its price for a diff of this many files.
pub fn detects_renames(deltas: usize) -> (r: bool)
    ensures
        r == (deltas <= RENAME_DETECTION_LIMIT),
{
    deltas <= RENAME_DETECTION_LIMIT
}

/// An object id, in hexadecimal.
#[derive(Debug, Clone)]
pub struct Oid {
    pub hex: String,
}

impl View for Oid {
    type V = Seq<char>;

    open spec fn view(&self) -> Seq<char> {
        self.hex@
    }
}

/// The abbreviated form of an id: its first seven characters.
pub open spec fn abbreviated(id: Seq<char>) -> Seq<char> {
    if id.len() <= 7 {
        id
    } else {
        id.take(7)
    }
}

impl Oid {
    /// A copy of the id.
    pub fn copy(&self) -> (r: Oid)
        ensures
            r@ == self@,
    {
        Oid { hex: text::copy(self.hex.as_str()) }
    }

    /// Are two ids equal?
    pub fn same(&self, other: &Oid) -> (r: bool)
        ensures
            r == (self@ == other@),
    {
        text::same(self.hex.as_str(), other.hex.as_str())
    }

    /// The abbreviated id.
    pub fn short(&self) -> (r: String)
        ensures
            r@ == abbreviated(self@),
    {
        let cs: Vec<char> = text::to_chars(self.hex.as_str());
        let end: usize = if cs.len() < 7 {
            cs.len()
        } else {
            7
        };
        let r: String = text::text_range(cs.as_slice(), 0, end);
        assert(r@ =~= abbreviated(self@));
        r
    }
}

/// What is being reviewed. Each variant maps to one entry in the scope picker.
#[derive(Debug, Clone)]
pub enum Scope {
    /// Working tree + index vs HEAD, untracked included.
    Uncommitted,
    /// Index vs HEAD.
    Staged,
    /// Merge-base of HEAD and `base` vs HEAD (the branch's own commits).
    Branch { base: String },
    /// Everything `branch` introduced: its fork point vs HEAD.
    BranchFork { branch: String },
    /// One commit vs its first parent.
    Commit { id: Oid, summary: String },
    /// Everything between two commits: tree(from) vs tree(to).
    Range { from: Oid, to: Oid },
}

/// What a scope says.
#[verifier::ext_equal]
pub enum ScopeView {
    Uncommitted,
    Staged,
    Branch { base: Seq<char> },
    BranchFork { branch: Seq<char> },
    Commit { id: Seq<char>, summary: Seq<char> },
    Range { from: Seq<char>, to: Seq<char> },
}

impl View for Scope {
    type V = ScopeView;

    open spec fn view(&self) -> ScopeView {
        match self {
            Scope::Uncommitted => ScopeView::Uncommitted,
            Scope::Staged => ScopeView::Staged,
            Scope::Branch { base } => ScopeView::Branch { base: base@ },
            Scope::BranchFork { branch } => ScopeView::BranchFork { branch: branch@ },
            Scope::Commit { id, summary } => ScopeView::Commit { id: id@, summary: summary@ },
            Scope::Range { from, to } => ScopeView::Range { from: from@, to: to@ },
        }
    }
}

/// A commit summary cut for the title bar: at most forty characters.
pub open spec fn clipped(summary: Seq<char>) -> Seq<char> {
    if summary.len() > 40 {
        summary.take(39).push('…')
    } else {
        summary
    }
}

impl ScopeView {
    /// Short description for the title bar.
    pub open spec fn label(self) -> Seq<char> {
        match self {
            ScopeView::Uncommitted => "uncommitted changes"@,
            ScopeView::Staged => "staged changes"@,
            ScopeView::Branch { base } => "branch vs "@ + base,
            ScopeView::BranchFork { branch } => "branch "@ + branch + " vs fork point"@,
            ScopeView::Commit { id, summary } => "commit "@ + abbreviated(id) + " \u{201c}"@
                + clipped(summary) + "\u{201d}"@,
            ScopeView::Range { from, to } => "range "@ + abbreviated(from) + ".."@ + abbreviated(
                to,
            ),
        }
    }

    /// Message shown when the scope has no changes.
    pub open spec fn empty_message(self) -> Seq<char> {
        match self {
            ScopeView::Uncommitted => "no uncommitted changes — working tree clean"@,
            ScopeView::Staged => "no staged changes"@,
            ScopeView::Branch { .. } => "no changes vs base — branch has no commits of its own"@,
            ScopeView::BranchFork { .. } =>
                "no changes since the fork point — branch has no commits of its own"@,
            ScopeView::Commit { .. } => "empty commit"@,
            ScopeView::Range { .. } => "no changes between these commits"@,
        }
    }

    /// For the scopes that touch the working tree: whether only the index is read.
    pub open spec fn worktree(self) -> Option<bool> {
        match self {
            ScopeView::Uncommitted => Some(false),
            ScopeView::Staged => Some(true),
            _ => None,
        }
    }
}

fn clip(summary: &str) -> (r: String)
    ensures
        r@ == clipped(summary@),
{
    let cs: Vec<char> = text::to_chars(summary);
    if cs.len() > 40 {
        let mut s: String = text::text_range(cs.as_slice(), 0, 39);
        s.push('…');
        assert(s@ =~= clipped(summary@));
        s
    } else {
        text::copy(summary)
    }
}

impl Scope {
    /// A copy of the scope.
    pub fn copy(&self) -> (r: Scope)
        ensures
            r@ == self@,
    {
        match self {
            Scope::Uncommitted => Scope::Uncommitted,
            Scope::Staged => Scope::Staged,
            Scope::Branch { base } => Scope::Branch { base: text::copy(base.as_str()) },
            Scope::BranchFork { branch } => Scope::BranchFork {
                branch: text::copy(branch.as_str()),
            },
            Scope::Commit { id, summary } => Scope::Commit {
                id: id.copy(),
                summary: text::copy(summary.as_str()),
            },
            Scope::Range { from, to } => Scope::Range { from: from.copy(), to: to.copy() },
        }
    }

    /// Do two scopes say the same?
    pub fn same(&self, other: &Scope) -> (r: bool)
        ensures
            r == (self@ == other@),
    {
        match (self, other) {
            (Scope::Uncommitted, Scope::Uncommitted) => true,
            (Scope::Staged, Scope::Staged) => true,
            (Scope::Branch { base: a }, Scope::Branch { base: b }) => text::same(
                a.as_str(),
                b.as_str(),
            ),
            (Scope::BranchFork { branch: a }, Scope::BranchFork { branch: b }) => text::same(
                a.as_str(),
                b.as_str(),
            ),
            (
                Scope::Commit { id: a, summary: s },
                Scope::Commit { id: b, summary: t },
            ) => a.same(b) && text::same(s.as_str(), t.as_str()),
            (Scope::Range { from: a, to: c }, Scope::Range { from: b, to: d }) => a.same(b)
                && c.same(d),
            _ => false,
        }
    }

    /// Short description for the title bar.
    pub fn label(&self) -> (r: String)
        ensures
            r@ == self@.label(),
    {
        let mut s: String = String::new();
        match self {
            Scope::Uncommitted => {
                text::put(&mut s, "uncommitted changes");
            },
            Scope::Staged => {
                text::put(&mut s, "staged changes");
            },
            Scope::Branch { base } => {
                text::put(&mut s, "branch vs ");
                text::put(&mut s, base.as_str());
            },
            Scope::BranchFork { branch } => {
                text::put(&mut s, "branch ");
                text::put(&mut s, branch.as_str());
                text::put(&mut s, " vs fork point");
            },
            Scope::Commit { id, summary } => {
                text::put(&mut s, "commit ");
                text::put(&mut s, id.short().as_str());
                text::put(&mut s, " \u{201c}");
                text::put(&mut s, clip(summary.as_str()).as_str());
                text::put(&mut s, "\u{201d}");
            },
            Scope::Range { from, to } => {
                text::put(&mut s, "range ");
                text::put(&mut s, from.short().as_str());
                text::put(&mut s, "..");
                text::put(&mut s, to.short().as_str());
            },
        }
        assert(s@ =~= self@.label());
        s
    }

    /// Message shown when the scope has no changes.
    pub fn empty_message(&self) -> (r: &'static str)
        ensures
            r@ == self@.empty_message(),
    {
        match self {
            Scope::Uncommitted => "no uncommitted changes — working tree clean",
            Scope::Staged => "no staged changes",
            Scope::Branch { .. } => "no changes vs base — branch has no commits of its own",
            Scope::BranchFork { .. } =>
                "no changes since the fork point — branch has no commits of its own",
            Scope::Commit { .. } => "empty commit",
            Scope::Range { .. } => "no changes between these commits",
        }
    }

    /// For the scopes that touch the working tree: whether only the index is
    /// read. The others live in the object database.
    pub fn worktree(&self) -> (r: Option<bool>)
        ensures
            r == self@.worktree(),
    {
        match self {
            Scope::Uncommitted => Some(false),
            Scope::Staged => Some(true),
            _ => None,
        }
    }
}

// ---- the two sides of a diff ------------------------------------------------------
/// One side of a diff.
#[derive(Debug)]
pub enum Side {
    /// The tree of HEAD; the empty tree on an unborn branch.
    HeadTree,
    /// The commit at HEAD.
    Head,
    Index,
    /// The working tree on top of the index.
    Workdir,
    Commit(Oid),
    /// The first parent of a commit; the empty tree for a root commit.
    ParentOf(Oid),
    /// A revision by name.
    Revision(String),
    /// The merge base of HEAD and a revision.
    MergeBase(String),
    /// The commit right before the first one that a branch introduced.
    ForkPoint(String),
}

/// What a side says.
#[verifier::ext_equal]
pub enum SideView {
    HeadTree,
    Head,
    Index,
    Workdir,
    Commit(Seq<char>),
    ParentOf(Seq<char>),
    Revision(Seq<char>),
    MergeBase(Seq<char>),
    ForkPoint(Seq<char>),
}

impl View for Side {
    type V = SideView;

    open spec fn view(&self) -> SideView {
        match self {
            Side::HeadTree => SideView::HeadTree,
            Side::Head => SideView::Head,
            Side::Index => SideView::Index,
            Side::Workdir => SideView::Workdir,
            Side::Commit(id) => SideView::Commit(id@),
            Side::ParentOf(id) => SideView::ParentOf(id@),
            Side::Revision(rev) => SideView::Revision(rev@),
            Side::MergeBase(rev) => SideView::MergeBase(rev@),
            Side::ForkPoint(branch) => SideView::ForkPoint(branch@),
        }
    }
}

/// How a scope's diff is made.
#[derive(Debug)]
pub struct DiffPlan {
    pub old: Side,
    pub new: Side,
    /// Files above this size get no content.
    pub max_size: Option<i64>,
    /// The one path to diff, if not all.
    pub pathspec: Option<String>,
    pub untracked: bool,
    pub untracked_content: bool,
    /// Refresh stale index entries on the way, so that their price is paid once.
    pub update_index: bool,
    /// Rename detection may run.
    pub renames: bool,
    /// What is being done, for error messages.
    pub context: &'static str,
}

/// What a plan says.
#[verifier::ext_equal]
pub struct PlanView {
    pub old: SideView,
    pub new: SideView,
    pub max_size: Option<i64>,
    pub pathspec: Option<Seq<char>>,
    pub untracked: bool,
    pub untracked_content: bool,
    pub update_index: bool,
    pub renames: bool,
    pub context: Seq<char>,
}

impl View for DiffPlan {
    type V = PlanView;

    open spec fn view(&self) -> PlanView {
        PlanView {
            old: self.old@,
            new: self.new@,
            max_size: self.max_size,
            pathspec: deep::deep_opt(self.pathspec),
            untracked: self.untracked,
            untracked_content: self.untracked_content,
            update_index: self.update_index,
            renames: self.renames,
            context: self.context@,
        }
    }
}

impl ScopeView {
    /// The old and the new side of the scope.
    pub open spec fn sides(self) -> (SideView, SideView) {
        match self {
            ScopeView::Uncommitted => (SideView::HeadTree, SideView::Workdir),
            ScopeView::Staged => (SideView::HeadTree, SideView::Index),
            ScopeView::Branch { base } => (SideView::MergeBase(base), SideView::Head),
            ScopeView::BranchFork { branch } => (SideView::ForkPoint(branch), SideView::Head),
            ScopeView::Commit { id, .. } => (SideView::ParentOf(id), SideView::Commit(id)),
            ScopeView::Range { from, to } => (SideView::Commit(from), SideView::Commit(to)),
        }
    }

    /// What diffing the scope is called.
    pub open spec fn diffing(self) -> Seq<char> {
        match self {
            ScopeView::Uncommitted => "diffing working tree vs HEAD"@,
            ScopeView::Staged => "diffing index vs HEAD"@,
            ScopeView::Branch { .. } => "diffing merge base vs HEAD"@,
            ScopeView::BranchFork { .. } => "diffing fork point vs HEAD"@,
            ScopeView::Commit { .. } => "diffing commit vs parent"@,
            ScopeView::Range { .. } => "diffing range"@,
        }
    }

    /// The full diff of the scope, or of one path in it.
    pub open spec fn plan(self, max_size: Option<i64>, pathspec: Option<Seq<char>>) -> PlanView {
        PlanView {
            old: self.sides().0,
            new: self.sides().1,
            max_size,
            pathspec,
            untracked: self is Uncommitted,
            untracked_content: self is Uncommitted,
            update_index: self is Uncommitted,
            renames: true,
            context: self.diffing(),
        }
    }

    /// The diff that only counts files. The working tree is counted as cheaply as
    /// possible; the other scopes are cheap anyway.
    pub open spec fn counting(self) -> PlanView {
        if self is Uncommitted {
            PlanView {
                max_size: None,
                untracked_content: false,
                update_index: false,
                renames: false,
                ..self.plan(None, None)
            }
        } else {
            self.plan(Some(MAX_CONTENT_FILE_SIZE), None)
        }
    }
}

fn plan(scope: &Scope, max_size: Option<i64>, pathspec: Option<String>) -> (r: DiffPlan)
    ensures
        r@ == scope@.plan(max_size, deep::deep_opt(pathspec)),
{
    let (old, new): (Side, Side) = match scope {
        Scope::Uncommitted => (Side::HeadTree, Side::Workdir),
        Scope::Staged => (Side::HeadTree, Side::Index),
        Scope::Branch { base } => (Side::MergeBase(text::copy(base.as_str())), Side::Head),
        Scope::BranchFork { branch } => (Side::ForkPoint(text::copy(branch.as_str())), Side::Head),
        Scope::Commit { id, .. } => (Side::ParentOf(id.copy()), Side::Commit(id.copy())),
        Scope::Range { from, to } => (Side::Commit(from.copy()), Side::Commit(to.copy())),
    };
    let context: &'static str = match scope {
        Scope::Uncommitted => "diffing working tree vs HEAD",
        Scope::Staged => "diffing index vs HEAD",
        Scope::Branch { .. } => "diffing merge base vs HEAD",
        Scope::BranchFork { .. } => "diffing fork point vs HEAD",
        Scope::Commit { .. } => "diffing commit vs parent",
        Scope::Range { .. } => "diffing range",
    };
    let work: bool = match scope {
        Scope::Uncommitted => true,
        _ => false,
    };
    let r = DiffPlan {
        old,
        new,
        max_size,
        pathspec,
        untracked: work,
        untracked_content: work,
        update_index: work,
        renames: true,
        context,
    };
    assert(r@ =~= scope@.plan(max_size, deep::deep_opt(pathspec)));
    r
}

/// How the full diff of a scope is made. Oversized files get no content here;
/// they become stubs the UI expands on demand.
pub fn build_diff(scope: &Scope) -> (r: DiffPlan)
    ensures
        r@ == scope@.plan(Some(MAX_CONTENT_FILE_SIZE), None),
{
    plan(scope, Some(MAX_CONTENT_FILE_SIZE), None)
}

/// How the diff of a single path within a scope is made, with no size cap: it
/// expands a stub on demand.
pub fn build_file_diff(scope: &Scope, path: &str) -> (r: DiffPlan)
    ensures
        r@ == scope@.plan(None, Some(path@)),
{
    plan(scope, None, Some(text::copy(path)))
}

/// How the changed files of a scope are counted. Counts only — never for
/// display.
pub fn file_count_fast(scope: &Scope) -> (r: DiffPlan)
    ensures
        r@ == scope@.counting(),
{
    let work: bool = match scope {
        Scope::Uncommitted => true,
        _ => false,
    };
    if work {
        let mut p: DiffPlan = plan(scope, None, None);
        p.untracked_content = false;
        p.update_index = false;
        p.renames = false;
        assert(p@ =~= scope@.counting());
        p
    } else {
        build_diff(scope)
    }
}

// ---- full files ---------------------------------------------------------------------
impl ScopeView {
    /// Where a file's full content is looked for, in order: the new side of the
    /// scope, then the old one, for files that are gone.
    pub open spec fn sources(self) -> Seq<SideView> {
        match self {
            ScopeView::Uncommitted => seq![SideView::Workdir, SideView::Head],
            ScopeView::Staged => seq![SideView::Index, SideView::Head],
            ScopeView::Branch { base } => seq![SideView::Head, SideView::Revision(base)],
            ScopeView::BranchFork { branch } => seq![SideView::Head, SideView::ForkPoint(branch)],
            ScopeView::Commit { id, .. } => seq![SideView::Commit(id), SideView::ParentOf(id)],
            ScopeView::Range { from, to } => seq![SideView::Commit(to), SideView::Commit(from)],
        }
    }
}

/// Where a file's full content is looked for, in order.
pub fn content_sources(scope: &Scope) -> (r: Vec<Side>)
    ensures
        deep::deep(r@) == scope@.sources(),
{
    let mut v: Vec<Side> = Vec::new();
    match scope {
        Scope::Uncommitted => {
            v.push(Side::Workdir);
            v.push(Side::Head);
        },
        Scope::Staged => {
            v.push(Side::Index);
            v.push(Side::Head);
        },
        Scope::Branch { base } => {
            v.push(Side::Head);
            v.push(Side::Revision(text::copy(base.as_str())));
        },
        Scope::BranchFork { branch } => {
            v.push(Side::Head);
            v.push(Side::ForkPoint(text::copy(branch.as_str())));
        },
        Scope::Commit { id, .. } => {
            v.push(Side::Commit(id.copy()));
            v.push(Side::ParentOf(id.copy()));
        },
        Scope::Range { from, to } => {
            v.push(Side::Commit(to.copy()));
            v.push(Side::Commit(from.copy()));
        },
    }
    assert(deep::deep(v@) =~= scope@.sources());
    v
}

/// A file found on one side.
#[derive(Debug)]
pub struct Blob {
    pub content: Vec<u8>,
    /// The commit it was read from, where there is one.
    pub commit: Option<Oid>,
}

/// Short label of a side that a file was read from.
pub open spec fn source_label(side: SideView, commit: Option<Seq<char>>) -> Seq<char> {
    match side {
        SideView::Workdir => "working tree"@,
        SideView::Index => "index"@,
        SideView::HeadTree => "HEAD"@,
        SideView::Head => "HEAD"@,
        SideView::Commit(id) => abbreviated(id),
        SideView::ParentOf(id) => match commit {
            Some(parent) => abbreviated(parent),
            None => abbreviated(id) + "^"@,
        },
        SideView::Revision(rev) => rev,
        SideView::MergeBase(rev) => rev,
        SideView::ForkPoint(_) => "fork point"@,
    }
}

fn label_of(side: &Side, commit: &Option<Oid>) -> (r: String)
    ensures
        r@ == source_label(side@, deep::deep_opt(*commit)),
{
    match side {
        Side::Workdir => text::copy("working tree"),
        Side::Index => text::copy("index"),
        Side::HeadTree => text::copy("HEAD"),
        Side::Head => text::copy("HEAD"),
        Side::Commit(id) => id.short(),
        Side::ParentOf(id) => match commit {
            Some(parent) => parent.short(),
            None => {
                let mut s: String = id.short();
                text::put(&mut s, "^");
                s
            },
        },
        Side::Revision(rev) => text::copy(rev.as_str()),
        Side::MergeBase(rev) => text::copy(rev.as_str()),
        Side::ForkPoint(_) => text::copy("fork point"),
    }
}

/// A file's full content and a short label of where it came from.
#[derive(Debug)]
pub struct FullFile {
    pub content: String,
    pub source: String,
}

/// The message for a file that no side has.
pub open spec fn no_content(path: Seq<char>) -> Seq<char> {
    "no content found for '"@ + path + "' in this scope"@
}

/// Full content of a file as it exists on the *new* side of a scope's diff,
/// plus a short label describing where it came from. Falls back to the old
/// side for deleted files. `found` holds what the sides have, in the order of
/// `content_sources`.
pub fn file_content(scope: &Scope, path: &str, found: &[Option<Blob>]) -> (r: Result<
    FullFile,
    String,
>)
    requires
        found@.len() == scope@.sources().len(),
    ensures
        match (found@[0], found@[1]) {
            (Some(b), _) => r matches Ok(f) && f.content@ == bytes::lossy(b.content@) && f.source@
                == source_label(scope@.sources()[0], deep::deep_opt(b.commit)),
            (None, Some(b)) => r matches Ok(f) && f.content@ == bytes::lossy(b.content@)
                && f.source@ == source_label(scope@.sources()[1], deep::deep_opt(b.commit)),
            (None, None) => r matches Err(e) && e@ == no_content(path@),
        },
{
    let sides: Vec<Side> = content_sources(scope);
    assert(scope@.sources()[0] == sides@[0]@);
    assert(scope@.sources()[1] == sides@[1]@);
    match &found[0] {
        Some(b) => {
            return Ok(
                FullFile {
                    content: bytes::lossy_text(b.content.as_slice()),
                    source: label_of(&sides[0], &b.commit),
                },
            );
        },
        None => {},
    }
    match &found[1] {
        Some(b) => Ok(
            FullFile {
                content: bytes::lossy_text(b.content.as_slice()),
                source: label_of(&sides[1], &b.commit),
            },
        ),
        None => {
            let mut e: String = text::copy("no content found for '");
            text::put(&mut e, path);
            text::put(&mut e, "' in this scope");
            Err(e)
        },
    }
}

// ---- branches -----------------------------------------------------------------------
/// May a branch be compared against?
pub open spec fn candidate(name: Seq<char>, current: Option<Seq<char>>) -> bool {
    current != Some(name) && !text::ends_with(name, "/HEAD"@)
}

/// Those of the first `n` branches that can be compared against.
pub open spec fn candidates(
    names: Seq<Seq<char>>,
    current: Option<Seq<char>>,
    n: int,
) -> Seq<Seq<char>>
    decreases n,
{
    if n <= 0 {
        Seq::empty()
    } else if candidate(names[n - 1], current) {
        candidates(names, current, n - 1).push(names[n - 1])
    } else {
        candidates(names, current, n - 1)
    }
}

fn is_candidate(name: &str, current: Option<&str>) -> (r: bool)
    ensures
        r == candidate(name@, (match current { Some(c) => Some(c@), None => None })),
{
    let here: bool = match current {
        Some(c) => text::same(c, name),
        None => false,
    };
    let cs: Vec<char> = text::to_chars(name);
    !here && !text::ends(cs.as_slice(), "/HEAD")
}

fn put_candidates(out: &mut Vec<String>, names: &[String], current: Option<&str>)
    ensures
        deep::deep(final(out)@) == deep::deep(old(out)@) + candidates(
            deep::deep(names@),
            (match current { Some(c) => Some(c@), None => None }),
            names@.len() as int,
        ),
{
    let ghost before = deep::deep(out@);
    let ghost all = deep::deep(names@);
    let ghost cur = match current {
        Some(c) => Some(c@),
        None => None,
    };
    let mut i: usize = 0;
    while i < names.len()
        invariant
            i <= names@.len(),
            all == deep::deep(names@),
            cur == (match current { Some(c) => Some(c@), None => None }),
            deep::deep(out@) =~= before + candidates(all, cur, i as int),
        decreases names@.len() - i,
    {
        assert(all[i as int] == names@[i as int]@);
        if is_candidate(names[i].as_str(), current) {
            out.push(text::copy(names[i].as_str()));
        }
        i += 1;
    }
}

/// Candidate review bases: every local and remote branch except the current
/// one, locals first.
pub fn base_candidates(current: Option<&str>, locals: &[String], remotes: &[String]) -> (r: Vec<
    String,
>)
    ensures
        ({
            let cur = (match current { Some(c) => Some(c@), None => None });
            deep::deep(r@) == candidates(deep::deep(locals@), cur, locals@.len() as int)
                + candidates(deep::deep(remotes@), cur, remotes@.len() as int)
        }),
{
    let mut out: Vec<String> = Vec::new();
    put_candidates(&mut out, locals, current);
    put_candidates(&mut out, remotes, current);
    out
}

/// Is there a local branch of this name that is not the current one?
pub open spec fn usable(name: Seq<char>, current: Option<Seq<char>>, locals: Seq<Seq<char>>) -> bool {
    current != Some(name) && locals.contains(name)
}

/// The review base of the current branch: its upstream if set, else the first
/// of main, master and develop that exists and is not the current branch.
pub open spec fn detected(
    current: Option<Seq<char>>,
    upstream: Option<Seq<char>>,
    locals: Seq<Seq<char>>,
) -> Option<Seq<char>> {
    match upstream {
        Some(u) => Some(u),
        None => if usable("main"@, current, locals) {
            Some("main"@)
        } else if usable("master"@, current, locals) {
            Some("master"@)
        } else if usable("develop"@, current, locals) {
            Some("develop"@)
        } else {
            None
        },
    }
}

fn is_usable(name: &str, current: Option<&str>, locals: &[String]) -> (r: bool)
    ensures
        r == usable(
            name@,
            (match current { Some(c) => Some(c@), None => None }),
            deep::deep(locals@),
        ),
{
    let here: bool = match current {
        Some(c) => text::same(c, name),
        None => false,
    };
    !here && text::contains_text(locals, name)
}

/// Pick a review base for the current branch: its upstream if set, else the
/// first of main/master/develop that exists and isn't the current branch.
pub fn detect_base(current: Option<&str>, upstream: Option<&str>, locals: &[String]) -> (r: Option<
    String,
>)
    ensures
        deep::deep_opt(r) == detected(
            (match current { Some(c) => Some(c@), None => None }),
            (match upstream { Some(u) => Some(u@), None => None }),
            deep::deep(locals@),
        ),
{
    match upstream {
        Some(u) => Some(text::copy(u)),
        None => if is_usable("main", current, locals) {
            Some(text::copy("main"))
        } else if is_usable("master", current, locals) {
            Some(text::copy("master"))
        } else if is_usable("develop", current, locals) {
            Some(text::copy("develop"))
        } else {
            None
        },
    }
}

// ---- the fork point -----------------------------------------------------------------
/// Is a remote branch a copy of a local one: the same name under any remote?
pub open spec fn copy_of(remote: Seq<char>, branch: Seq<char>) -> bool {
    let slash = text::next_index(remote, '/', 0);
    slash < remote.len() && remote.skip(slash + 1) == branch
}

/// Does a remote branch bound the history of the current one?
pub open spec fn foreign(remote: Seq<char>, branch: Seq<char>) -> bool {
    !text::ends_with(remote, "/HEAD"@) && !copy_of(remote, branch)
}

/// Those of the first `n` local branches that are not the given one.
pub open spec fn other_locals(locals: Seq<Seq<char>>, branch: Seq<char>, n: int) -> Seq<Seq<char>>
    decreases n,
{
    if n <= 0 {
        Seq::empty()
    } else if locals[n - 1] != branch {
        other_locals(locals, branch, n - 1).push(locals[n - 1])
    } else {
        other_locals(locals, branch, n - 1)
    }
}

/// Those of the first `n` remote branches that are foreign to the given one.
pub open spec fn other_remotes(remotes: Seq<Seq<char>>, branch: Seq<char>, n: int) -> Seq<Seq<char>>
    decreases n,
{
    if n <= 0 {
        Seq::empty()
    } else if foreign(remotes[n - 1], branch) {
        other_remotes(remotes, branch, n - 1).push(remotes[n - 1])
    } else {
        other_remotes(remotes, branch, n - 1)
    }
}

fn is_foreign(remote: &str, branch: &str) -> (r: bool)
    ensures
        r == foreign(remote@, branch@),
{
    let cs: Vec<char> = text::to_chars(remote);
    if text::ends(cs.as_slice(), "/HEAD") {
        return false;
    }
    let slash: usize = text::find_char(cs.as_slice(), '/', 0);
    proof {
        text::lemma_next_index(cs@, '/', 0);
    }
    if slash >= cs.len() {
        return true;
    }
    let name: String = text::text_range(cs.as_slice(), slash + 1, cs.len());
    assert(name@ =~= remote@.skip(slash + 1));
    !text::same(name.as_str(), branch)
}

/// The local branches that bound the history of a branch: all others.
pub fn fork_locals(branch: &str, locals: &[String]) -> (r: Vec<String>)
    ensures
        deep::deep(r@) == other_locals(deep::deep(locals@), branch@, locals@.len() as int),
{
    let ghost all = deep::deep(locals@);
    let mut out: Vec<String> = Vec::new();
    let mut i: usize = 0;
    while i < locals.len()
        invariant
            i <= locals@.len(),
            all == deep::deep(locals@),
            deep::deep(out@) == other_locals(all, branch@, i as int),
        decreases locals@.len() - i,
    {
        assert(all[i as int] == locals@[i as int]@);
        if !text::same(locals[i].as_str(), branch) {
            out.push(text::copy(locals[i].as_str()));
        }
        i += 1;
    }
    out
}

/// The remote branches that bound the history of a branch: all but its own
/// copies, under whichever remote.
pub fn fork_remotes(branch: &str, remotes: &[String]) -> (r: Vec<String>)
    ensures
        deep::deep(r@) == other_remotes(deep::deep(remotes@), branch@, remotes@.len() as int),
{
    let ghost all = deep::deep(remotes@);
    let mut out: Vec<String> = Vec::new();
    let mut i: usize = 0;
    while i < remotes.len()
        invariant
            i <= remotes@.len(),
            all == deep::deep(remotes@),
            deep::deep(out@) == other_remotes(all, branch@, i as int),
        decreases remotes@.len() - i,
    {
        assert(all[i as int] == remotes@[i as int]@);
        if is_foreign(remotes[i].as_str(), branch) {
            out.push(text::copy(remotes[i].as_str()));
        }
        i += 1;
    }
    out
}

/// Can a fork point be defined for the branch?
pub open spec fn has_fork(
    branch: Seq<char>,
    locals: Seq<Seq<char>>,
    remotes: Seq<Seq<char>>,
) -> bool {
    other_locals(locals, branch, locals.len() as int).len() > 0 || other_remotes(
        remotes,
        branch,
        remotes.len() as int,
    ).len() > 0
}

/// The branch that can be reviewed against its fork point: the current one, if
/// there is another branch that is not a remote copy of it. A detached HEAD has
/// no current branch.
pub fn forkable_branch(current: Option<&str>, locals: &[String], remotes: &[String]) -> (r: Option<
    String,
>)
    ensures
        match current {
            Some(c) => deep::deep_opt(r) == (if has_fork(
                c@,
                deep::deep(locals@),
                deep::deep(remotes@),
            ) {
                Some(c@)
            } else {
                None
            }),
            None => r is None,
        },
{
    match current {
        Some(c) => {
            if fork_locals(c, locals).len() > 0 || fork_remotes(c, remotes).len() > 0 {
                Some(text::copy(c))
            } else {
                None
            }
        },
        None => None,
    }
}

/// A commit that only the reviewed branch has.
#[derive(Debug)]
pub struct OwnCommit {
    pub id: Oid,
    /// Its first parent; none for a root commit.
    pub parent: Option<Oid>,
}

/// The old side of a review since the fork point.
#[derive(Debug)]
pub enum ForkBase {
    /// No commits of its own: nothing to review.
    Head,
    Commit(Oid),
    /// The first commit of the branch is a root commit.
    EmptyTree,
}

/// The fork walk gives up past this many commits.
pub const FORK_WALK_LIMIT: usize = 10_000;

/// The message of a fork walk that gave up.
pub open spec fn too_far(branch: Seq<char>) -> Seq<char> {
    "'"@ + branch + "' has more than 10000 commits of its own; pick a base with -b <base>"@
}

/// The commit right before the first one that the branch introduced. `own`
/// holds the branch's own commits, newest first.
pub fn fork_base(branch: &str, own: &[OwnCommit]) -> (r: Result<ForkBase, String>)
    ensures
        if own@.len() > FORK_WALK_LIMIT {
            r matches Err(e) && e@ == too_far(branch@)
        } else if own@.len() == 0 {
            r matches Ok(ForkBase::Head)
        } else {
            match own@.last().parent {
                Some(p) => r matches Ok(ForkBase::Commit(id)) && id@ == p@,
                None => r matches Ok(ForkBase::EmptyTree),
            }
        },
{
    if own.len() > FORK_WALK_LIMIT {
        let mut e: String = text::copy("'");
        text::put(&mut e, branch);
        text::put(
            &mut e,
            "' has more than 10000 commits of its own; pick a base with -b <base>",
        );
        return Err(e);
    }
    if own.len() == 0 {
        return Ok(ForkBase::Head);
    }
    match &own[own.len() - 1].parent {
        Some(p) => Ok(ForkBase::Commit(p.copy())),
        None => Ok(ForkBase::EmptyTree),
    }
}

/// Pushing a branch never changes what bounds its history: a remote copy of it
/// is not among the branches that do.
pub proof fn lemma_pushing_keeps_the_fork(
    branch: Seq<char>,
    remotes: Seq<Seq<char>>,
    pushed: Seq<char>,
)
    requires
        copy_of(pushed, branch),
    ensures
        other_remotes(remotes.push(pushed), branch, remotes.len() as int + 1) == other_remotes(
            remotes,
            branch,
            remotes.len() as int,
        ),
{
    lemma_other_remotes_prefix(remotes, pushed, branch, remotes.len() as int);
}

proof fn lemma_other_remotes_prefix(
    remotes: Seq<Seq<char>>,
    more: Seq<char>,
    branch: Seq<char>,
    n: int,
)
    requires
        0 <= n <= remotes.len(),
    ensures
        other_remotes(remotes.push(more), branch, n) == other_remotes(remotes, branch, n),
    decreases n,
{
    if n > 0 {
        lemma_other_remotes_prefix(remotes, more, branch, n - 1);
    }
}

// ---- revisions ----------------------------------------------------------------------
/// The two revisions of a range.
#[derive(Debug)]
pub struct RevRange {
    pub from: String,
    pub to: String,
    /// The range starts at the merge base of the two.
    pub merge_base: bool,
}

/// What a range says.
#[verifier::ext_equal]
pub struct RangeView {
    pub from: Seq<char>,
    pub to: Seq<char>,
    pub merge_base: bool,
}

impl View for RevRange {
    type V = RangeView;

    open spec fn view(&self) -> RangeView {
        RangeView { from: self.from@, to: self.to@, merge_base: self.merge_base }
    }
}

/// A revision; HEAD where none is written.
pub open spec fn rev_or_head(rev: Seq<char>) -> Seq<char> {
    if rev.len() == 0 {
        "HEAD"@
    } else {
        rev
    }
}

/// `a...b` and `a..b` are ranges, the first from the merge base.
pub open spec fn range_of(spec: Seq<char>) -> Option<RangeView> {
    match text::find_from(spec, "..."@, 0) {
        Some(k) => Some(
            RangeView {
                from: rev_or_head(spec.take(k)),
                to: rev_or_head(spec.skip(k + 3)),
                merge_base: true,
            },
        ),
        None => match text::find_from(spec, ".."@, 0) {
            Some(k) => Some(
                RangeView {
                    from: rev_or_head(spec.take(k)),
                    to: rev_or_head(spec.skip(k + 2)),
                    merge_base: false,
                },
            ),
            None => None,
        },
    }
}

fn revision(cs: &[char], lo: usize, hi: usize) -> (r: String)
    requires
        lo <= hi <= cs@.len(),
    ensures
        r@ == rev_or_head(cs@.subrange(lo as int, hi as int)),
{
    if lo == hi {
        assert(cs@.subrange(lo as int, hi as int).len() == 0);
        text::copy("HEAD")
    } else {
        text::text_range(cs, lo, hi)
    }
}

/// Reads `a..b` / `a...b`; a single revision is no range.
pub fn rev_range(spec: &str) -> (r: Option<RevRange>)
    ensures
        deep::deep_opt(r) == range_of(spec@),
{
    let cs: Vec<char> = text::to_chars(spec);
    let three: Vec<char> = text::to_chars("...");
    let two: Vec<char> = text::to_chars("..");
    let total: usize = cs.len();
    proof {
        reveal_strlit("...");
        reveal_strlit("..");
        text::lemma_find_from(spec@, "..."@, 0);
        text::lemma_find_from(spec@, ".."@, 0);
    }
    match text::find(cs.as_slice(), three.as_slice(), 0) {
        Some(k) => {
            assert(cs@.subrange(0, k as int) =~= spec@.take(k as int));
            assert(cs@.subrange(k + 3, total as int) =~= spec@.skip(k + 3));
            let r = RevRange {
                from: revision(cs.as_slice(), 0, k),
                to: revision(cs.as_slice(), k + 3, total),
                merge_base: true,
            };
            assert(r@ =~= range_of(spec@)->0);
            Some(r)
        },
        None => match text::find(cs.as_slice(), two.as_slice(), 0) {
            Some(k) => {
                assert(cs@.subrange(0, k as int) =~= spec@.take(k as int));
                assert(cs@.subrange(k + 2, total as int) =~= spec@.skip(k + 2));
                let r = RevRange {
                    from: revision(cs.as_slice(), 0, k),
                    to: revision(cs.as_slice(), k + 2, total),
                    merge_base: false,
                };
                assert(r@ =~= range_of(spec@)->0);
                Some(r)
            },
            None => None,
        },
    }
}

/// What a revision turned out to be.
#[derive(Debug)]
pub enum Resolved {
    Commit { id: Oid, summary: Option<String> },
    /// No such revision.
    Unknown,
    /// Something other than a commit.
    NotACommit,
}

/// The message for a revision that is no commit.
pub open spec fn rev_error(rev: Seq<char>, found: Resolved) -> Seq<char> {
    match found {
        Resolved::NotACommit => "'"@ + rev + "' is not a commit"@,
        _ => "unknown revision '"@ + rev + "'"@,
    }
}

fn explain(rev: &str, found: &Resolved) -> (r: String)
    ensures
        r@ == rev_error(rev@, *found),
{
    match found {
        Resolved::NotACommit => {
            let mut e: String = text::copy("'");
            text::put(&mut e, rev);
            text::put(&mut e, "' is not a commit");
            e
        },
        _ => {
            let mut e: String = text::copy("unknown revision '");
            text::put(&mut e, rev);
            text::put(&mut e, "'");
            e
        },
    }
}

/// The scope of a commit that a user named.
pub open spec fn commit_view(id: Oid, summary: Option<String>) -> ScopeView {
    ScopeView::Commit {
        id: id@,
        summary: match summary {
            Some(s) => s@,
            None => Seq::empty(),
        },
    }
}

/// Resolve a user-supplied revision string into a commit scope.
pub fn commit_scope(rev: &str, found: &Resolved) -> (r: Result<Scope, String>)
    ensures
        match *found {
            Resolved::Commit { id, summary } => r matches Ok(s) && s@ == commit_view(id, summary),
            _ => r matches Err(e) && e@ == rev_error(rev@, *found),
        },
{
    match found {
        Resolved::Commit { id, summary } => {
            let s: String = match summary {
                Some(s) => text::copy(s.as_str()),
                None => String::new(),
            };
            Ok(Scope::Commit { id: id.copy(), summary: s })
        },
        _ => Err(explain(rev, found)),
    }
}

/// Resolve `a..b` / `a...b` (`...` diffs from the merge base of a and b) or a
/// single revision into a scope. `from` is what the first revision of a range
/// turned out to be, or the single one; `merge_base` that of the two ends.
pub fn rev_scope(spec: &str, from: &Resolved, to: &Resolved, merge_base: Option<&Oid>) -> (r:
    Result<Scope, String>)
    ensures
        match range_of(spec@) {
            None => match *from {
                Resolved::Commit { id, summary } => r matches Ok(s) && s@ == commit_view(
                    id,
                    summary,
                ),
                _ => r matches Err(e) && e@ == rev_error(spec@, *from),
            },
            Some(range) => match (*from, *to) {
                (
                    Resolved::Commit { id: a, .. },
                    Resolved::Commit { id: b, .. },
                ) => if !range.merge_base {
                    r matches Ok(s) && s@ == (ScopeView::Range { from: a@, to: b@ })
                } else {
                    match merge_base {
                        Some(m) => r matches Ok(s) && s@ == (ScopeView::Range { from: m@, to: b@ }),
                        None => r matches Err(e) && e@ == "no merge base for '...' range"@,
                    }
                },
                (Resolved::Commit { .. }, _) => r matches Err(e) && e@ == rev_error(range.to, *to),
                _ => r matches Err(e) && e@ == rev_error(range.from, *from),
            },
        },
{
    match rev_range(spec) {
        None => commit_scope(spec, from),
        Some(range) => match from {
            Resolved::Commit { id: a, .. } => match to {
                Resolved::Commit { id: b, .. } => {
                    if !range.merge_base {
                        return Ok(Scope::Range { from: a.copy(), to: b.copy() });
                    }
                    match merge_base {
                        Some(m) => Ok(Scope::Range { from: m.copy(), to: b.copy() }),
                        None => Err(text::copy("no merge base for '...' range")),
                    }
                },
                _ => Err(explain(range.to.as_str(), to)),
            },
            _ => Err(explain(range.from.as_str(), from)),
        },
    }
}

} // verus!
