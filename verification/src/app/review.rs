//! One open review: its diff, the views on it, and how they are rebuilt.

use crate::app::layout;
use crate::app::layout::TreeResizeResult;
use crate::comments;
use crate::comments::{Comment, CommentView, Placed};
use crate::deep;
use crate::git::context;
use crate::git::diff;
use crate::git::diff::{DiffResult, DiffView, FileDiff, FileDiffView};
use crate::git::scope::{Scope, ScopeView};
use crate::store;
use crate::store::{CommentStore, StoreState, StoreView};
use crate::text;
use crate::ui::fileview::{FileView, PagerView};
use crate::ui::review;
use crate::ui::review::{AnchorView, Stream, StreamAnchor, StreamView};
use crate::ui::rows;
use crate::ui::rows::Landmark;
use crate::ui::tree;
use crate::ui::tree::{FileTree, TreeView};
use vstd::prelude::*;

verus! {

broadcast use crate::deep::group_deep;

/// Which pane the keys go to.
#[derive(Clone, Copy, Debug, PartialEq, Eq, Structural)]
pub enum Focus {
    Tree,
    Stream,
}

/// A file that is shown in full: the canonical diff hidden behind the display
/// override. Presence means the reader wants the file expanded; `loading`
/// distinguishes an outstanding background request from an installed override.
#[derive(Debug)]
pub struct FullContextState {
    pub path: String,
    pub base: FileDiff,
    pub loading: bool,
}

/// What such an entry holds.
#[verifier::ext_equal]
pub struct FullContextView {
    pub path: Seq<char>,
    pub base: FileDiffView,
    pub loading: bool,
}

impl View for FullContextState {
    type V = FullContextView;

    open spec fn view(&self) -> FullContextView {
        FullContextView { path: self.path@, base: self.base@, loading: self.loading }
    }
}

/// What a rebuild keeps of the reader's state.
pub struct ReviewViewState {
    pub anchor: Option<StreamAnchor>,
    pub collapsed: Vec<String>,
    pub query: Option<String>,
}

/// What the reader's state says.
#[verifier::ext_equal]
pub struct ReaderView {
    pub anchor: Option<AnchorView>,
    pub collapsed: Seq<Seq<char>>,
    pub query: Option<Seq<char>>,
}

impl View for ReviewViewState {
    type V = ReaderView;

    open spec fn view(&self) -> ReaderView {
        ReaderView {
            anchor: match self.anchor {
                Some(a) => Some(review::anchor_view(a)),
                None => None,
            },
            collapsed: deep::deep(self.collapsed@),
            query: deep::deep_opt(self.query),
        }
    }
}

/// The state of a reader who has just arrived.
pub open spec fn fresh_reader() -> ReaderView {
    ReaderView { anchor: None, collapsed: Seq::empty(), query: None }
}

impl ReviewViewState {
    /// The state of a reader who has just arrived.
    pub fn fresh() -> (r: Self)
        ensures
            r@ == fresh_reader(),
    {
        let r = ReviewViewState { anchor: None, collapsed: Vec::new(), query: None };
        assert(r@ =~= fresh_reader());
        r
    }
}

// ---- expanded files -------------------------------------------------------------
/// The entry of a path; the length if it has none.
pub open spec fn entry_index(expanded: Seq<FullContextView>, path: Seq<char>, i: int) -> int
    decreases expanded.len() - i,
{
    if i >= expanded.len() || expanded[i].path == path {
        i
    } else {
        entry_index(expanded, path, i + 1)
    }
}

/// Is the path to be shown in full?
pub open spec fn wants(expanded: Seq<FullContextView>, path: Seq<char>) -> bool {
    entry_index(expanded, path, 0) < expanded.len()
}

/// The file as the review's snapshot has it.
pub open spec fn canonical_file(f: FileDiffView, expanded: Seq<FullContextView>) -> FileDiffView {
    let k = entry_index(expanded, f.path, 0);
    if k < expanded.len() {
        expanded[k].base
    } else {
        f
    }
}

/// The diff behind what is displayed: the sole source for comment anchoring.
pub open spec fn canonical(files: Seq<FileDiffView>, expanded: Seq<FullContextView>) -> DiffView {
    diff::diff_of(files.map_values(|f: FileDiffView| canonical_file(f, expanded)))
}

fn find_entry(expanded: &[FullContextState], path: &str) -> (r: usize)
    ensures
        r == entry_index(deep::deep(expanded@), path@, 0),
        r <= expanded@.len(),
        r < expanded@.len() ==> expanded@[r as int].path@ == path@,
{
    let ghost all = deep::deep(expanded@);
    let mut i: usize = 0;
    while i < expanded.len() && !text::same(expanded[i].path.as_str(), path)
        invariant
            i <= expanded@.len(),
            all == deep::deep(expanded@),
            entry_index(all, path@, i as int) == entry_index(all, path@, 0),
        decreases expanded@.len() - i,
    {
        assert(all[i as int] == expanded@[i as int]@);
        i += 1;
    }
    if i < expanded.len() {
        assert(all[i as int] == expanded@[i as int]@);
    }
    i
}

/// The diff behind what is displayed.
pub fn canonical_diff(files: &[FileDiff], expanded: &[FullContextState]) -> (r: DiffResult)
    ensures
        r@ == canonical(deep::deep(files@), deep::deep(expanded@)),
{
    let ghost all = deep::deep(files@);
    let ghost ex = deep::deep(expanded@);
    let mut out: Vec<FileDiff> = Vec::new();
    let mut i: usize = 0;
    while i < files.len()
        invariant
            i <= files@.len(),
            all == deep::deep(files@),
            ex == deep::deep(expanded@),
            deep::deep(out@) =~= all.take(i as int).map_values(
                |f: FileDiffView| canonical_file(f, ex),
            ),
        decreases files@.len() - i,
    {
        assert(all[i as int] == files@[i as int]@);
        let k: usize = find_entry(expanded, files[i].path.as_str());
        if k < expanded.len() {
            assert(ex[k as int] == expanded@[k as int]@);
            out.push(expanded[k].base.copy());
        } else {
            out.push(files[i].copy());
        }
        i += 1;
    }
    assert(all.take(i as int) =~= all);
    DiffResult::from_files(out)
}

// ---- building the views ---------------------------------------------------------
/// Comments on each file.
pub open spec fn counts_of(files: Seq<FileDiffView>, comments: Seq<CommentView>) -> Seq<usize> {
    files.map_values(|f: FileDiffView| store::path_count(comments, f.path) as usize)
}

pub fn comment_counts(diff: &DiffResult, store: &CommentStore) -> (r: Vec<usize>)
    ensures
        r@ == counts_of(diff@.files, store@.comments),
{
    let ghost all = diff@.files;
    let mut out: Vec<usize> = Vec::new();
    let mut i: usize = 0;
    while i < diff.files.len()
        invariant
            i <= diff.files@.len(),
            all == deep::deep(diff.files@),
            out@ =~= all.take(i as int).map_values(
                |f: FileDiffView| store::path_count(store@.comments, f.path) as usize,
            ),
        decreases diff.files@.len() - i,
    {
        assert(all[i as int] == diff.files@[i as int]@);
        out.push(store.count_for_path(diff.files[i].path.as_str()));
        i += 1;
    }
    assert(all.take(i as int) =~= all);
    out
}

/// The store after comments were re-anchored in a diff, if that could be saved.
pub open spec fn anchored(s: StoreView, files: Seq<FileDiffView>, saved: bool) -> StoreView {
    match s.moved(files) {
        Some(m) if saved => m,
        _ => s,
    }
}

/// Where comments stand in the displayed diff; nowhere if their new positions
/// could not be saved.
pub open spec fn shown_placements(
    canonical: Seq<FileDiffView>,
    display: Seq<FileDiffView>,
    s: StoreView,
    saved: bool,
) -> Seq<Placed> {
    if saved {
        comments::display_placements(
            canonical,
            display,
            comments::placements(canonical, s.comments),
        )
    } else {
        Seq::empty()
    }
}

/// The stream of a diff with the reader put back to where they were.
pub open spec fn built_stream(
    canonical: Seq<FileDiffView>,
    display: Seq<FileDiffView>,
    s: StoreView,
    saved: bool,
    reader: ReaderView,
) -> StreamView {
    let bare = review::fresh(
        display,
        shown_placements(canonical, display, s, saved),
        anchored(s, canonical, saved).comments,
    );
    let searched = match reader.query {
        Some(q) => bare.searched(q, display),
        None => bare,
    };
    match reader.anchor {
        Some(a) => searched.restored(a, display),
        None => searched,
    }
}

/// The tree of a diff with the reader's folds.
pub open spec fn built_tree(
    canonical: Seq<FileDiffView>,
    display: Seq<FileDiffView>,
    s: StoreView,
    saved: bool,
    reader: ReaderView,
) -> TreeView {
    tree::planted(
        display,
        if saved {
            counts_of(display, anchored(s, canonical, saved).comments)
        } else {
            Seq::new(display.len(), |i: int| 0usize)
        },
    ).with_collapsed(reader.collapsed)
}

/// The warning of a failed save.
pub open spec fn hidden_warning(error: Seq<char>) -> Seq<char> {
    "inline comments hidden; anchor updates could not be saved: "@ + error
}

/// The warning of a rebuild.
pub open spec fn build_warning(saved: Result<(), String>) -> Option<Seq<char>> {
    match saved {
        Ok(()) => None,
        Err(e) => Some(hidden_warning(e@)),
    }
}

/// The views on a diff.
pub struct Views {
    pub stream: Stream,
    pub tree: FileTree,
    pub warning: Option<String>,
}

fn no_counts(n: usize) -> (r: Vec<usize>)
    ensures
        r@ == Seq::new(n as nat, |i: int| 0usize),
{
    let mut v: Vec<usize> = Vec::new();
    while v.len() < n
        invariant
            v@.len() <= n,
            forall|i: int| 0 <= i < v@.len() ==> (#[trigger] v@[i]) == 0,
        decreases n - v@.len(),
    {
        v.push(0);
    }
    assert(v@ =~= Seq::new(n as nat, |i: int| 0usize));
    v
}

fn place_comments(canonical: &DiffResult, display: &DiffResult, store: &CommentStore) -> (r: Vec<
    Placed,
>)
    ensures
        r@ == shown_placements(canonical@.files, display@.files, store@, true),
        rows::names_comments(r@, store@.comments.len()),
{
    let (placed, _): (Vec<Placed>, Option<StoreState>) = store.reanchor(canonical);
    let all: &[Comment] = store.comments();
    let total: usize = all.len();
    proof {
        assert(store@.comments.len() == total);
        comments::lemma_countable(canonical.files);
        comments::lemma_countable(display.files);
        comments::lemma_placements_in_diff(canonical@.files, store@.comments);
        comments::lemma_display_placements_in_diff(
            canonical@.files,
            display@.files,
            placed@,
            store@.comments.len(),
        );
    }
    comments::placements_for_display(canonical, display, placed.as_slice())
}

proof fn lemma_anchored_count(s: StoreView, files: Seq<FileDiffView>, saved: bool)
    ensures
        anchored(s, files, saved).comments.len() == s.comments.len(),
{
}

/// Re-places comments and builds the views. Positions that moved must have been
/// saved; `saved` says how that went. A failure hides inline comments but never
/// blocks the review.
pub fn build_views(
    canonical: &DiffResult,
    display: &DiffResult,
    store: &mut CommentStore,
    saved: Result<(), String>,
    reader: &ReviewViewState,
) -> (r: Views)
    ensures
        ({
            let ok = saved is Ok;
            let cf = canonical@.files;
            let df = display@.files;
            &&& final(store)@ == anchored(old(store)@, cf, ok)
            &&& r.stream.wf()
            &&& r.stream@ == built_stream(cf, df, old(store)@, ok, reader@)
            &&& r.stream@.shows(df)
            &&& r.stream@.speaks_of(df, final(store)@.comments.len())
            &&& r.tree@ == built_tree(cf, df, old(store)@, ok, reader@)
            &&& deep::deep_opt(r.warning) == build_warning(saved)
        }),
{
    let ghost before = store@;
    proof {
        lemma_anchored_count(before, canonical@.files, saved is Ok);
    }
    let placed: Vec<Placed>;
    let counts: Vec<usize>;
    let warning: Option<String>;
    match saved {
        Ok(()) => {
            placed = place_comments(canonical, display, store);
            let (_, moved): (Vec<Placed>, Option<StoreState>) = store.reanchor(canonical);
            if let Some(state) = moved {
                store.commit_state(state);
            }
            counts = comment_counts(display, store);
            warning = None;
        },
        Err(e) => {
            placed = Vec::new();
            counts = no_counts(display.files.len());
            let mut s: String = text::copy(
                "inline comments hidden; anchor updates could not be saved: ",
            );
            text::put(&mut s, e.as_str());
            warning = Some(s);
        },
    }
    let mut stream: Stream = Stream::new(display, placed.as_slice(), store.comments());
    let mut tree: FileTree = FileTree::new(display.files.as_slice(), counts.as_slice());
    tree.apply_collapsed(reader.collapsed.as_slice());
    if let Some(q) = &reader.query {
        stream.set_search(q.as_str(), display.files.as_slice());
    }
    if let Some(a) = &reader.anchor {
        stream.restore(a, display.files.as_slice());
    }
    Views { stream, tree, warning }
}

// ---- the review -----------------------------------------------------------------
/// One open review.
pub struct ReviewState {
    pub scope: Scope,
    pub diff: DiffResult,
    pub stream: Stream,
    pub tree: FileTree,
    pub focus: Focus,
    pub show_tree: bool,
    /// Explicit width selected with `</>`; None uses content-aware sizing.
    pub tree_width: Option<u16>,
    /// Full review width from the last frame, including a hidden tree.
    pub rendered_review_width: u16,
    /// Full-file pager overlay (`o`).
    pub file_view: Option<FileView>,
    pub full_context: Vec<FullContextState>,
}

/// What a review holds.
#[verifier::ext_equal]
pub struct ReviewView {
    pub scope: ScopeView,
    pub diff: DiffView,
    pub stream: StreamView,
    pub tree: TreeView,
    pub focus: Focus,
    pub show_tree: bool,
    pub tree_width: Option<u16>,
    pub rendered_review_width: u16,
    pub file_view: Option<PagerView>,
    pub full_context: Seq<FullContextView>,
}

impl View for ReviewState {
    type V = ReviewView;

    open spec fn view(&self) -> ReviewView {
        ReviewView {
            scope: self.scope@,
            diff: self.diff@,
            stream: self.stream@,
            tree: self.tree@,
            focus: self.focus,
            show_tree: self.show_tree,
            tree_width: self.tree_width,
            rendered_review_width: self.rendered_review_width,
            file_view: deep::deep_opt(self.file_view),
            full_context: deep::deep(self.full_context@),
        }
    }
}

/// A review to come: what a rebuild shows once comment positions are settled.
pub struct NextReview {
    pub diff: DiffResult,
    pub full_context: Vec<FullContextState>,
    pub reader: ReviewViewState,
}

/// What a review to come holds.
#[verifier::ext_equal]
pub struct NextView {
    pub diff: DiffView,
    pub full_context: Seq<FullContextView>,
    pub reader: ReaderView,
}

impl View for NextReview {
    type V = NextView;

    open spec fn view(&self) -> NextView {
        NextView {
            diff: self.diff@,
            full_context: deep::deep(self.full_context@),
            reader: self.reader@,
        }
    }
}

impl NextView {
    /// The files behind what is to be displayed.
    pub open spec fn canonical_files(self) -> Seq<FileDiffView> {
        canonical(self.diff.files, self.full_context).files
    }
}

/// The first file from `i` on that has the path and can be shown in full.
pub open spec fn eligible_index(files: Seq<FileDiffView>, path: Seq<char>, i: int) -> int
    decreases files.len() - i,
{
    if i >= files.len() || (files[i].path == path && context::eligible(files[i])) {
        i
    } else {
        eligible_index(files, path, i + 1)
    }
}

/// The entries that survive a reload: those whose file can still be shown in
/// full, to be loaded anew.
pub open spec fn carried(expanded: Seq<FullContextView>, files: Seq<FileDiffView>, n: int) -> Seq<
    FullContextView,
>
    decreases n,
{
    if n <= 0 {
        Seq::empty()
    } else {
        let path = expanded[n - 1].path;
        let k = eligible_index(files, path, 0);
        if k < files.len() {
            carried(expanded, files, n - 1).push(
                FullContextView { path, base: files[k], loading: true },
            )
        } else {
            carried(expanded, files, n - 1)
        }
    }
}

/// What activating the current file does.
pub enum FullContextToggle {
    /// Ask for the file in full.
    Load { path: String, old_path: Option<String> },
    /// Show the original diff again.
    Collapse(NextReview),
    Unavailable,
}

/// What such an activation says.
#[verifier::ext_equal]
pub enum ToggleView {
    Load { path: Seq<char>, old_path: Option<Seq<char>> },
    Collapse(NextView),
    Unavailable,
}

impl View for FullContextToggle {
    type V = ToggleView;

    open spec fn view(&self) -> ToggleView {
        match self {
            FullContextToggle::Load { path, old_path } => ToggleView::Load {
                path: path@,
                old_path: deep::deep_opt(*old_path),
            },
            FullContextToggle::Collapse(n) => ToggleView::Collapse(n@),
            FullContextToggle::Unavailable => ToggleView::Unavailable,
        }
    }
}

/// What the arrival of a file in full does.
pub enum FullContextInstall {
    Install(NextReview),
    /// Collapsed while in flight, or no longer displayed.
    Ignored,
    /// The file changed since the snapshot.
    Refused(String),
}

/// What such an arrival says.
#[verifier::ext_equal]
pub enum InstallView {
    Install(NextView),
    Ignored,
    Refused(Seq<char>),
}

impl View for FullContextInstall {
    type V = InstallView;

    open spec fn view(&self) -> InstallView {
        match self {
            FullContextInstall::Install(n) => InstallView::Install(n@),
            FullContextInstall::Ignored => InstallView::Ignored,
            FullContextInstall::Refused(m) => InstallView::Refused(m@),
        }
    }
}

/// The message for a file that changed since the snapshot.
pub open spec fn changed_message(path: Seq<char>) -> Seq<char> {
    path + " changed since this review snapshot; press r to reload"@
}

impl ReviewView {
    /// The reader's state.
    pub open spec fn reader(self) -> ReaderView {
        ReaderView {
            anchor: self.stream.anchor(self.diff.files),
            collapsed: self.tree.collapsed(),
            query: match self.stream.search {
                Some(s) => Some(s.query),
                None => None,
            },
        }
    }

    /// The tree follows the stream, unless the reader is picking in it.
    pub open spec fn synced(self) -> ReviewView {
        match self.stream.file_here() {
            Some(fi) if self.focus != Focus::Tree => ReviewView { tree: self.tree.at_file(fi), ..self },
            _ => self,
        }
    }

    /// The same diff once more.
    pub open spec fn again(self) -> NextView {
        NextView { diff: self.diff, full_context: self.full_context, reader: self.reader() }
    }

    /// A freshly loaded diff.
    pub open spec fn reloaded(self, diff: DiffView) -> NextView {
        NextView {
            diff,
            full_context: carried(self.full_context, diff.files, self.full_context.len() as int),
            reader: self.reader(),
        }
    }

    /// The diff with a stub replaced by what it stood for.
    pub open spec fn unfolded(self, pos: int, loaded: Seq<FileDiffView>) -> NextView {
        let files = self.diff.files;
        NextView {
            diff: diff::diff_of(files.take(pos) + loaded + files.skip(pos + 1)),
            full_context: self.full_context,
            reader: self.reader(),
        }
    }

    /// The diff with the first file of a path replaced.
    pub open spec fn with_file(self, path: Seq<char>, f: FileDiffView) -> DiffView {
        let k = diff::path_index(self.diff.files, path);
        if k < self.diff.files.len() {
            DiffView { files: self.diff.files.update(k, f), ..self.diff }
        } else {
            self.diff
        }
    }

    /// What activating the current file does, and the review after it.
    pub open spec fn toggled(self) -> (ReviewView, ToggleView) {
        match self.stream.file_here() {
            None => (self, ToggleView::Unavailable),
            Some(fi) => {
                let file = self.diff.files[fi as int];
                let k = entry_index(self.full_context, file.path, 0);
                if k < self.full_context.len() {
                    (
                        self,
                        ToggleView::Collapse(
                            NextView {
                                diff: self.with_file(file.path, self.full_context[k].base),
                                full_context: self.full_context.remove(k),
                                reader: self.reader(),
                            },
                        ),
                    )
                } else if context::eligible(file) {
                    (
                        ReviewView {
                            full_context: self.full_context.push(
                                FullContextView { path: file.path, base: file, loading: true },
                            ),
                            ..self
                        },
                        ToggleView::Load { path: file.path, old_path: file.old_path },
                    )
                } else {
                    (self, ToggleView::Unavailable)
                }
            },
        }
    }

    /// What the arrival of a file in full does, and the review after it.
    pub open spec fn arrived(self, path: Seq<char>, full: FileDiffView) -> (ReviewView, InstallView) {
        let k = entry_index(self.full_context, path, 0);
        if k >= self.full_context.len() {
            (self, InstallView::Ignored)
        } else {
            let e = self.full_context[k];
            let dropped = ReviewView { full_context: self.full_context.remove(k), ..self };
            if context::changes(e.base.hunks) != context::changes(full.hunks) {
                (dropped, InstallView::Refused(changed_message(path)))
            } else if diff::path_index(self.diff.files, path) >= self.diff.files.len() {
                (dropped, InstallView::Ignored)
            } else {
                (
                    self,
                    InstallView::Install(
                        NextView {
                            diff: self.with_file(path, context::marked(e.base, full)),
                            full_context: self.full_context.update(
                                k,
                                FullContextView { loading: false, ..e },
                            ),
                            reader: self.reader(),
                        },
                    ),
                )
            }
        }
    }

    /// The review without a load that failed.
    pub open spec fn cancelled(self, path: Seq<char>) -> ReviewView {
        let k = entry_index(self.full_context, path, 0);
        if k < self.full_context.len() && self.full_context[k].loading {
            ReviewView { full_context: self.full_context.remove(k), ..self }
        } else {
            self
        }
    }

    /// The review after a rebuild.
    pub open spec fn rebuilt(self, next: NextView, s: StoreView, saved: bool) -> ReviewView {
        let cf = next.canonical_files();
        let df = next.diff.files;
        let r = ReviewView {
            diff: next.diff,
            full_context: next.full_context,
            stream: built_stream(cf, df, s, saved, next.reader),
            tree: built_tree(cf, df, s, saved, next.reader),
            ..self
        };
        match r.stream.file_here() {
            Some(fi) => ReviewView { tree: r.tree.at_file(fi), ..r },
            None => r,
        }
    }

    /// Whether the current file is shown in full, and whether that is still
    /// loading; `None` where it cannot be.
    pub open spec fn full_status(self) -> Option<(bool, bool)> {
        match self.stream.file_here() {
            None => None,
            Some(fi) => {
                let file = self.diff.files[fi as int];
                let k = entry_index(self.full_context, file.path, 0);
                if k < self.full_context.len() {
                    Some((true, self.full_context[k].loading))
                } else if context::eligible(file) {
                    Some((false, false))
                } else {
                    None
                }
            },
        }
    }

    /// The review after a resize step.
    pub open spec fn resized(self, wider: bool) -> (ReviewView, TreeResizeResult) {
        let r = layout::resize_step(
            self.tree.preferred_width(),
            self.tree_width,
            self.rendered_review_width,
            wider,
        );
        (
            ReviewView {
                show_tree: true,
                tree_width: match r {
                    TreeResizeResult::Changed(w) => Some(w),
                    _ => self.tree_width,
                },
                ..self
            },
            r,
        )
    }

    /// The rows refer to what is there, with so many comments.
    pub open spec fn speaks_of(self, comments: nat) -> bool {
        self.stream.speaks_of(self.diff.files, comments)
    }
}

/// A review that has just been opened.
pub open spec fn opened(scope: ScopeView, diff: DiffView, s: StoreView, saved: bool) -> ReviewView {
    ReviewView {
        scope,
        diff,
        stream: built_stream(diff.files, diff.files, s, saved, fresh_reader()),
        tree: built_tree(diff.files, diff.files, s, saved, fresh_reader()),
        focus: Focus::Stream,
        show_tree: true,
        tree_width: None,
        rendered_review_width: 0,
        file_view: None,
        full_context: Seq::empty(),
    }
}

/// The current file is one of the files.
pub proof fn lemma_file_here(s: StreamView, files: Seq<FileDiffView>)
    requires
        s.ok(),
        s.shows(files),
        s.file_here() is Some,
    ensures
        s.file_here()->0 < files.len(),
{
    rows::lemma_headers_at(s.rows);
    let starts = s.landmarks(Landmark::File);
    assert(starts.len() == files.len());
    lemma_count_reached(starts, s.cursor);
}

proof fn lemma_count_reached(starts: Seq<usize>, row: usize)
    ensures
        review::count_reached(starts, row) <= starts.len(),
    decreases starts.len(),
{
    if starts.len() > 0 {
        lemma_count_reached(starts.drop_last(), row);
    }
}

fn copy_entries(list: &[FullContextState]) -> (r: Vec<FullContextState>)
    ensures
        deep::deep(r@) == deep::deep(list@),
{
    let mut out: Vec<FullContextState> = Vec::new();
    let mut i: usize = 0;
    while i < list.len()
        invariant
            i <= list@.len(),
            deep::deep(out@) =~= deep::deep(list@).take(i as int),
        decreases list@.len() - i,
    {
        let e = FullContextState {
            path: text::copy(list[i].path.as_str()),
            base: list[i].base.copy(),
            loading: list[i].loading,
        };
        assert(e@ =~= list@[i as int]@);
        out.push(e);
        i += 1;
    }
    assert(deep::deep(list@).take(i as int) =~= deep::deep(list@));
    out
}

fn find_eligible(files: &[FileDiff], path: &str) -> (r: usize)
    ensures
        r == eligible_index(deep::deep(files@), path@, 0),
{
    let ghost all = deep::deep(files@);
    let mut i: usize = 0;
    while i < files.len()
        invariant
            i <= files@.len(),
            all == deep::deep(files@),
            eligible_index(all, path@, i as int) == eligible_index(all, path@, 0),
        decreases files@.len() - i,
    {
        assert(all[i as int] == files@[i as int]@);
        if text::same(files[i].path.as_str(), path) && context::full_context_eligible(&files[i]) {
            return i;
        }
        i += 1;
    }
    i
}

fn carry(expanded: &[FullContextState], files: &[FileDiff]) -> (r: Vec<FullContextState>)
    ensures
        deep::deep(r@) == carried(
            deep::deep(expanded@),
            deep::deep(files@),
            expanded@.len() as int,
        ),
{
    let ghost ex = deep::deep(expanded@);
    let ghost all = deep::deep(files@);
    let mut out: Vec<FullContextState> = Vec::new();
    let mut i: usize = 0;
    while i < expanded.len()
        invariant
            i <= expanded@.len(),
            ex == deep::deep(expanded@),
            all == deep::deep(files@),
            deep::deep(out@) == carried(ex, all, i as int),
        decreases expanded@.len() - i,
    {
        assert(ex[i as int] == expanded@[i as int]@);
        let k: usize = find_eligible(files, expanded[i].path.as_str());
        if k < files.len() {
            assert(all[k as int] == files@[k as int]@);
            let e = FullContextState {
                path: text::copy(expanded[i].path.as_str()),
                base: files[k].copy(),
                loading: true,
            };
            assert(e@ =~= (FullContextView {
                path: ex[i as int].path,
                base: all[k as int],
                loading: true,
            }));
            out.push(e);
        }
        i += 1;
    }
    out
}

impl NextReview {
    /// What has to be saved before the review can be shown: the store with
    /// comments at their new positions, if any moved.
    pub fn unsaved(&self, store: &CommentStore) -> (r: Option<StoreState>)
        ensures
            deep::deep_opt(r) == store@.moved(self@.canonical_files()),
    {
        let behind: DiffResult = canonical_diff(
            self.diff.files.as_slice(),
            self.full_context.as_slice(),
        );
        let (_, moved): (Vec<Placed>, Option<StoreState>) = store.reanchor(&behind);
        moved
    }
}

impl ReviewState {
    /// The views belong to the diff.
    pub open spec fn wf(&self) -> bool {
        &&& self.stream.wf()
        &&& self.stream@.shows(self.diff@.files)
        &&& self.file_view matches Some(v) ==> v.wf()
    }

    /// What has to be saved before a diff can be opened.
    pub fn unsaved(diff: &DiffResult, store: &CommentStore) -> (r: Option<StoreState>)
        ensures
            deep::deep_opt(r) == store@.moved(diff@.files),
    {
        let (_, moved): (Vec<Placed>, Option<StoreState>) = store.reanchor(diff);
        moved
    }

    /// Opens a review. `saved` says how saving moved comments went.
    pub fn new(
        scope: Scope,
        diff: DiffResult,
        store: &mut CommentStore,
        saved: Result<(), String>,
    ) -> (r: (Self, Option<String>))
        ensures
            final(store)@ == anchored(old(store)@, diff@.files, saved is Ok),
            r.0.wf(),
            r.0@ == opened(scope@, diff@, old(store)@, saved is Ok),
            r.0@.speaks_of(final(store)@.comments.len()),
            deep::deep_opt(r.1) == build_warning(saved),
    {
        let ghost before = store@;
        let views: Views = build_views(&diff, &diff, store, saved, &ReviewViewState::fresh());
        let r = ReviewState {
            scope,
            diff,
            stream: views.stream,
            tree: views.tree,
            focus: Focus::Stream,
            show_tree: true,
            tree_width: None,
            rendered_review_width: 0,
            file_view: None,
            full_context: Vec::new(),
        };
        assert(r@ =~= opened(scope@, diff@, before, saved is Ok));
        (r, views.warning)
    }

    /// What a rebuild has to keep of the reader's state.
    pub fn capture_view(&self) -> (r: ReviewViewState)
        requires
            self.wf(),
        ensures
            r@ == self@.reader(),
    {
        let r = ReviewViewState {
            anchor: self.stream.anchor(self.diff.files.as_slice()),
            collapsed: self.tree.collapsed_dirs(),
            query: self.stream.search_query(),
        };
        assert(r@ =~= self@.reader());
        r
    }

    /// The same diff once more, to re-place comments.
    pub fn again(&self) -> (r: NextReview)
        requires
            self.wf(),
        ensures
            r@ == self@.again(),
    {
        NextReview {
            diff: self.diff.copy(),
            full_context: copy_entries(self.full_context.as_slice()),
            reader: self.capture_view(),
        }
    }

    /// A freshly loaded diff; files shown in full are to be loaded anew.
    pub fn replace_diff(&self, diff: DiffResult) -> (r: NextReview)
        requires
            self.wf(),
        ensures
            r@ == self@.reloaded(diff@),
    {
        NextReview {
            full_context: carry(self.full_context.as_slice(), diff.files.as_slice()),
            diff,
            reader: self.capture_view(),
        }
    }

    /// The diff with the stub at `pos` replaced by what it stood for.
    pub fn expand_file(&self, pos: usize, loaded: Vec<FileDiff>) -> (r: NextReview)
        requires
            self.wf(),
            pos < self@.diff.files.len(),
        ensures
            r@ == self@.unfolded(pos as int, deep::deep(loaded@)),
    {
        let ghost all = self.diff@.files;
        let ghost more = deep::deep(loaded@);
        let total: usize = self.diff.files.len();
        assert(pos < total);
        let mut files: Vec<FileDiff> = Vec::new();
        let mut i: usize = 0;
        while i < pos
            invariant
                i <= pos,
                pos < all.len(),
                all == deep::deep(self.diff.files@),
                deep::deep(files@) =~= all.take(i as int),
            decreases pos - i,
        {
            assert(all[i as int] == self.diff.files@[i as int]@);
            files.push(self.diff.files[i].copy());
            i += 1;
        }
        let mut rest: Vec<FileDiff> = loaded;
        files.append(&mut rest);
        i = pos + 1;
        while i < self.diff.files.len()
            invariant
                pos < i <= all.len(),
                all == deep::deep(self.diff.files@),
                deep::deep(files@) =~= all.take(pos as int) + more + all.subrange(
                    pos + 1,
                    i as int,
                ),
            decreases all.len() - i,
        {
            assert(all[i as int] == self.diff.files@[i as int]@);
            files.push(self.diff.files[i].copy());
            i += 1;
        }
        assert(all.subrange(pos + 1, i as int) =~= all.skip(pos + 1));
        NextReview {
            diff: DiffResult::from_files(files),
            full_context: copy_entries(self.full_context.as_slice()),
            reader: self.capture_view(),
        }
    }

    fn show_file(&self, path: &str, f: FileDiff) -> (r: DiffResult)
        ensures
            r@ == self@.with_file(path@, f@),
    {
        let mut d: DiffResult = self.diff.copy();
        let k: usize = diff::position(d.files.as_slice(), path);
        if k < d.files.len() {
            d.files[k] = f;
            assert(deep::deep(d.files@) =~= self.diff@.files.update(k as int, f@));
        }
        assert(d@ =~= self@.with_file(path@, f@));
        d
    }

    /// Whether the current file is shown in full, and whether that is still
    /// loading; `None` where it cannot be.
    pub fn full_context_status(&self) -> (r: Option<(bool, bool)>)
        requires
            self.wf(),
        ensures
            r == self@.full_status(),
    {
        match self.stream.current_file() {
            None => None,
            Some(fi) => {
                proof {
                    self.stream.lemma_wf();
                    lemma_file_here(self@.stream, self@.diff.files);
                }
                let file: &FileDiff = &self.diff.files[fi];
                assert(self@.diff.files[fi as int] == file@);
                let k: usize = find_entry(self.full_context.as_slice(), file.path.as_str());
                if k < self.full_context.len() {
                    assert(self@.full_context[k as int] == self.full_context@[k as int]@);
                    Some((true, self.full_context[k].loading))
                } else if context::full_context_eligible(file) {
                    Some((false, false))
                } else {
                    None
                }
            },
        }
    }

    /// Enter on a modified file: ask for it in full, or collapse it.
    pub fn toggle_full_context(&mut self) -> (r: FullContextToggle)
        requires
            old(self).wf(),
        ensures
            final(self).wf(),
            (final(self)@, r@) == old(self)@.toggled(),
    {
        let ghost before = self@;
        let fi: usize = match self.stream.current_file() {
            None => {
                return FullContextToggle::Unavailable;
            },
            Some(fi) => fi,
        };
        proof {
            self.stream.lemma_wf();
            lemma_file_here(self@.stream, self@.diff.files);
        }
        let path: String = text::copy(self.diff.files[fi].path.as_str());
        assert(before.diff.files[fi as int] == self.diff.files@[fi as int]@);
        let k: usize = find_entry(self.full_context.as_slice(), path.as_str());
        if k < self.full_context.len() {
            assert(before.full_context[k as int] == self.full_context@[k as int]@);
            let base: FileDiff = self.full_context[k].base.copy();
            let mut entries: Vec<FullContextState> = copy_entries(self.full_context.as_slice());
            entries.remove(k);
            assert(deep::deep(entries@) =~= before.full_context.remove(k as int));
            let next = NextReview {
                diff: self.show_file(path.as_str(), base),
                full_context: entries,
                reader: self.capture_view(),
            };
            return FullContextToggle::Collapse(next);
        }
        if !context::full_context_eligible(&self.diff.files[fi]) {
            return FullContextToggle::Unavailable;
        }
        let file: FileDiff = self.diff.files[fi].copy();
        let old_path: Option<String> = diff::copy_opt(&file.old_path);
        let e = FullContextState { path: text::copy(path.as_str()), base: file, loading: true };
        assert(e@ =~= (FullContextView {
            path: path@,
            base: before.diff.files[fi as int],
            loading: true,
        }));
        self.full_context.push(e);
        assert(self@ =~= before.toggled().0);
        FullContextToggle::Load { path, old_path }
    }

    /// A file in full has arrived. It is shown only if it has the changes of this
    /// review's snapshot.
    pub fn install_full_context(&mut self, path: &str, expanded: FileDiff) -> (r: FullContextInstall)
        requires
            old(self).wf(),
        ensures
            final(self).wf(),
            (final(self)@, r@) == old(self)@.arrived(path@, expanded@),
    {
        let ghost before = self@;
        let k: usize = find_entry(self.full_context.as_slice(), path);
        if k >= self.full_context.len() {
            return FullContextInstall::Ignored;
        }
        assert(before.full_context[k as int] == self.full_context@[k as int]@);
        if !context::same_changes(&self.full_context[k].base, &expanded) {
            self.full_context.remove(k);
            assert(self@ =~= before.arrived(path@, expanded@).0);
            let mut m: String = text::copy(path);
            text::put(&mut m, " changed since this review snapshot; press r to reload");
            return FullContextInstall::Refused(m);
        }
        let at: usize = diff::position(self.diff.files.as_slice(), path);
        if at >= self.diff.files.len() {
            self.full_context.remove(k);
            assert(self@ =~= before.arrived(path@, expanded@).0);
            return FullContextInstall::Ignored;
        }
        let mut full: FileDiff = expanded;
        context::mark_expanded_context(&self.full_context[k].base, &mut full);
        let mut entries: Vec<FullContextState> = copy_entries(self.full_context.as_slice());
        assert(deep::deep(entries@)[k as int] == entries@[k as int]@);
        entries[k].loading = false;
        assert(deep::deep(entries@) =~= before.full_context.update(
            k as int,
            FullContextView { loading: false, ..before.full_context[k as int] },
        ));
        let next = NextReview {
            diff: self.show_file(path, full),
            full_context: entries,
            reader: self.capture_view(),
        };
        FullContextInstall::Install(next)
    }

    /// Forgets a load that failed.
    pub fn cancel_full_context_load(&mut self, path: &str)
        requires
            old(self).wf(),
        ensures
            final(self).wf(),
            final(self)@ == old(self)@.cancelled(path@),
    {
        let ghost before = self@;
        let k: usize = find_entry(self.full_context.as_slice(), path);
        if k < self.full_context.len() {
            assert(before.full_context[k as int] == self.full_context@[k as int]@);
            if self.full_context[k].loading {
                self.full_context.remove(k);
            }
        }
        assert(self@ =~= before.cancelled(path@));
    }

    /// Shows a review to come. `saved` says how saving moved comments went.
    pub fn finish(&mut self, next: NextReview, store: &mut CommentStore, saved: Result<(), String>) -> (r:
        Option<String>)
        requires
            old(self).wf(),
        ensures
            final(store)@ == anchored(old(store)@, next@.canonical_files(), saved is Ok),
            final(self).wf(),
            final(self)@ == old(self)@.rebuilt(next@, old(store)@, saved is Ok),
            final(self)@.speaks_of(final(store)@.comments.len()),
            deep::deep_opt(r) == build_warning(saved),
    {
        let ghost before = self@;
        let ghost kept = store@;
        let behind: DiffResult = canonical_diff(
            next.diff.files.as_slice(),
            next.full_context.as_slice(),
        );
        let views: Views = build_views(&behind, &next.diff, store, saved, &next.reader);
        self.diff = next.diff;
        self.full_context = next.full_context;
        self.stream = views.stream;
        self.tree = views.tree;
        match self.stream.current_file() {
            Some(fi) => {
                self.tree.select_file(fi);
            },
            None => {},
        }
        assert(self@ =~= before.rebuilt(next@, kept, saved is Ok));
        views.warning
    }

    /// Keep the tree highlight in sync with the file at the cursor. Passive-mode
    /// only: never fights the user while they're picking in the tree.
    pub fn sync_tree(&mut self)
        requires
            old(self).wf(),
        ensures
            final(self).wf(),
            final(self)@ == old(self)@.synced(),
    {
        let ghost before = self@;
        if self.focus == Focus::Tree {
            return;
        }
        match self.stream.current_file() {
            Some(fi) => {
                self.tree.select_file(fi);
            },
            None => {},
        }
        assert(self@ =~= before.synced());
    }

    /// Columns of the tree on a screen of the given width.
    pub fn review_tree_width(&self, available: u16) -> (r: u16)
        ensures
            r == layout::tree_columns(self@.tree.preferred_width(), self@.tree_width, available),
    {
        layout::adaptive_tree_width(self.tree.preferred_width(), self.tree_width, available)
    }

    /// Resizes the tree by one step.
    pub fn resize_tree(&mut self, wider: bool) -> (r: TreeResizeResult)
        requires
            old(self).wf(),
        ensures
            final(self).wf(),
            (final(self)@, r) == old(self)@.resized(wider),
    {
        let ghost before = self@;
        self.show_tree = true;
        let r: TreeResizeResult = layout::resized_tree_width(
            self.tree.preferred_width(),
            self.tree_width,
            self.rendered_review_width,
            wider,
        );
        match r {
            TreeResizeResult::Changed(w) => {
                self.tree_width = Some(w);
            },
            _ => {},
        }
        assert(self@ =~= before.resized(wider).0);
        r
    }
}

} // verus!
