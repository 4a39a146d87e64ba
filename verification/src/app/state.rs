//! The application: one screen, at most one modal overlay, and what it is
//! waiting for. The handlers change the state and return what is to be done
//! outside; answers come back through handlers of their own.

use crate::app::review;
use crate::app::review::{NextReview, NextView, ReviewState, ReviewView};
use crate::comments::{Comment, CommentView};
use crate::deep;
use crate::event::{LoadRequest, RequestView};
use crate::git::diff::{DiffResult, DiffView};
use crate::git::scope::{Scope, ScopeView};
use crate::keymap::KeyPress;
use crate::store::{CommentStore, StoreState, StoreView};
use crate::text;
use crate::ui::editor::{EditorView, TextEditor};
use crate::ui::export::{ExportPreview, PreviewView};
use crate::ui::picker::{
    BasePicker, BaseView, ItemView, LogPicker, LogView, PickerView, ScopeAction, ScopeActionView,
    ScopeItem, ScopePicker,
};
use crate::ui::review::{CommentTarget, TargetView};
use crate::ui::style;
use vstd::prelude::*;

verus! {

broadcast use crate::deep::group_deep;

/// A comment being written.
pub struct CommentDraft {
    pub editor: TextEditor,
    /// Some(id) when editing an existing comment.
    pub editing: Option<u64>,
    /// None when editing (anchor is kept from the original).
    pub target: Option<CommentTarget>,
    pub label: String,
}

/// What a draft holds.
#[verifier::ext_equal]
pub struct DraftView {
    pub editor: EditorView,
    pub editing: Option<u64>,
    pub target: Option<TargetView>,
    pub label: Seq<char>,
}

impl View for CommentDraft {
    type V = DraftView;

    open spec fn view(&self) -> DraftView {
        DraftView {
            editor: self.editor@,
            editing: self.editing,
            target: deep::deep_opt(self.target),
            label: self.label@,
        }
    }
}

/// The modal overlays.
pub enum Overlay {
    Help { scroll: u16 },
    Comment(CommentDraft),
    ConfirmClear,
    Search(String),
    ExportPreview(ExportPreview),
    ExportPath { path: String, preview: ExportPreview },
}

/// What an overlay holds.
#[verifier::ext_equal]
pub enum OverlayView {
    Help { scroll: u16 },
    Comment(DraftView),
    ConfirmClear,
    Search(Seq<char>),
    ExportPreview(PreviewView),
    ExportPath { path: Seq<char>, preview: PreviewView },
}

impl View for Overlay {
    type V = OverlayView;

    open spec fn view(&self) -> OverlayView {
        match self {
            Overlay::Help { scroll } => OverlayView::Help { scroll: *scroll },
            Overlay::Comment(d) => OverlayView::Comment(d@),
            Overlay::ConfirmClear => OverlayView::ConfirmClear,
            Overlay::Search(s) => OverlayView::Search(s@),
            Overlay::ExportPreview(p) => OverlayView::ExportPreview(p@),
            Overlay::ExportPath { path, preview } => OverlayView::ExportPath {
                path: path@,
                preview: preview@,
            },
        }
    }
}

/// The screens.
pub enum Screen {
    Picker(ScopePicker),
    Log(LogPicker),
    Base(BasePicker),
    Review(ReviewState),
}

/// What a screen holds.
#[verifier::ext_equal]
pub enum ScreenView {
    Picker(PickerView),
    Log(LogView),
    Base(BaseView),
    Review(ReviewView),
}

impl View for Screen {
    type V = ScreenView;

    open spec fn view(&self) -> ScreenView {
        match self {
            Screen::Picker(p) => ScreenView::Picker(p@),
            Screen::Log(l) => ScreenView::Log(l@),
            Screen::Base(b) => ScreenView::Base(b@),
            Screen::Review(r) => ScreenView::Review(r@),
        }
    }
}

/// What happens once a change of the comments is saved.
pub enum Saved {
    /// The edited or new comment is in.
    Comment,
    /// All comments are gone.
    Cleared(Vec<Comment>),
    /// One comment is gone.
    Deleted(Comment),
    /// So many comments are back.
    Restored(usize),
}

/// What such a change says.
#[verifier::ext_equal]
pub enum SavedView {
    Comment,
    Cleared(Seq<CommentView>),
    Deleted(CommentView),
    Restored(usize),
}

impl View for Saved {
    type V = SavedView;

    open spec fn view(&self) -> SavedView {
        match self {
            Saved::Comment => SavedView::Comment,
            Saved::Cleared(v) => SavedView::Cleared(deep::deep(v@)),
            Saved::Deleted(c) => SavedView::Deleted(c@),
            Saved::Restored(n) => SavedView::Restored(*n),
        }
    }
}

/// What is being copied.
#[derive(Clone, Copy, Debug, PartialEq, Eq, Structural)]
pub enum Copied {
    Markdown,
    Selection { lines: usize, patch_style: bool },
}

/// What an answer is awaited for.
pub enum Waiting {
    /// The comments with a change.
    Save { state: StoreState, then: Saved },
    /// The comments at their new positions, before a rebuild.
    Rebuild(NextReview),
    /// The comments at their new positions, before a scope is opened.
    Open { scope: Scope, diff: DiffResult },
    Copy(Copied),
}

/// What such a wait says.
#[verifier::ext_equal]
pub enum WaitingView {
    Save { state: StoreView, then: SavedView },
    Rebuild(NextView),
    Open { scope: ScopeView, diff: DiffView },
    Copy(Copied),
}

impl View for Waiting {
    type V = WaitingView;

    open spec fn view(&self) -> WaitingView {
        match self {
            Waiting::Save { state, then } => WaitingView::Save { state: state@, then: then@ },
            Waiting::Rebuild(n) => WaitingView::Rebuild(n@),
            Waiting::Open { scope, diff } => WaitingView::Open { scope: scope@, diff: diff@ },
            Waiting::Copy(c) => WaitingView::Copy(*c),
        }
    }
}

/// What is to be done outside.
pub enum Effect {
    /// Hand work to the background loader.
    Load(LoadRequest),
    /// Persist the comments, then answer with `on_saved`.
    Save(StoreState),
    /// Copy a text, then answer with `on_copied`.
    Copy(String),
    /// Write the export, then answer with `on_written`.
    WriteFile { path: String, content: String },
    /// Open a file at a line, then answer with `on_editor`.
    OpenEditor { path: String, line: usize },
    /// Read a file in full, to be shown at a line (counted from zero), then answer
    /// with `on_file`.
    ReadFile { path: String, target: Option<usize> },
    /// List the commits, then answer with `on_commits`.
    ListCommits,
    /// List the branches, then answer with `on_bases`.
    ListBases,
    /// Look for a fork point, then answer with `show_picker`.
    OpenPicker,
}

/// What such a task says.
#[verifier::ext_equal]
pub enum EffectView {
    Load(RequestView),
    Save(StoreView),
    Copy(Seq<char>),
    WriteFile { path: Seq<char>, content: Seq<char> },
    OpenEditor { path: Seq<char>, line: usize },
    ReadFile { path: Seq<char>, target: Option<usize> },
    ListCommits,
    ListBases,
    OpenPicker,
}

impl View for Effect {
    type V = EffectView;

    open spec fn view(&self) -> EffectView {
        match self {
            Effect::Load(q) => EffectView::Load(q@),
            Effect::Save(s) => EffectView::Save(s@),
            Effect::Copy(t) => EffectView::Copy(t@),
            Effect::WriteFile { path, content } => EffectView::WriteFile {
                path: path@,
                content: content@,
            },
            Effect::OpenEditor { path, line } => EffectView::OpenEditor { path: path@, line: *line },
            Effect::ReadFile { path, target } => EffectView::ReadFile {
                path: path@,
                target: *target,
            },
            Effect::ListCommits => EffectView::ListCommits,
            Effect::ListBases => EffectView::ListBases,
            Effect::OpenPicker => EffectView::OpenPicker,
        }
    }
}

/// A list of one task.
pub fn one_effect(e: Effect) -> (r: Vec<Effect>)
    ensures
        deep::deep(r@) == seq![e@],
{
    let mut v: Vec<Effect> = Vec::new();
    v.push(e);
    assert(deep::deep(v@) =~= seq![e@]);
    v
}

/// The application.
pub struct App {
    /// Name of the repository.
    pub title: String,
    pub screen: Screen,
    pub overlay: Option<Overlay>,
    pub error: Option<String>,
    pub quit: bool,
    /// Monotonic id pairing reload requests with responses.
    pub seq: u64,
    pub reloading: bool,
    /// When the last reload arrived, in milliseconds.
    pub reloaded_at: Option<u64>,
    /// Persistent until comment placement succeeds on a later rebuild.
    pub comment_warning: Option<String>,
    /// Transient confirmation shown in the title bar (e.g. "copied 12 lines").
    pub notice: Option<String>,
    pub store: CommentStore,
    /// What the last comment delete removed; `u` puts it back.
    pub undo_comments: Vec<Comment>,
    /// First key of a chord (`g`), held until the next key resolves it.
    pub pending_key: Option<KeyPress>,
    /// What an answer is awaited for.
    pub waiting: Option<Waiting>,
}

/// What the application holds.
#[verifier::ext_equal]
pub struct AppView {
    pub title: Seq<char>,
    pub screen: ScreenView,
    pub overlay: Option<OverlayView>,
    pub error: Option<Seq<char>>,
    pub quit: bool,
    pub seq: u64,
    pub reloading: bool,
    pub reloaded_at: Option<u64>,
    pub comment_warning: Option<Seq<char>>,
    pub notice: Option<Seq<char>>,
    pub store: StoreView,
    pub undo_comments: Seq<CommentView>,
    pub pending_key: Option<KeyPress>,
    pub waiting: Option<WaitingView>,
}

impl View for App {
    type V = AppView;

    open spec fn view(&self) -> AppView {
        AppView {
            title: self.title@,
            screen: self.screen@,
            overlay: deep::deep_opt(self.overlay),
            error: deep::deep_opt(self.error),
            quit: self.quit,
            seq: self.seq,
            reloading: self.reloading,
            reloaded_at: self.reloaded_at,
            comment_warning: deep::deep_opt(self.comment_warning),
            notice: deep::deep_opt(self.notice),
            store: self.store@,
            undo_comments: deep::deep(self.undo_comments@),
            pending_key: self.pending_key,
            waiting: deep::deep_opt(self.waiting),
        }
    }
}

/// The state after a step, and what is to be done outside.
#[verifier::ext_equal]
pub struct Step {
    pub app: AppView,
    pub effects: Seq<EffectView>,
}

/// A step that does nothing outside.
pub open spec fn still(app: AppView) -> Step {
    Step { app, effects: Seq::empty() }
}

/// A step that does one thing outside.
pub open spec fn doing(app: AppView, e: EffectView) -> Step {
    Step { app, effects: seq![e] }
}

impl App {
    /// What always holds: the views of a review belong to its diff, and its rows
    /// to the comments, except while a rebuild is on its way.
    pub open spec fn wf(&self) -> bool {
        &&& self.screen matches Screen::Review(r) ==> r.wf() && (!(self.waiting matches Some(
            Waiting::Rebuild(_),
        )) ==> r@.speaks_of(self.store@.comments.len()))
        &&& self.overlay matches Some(Overlay::Comment(d)) ==> d.editor.wf()
    }

    /// No answer is awaited.
    pub open spec fn idle(&self) -> bool {
        self.waiting is None
    }
}

/// The generation after one.
pub open spec fn next_seq(seq: u64) -> u64 {
    if seq == u64::MAX {
        0
    } else {
        (seq + 1) as u64
    }
}

// ---- transitions ------------------------------------------------------------------
/// The launch menu, before the counts are known.
pub open spec fn menu(forkable: Option<Seq<char>>) -> Seq<ItemView> {
    seq![
        ItemView {
            title: "Uncommitted changes"@,
            detail: "…"@,
            action: ScopeActionView::Open(ScopeView::Uncommitted),
        },
        ItemView {
            title: "Staged changes"@,
            detail: "…"@,
            action: ScopeActionView::Open(ScopeView::Staged),
        },
    ] + (match forkable {
        Some(branch) => seq![
            ItemView {
                title: "Branch vs fork point"@,
                detail: "…"@,
                action: ScopeActionView::Open(ScopeView::BranchFork { branch }),
            },
        ],
        None => Seq::empty(),
    }) + seq![
        ItemView {
            title: "Branch vs a base you pick…"@,
            detail: if forkable is Some {
                ""@
            } else {
                "no fork point detected"@
            },
            action: ScopeActionView::PickBase,
        },
        ItemView {
            title: "A specific commit…"@,
            detail: ""@,
            action: ScopeActionView::PickCommit,
        },
    ]
}

/// A menu that has just been opened.
pub open spec fn fresh_menu(forkable: Option<Seq<char>>) -> PickerView {
    PickerView { items: menu(forkable), selected: 0, inner: style::no_area() }
}

fn item(title: &str, detail: &str, action: ScopeAction) -> (r: ScopeItem)
    ensures
        r@ == (ItemView { title: title@, detail: detail@, action: action@ }),
{
    ScopeItem { title: text::copy(title), detail: text::copy(detail), action }
}

/// Picker with instant structure; the counts arrive asynchronously. Comparing
/// against a base is always on the menu; when no fork point is definable it
/// explains why the entry above is missing.
pub fn build_picker_skeleton(forkable: Option<String>) -> (r: ScopePicker)
    ensures
        r@ == fresh_menu(deep::deep_opt(forkable)),
{
    let mut items: Vec<ScopeItem> = Vec::new();
    items.push(item("Uncommitted changes", "…", ScopeAction::Open(Scope::Uncommitted)));
    items.push(item("Staged changes", "…", ScopeAction::Open(Scope::Staged)));
    let found: bool = forkable.is_some();
    if let Some(branch) = forkable {
        items.push(
            item("Branch vs fork point", "…", ScopeAction::Open(Scope::BranchFork { branch })),
        );
    }
    items.push(
        item(
            "Branch vs a base you pick…",
            if found {
                ""
            } else {
                "no fork point detected"
            },
            ScopeAction::PickBase,
        ),
    );
    items.push(item("A specific commit…", "", ScopeAction::PickCommit));
    assert(deep::deep(items@) =~= menu(deep::deep_opt(forkable)));
    ScopePicker::new(items)
}

impl AppView {
    pub open spec fn failed(self, message: Seq<char>) -> AppView {
        AppView { error: Some(message), ..self }
    }

    pub open spec fn noted(self, message: Seq<char>) -> AppView {
        AppView { notice: Some(message), ..self }
    }

    /// The review is another one.
    pub open spec fn with_review(self, r: ReviewView) -> AppView {
        AppView { screen: ScreenView::Review(r), ..self }
    }

    /// Ask for a scope's diff; the screen switches when it lands.
    pub open spec fn opening(self, scope: ScopeView) -> Step {
        let seq = next_seq(self.seq);
        doing(
            AppView { seq, reloading: true, ..self },
            EffectView::Load(RequestView::Diff { seq, scope }),
        )
    }

    /// Ask for the menu's counts.
    pub open spec fn counting(self) -> Step {
        let seq = next_seq(self.seq);
        doing(AppView { seq, ..self }, EffectView::Load(RequestView::Counts { seq }))
    }

    /// Ask for the current review's diff once more.
    pub open spec fn reloading_review(self) -> Step {
        match self.screen {
            ScreenView::Review(r) => self.opening(r.scope),
            _ => still(self),
        }
    }

    /// The menu is up; in-flight work of the scope that was left is superseded.
    pub open spec fn at_menu(self, forkable: Option<Seq<char>>) -> Step {
        AppView {
            screen: ScreenView::Picker(fresh_menu(forkable)),
            reloading: false,
            ..self
        }.counting()
    }

    /// A rebuild whose comment positions are settled; `failure` says why they
    /// could not be saved.
    pub open spec fn rebuild_done(self, next: NextView, failure: Option<Seq<char>>) -> AppView {
        match self.screen {
            ScreenView::Review(r) => AppView {
                screen: ScreenView::Review(r.rebuilt(next, self.store, failure is None)),
                store: review::anchored(self.store, next.canonical_files(), failure is None),
                comment_warning: warning_of(failure),
                waiting: None,
                ..self
            },
            _ => AppView { waiting: None, ..self },
        }
    }

    /// Starts a rebuild: comments that moved are saved first.
    pub open spec fn rebuilding(self, next: NextView) -> Step {
        match self.store.moved(next.canonical_files()) {
            None => still(self.rebuild_done(next, None)),
            Some(s) => doing(
                AppView { waiting: Some(WaitingView::Rebuild(next)), ..self },
                EffectView::Save(s),
            ),
        }
    }

    /// Re-places comments in the current review.
    pub open spec fn replacing_comments(self) -> Step {
        match self.screen {
            ScreenView::Review(r) => self.rebuilding(r.again()),
            _ => still(AppView { waiting: None, ..self }),
        }
    }

    /// A scope is opened; `failure` says why moved comments could not be saved.
    pub open spec fn open_done(
        self,
        scope: ScopeView,
        diff: DiffView,
        failure: Option<Seq<char>>,
    ) -> AppView {
        AppView {
            screen: ScreenView::Review(review::opened(scope, diff, self.store, failure is None)),
            store: review::anchored(self.store, diff.files, failure is None),
            comment_warning: warning_of(failure),
            waiting: None,
            ..self
        }
    }

    /// Starts to open a scope: comments that moved are saved first.
    pub open spec fn entering(self, scope: ScopeView, diff: DiffView) -> Step {
        match self.store.moved(diff.files) {
            None => still(self.open_done(scope, diff, None)),
            Some(s) => doing(
                AppView { waiting: Some(WaitingView::Open { scope, diff }), ..self },
                EffectView::Save(s),
            ),
        }
    }
}

/// The warning of a failed save.
pub open spec fn warning_of(failure: Option<Seq<char>>) -> Option<Seq<char>> {
    match failure {
        Some(e) => Some(review::hidden_warning(e)),
        None => None,
    }
}

/// Why something failed, if it did.
pub open spec fn failure_of(outcome: Result<(), String>) -> Option<Seq<char>> {
    match outcome {
        Ok(()) => None,
        Err(e) => Some(e@),
    }
}

fn after(seq: u64) -> (r: u64)
    ensures
        r == next_seq(seq),
{
    if seq == u64::MAX {
        0
    } else {
        seq + 1
    }
}

impl App {
    /// `initial`: a scope pre-resolved (and validated) from CLI flags. Its diff
    /// loads in the background; the menu appears immediately.
    pub fn new(
        title: String,
        initial: Option<Scope>,
        forkable: Option<String>,
        store: CommentStore,
    ) -> (r: (App, Vec<Effect>))
        ensures
            ({
                let start = AppView {
                    title: title@,
                    screen: ScreenView::Picker(fresh_menu(deep::deep_opt(forkable))),
                    overlay: None,
                    error: None,
                    quit: false,
                    seq: 0,
                    reloading: false,
                    reloaded_at: None,
                    comment_warning: None,
                    notice: None,
                    store: store@,
                    undo_comments: Seq::empty(),
                    pending_key: None,
                    waiting: None,
                };
                &&& (Step { app: r.0@, effects: deep::deep(r.1@) }) == (match initial {
                    Some(scope) => start.opening(scope@),
                    None => start.counting(),
                })
            }),
            r.0.wf(),
            r.0.idle(),
    {
        let mut app = App {
            title,
            screen: Screen::Picker(build_picker_skeleton(forkable)),
            overlay: None,
            error: None,
            quit: false,
            seq: 0,
            reloading: false,
            reloaded_at: None,
            comment_warning: None,
            notice: None,
            store,
            undo_comments: Vec::new(),
            pending_key: None,
            waiting: None,
        };
        let effects: Vec<Effect> = match initial {
            Some(scope) => app.open_scope(scope),
            None => app.request_counts(),
        };
        (app, effects)
    }

    /// Asks for the menu's counts.
    pub fn request_counts(&mut self) -> (r: Vec<Effect>)
        requires
            old(self).wf(),
        ensures
            final(self).wf(),
            final(self).waiting == old(self).waiting,
            (Step { app: final(self)@, effects: deep::deep(r@) }) == old(self)@.counting(),
    {
        let ghost before = self@;
        self.seq = after(self.seq);
        assert(self@ =~= before.counting().app);
        one_effect(Effect::Load(LoadRequest::Counts { seq: self.seq }))
    }

    /// Asks the loader for a scope's diff; the screen switches when it lands.
    pub fn open_scope(&mut self, scope: Scope) -> (r: Vec<Effect>)
        requires
            old(self).wf(),
        ensures
            final(self).wf(),
            final(self).waiting == old(self).waiting,
            (Step { app: final(self)@, effects: deep::deep(r@) }) == old(self)@.opening(scope@),
    {
        let ghost before = self@;
        self.seq = after(self.seq);
        self.reloading = true;
        assert(self@ =~= before.opening(scope@).app);
        one_effect(Effect::Load(LoadRequest::Diff { seq: self.seq, scope }))
    }

    /// Reloads the current review through the background worker. This is used by
    /// the explicit `r` action and after returning from `$EDITOR`.
    pub fn request_reload(&mut self) -> (r: Vec<Effect>)
        requires
            old(self).wf(),
        ensures
            final(self).wf(),
            final(self).waiting == old(self).waiting,
            (Step { app: final(self)@, effects: deep::deep(r@) })
                == old(self)@.reloading_review(),
    {
        let scope: Scope = match &self.screen {
            Screen::Review(r) => r.scope.copy(),
            _ => {
                return Vec::new();
            },
        };
        self.open_scope(scope)
    }

    /// Shows the menu. Asking for its counts also drops any in-flight diff for the
    /// scope that was left.
    pub fn show_picker(&mut self, forkable: Option<String>) -> (r: Vec<Effect>)
        requires
            old(self).wf(),
        ensures
            final(self).wf(),
            final(self).waiting == old(self).waiting,
            (Step { app: final(self)@, effects: deep::deep(r@) }) == old(self)@.at_menu(
                deep::deep_opt(forkable),
            ),
    {
        let ghost before = self@;
        self.screen = Screen::Picker(build_picker_skeleton(forkable));
        self.reloading = false;
        assert(self@ =~= (AppView {
            screen: ScreenView::Picker(fresh_menu(deep::deep_opt(forkable))),
            reloading: false,
            ..before
        }));
        self.request_counts()
    }
}

} // verus!
