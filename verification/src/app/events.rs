//! What the loader and the other answers from outside do.

use crate::app::review;
use crate::app::review::{
    FullContextInstall, FullContextView, InstallView, NextReview, ReviewState,
};
use crate::app::state;
use crate::app::state::{
    App, AppView, Copied, Effect, EffectView, Overlay, OverlayView, Saved, SavedView, Screen,
    ScreenView, Step, Waiting, WaitingView,
};
use crate::comments::Comment;
use crate::deep;
use crate::event::{AppEvent, FileLoadKind, LoadRequest, RequestView, ScopeCounts};
use crate::git::diff;
use crate::git::diff::{DiffResult, FileDiff, FileDiffView};
use crate::git::log::LogEntry;
use crate::git::scope::{Scope, ScopeView};
use crate::num;
use crate::text;
use crate::ui::fileview::FileView;
use crate::ui::picker::{BasePicker, BaseView, LogPicker, LogView};
use crate::ui::review::StreamView;
use crate::ui::style;
use vstd::prelude::*;

verus! {

broadcast use crate::deep::group_deep;

/// The plural ending for a number.
pub open spec fn plural(n: nat) -> Seq<char> {
    if n == 1 {
        ""@
    } else {
        "s"@
    }
}

/// The plural ending for a number.
pub fn plural_of(n: usize) -> (r: &'static str)
    ensures
        r@ == plural(n as nat),
{
    if n == 1 {
        ""
    } else {
        "s"
    }
}

// ---- comments ---------------------------------------------------------------------
impl AppView {
    /// The application once a change of the comments is in.
    pub open spec fn after_save(self, then: SavedView) -> AppView {
        match then {
            SavedView::Comment => AppView { overlay: None, ..self },
            SavedView::Cleared(v) => AppView { undo_comments: v, ..self }.noted(
                "all comments deleted (u restores)"@,
            ),
            SavedView::Deleted(c) => AppView { undo_comments: seq![c], ..self }.noted(
                "deleted comment #"@ + num::decimal(c.id as nat) + " (u restores)"@,
            ),
            SavedView::Restored(n) => AppView { undo_comments: Seq::empty(), ..self }.noted(
                "restored "@ + num::decimal(n as nat) + " comment"@ + plural(n as nat),
            ),
        }
    }

    /// The answer to a save; `failure` says why it failed. A change takes effect
    /// only once it is saved.
    pub open spec fn save_answered(self, failure: Option<Seq<char>>) -> Step {
        match self.waiting {
            Some(WaitingView::Save { state: s, then }) => {
                let idle = AppView { waiting: None, ..self };
                match failure {
                    Some(e) => state::still(idle.failed(e)),
                    None => AppView { store: s, ..idle }.after_save(then).replacing_comments(),
                }
            },
            Some(WaitingView::Rebuild(next)) => state::still(self.rebuild_done(next, failure)),
            Some(WaitingView::Open { scope, diff }) => state::still(
                self.open_done(scope, diff, failure),
            ),
            _ => state::still(self),
        }
    }
}

impl App {
    /// What holds even while the rows still speak of older comments.
    pub open spec fn sound(&self) -> bool {
        &&& self.screen matches Screen::Review(r) ==> r.wf()
        &&& self.overlay matches Some(Overlay::Comment(d)) ==> d.editor.wf()
    }

    fn finish_rebuild(&mut self, next: NextReview, outcome: Result<(), String>)
        requires
            old(self).sound(),
        ensures
            final(self).wf(),
            final(self).idle(),
            final(self)@ == old(self)@.rebuild_done(next@, state::failure_of(outcome)),
    {
        let ghost before = self@;
        self.waiting = None;
        match &mut self.screen {
            Screen::Review(r) => {
                let warning: Option<String> = r.finish(next, &mut self.store, outcome);
                self.comment_warning = warning;
            },
            _ => {},
        }
        assert(self@ =~= before.rebuild_done(next@, state::failure_of(outcome)));
    }

    /// Starts a rebuild: comments that moved are saved first.
    pub fn rebuild(&mut self, next: NextReview) -> (r: Vec<Effect>)
        requires
            old(self).sound(),
        ensures
            final(self).wf(),
            (Step { app: final(self)@, effects: deep::deep(r@) }) == old(self)@.rebuilding(next@),
    {
        let ghost before = self@;
        match next.unsaved(&self.store) {
            None => {
                self.finish_rebuild(next, Ok(()));
                Vec::new()
            },
            Some(s) => {
                self.waiting = Some(Waiting::Rebuild(next));
                assert(self@ =~= before.rebuilding(next@).app);
                state::one_effect(Effect::Save(s))
            },
        }
    }

    /// Re-places comments in the current review.
    pub fn rebuild_review(&mut self) -> (r: Vec<Effect>)
        requires
            old(self).sound(),
        ensures
            final(self).wf(),
            (Step { app: final(self)@, effects: deep::deep(r@) })
                == old(self)@.replacing_comments(),
    {
        let ghost before = self@;
        let next: NextReview = match &self.screen {
            Screen::Review(r) => r.again(),
            _ => {
                self.waiting = None;
                assert(self@ =~= before.replacing_comments().app);
                return Vec::new();
            },
        };
        self.rebuild(next)
    }

    fn finish_open(&mut self, scope: Scope, diff: DiffResult, outcome: Result<(), String>)
        requires
            old(self).sound(),
        ensures
            final(self).wf(),
            final(self).idle(),
            final(self)@ == old(self)@.open_done(scope@, diff@, state::failure_of(outcome)),
    {
        let ghost before = self@;
        let (r, warning): (ReviewState, Option<String>) = ReviewState::new(
            scope,
            diff,
            &mut self.store,
            outcome,
        );
        self.screen = Screen::Review(r);
        self.comment_warning = warning;
        self.waiting = None;
        assert(self@ =~= before.open_done(scope@, diff@, state::failure_of(outcome)));
    }

    fn enter(&mut self, scope: Scope, diff: DiffResult) -> (r: Vec<Effect>)
        requires
            old(self).wf(),
            old(self).idle(),
        ensures
            final(self).wf(),
            (Step { app: final(self)@, effects: deep::deep(r@) }) == old(self)@.entering(
                scope@,
                diff@,
            ),
    {
        let ghost before = self@;
        match ReviewState::unsaved(&diff, &self.store) {
            None => {
                self.finish_open(scope, diff, Ok(()));
                Vec::new()
            },
            Some(s) => {
                self.waiting = Some(Waiting::Open { scope, diff });
                assert(self@ =~= before.entering(scope@, diff@).app);
                state::one_effect(Effect::Save(s))
            },
        }
    }

    pub(crate) fn take_effect(&mut self, then: Saved)
        requires
            old(self).sound(),
        ensures
            final(self).sound(),
            final(self)@ == old(self)@.after_save(then@),
    {
        let ghost before = self@;
        match then {
            Saved::Comment => {
                self.overlay = None;
            },
            Saved::Cleared(v) => {
                self.undo_comments = v;
                self.notice = Some(text::copy("all comments deleted (u restores)"));
            },
            Saved::Deleted(c) => {
                let mut s: String = text::copy("deleted comment #");
                text::put(&mut s, num::decimal_text(c.id).as_str());
                text::put(&mut s, " (u restores)");
                let mut v: Vec<Comment> = Vec::new();
                v.push(c);
                assert(deep::deep(v@) =~= seq![c@]);
                self.undo_comments = v;
                self.notice = Some(s);
            },
            Saved::Restored(n) => {
                let mut s: String = text::copy("restored ");
                text::put(&mut s, num::decimal_text(n as u64).as_str());
                text::put(&mut s, " comment");
                text::put(&mut s, plural_of(n));
                self.undo_comments = Vec::new();
                assert(deep::deep(self.undo_comments@) =~= Seq::empty());
                self.notice = Some(s);
            },
        }
        assert(self@ =~= before.after_save(then@));
    }

    /// The comments have been saved, or not.
    pub fn on_saved(&mut self, outcome: Result<(), String>) -> (r: Vec<Effect>)
        requires
            old(self).wf(),
        ensures
            final(self).wf(),
            (Step { app: final(self)@, effects: deep::deep(r@) }) == old(self)@.save_answered(
                state::failure_of(outcome),
            ),
    {
        let ghost before = self@;
        let waiting: Option<Waiting> = self.waiting.take();
        match waiting {
            Some(Waiting::Save { state: s, then }) => {
                match outcome {
                    Err(e) => {
                        self.error = Some(e);
                        assert(self@ =~= before.save_answered(state::failure_of(outcome)).app);
                        Vec::new()
                    },
                    Ok(()) => {
                        self.store.commit_state(s);
                        assert(self@ =~= (AppView { store: s@, waiting: None, ..before }));
                        self.take_effect(then);
                        self.rebuild_review()
                    },
                }
            },
            Some(Waiting::Rebuild(next)) => {
                self.finish_rebuild(next, outcome);
                Vec::new()
            },
            Some(Waiting::Open { scope, diff }) => {
                self.finish_open(scope, diff, outcome);
                Vec::new()
            },
            other => {
                self.waiting = other;
                assert(self@ =~= before);
                Vec::new()
            },
        }
    }
}

// ---- the loader --------------------------------------------------------------------
/// The requests for files that are to be shown in full again.
pub open spec fn full_requests(
    expanded: Seq<FullContextView>,
    seq: u64,
    scope: ScopeView,
) -> Seq<EffectView> {
    expanded.map_values(
        |e: FullContextView|
            EffectView::Load(
                RequestView::File {
                    seq,
                    scope,
                    path: e.path,
                    old_path: e.base.old_path,
                    kind: FileLoadKind::FullContext,
                },
            ),
    )
}

impl AppView {
    /// A diff has arrived: a reload of the open scope, or a scope being opened.
    pub open spec fn diff_loaded(self, scope: ScopeView, diff: Result<DiffResult, String>, now: u64) -> Step {
        let rested = AppView { reloading: false, ..self };
        match diff {
            Err(e) => state::still(rested.failed(e@)),
            Ok(d) => match self.screen {
                ScreenView::Review(r) if r.scope == scope => {
                    let next = r.reloaded(d@);
                    let step = AppView { reloaded_at: Some(now), ..rested }.rebuilding(next);
                    Step {
                        effects: step.effects + full_requests(next.full_context, self.seq, scope),
                        ..step
                    }
                },
                _ => rested.entering(scope, d@),
            },
        }
    }

    /// A stub has been expanded.
    pub open spec fn stub_loaded(self, path: Seq<char>, loaded: Seq<FileDiffView>) -> Step {
        match self.screen {
            ScreenView::Review(r) => {
                let k = diff::path_index(r.diff.files, path);
                if k < r.diff.files.len() {
                    self.rebuilding(r.unfolded(k, loaded))
                } else {
                    state::still(self)
                }
            },
            _ => state::still(self),
        }
    }

    /// The review has dropped a load of a file in full.
    pub open spec fn full_cancelled(self, path: Seq<char>) -> AppView {
        match self.screen {
            ScreenView::Review(r) => self.with_review(r.cancelled(path)),
            _ => self,
        }
    }

    /// A file has arrived in full.
    pub open spec fn full_loaded(self, path: Seq<char>, loaded: Seq<FileDiffView>) -> Step {
        match self.screen {
            ScreenView::Review(r) => if loaded.len() == 0 {
                state::still(self.full_cancelled(path).failed("no diff returned for "@ + path))
            } else {
                let (after, outcome) = r.arrived(path, loaded[0]);
                let changed = self.with_review(after);
                match outcome {
                    InstallView::Install(next) => changed.noted(
                        "showing full diff for "@ + path,
                    ).rebuilding(next),
                    InstallView::Ignored => state::still(changed),
                    InstallView::Refused(m) => state::still(changed.failed(m)),
                }
            },
            _ => state::still(self),
        }
    }

    /// A file has arrived.
    pub open spec fn file_loaded(
        self,
        scope: ScopeView,
        path: Seq<char>,
        kind: FileLoadKind,
        files: Result<Vec<FileDiff>, String>,
    ) -> Step {
        match self.screen {
            ScreenView::Review(r) if r.scope == scope => match (files, kind) {
                (Err(e), FileLoadKind::FullContext) => state::still(
                    self.full_cancelled(path).failed(e@),
                ),
                (Err(e), _) => state::still(self.failed(e@)),
                (Ok(v), FileLoadKind::Stub { .. }) => self.stub_loaded(path, deep::deep(v@)),
                (Ok(v), FileLoadKind::FullContext) => self.full_loaded(path, deep::deep(v@)),
            },
            _ => state::still(self),
        }
    }

    /// The menu's counts have arrived.
    pub open spec fn counts_loaded(self, counts: ScopeCounts) -> AppView {
        match self.screen {
            ScreenView::Picker(p) => AppView {
                screen: ScreenView::Picker(
                    p.with_counts(
                        counts.uncommitted as nat,
                        counts.staged as nat,
                        match counts.branch {
                            Some(b) => Some(b.1),
                            None => None,
                        },
                    ),
                ),
                ..self
            },
            _ => self,
        }
    }

    /// What an answer of the loader does. One that a newer request or a scope
    /// switch superseded does nothing.
    pub open spec fn loaded(self, event: AppEvent, now: u64) -> Step {
        match event {
            AppEvent::Diff { seq, scope, diff } => if seq == self.seq {
                self.diff_loaded(scope@, diff, now)
            } else {
                state::still(self)
            },
            AppEvent::File { seq, scope, path, kind, files } => if seq == self.seq {
                self.file_loaded(scope@, path@, kind, files)
            } else {
                state::still(self)
            },
            AppEvent::Counts { seq, counts } => if seq == self.seq {
                state::still(self.counts_loaded(counts))
            } else {
                state::still(self)
            },
        }
    }
}

fn full_loads(next: &NextReview, seq: u64, scope: &Scope) -> (r: Vec<Effect>)
    ensures
        deep::deep(r@) == full_requests(deep::deep(next.full_context@), seq, scope@),
{
    let ghost all = deep::deep(next.full_context@);
    let mut out: Vec<Effect> = Vec::new();
    let mut i: usize = 0;
    while i < next.full_context.len()
        invariant
            i <= next.full_context@.len(),
            all == deep::deep(next.full_context@),
            deep::deep(out@) =~= full_requests(all, seq, scope@).take(i as int),
        decreases next.full_context@.len() - i,
    {
        let e = &next.full_context[i];
        assert(all[i as int] == e@);
        let q = LoadRequest::File {
            seq,
            scope: scope.copy(),
            path: text::copy(e.path.as_str()),
            old_path: diff::copy_opt(&e.base.old_path),
            kind: FileLoadKind::FullContext,
        };
        out.push(Effect::Load(q));
        i += 1;
    }
    assert(full_requests(all, seq, scope@).take(i as int) =~= full_requests(all, seq, scope@));
    out
}

impl App {
    /// Is this scope open?
    fn shows_scope(&self, scope: &Scope) -> (r: bool)
        ensures
            r == (self@.screen matches ScreenView::Review(v) && v.scope == scope@),
    {
        match &self.screen {
            Screen::Review(v) => v.scope.same(scope),
            _ => false,
        }
    }

    fn on_diff(&mut self, scope: Scope, diff: Result<DiffResult, String>, now: u64) -> (r: Vec<
        Effect,
    >)
        requires
            old(self).wf(),
            old(self).idle(),
        ensures
            final(self).wf(),
            (Step { app: final(self)@, effects: deep::deep(r@) }) == old(self)@.diff_loaded(
                scope@,
                diff,
                now,
            ),
    {
        let ghost before = self@;
        self.reloading = false;
        let d: DiffResult = match diff {
            Ok(d) => d,
            Err(e) => {
                self.error = Some(e);
                assert(self@ =~= before.diff_loaded(scope@, diff, now).app);
                return Vec::new();
            },
        };
        assert(self@ =~= (AppView { reloading: false, ..before }));
        if !self.shows_scope(&scope) {
            return self.enter(scope, d);
        }
        let next: NextReview = match &self.screen {
            Screen::Review(v) => v.replace_diff(d),
            _ => {
                return Vec::new();
            },
        };
        self.reloaded_at = Some(now);
        assert(self@ =~= (AppView { reloading: false, reloaded_at: Some(now), ..before }));
        let mut loads: Vec<Effect> = full_loads(&next, self.seq, &scope);
        let mut effects: Vec<Effect> = self.rebuild(next);
        effects.append(&mut loads);
        effects
    }

    fn on_stub(&mut self, path: &str, loaded: Vec<FileDiff>) -> (r: Vec<Effect>)
        requires
            old(self).wf(),
            old(self).idle(),
        ensures
            final(self).wf(),
            (Step { app: final(self)@, effects: deep::deep(r@) }) == old(self)@.stub_loaded(
                path@,
                deep::deep(loaded@),
            ),
    {
        let next: NextReview = match &self.screen {
            Screen::Review(v) => {
                let k: usize = diff::position(v.diff.files.as_slice(), path);
                if k >= v.diff.files.len() {
                    return Vec::new();
                }
                v.expand_file(k, loaded)
            },
            _ => {
                return Vec::new();
            },
        };
        self.rebuild(next)
    }

    fn cancel_full(&mut self, path: &str)
        requires
            old(self).wf(),
            old(self).idle(),
        ensures
            final(self).wf(),
            final(self).idle(),
            final(self)@ == old(self)@.full_cancelled(path@),
    {
        let ghost before = self@;
        match &mut self.screen {
            Screen::Review(v) => {
                v.cancel_full_context_load(path);
            },
            _ => {},
        }
        assert(self@ =~= before.full_cancelled(path@));
    }

    fn on_full(&mut self, path: &str, loaded: Vec<FileDiff>) -> (r: Vec<Effect>)
        requires
            old(self).wf(),
            old(self).idle(),
            old(self).screen is Review,
        ensures
            final(self).wf(),
            (Step { app: final(self)@, effects: deep::deep(r@) }) == old(self)@.full_loaded(
                path@,
                deep::deep(loaded@),
            ),
    {
        let ghost before = self@;
        let ghost all = deep::deep(loaded@);
        if loaded.len() == 0 {
            self.cancel_full(path);
            let mut e: String = text::copy("no diff returned for ");
            text::put(&mut e, path);
            self.error = Some(e);
            assert(self@ =~= before.full_loaded(path@, all).app);
            return Vec::new();
        }
        let full: FileDiff = loaded[0].copy();
        assert(full@ == all[0]);
        let outcome: FullContextInstall = match &mut self.screen {
            Screen::Review(v) => v.install_full_context(path, full),
            _ => FullContextInstall::Ignored,
        };
        match outcome {
            FullContextInstall::Install(next) => {
                let mut s: String = text::copy("showing full diff for ");
                text::put(&mut s, path);
                self.notice = Some(s);
                assert(self@ =~= before.with_review(
                    before.screen->Review_0.arrived(path@, all[0]).0,
                ).noted("showing full diff for "@ + path@));
                self.rebuild(next)
            },
            FullContextInstall::Ignored => {
                assert(self@ =~= before.full_loaded(path@, all).app);
                Vec::new()
            },
            FullContextInstall::Refused(m) => {
                self.error = Some(m);
                assert(self@ =~= before.full_loaded(path@, all).app);
                Vec::new()
            },
        }
    }

    fn on_file_loaded(
        &mut self,
        scope: Scope,
        path: String,
        kind: FileLoadKind,
        files: Result<Vec<FileDiff>, String>,
    ) -> (r: Vec<Effect>)
        requires
            old(self).wf(),
            old(self).idle(),
        ensures
            final(self).wf(),
            (Step { app: final(self)@, effects: deep::deep(r@) }) == old(self)@.file_loaded(
                scope@,
                path@,
                kind,
                files,
            ),
    {
        let ghost before = self@;
        if !self.shows_scope(&scope) {
            return Vec::new();
        }
        match files {
            Err(e) => {
                match kind {
                    FileLoadKind::FullContext => {
                        self.cancel_full(path.as_str());
                    },
                    _ => {},
                }
                self.error = Some(e);
                assert(self@ =~= before.file_loaded(scope@, path@, kind, files).app);
                Vec::new()
            },
            Ok(v) => match kind {
                FileLoadKind::Stub { .. } => self.on_stub(path.as_str(), v),
                FileLoadKind::FullContext => self.on_full(path.as_str(), v),
            },
        }
    }

    fn on_counts(&mut self, counts: ScopeCounts)
        requires
            old(self).wf(),
            old(self).idle(),
        ensures
            final(self).wf(),
            final(self).idle(),
            final(self)@ == old(self)@.counts_loaded(counts),
    {
        let ghost before = self@;
        let branch: Option<usize> = match &counts.branch {
            Some(b) => Some(b.1),
            None => None,
        };
        match &mut self.screen {
            Screen::Picker(p) => {
                p.set_counts(counts.uncommitted, counts.staged, branch);
            },
            _ => {},
        }
        assert(self@ =~= before.counts_loaded(counts));
    }

    /// The loader has answered at the time `now`, in milliseconds.
    pub fn on_app_event(&mut self, event: AppEvent, now: u64) -> (r: Vec<Effect>)
        requires
            old(self).wf(),
            old(self).idle(),
        ensures
            final(self).wf(),
            (Step { app: final(self)@, effects: deep::deep(r@) }) == old(self)@.loaded(event, now),
    {
        match event {
            AppEvent::Diff { seq, scope, diff } => {
                if seq != self.seq {
                    return Vec::new();
                }
                self.on_diff(scope, diff, now)
            },
            AppEvent::File { seq, scope, path, kind, files } => {
                if seq != self.seq {
                    return Vec::new();
                }
                self.on_file_loaded(scope, path, kind, files)
            },
            AppEvent::Counts { seq, counts } => {
                if seq == self.seq {
                    self.on_counts(counts);
                }
                Vec::new()
            },
        }
    }
}

// ---- other answers -----------------------------------------------------------------
/// What came of opening an editor.
#[derive(Debug)]
pub enum EditorReply {
    /// The repository has no working directory.
    NoWorkdir,
    NotOnDisk { path: String },
    /// It ran and exited successfully.
    Done,
    Failed(String),
}

impl AppView {
    pub open spec fn copy_answered(self, failure: Option<Seq<char>>) -> AppView {
        let idle = AppView { waiting: None, ..self };
        match (self.waiting, failure) {
            (Some(WaitingView::Copy(_)), Some(e)) => idle.failed("clipboard: "@ + e),
            (Some(WaitingView::Copy(Copied::Markdown)), None) => idle.noted(
                "copied export markdown"@,
            ),
            (Some(WaitingView::Copy(Copied::Selection { lines, patch_style })), None) => {
                let noted = idle.noted(
                    "copied "@ + num::decimal(lines as nat) + " line"@ + plural(lines as nat) + " "@
                        + (if patch_style {
                        "as patch"@
                    } else {
                        "as code"@
                    }),
                );
                match self.screen {
                    ScreenView::Review(r) => noted.with_review(
                        review::ReviewView {
                            stream: StreamView { selection: None, ..r.stream },
                            ..r
                        },
                    ),
                    _ => noted,
                }
            },
            _ => self,
        }
    }

    pub open spec fn write_answered(self, failure: Option<Seq<char>>) -> AppView {
        match (self.overlay, failure) {
            (Some(OverlayView::ExportPath { .. }), Some(e)) => self.failed(
                "export failed: "@ + e,
            ),
            (Some(OverlayView::ExportPath { path, .. }), None) => AppView {
                overlay: None,
                ..self
            }.noted(
                "exported "@ + num::decimal(self.store.comments.len()) + " comment"@ + plural(
                    self.store.comments.len(),
                ) + " to "@ + path,
            ),
            _ => self,
        }
    }

    pub open spec fn file_answered(self, file: Result<FileView, String>) -> AppView {
        match (self.screen, file) {
            (ScreenView::Review(r), Ok(v)) => self.with_review(
                review::ReviewView { file_view: Some(v@), ..r },
            ),
            (ScreenView::Review(_), Err(e)) => self.failed(e@),
            _ => self,
        }
    }

    pub open spec fn commits_answered(self, entries: Result<Vec<LogEntry>, String>) -> AppView {
        match entries {
            Err(e) => self.failed(e@),
            Ok(v) => if v@.len() == 0 {
                self.failed("no commits yet"@)
            } else {
                AppView {
                    screen: ScreenView::Log(
                        LogView {
                            entries: deep::deep(v@),
                            selected: 0,
                            marked: None,
                            offset: 0,
                            inner: style::no_area(),
                        },
                    ),
                    ..self
                }
            },
        }
    }

    pub open spec fn bases_answered(self, names: Seq<Seq<char>>) -> AppView {
        if names.len() == 0 {
            self.failed("only one branch and no upstream — nothing to compare"@)
        } else {
            AppView {
                screen: ScreenView::Base(
                    BaseView { names, selected: 0, offset: 0, inner: style::no_area() },
                ),
                ..self
            }
        }
    }

    pub open spec fn editor_answered(self, reply: EditorReply) -> Step {
        match reply {
            EditorReply::NoWorkdir => state::still(self.failed("no working directory"@)),
            EditorReply::NotOnDisk { path } => state::still(
                self.failed(path@ + " is not on disk (deleted or historical)"@),
            ),
            EditorReply::Done => self.reloading_review(),
            EditorReply::Failed(e) => state::still(self.failed(e@)),
        }
    }
}

impl App {
    /// The text has been copied, or not.
    pub fn on_copied(&mut self, outcome: Result<(), String>)
        requires
            old(self).wf(),
        ensures
            final(self).wf(),
            final(self)@ == old(self)@.copy_answered(state::failure_of(outcome)),
    {
        let ghost before = self@;
        let what: Copied = match &self.waiting {
            Some(Waiting::Copy(c)) => *c,
            _ => {
                return;
            },
        };
        self.waiting = None;
        match outcome {
            Err(e) => {
                let mut s: String = text::copy("clipboard: ");
                text::put(&mut s, e.as_str());
                self.error = Some(s);
            },
            Ok(()) => match what {
                Copied::Markdown => {
                    self.notice = Some(text::copy("copied export markdown"));
                },
                Copied::Selection { lines, patch_style } => {
                    let mut s: String = text::copy("copied ");
                    text::put(&mut s, num::decimal_text(lines as u64).as_str());
                    text::put(&mut s, " line");
                    text::put(&mut s, plural_of(lines));
                    text::put(&mut s, " ");
                    text::put(
                        &mut s,
                        if patch_style {
                            "as patch"
                        } else {
                            "as code"
                        },
                    );
                    self.notice = Some(s);
                    match &mut self.screen {
                        Screen::Review(r) => {
                            r.stream.cancel_selection();
                        },
                        _ => {},
                    }
                },
            },
        }
        assert(self@ =~= before.copy_answered(state::failure_of(outcome)));
    }

    /// The export has been written, or not.
    pub fn on_written(&mut self, outcome: Result<(), String>)
        requires
            old(self).wf(),
        ensures
            final(self).wf(),
            final(self)@ == old(self)@.write_answered(state::failure_of(outcome)),
    {
        let ghost before = self@;
        let n: usize = self.store.comments().len();
        let done: String = match &self.overlay {
            Some(Overlay::ExportPath { path, .. }) => {
                let mut s: String = text::copy("exported ");
                text::put(&mut s, num::decimal_text(n as u64).as_str());
                text::put(&mut s, " comment");
                text::put(&mut s, plural_of(n));
                text::put(&mut s, " to ");
                text::put(&mut s, path.as_str());
                s
            },
            _ => {
                return;
            },
        };
        match outcome {
            Ok(()) => {
                self.notice = Some(done);
                self.overlay = None;
            },
            Err(e) => {
                let mut s: String = text::copy("export failed: ");
                text::put(&mut s, e.as_str());
                self.error = Some(s);
            },
        }
        assert(self@ =~= before.write_answered(state::failure_of(outcome)));
    }

    /// A file has been read in full, or not.
    pub fn on_file(&mut self, file: Result<FileView, String>)
        requires
            old(self).wf(),
            file matches Ok(v) ==> v.wf(),
        ensures
            final(self).wf(),
            final(self)@ == old(self)@.file_answered(file),
    {
        let ghost before = self@;
        match &mut self.screen {
            Screen::Review(r) => match file {
                Ok(v) => {
                    r.file_view = Some(v);
                },
                Err(e) => {
                    self.error = Some(e);
                },
            },
            _ => {},
        }
        assert(self@ =~= before.file_answered(file));
    }

    /// The commits have been listed, or not.
    pub fn on_commits(&mut self, entries: Result<Vec<LogEntry>, String>)
        requires
            old(self).wf(),
        ensures
            final(self).wf(),
            final(self)@ == old(self)@.commits_answered(entries),
    {
        let ghost before = self@;
        match entries {
            Err(e) => {
                self.error = Some(e);
            },
            Ok(v) => {
                if v.len() == 0 {
                    self.error = Some(text::copy("no commits yet"));
                } else {
                    self.screen = Screen::Log(LogPicker::new(v));
                }
            },
        }
        assert(self@ =~= before.commits_answered(entries));
    }

    /// The branches have been listed.
    pub fn on_bases(&mut self, names: Vec<String>)
        requires
            old(self).wf(),
        ensures
            final(self).wf(),
            final(self)@ == old(self)@.bases_answered(deep::deep(names@)),
    {
        let ghost before = self@;
        if names.len() == 0 {
            self.error = Some(
                text::copy("only one branch and no upstream — nothing to compare"),
            );
        } else {
            self.screen = Screen::Base(BasePicker::new(names));
        }
        assert(self@ =~= before.bases_answered(deep::deep(names@)));
    }

    /// An editor has been opened, or not. The review is refreshed after a
    /// successful exit.
    pub fn on_editor(&mut self, reply: EditorReply) -> (r: Vec<Effect>)
        requires
            old(self).wf(),
        ensures
            final(self).wf(),
            final(self).waiting == old(self).waiting,
            (Step { app: final(self)@, effects: deep::deep(r@) }) == old(self)@.editor_answered(
                reply,
            ),
    {
        let ghost before = self@;
        match reply {
            EditorReply::NoWorkdir => {
                self.error = Some(text::copy("no working directory"));
            },
            EditorReply::NotOnDisk { path } => {
                let mut s: String = text::copy(path.as_str());
                text::put(&mut s, " is not on disk (deleted or historical)");
                self.error = Some(s);
            },
            EditorReply::Done => {
                return self.request_reload();
            },
            EditorReply::Failed(e) => {
                self.error = Some(e);
            },
        }
        assert(self@ =~= before.editor_answered(reply).app);
        Vec::new()
    }
}

} // verus!
