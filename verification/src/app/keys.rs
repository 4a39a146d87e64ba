//! Keys on the screens.

use crate::app::date;
use crate::app::input;
use crate::app::layout;
use crate::app::review::{Focus, FullContextToggle, ReviewView, ToggleView};
use crate::app::state;
use crate::app::state::{
    App, AppView, CommentDraft, Copied, DraftView, Effect, EffectView, Overlay, OverlayView, Saved,
    SavedView, Screen, ScreenView, Step, Waiting, WaitingView,
};
use crate::app::walk;
use crate::comments;
use crate::comments::{Comment, CommentView};
use crate::deep;
use crate::event::{FileLoadKind, LoadRequest, RequestView};
use crate::git::diff;
use crate::git::scope::{Scope, ScopeView};
use crate::keymap;
use crate::keymap::{Action, Ctx, KeyCode, KeyModifiers, KeyPress, Lookup};
use crate::markdown;
use crate::num;
use crate::store::StoreState;
use crate::text;
use crate::ui::editor::{EditorView, TextEditor};
use crate::ui::export;
use crate::ui::export::ExportPreview;
use crate::ui::picker::{BaseView, LogView, PickerView, ScopeAction, ScopeActionView};
use crate::ui::review;
use crate::ui::review::{CommentTarget, StreamView, TargetView};
use crate::ui::rows;
use crate::ui::style;
use vstd::prelude::*;

verus! {

broadcast use crate::deep::group_deep;

// ---- the menu ------------------------------------------------------------------------
/// The entry that a digit opens.
pub open spec fn digit_entry(key: KeyPress) -> Option<int> {
    match key.code {
        KeyCode::Char(c) if '1' <= c && c <= '9' && key.mods == keymap::no_modifiers() => Some(
            c as int - '1' as int,
        ),
        _ => None,
    }
}

impl AppView {
    /// Activates the selected entry of the menu.
    pub open spec fn menu_activated(self) -> Step {
        match self.screen {
            ScreenView::Picker(p) => match p.chosen() {
                Some(ScopeActionView::Open(scope)) => self.opening(scope),
                Some(ScopeActionView::PickCommit) => state::doing(self, EffectView::ListCommits),
                Some(ScopeActionView::PickBase) => state::doing(self, EffectView::ListBases),
                None => state::still(self),
            },
            _ => state::still(self),
        }
    }

    /// The menu with an entry selected.
    pub open spec fn menu_at(self, idx: usize) -> AppView {
        match self.screen {
            ScreenView::Picker(p) => AppView {
                screen: ScreenView::Picker(PickerView { selected: idx, ..p }),
                ..self
            },
            _ => self,
        }
    }

    /// The menu with the selection moved.
    pub open spec fn menu_moved(self, delta: int) -> AppView {
        match self.screen {
            ScreenView::Picker(p) => AppView {
                screen: ScreenView::Picker(p.moved(delta)),
                ..self
            },
            _ => self,
        }
    }

    /// A key in the menu.
    pub open spec fn menu_keyed(self, p: PickerView, key: KeyPress, pending: Option<KeyPress>) -> Step {
        match digit_entry(key) {
            Some(i) => if i < p.items.len() {
                self.menu_at(i as usize).menu_activated()
            } else {
                state::still(self)
            },
            None => match keymap::resolved(
                keymap::picker_keys(),
                crate::app::overlays::no_search(),
                pending,
                key,
            ) {
                Lookup::Act(Action::Quit) => state::still(AppView { quit: true, ..self }),
                Lookup::Act(Action::Down) => state::still(self.menu_moved(1)),
                Lookup::Act(Action::Up) => state::still(self.menu_moved(-1)),
                Lookup::Act(Action::Activate) => self.menu_activated(),
                Lookup::Act(_) => state::still(self),
                Lookup::Pending => state::still(AppView { pending_key: Some(key), ..self }),
                Lookup::Nothing => state::still(self),
            },
        }
    }
}

impl App {
    /// Activates the selected entry of the menu.
    pub fn activate_picker_item(&mut self) -> (r: Vec<Effect>)
        requires
            old(self).wf(),
            old(self).idle(),
        ensures
            final(self).wf(),
            (Step { app: final(self)@, effects: deep::deep(r@) }) == old(self)@.menu_activated(),
    {
        let action: Option<ScopeAction> = match &self.screen {
            Screen::Picker(p) => p.chosen(),
            _ => None,
        };
        match action {
            Some(ScopeAction::Open(scope)) => self.open_scope(scope),
            Some(ScopeAction::PickCommit) => state::one_effect(Effect::ListCommits),
            Some(ScopeAction::PickBase) => state::one_effect(Effect::ListBases),
            None => Vec::new(),
        }
    }

    fn select_entry(&mut self, idx: usize)
        requires
            old(self).wf(),
            old(self).idle(),
        ensures
            final(self).wf(),
            final(self).idle(),
            final(self)@ == old(self)@.menu_at(idx),
    {
        let ghost before = self@;
        match &mut self.screen {
            Screen::Picker(p) => {
                p.select(idx);
            },
            _ => {},
        }
        assert(self@ =~= before.menu_at(idx));
    }

    fn move_entry(&mut self, delta: isize)
        requires
            old(self).wf(),
            old(self).idle(),
        ensures
            final(self).wf(),
            final(self).idle(),
            final(self)@ == old(self)@.menu_moved(delta as int),
    {
        let ghost before = self@;
        match &mut self.screen {
            Screen::Picker(p) => {
                p.move_selection(delta);
            },
            _ => {},
        }
        assert(self@ =~= before.menu_moved(delta as int));
    }

    fn on_picker_key(&mut self, key: KeyPress, pending: Option<KeyPress>) -> (r: Vec<Effect>)
        requires
            old(self).wf(),
            old(self).idle(),
            old(self).screen is Picker,
        ensures
            final(self).wf(),
            (Step { app: final(self)@, effects: deep::deep(r@) }) == old(self)@.menu_keyed(
                old(self)@.screen->Picker_0,
                key,
                pending,
            ),
    {
        let ghost before = self@;
        let ghost menu = before.screen->Picker_0;
        let entries: usize = match &self.screen {
            Screen::Picker(p) => p.len(),
            _ => 0,
        };
        assert(entries == menu.items.len());
        if let KeyCode::Char(c) = key.code {
            if '1' <= c && c <= '9' && key.mods.is_empty() {
                let i: usize = (c as u32 - '1' as u32) as usize;
                assert(digit_entry(key) == Some(i as int));
                if i < entries {
                    self.select_entry(i);
                    return self.activate_picker_item();
                }
                return Vec::new();
            }
        }
        assert(digit_entry(key) is None);
        let table = keymap::picker();
        match keymap::lookup(table.as_slice(), Ctx::default(), pending, key) {
            Lookup::Act(action) => match action {
                Action::Quit => {
                    self.quit = true;
                },
                Action::Down => {
                    self.move_entry(1);
                },
                Action::Up => {
                    self.move_entry(-1);
                },
                Action::Activate => {
                    return self.activate_picker_item();
                },
                _ => {},
            },
            Lookup::Pending => {
                self.pending_key = Some(key);
            },
            Lookup::Nothing => {},
        }
        assert(self@ =~= before.menu_keyed(menu, key, pending).app);
        Vec::new()
    }
}

// ---- the branch list -----------------------------------------------------------------
/// The list of branches after an action.
pub open spec fn bases_walked(b: BaseView, action: Action) -> BaseView {
    match action {
        Action::Down => b.moved(1),
        Action::Up => b.moved(-1),
        Action::PageDown => b.moved(20),
        Action::PageUp => b.moved(-20),
        Action::HalfPageDown => b.moved(10),
        Action::HalfPageUp => b.moved(-10),
        Action::GotoTop => BaseView { selected: 0, ..b },
        Action::GotoBottom => BaseView { selected: b.last(), ..b },
        _ => b,
    }
}

impl AppView {
    /// Opens the comparison with the selected branch.
    pub open spec fn base_activated(self) -> Step {
        match self.screen {
            ScreenView::Base(b) => match b.chosen() {
                Some(base) => self.opening(ScopeView::Branch { base }),
                None => state::still(self),
            },
            _ => state::still(self),
        }
    }

    pub open spec fn with_bases(self, b: BaseView) -> AppView {
        AppView { screen: ScreenView::Base(b), ..self }
    }

    /// A key in the branch list.
    pub open spec fn base_keyed(self, b: BaseView, key: KeyPress, pending: Option<KeyPress>) -> Step {
        match keymap::resolved(
            keymap::base_keys(),
            crate::app::overlays::no_search(),
            pending,
            key,
        ) {
            Lookup::Act(Action::Back) => state::doing(self, EffectView::OpenPicker),
            Lookup::Act(Action::Activate) => self.base_activated(),
            Lookup::Act(a) => state::still(self.with_bases(bases_walked(b, a))),
            Lookup::Pending => state::still(AppView { pending_key: Some(key), ..self }),
            Lookup::Nothing => state::still(self),
        }
    }
}

impl App {
    /// Opens the comparison with the selected branch.
    pub fn open_selected_base(&mut self) -> (r: Vec<Effect>)
        requires
            old(self).wf(),
            old(self).idle(),
        ensures
            final(self).wf(),
            (Step { app: final(self)@, effects: deep::deep(r@) }) == old(self)@.base_activated(),
    {
        let name: Option<String> = match &self.screen {
            Screen::Base(b) => b.chosen(),
            _ => None,
        };
        match name {
            Some(base) => self.open_scope(Scope::Branch { base }),
            None => Vec::new(),
        }
    }

    fn walk_bases(&mut self, action: Action)
        requires
            old(self).wf(),
            old(self).idle(),
            old(self).screen is Base,
        ensures
            final(self).wf(),
            final(self).idle(),
            final(self)@ == old(self)@.with_bases(
                bases_walked(old(self)@.screen->Base_0, action),
            ),
    {
        let ghost before = self@;
        match &mut self.screen {
            Screen::Base(b) => match action {
                Action::Down => b.move_selection(1),
                Action::Up => b.move_selection(-1),
                Action::PageDown => b.move_selection(20),
                Action::PageUp => b.move_selection(-20),
                Action::HalfPageDown => b.move_selection(10),
                Action::HalfPageUp => b.move_selection(-10),
                Action::GotoTop => b.select(0),
                Action::GotoBottom => b.select_last(),
                _ => {},
            },
            _ => {},
        }
        assert(self@ =~= before.with_bases(bases_walked(before.screen->Base_0, action)));
    }

    fn on_base_key(&mut self, key: KeyPress, pending: Option<KeyPress>) -> (r: Vec<Effect>)
        requires
            old(self).wf(),
            old(self).idle(),
            old(self).screen is Base,
        ensures
            final(self).wf(),
            (Step { app: final(self)@, effects: deep::deep(r@) }) == old(self)@.base_keyed(
                old(self)@.screen->Base_0,
                key,
                pending,
            ),
    {
        let ghost before = self@;
        let table = keymap::base();
        match keymap::lookup(table.as_slice(), Ctx::default(), pending, key) {
            Lookup::Act(action) => match action {
                Action::Back => {
                    return state::one_effect(Effect::OpenPicker);
                },
                Action::Activate => {
                    return self.open_selected_base();
                },
                _ => {
                    self.walk_bases(action);
                },
            },
            Lookup::Pending => {
                self.pending_key = Some(key);
            },
            Lookup::Nothing => {},
        }
        assert(self@ =~= before.base_keyed(before.screen->Base_0, key, pending).app);
        Vec::new()
    }
}

// ---- the commit list -----------------------------------------------------------------
/// The list of commits after an action.
pub open spec fn log_walked(l: LogView, action: Action) -> LogView {
    match action {
        Action::Down => l.moved(1),
        Action::Up => l.moved(-1),
        Action::PageDown => l.moved(20),
        Action::PageUp => l.moved(-20),
        Action::HalfPageDown => l.moved(10),
        Action::HalfPageUp => l.moved(-10),
        Action::GotoTop => LogView { selected: 0, ..l },
        Action::GotoBottom => LogView { selected: l.last(), ..l },
        Action::MarkRange => l.toggled(),
        _ => l,
    }
}

impl AppView {
    /// Opens the selected commit, or the range from the marked one.
    pub open spec fn commit_activated(self) -> Step {
        match self.screen {
            ScreenView::Log(l) => match l.opens() {
                Some(scope) => self.opening(scope),
                None => state::still(self),
            },
            _ => state::still(self),
        }
    }

    pub open spec fn with_log(self, l: LogView) -> AppView {
        AppView { screen: ScreenView::Log(l), ..self }
    }

    /// A key in the commit list.
    pub open spec fn log_keyed(self, l: LogView, key: KeyPress, pending: Option<KeyPress>) -> Step {
        match keymap::resolved(
            keymap::log_keys(),
            crate::app::overlays::no_search(),
            pending,
            key,
        ) {
            Lookup::Act(Action::Back) => state::doing(self, EffectView::OpenPicker),
            Lookup::Act(Action::Activate) => self.commit_activated(),
            Lookup::Act(a) => state::still(self.with_log(log_walked(l, a))),
            Lookup::Pending => state::still(AppView { pending_key: Some(key), ..self }),
            Lookup::Nothing => state::still(self),
        }
    }
}

impl App {
    /// Opens the selected commit, or the range from the marked one.
    pub fn open_selected_commit(&mut self) -> (r: Vec<Effect>)
        requires
            old(self).wf(),
            old(self).idle(),
        ensures
            final(self).wf(),
            (Step { app: final(self)@, effects: deep::deep(r@) }) == old(self)@.commit_activated(),
    {
        let chosen: Option<Scope> = match &self.screen {
            Screen::Log(l) => l.chosen(),
            _ => {
                return Vec::new();
            },
        };
        match chosen {
            Some(scope) => self.open_scope(scope),
            None => Vec::new(),
        }
    }

    fn walk_log(&mut self, action: Action)
        requires
            old(self).wf(),
            old(self).idle(),
            old(self).screen is Log,
        ensures
            final(self).wf(),
            final(self).idle(),
            final(self)@ == old(self)@.with_log(log_walked(old(self)@.screen->Log_0, action)),
    {
        let ghost before = self@;
        match &mut self.screen {
            Screen::Log(l) => match action {
                Action::Down => l.move_selection(1),
                Action::Up => l.move_selection(-1),
                Action::PageDown => l.move_selection(20),
                Action::PageUp => l.move_selection(-20),
                Action::HalfPageDown => l.move_selection(10),
                Action::HalfPageUp => l.move_selection(-10),
                Action::GotoTop => l.select(0),
                Action::GotoBottom => l.select_last(),
                Action::MarkRange => l.toggle_mark(),
                _ => {},
            },
            _ => {},
        }
        assert(self@ =~= before.with_log(log_walked(before.screen->Log_0, action)));
    }

    fn on_log_key(&mut self, key: KeyPress, pending: Option<KeyPress>) -> (r: Vec<Effect>)
        requires
            old(self).wf(),
            old(self).idle(),
            old(self).screen is Log,
        ensures
            final(self).wf(),
            (Step { app: final(self)@, effects: deep::deep(r@) }) == old(self)@.log_keyed(
                old(self)@.screen->Log_0,
                key,
                pending,
            ),
    {
        let ghost before = self@;
        let table = keymap::log();
        match keymap::lookup(table.as_slice(), Ctx::default(), pending, key) {
            Lookup::Act(action) => match action {
                Action::Back => {
                    return state::one_effect(Effect::OpenPicker);
                },
                Action::Activate => {
                    return self.open_selected_commit();
                },
                _ => {
                    self.walk_log(action);
                },
            },
            Lookup::Pending => {
                self.pending_key = Some(key);
            },
            Lookup::Nothing => {},
        }
        assert(self@ =~= before.log_keyed(before.screen->Log_0, key, pending).app);
        Vec::new()
    }
}

// ---- the review ----------------------------------------------------------------------
/// An editor that has just been opened on a text.
pub open spec fn fresh_editor(s: Seq<char>) -> EditorView {
    EditorView {
        text: s,
        cursor: s.len() as usize,
        preferred: None,
        scroll: 0,
        reveal: true,
        width: 70,
        inner: style::no_area(),
    }
}

/// The draft of a new comment.
pub open spec fn new_draft(t: TargetView) -> DraftView {
    DraftView {
        editor: fresh_editor(Seq::empty()),
        editing: None,
        target: Some(t),
        label: input::label_of(t),
    }
}

/// The draft of an existing comment.
pub open spec fn edit_draft(c: CommentView) -> DraftView {
    DraftView {
        editor: fresh_editor(c.body),
        editing: Some(c.id),
        target: None,
        label: "edit #"@ + num::decimal(c.id as nat) + " on "@ + c.path,
    }
}

/// A line number, the first line where there is none.
pub open spec fn line_or_first(line: Option<u32>) -> usize {
    match line {
        Some(n) if n > 0 => n as usize,
        _ => 1,
    }
}

/// A line counted from zero.
pub open spec fn zero_based(line: Option<u32>) -> Option<usize> {
    match line {
        Some(n) => Some(style::at_least_zero(n - 1) as usize),
        None => None,
    }
}

/// What a selection copies.
pub open spec fn selection_text(r: ReviewView, patch_style: bool) -> Seq<char> {
    match r.stream.selected() {
        None => Seq::empty(),
        Some((lo, hi)) => review::copied(r.stream.rows, r.diff.files, patch_style, lo, hi),
    }
}

impl AppView {
    /// Copies the selection.
    pub open spec fn copying(self, r: ReviewView, patch_style: bool) -> Step {
        let all = selection_text(r, patch_style);
        if all.len() == 0 {
            state::still(self.failed("selection has no copyable lines"@))
        } else {
            state::doing(
                AppView {
                    waiting: Some(
                        WaitingView::Copy(
                            Copied::Selection {
                                lines: text::lines(all).len() as usize,
                                patch_style,
                            },
                        ),
                    ),
                    ..self
                },
                EffectView::Copy(all),
            )
        }
    }

    /// Shows the current file in full.
    pub open spec fn viewing(self, r: ReviewView) -> Step {
        match r.stream.place_from(r.diff.files, r.stream.cursor as int) {
            Some((fi, line)) => state::doing(
                self,
                EffectView::ReadFile {
                    path: r.diff.files[fi as int].path,
                    target: zero_based(line),
                },
            ),
            None => state::still(self),
        }
    }

    /// Opens the current file in an editor.
    pub open spec fn editing(self, r: ReviewView) -> Step {
        match r.stream.place_from(r.diff.files, r.stream.cursor as int) {
            Some((fi, line)) => state::doing(
                self,
                EffectView::OpenEditor {
                    path: r.diff.files[fi as int].path,
                    line: line_or_first(line),
                },
            ),
            None => state::still(self),
        }
    }

    /// Previews the export at the time `now`.
    pub open spec fn exporting(self, now: u64) -> AppView {
        if self.store.comments.len() == 0 {
            self.failed("no comments to export"@)
        } else {
            self.with_overlay(
                OverlayView::ExportPreview(
                    export::opened(
                        markdown::exported(
                            self.store.comments,
                            self.title,
                            date::date_text(date::date_on(now as int / 86_400)),
                        ),
                    ),
                ),
            )
        }
    }

    /// Comments on the selection, edits the comment at the cursor, or comments on
    /// the current line.
    pub open spec fn commenting(self, r: ReviewView) -> AppView {
        let lines = r.stream.selection_lines();
        let files = r.diff.files;
        if !review::one_hunk(lines) {
            self.failed(review::spans_hunks())
        } else if review::any_expanded(files, lines) {
            self.failed(review::not_in_diff())
        } else {
            match review::target_of(files, lines) {
                Some(t) => self.with_review(
                    ReviewView { stream: StreamView { selection: None, ..r.stream }, ..r },
                ).with_overlay(OverlayView::Comment(new_draft(t))),
                None => match r.stream.comment_here() {
                    Some(ci) => self.with_overlay(
                        OverlayView::Comment(edit_draft(self.store.comments[ci as int])),
                    ),
                    None => if r.stream.expanded_here(files) {
                        self.failed("comments require a line in the original diff"@)
                    } else {
                        match r.stream.bare_target(files) {
                            Some(t) => self.with_overlay(OverlayView::Comment(new_draft(t))),
                            None => self,
                        }
                    },
                },
            }
        }
    }

    /// Deletes the comment at the cursor.
    pub open spec fn deleting(self, r: ReviewView) -> Step {
        match r.stream.comment_here() {
            Some(ci) => {
                let c = self.store.comments[ci as int];
                self.changing(self.store.deleted(c.id), SavedView::Deleted(c))
            },
            None => state::still(self),
        }
    }

    /// Puts back what the last delete removed.
    pub open spec fn restoring(self) -> Step {
        if self.undo_comments.len() == 0 {
            state::still(self)
        } else {
            self.changing(
                self.store.restored(self.undo_comments),
                SavedView::Restored(self.undo_comments.len() as usize),
            )
        }
    }

    /// Loads what the stub of a file stands for.
    pub open spec fn expanding_stub(self, r: ReviewView, fi: usize) -> Step {
        let file = r.diff.files[fi as int];
        state::doing(
            self.noted(
                if file.untracked_dir {
                    "listing "@ + file.path + "/…"@
                } else {
                    "loading diff for "@ + file.path + "…"@
                },
            ),
            EffectView::Load(
                RequestView::File {
                    seq: self.seq,
                    scope: r.scope,
                    path: file.path,
                    old_path: None,
                    kind: FileLoadKind::Stub { untracked_dir: file.untracked_dir },
                },
            ),
        )
    }

    /// Expands or collapses the current file.
    pub open spec fn toggling(self, r: ReviewView) -> Step {
        let (after, what) = r.toggled();
        let changed = self.with_review(after);
        match what {
            ToggleView::Load { path, old_path } => state::doing(
                changed.noted("loading full diff for "@ + path + "…"@),
                EffectView::Load(
                    RequestView::File {
                        seq: self.seq,
                        scope: r.scope,
                        path,
                        old_path,
                        kind: FileLoadKind::FullContext,
                    },
                ),
            ),
            ToggleView::Collapse(next) => changed.noted(
                "collapsed full diff context"@,
            ).rebuilding(next),
            ToggleView::Unavailable => state::still(changed),
        }
    }

    /// Enter in a review.
    pub open spec fn entered(self, r: ReviewView) -> Step {
        if r.focus == Focus::Tree {
            state::still(self.with_review(r.picked()))
        } else {
            match r.stream.stub_at_cursor() {
                Some(fi) => self.expanding_stub(r, fi),
                None => self.toggling(r),
            }
        }
    }

    /// Esc peels back one layer at a time: selection, live search, tree pick, menu.
    pub open spec fn backed(self, r: ReviewView) -> Step {
        if r.stream.selection is Some {
            state::still(
                self.with_review(
                    ReviewView { stream: StreamView { selection: None, ..r.stream }, ..r },
                ),
            )
        } else if r.stream.search is Some {
            state::still(
                self.with_review(
                    ReviewView { stream: StreamView { search: None, ..r.stream }, ..r },
                ),
            )
        } else if r.focus == Focus::Tree {
            state::still(self.with_review(ReviewView { focus: Focus::Stream, ..r }.synced()))
        } else {
            state::doing(self, EffectView::OpenPicker)
        }
    }

    /// Resizes the tree by one step.
    pub open spec fn resized(self, r: ReviewView, wider: bool) -> AppView {
        let (after, outcome) = r.resized(wider);
        let changed = self.with_review(after);
        match layout::resize_message(outcome) {
            Some(m) => changed.noted(m),
            None => changed,
        }
    }

    /// An action in a review, at the time `now`.
    pub open spec fn acted(self, r: ReviewView, action: Action, now: u64) -> Step {
        match action {
            Action::Back => self.backed(r),
            Action::SwitchScope => state::doing(self, EffectView::OpenPicker),
            Action::Search => state::still(self.with_overlay(OverlayView::Search(Seq::empty()))),
            Action::CopyCode => if r.stream.selection is Some {
                self.copying(r, false)
            } else {
                state::still(self)
            },
            Action::CopyPatch => if r.stream.selection is Some {
                self.copying(r, true)
            } else {
                state::still(self)
            },
            Action::FileView => self.viewing(r),
            Action::Reload => self.reloading_review(),
            Action::ExportPreview => state::still(self.exporting(now)),
            Action::Comment => state::still(self.commenting(r)),
            Action::DeleteComment => self.deleting(r),
            Action::RestoreComments => self.restoring(),
            Action::DeleteAllComments => if self.store.comments.len() == 0 {
                state::still(self)
            } else {
                state::still(self.with_overlay(OverlayView::ConfirmClear))
            },
            Action::OpenEditor => self.editing(r),
            Action::NarrowTree => state::still(self.resized(r, false)),
            Action::WidenTree => state::still(self.resized(r, true)),
            Action::Activate => self.entered(r),
            _ => state::still(self.with_review(r.walked(action))),
        }
    }

    /// A key in the pager.
    pub open spec fn pager_keyed(self, r: ReviewView, key: KeyPress, pending: Option<KeyPress>) -> Step {
        match r.file_view {
            None => state::still(self),
            Some(v) => match keymap::resolved(
                keymap::file_view_keys(),
                crate::app::overlays::no_search(),
                pending,
                key,
            ) {
                Lookup::Act(Action::Back) => state::still(
                    self.with_review(ReviewView { file_view: None, ..r }),
                ),
                Lookup::Act(Action::OpenEditor) => state::doing(
                    self,
                    EffectView::OpenEditor { path: v.path, line: v.top_line() },
                ),
                Lookup::Act(a) => state::still(
                    self.with_review(ReviewView { file_view: Some(walk::paged(v, a)), ..r }),
                ),
                Lookup::Pending => state::still(AppView { pending_key: Some(key), ..self }),
                Lookup::Nothing => state::still(self),
            },
        }
    }

    /// A key in a review.
    pub open spec fn review_keyed(
        self,
        r: ReviewView,
        key: KeyPress,
        pending: Option<KeyPress>,
        now: u64,
    ) -> Step {
        if r.file_view is Some {
            self.pager_keyed(r, key, pending)
        } else {
            match keymap::resolved(
                keymap::review_keys(),
                Ctx { search_active: r.stream.search is Some },
                pending,
                key,
            ) {
                Lookup::Act(a) => self.acted(r, a, now),
                Lookup::Pending => state::still(AppView { pending_key: Some(key), ..self }),
                Lookup::Nothing => state::still(self),
            }
        }
    }
}

fn first_line(line: Option<u32>) -> (r: usize)
    ensures
        r == line_or_first(line),
{
    match line {
        Some(n) => if n > 0 {
            n as usize
        } else {
            1
        },
        None => 1,
    }
}

fn from_zero(line: Option<u32>) -> (r: Option<usize>)
    ensures
        r == zero_based(line),
{
    match line {
        Some(n) => Some(n.saturating_sub(1) as usize),
        None => None,
    }
}

fn draft_for(t: CommentTarget) -> (r: CommentDraft)
    ensures
        r.editor.wf(),
        r@ == new_draft(t@),
{
    let label: String = input::target_label(&t);
    let none: String = String::new();
    assert(none@ =~= Seq::empty());
    let r = CommentDraft {
        editor: TextEditor::new(none),
        editing: None,
        target: Some(t),
        label,
    };
    assert(r@ =~= new_draft(t@));
    r
}

fn draft_of(c: &Comment) -> (r: CommentDraft)
    ensures
        r.editor.wf(),
        r@ == edit_draft(c@),
{
    let mut label: String = text::copy("edit #");
    text::put(&mut label, num::decimal_text(c.id).as_str());
    text::put(&mut label, " on ");
    text::put(&mut label, c.path.as_str());
    let r = CommentDraft {
        editor: TextEditor::new(text::copy(c.body.as_str())),
        editing: Some(c.id),
        target: None,
        label,
    };
    assert(r@ =~= edit_draft(c@));
    r
}

/// The comment at the cursor is one of the comments.
proof fn lemma_comment_here(r: ReviewView, comments: nat)
    requires
        r.speaks_of(comments),
        r.stream.comment_here() is Some,
    ensures
        r.stream.comment_here()->0 < comments,
{
    assert(rows::row_valid(r.stream.rows[r.stream.cursor as int], r.diff.files, comments));
}

/// The stub at the cursor is that of one of the files.
proof fn lemma_stub_here(r: ReviewView)
    requires
        r.stream.shows(r.diff.files),
        r.stream.stub_at_cursor() is Some,
    ensures
        r.stream.stub_at_cursor()->0 < r.diff.files.len(),
{
    assert(rows::row_in(r.stream.rows[r.stream.cursor as int], r.diff.files));
}

impl App {
    /// A review is open and its rows speak of the comments.
    pub open spec fn reviewing(&self) -> bool {
        &&& self.wf()
        &&& self.idle()
        &&& self.screen is Review
    }

    fn copy_selection(&mut self, patch_style: bool) -> (r: Vec<Effect>)
        requires
            old(self).reviewing(),
        ensures
            final(self).wf(),
            (Step { app: final(self)@, effects: deep::deep(r@) }) == old(self)@.copying(
                old(self)@.screen->Review_0,
                patch_style,
            ),
    {
        let ghost before = self@;
        let ghost r0 = before.screen->Review_0;
        let selected: Option<String> = match &self.screen {
            Screen::Review(r) => r.stream.selected_text(r.diff.files.as_slice(), patch_style),
            _ => None,
        };
        match selected {
            None => {
                self.error = Some(text::copy("selection has no copyable lines"));
                assert(self@ =~= before.copying(r0, patch_style).app);
                Vec::new()
            },
            Some(s) => {
                let lines: usize = markdown::lines_of(s.as_str()).len();
                self.waiting = Some(Waiting::Copy(Copied::Selection { lines, patch_style }));
                assert(self@ =~= before.copying(r0, patch_style).app);
                state::one_effect(Effect::Copy(s))
            },
        }
    }

    /// The path and line at the cursor.
    fn place(&self) -> (r: Option<(String, Option<u32>)>)
        requires
            self.reviewing(),
        ensures
            ({
                let v = self@.screen->Review_0;
                match (r, v.stream.place_from(v.diff.files, v.stream.cursor as int)) {
                    (Some((p, l)), Some((fi, line))) => p@ == v.diff.files[fi as int].path && l
                        == line,
                    (None, None) => true,
                    _ => false,
                }
            }),
    {
        match &self.screen {
            Screen::Review(r) => match r.stream.current_position(r.diff.files.as_slice()) {
                Some((fi, line)) => {
                    assert(r@.diff.files[fi as int] == r.diff.files@[fi as int]@);
                    Some((text::copy(r.diff.files[fi].path.as_str()), line))
                },
                None => None,
            },
            _ => None,
        }
    }

    fn open_file_view(&self) -> (r: Vec<Effect>)
        requires
            self.reviewing(),
        ensures
            (Step { app: self@, effects: deep::deep(r@) }) == self@.viewing(
                self@.screen->Review_0,
            ),
    {
        match self.place() {
            Some((path, line)) => state::one_effect(
                Effect::ReadFile { path, target: from_zero(line) },
            ),
            None => Vec::new(),
        }
    }

    fn request_editor(&self) -> (r: Vec<Effect>)
        requires
            self.reviewing(),
        ensures
            (Step { app: self@, effects: deep::deep(r@) }) == self@.editing(
                self@.screen->Review_0,
            ),
    {
        match self.place() {
            Some((path, line)) => state::one_effect(
                Effect::OpenEditor { path, line: first_line(line) },
            ),
            None => Vec::new(),
        }
    }

    fn export(&mut self, now: u64)
        requires
            old(self).reviewing(),
        ensures
            final(self).wf(),
            final(self).idle(),
            final(self)@ == old(self)@.exporting(now),
    {
        let ghost before = self@;
        if self.store.comments().len() == 0 {
            self.error = Some(text::copy("no comments to export"));
        } else {
            let day: String = date::today_string(now);
            let all: String = markdown::export_markdown(
                self.store.comments(),
                self.title.as_str(),
                day.as_str(),
            );
            self.overlay = Some(Overlay::ExportPreview(ExportPreview::new(all)));
        }
        assert(self@ =~= before.exporting(now));
    }

    fn comment(&mut self)
        requires
            old(self).reviewing(),
        ensures
            final(self).wf(),
            final(self).idle(),
            final(self)@ == old(self)@.commenting(old(self)@.screen->Review_0),
    {
        let ghost before = self@;
        let ghost r0 = before.screen->Review_0;
        match &mut self.screen {
            Screen::Review(r) => {
                match r.stream.selection_target(r.diff.files.as_slice()) {
                    Err(message) => {
                        self.error = Some(text::copy(message));
                    },
                    Ok(Some(t)) => {
                        r.stream.cancel_selection();
                        self.overlay = Some(Overlay::Comment(draft_for(t)));
                    },
                    Ok(None) => match r.stream.comment_at_cursor() {
                        Some(ci) => {
                            proof {
                                lemma_comment_here(r0, before.store.comments.len());
                            }
                            let all: &[Comment] = self.store.comments();
                            assert(before.store.comments[ci as int] == all@[ci as int]@);
                            self.overlay = Some(Overlay::Comment(draft_of(&all[ci])));
                        },
                        None => {
                            if r.stream.expanded_context_at_cursor(r.diff.files.as_slice()) {
                                self.error = Some(
                                    text::copy("comments require a line in the original diff"),
                                );
                            } else {
                                match r.stream.line_target(r.diff.files.as_slice()) {
                                    Some(t) => {
                                        self.overlay = Some(Overlay::Comment(draft_for(t)));
                                    },
                                    None => {},
                                }
                            }
                        },
                    },
                }
            },
            _ => {},
        }
        assert(self@ =~= before.commenting(r0));
    }

    fn delete_comment(&mut self) -> (r: Vec<Effect>)
        requires
            old(self).reviewing(),
        ensures
            final(self).wf(),
            (Step { app: final(self)@, effects: deep::deep(r@) }) == old(self)@.deleting(
                old(self)@.screen->Review_0,
            ),
    {
        let ghost r0 = self@.screen->Review_0;
        let at: Option<usize> = match &self.screen {
            Screen::Review(r) => r.stream.comment_at_cursor(),
            _ => None,
        };
        match at {
            None => Vec::new(),
            Some(ci) => {
                proof {
                    lemma_comment_here(r0, self@.store.comments.len());
                }
                let all: &[Comment] = self.store.comments();
                assert(self@.store.comments[ci as int] == all@[ci as int]@);
                let c: Comment = all[ci].copy();
                let change: Option<StoreState> = self.store.delete(c.id);
                self.change(change, Saved::Deleted(c))
            },
        }
    }

    fn restore_comments(&mut self) -> (r: Vec<Effect>)
        requires
            old(self).reviewing(),
        ensures
            final(self).wf(),
            (Step { app: final(self)@, effects: deep::deep(r@) }) == old(self)@.restoring(),
    {
        let n: usize = self.undo_comments.len();
        if n == 0 {
            return Vec::new();
        }
        let back: Vec<Comment> = comments::copy_comments(self.undo_comments.as_slice());
        let change: Option<StoreState> = self.store.restore(back);
        self.change(change, Saved::Restored(n))
    }

    fn expand_stub(&mut self, fi: usize) -> (r: Vec<Effect>)
        requires
            old(self).reviewing(),
            fi < old(self)@.screen->Review_0.diff.files.len(),
        ensures
            final(self).wf(),
            (Step { app: final(self)@, effects: deep::deep(r@) }) == old(self)@.expanding_stub(
                old(self)@.screen->Review_0,
                fi,
            ),
    {
        let ghost before = self@;
        let ghost r0 = before.screen->Review_0;
        let seq: u64 = self.seq;
        match &self.screen {
            Screen::Review(r) => {
                let file = &r.diff.files[fi];
                assert(r0.diff.files[fi as int] == file@);
                let mut s: String = text::copy(
                    if file.untracked_dir {
                        "listing "
                    } else {
                        "loading diff for "
                    },
                );
                text::put(&mut s, file.path.as_str());
                text::put(
                    &mut s,
                    if file.untracked_dir {
                        "/…"
                    } else {
                        "…"
                    },
                );
                let q = LoadRequest::File {
                    seq,
                    scope: r.scope.copy(),
                    path: text::copy(file.path.as_str()),
                    old_path: None,
                    kind: FileLoadKind::Stub { untracked_dir: file.untracked_dir },
                };
                self.notice = Some(s);
                assert(self@ =~= before.expanding_stub(r0, fi).app);
                state::one_effect(Effect::Load(q))
            },
            _ => Vec::new(),
        }
    }

    fn toggle_full(&mut self) -> (r: Vec<Effect>)
        requires
            old(self).reviewing(),
        ensures
            final(self).wf(),
            (Step { app: final(self)@, effects: deep::deep(r@) }) == old(self)@.toggling(
                old(self)@.screen->Review_0,
            ),
    {
        let ghost before = self@;
        let ghost r0 = before.screen->Review_0;
        let seq: u64 = self.seq;
        let (what, scope): (FullContextToggle, Scope) = match &mut self.screen {
            Screen::Review(r) => {
                let scope: Scope = r.scope.copy();
                (r.toggle_full_context(), scope)
            },
            _ => {
                return Vec::new();
            },
        };
        assert(self@ =~= before.with_review(r0.toggled().0));
        match what {
            FullContextToggle::Load { path, old_path } => {
                let mut s: String = text::copy("loading full diff for ");
                text::put(&mut s, path.as_str());
                text::put(&mut s, "…");
                self.notice = Some(s);
                assert(self@ =~= before.toggling(r0).app);
                state::one_effect(
                    Effect::Load(
                        LoadRequest::File {
                            seq,
                            scope,
                            path,
                            old_path,
                            kind: FileLoadKind::FullContext,
                        },
                    ),
                )
            },
            FullContextToggle::Collapse(next) => {
                self.notice = Some(text::copy("collapsed full diff context"));
                assert(self@ =~= before.with_review(r0.toggled().0).noted(
                    "collapsed full diff context"@,
                ));
                self.rebuild(next)
            },
            FullContextToggle::Unavailable => Vec::new(),
        }
    }

    fn enter_row(&mut self) -> (r: Vec<Effect>)
        requires
            old(self).reviewing(),
        ensures
            final(self).wf(),
            (Step { app: final(self)@, effects: deep::deep(r@) }) == old(self)@.entered(
                old(self)@.screen->Review_0,
            ),
    {
        let ghost before = self@;
        let ghost r0 = before.screen->Review_0;
        let stub: Option<usize> = match &mut self.screen {
            Screen::Review(r) => {
                if r.focus == Focus::Tree {
                    r.pick();
                    assert(self@ =~= before.entered(r0).app);
                    return Vec::new();
                }
                r.stream.large_stub_at_cursor()
            },
            _ => None,
        };
        match stub {
            Some(fi) => {
                proof {
                    lemma_stub_here(r0);
                }
                self.expand_stub(fi)
            },
            None => self.toggle_full(),
        }
    }

    fn back(&mut self) -> (r: Vec<Effect>)
        requires
            old(self).reviewing(),
        ensures
            final(self).wf(),
            (Step { app: final(self)@, effects: deep::deep(r@) }) == old(self)@.backed(
                old(self)@.screen->Review_0,
            ),
    {
        let ghost before = self@;
        let ghost r0 = before.screen->Review_0;
        match &mut self.screen {
            Screen::Review(r) => {
                if r.stream.has_selection() {
                    r.stream.cancel_selection();
                } else if r.stream.has_search() {
                    r.stream.clear_search();
                } else if r.focus == Focus::Tree {
                    r.focus = Focus::Stream;
                    r.sync_tree();
                } else {
                    return state::one_effect(Effect::OpenPicker);
                }
            },
            _ => {},
        }
        assert(self@ =~= before.backed(r0).app);
        Vec::new()
    }

    fn resize(&mut self, wider: bool)
        requires
            old(self).reviewing(),
        ensures
            final(self).wf(),
            final(self).idle(),
            final(self)@ == old(self)@.resized(old(self)@.screen->Review_0, wider),
    {
        let ghost before = self@;
        let ghost r0 = before.screen->Review_0;
        match &mut self.screen {
            Screen::Review(r) => {
                match layout::resize_notice(r.resize_tree(wider)) {
                    Some(m) => {
                        self.notice = Some(text::copy(m));
                    },
                    None => {},
                }
            },
            _ => {},
        }
        assert(self@ =~= before.resized(r0, wider));
    }

    fn walk(&mut self, action: Action)
        requires
            old(self).reviewing(),
        ensures
            final(self).wf(),
            final(self).idle(),
            final(self)@ == old(self)@.with_review(old(self)@.screen->Review_0.walked(action)),
    {
        let ghost before = self@;
        let ghost r0 = before.screen->Review_0;
        match &mut self.screen {
            Screen::Review(r) => {
                r.walk(action);
            },
            _ => {},
        }
        assert(self@ =~= before.with_review(r0.walked(action)));
    }

    fn selecting(&self) -> (r: bool)
        requires
            self.reviewing(),
        ensures
            r == (self@.screen->Review_0.stream.selection is Some),
    {
        match &self.screen {
            Screen::Review(r) => r.stream.has_selection(),
            _ => false,
        }
    }

    /// An action in a review, at the time `now`, in seconds.
    pub fn act(&mut self, action: Action, now: u64) -> (r: Vec<Effect>)
        requires
            old(self).reviewing(),
        ensures
            final(self).wf(),
            (Step { app: final(self)@, effects: deep::deep(r@) }) == old(self)@.acted(
                old(self)@.screen->Review_0,
                action,
                now,
            ),
    {
        let ghost before = self@;
        let ghost r0 = before.screen->Review_0;
        match action {
            Action::Back => {
                return self.back();
            },
            Action::SwitchScope => {
                return state::one_effect(Effect::OpenPicker);
            },
            Action::Search => {
                let none: String = String::new();
                assert(none@ =~= Seq::empty());
                self.overlay = Some(Overlay::Search(none));
            },
            Action::CopyCode => {
                if self.selecting() {
                    return self.copy_selection(false);
                }
            },
            Action::CopyPatch => {
                if self.selecting() {
                    return self.copy_selection(true);
                }
            },
            Action::FileView => {
                return self.open_file_view();
            },
            Action::Reload => {
                return self.request_reload();
            },
            Action::ExportPreview => {
                self.export(now);
            },
            Action::Comment => {
                self.comment();
            },
            Action::DeleteComment => {
                return self.delete_comment();
            },
            Action::RestoreComments => {
                return self.restore_comments();
            },
            Action::DeleteAllComments => {
                if self.store.comments().len() > 0 {
                    self.overlay = Some(Overlay::ConfirmClear);
                }
            },
            Action::OpenEditor => {
                return self.request_editor();
            },
            Action::NarrowTree => {
                self.resize(false);
            },
            Action::WidenTree => {
                self.resize(true);
            },
            Action::Activate => {
                return self.enter_row();
            },
            _ => {
                self.walk(action);
            },
        }
        assert(self@ =~= before.acted(r0, action, now).app);
        Vec::new()
    }

    fn on_pager_key(&mut self, key: KeyPress, pending: Option<KeyPress>) -> (r: Vec<Effect>)
        requires
            old(self).reviewing(),
        ensures
            final(self).wf(),
            (Step { app: final(self)@, effects: deep::deep(r@) }) == old(self)@.pager_keyed(
                old(self)@.screen->Review_0,
                key,
                pending,
            ),
    {
        let ghost before = self@;
        let ghost r0 = before.screen->Review_0;
        let table = keymap::file_view();
        let found: Lookup = keymap::lookup(table.as_slice(), Ctx::default(), pending, key);
        match &mut self.screen {
            Screen::Review(r) => match &mut r.file_view {
                Some(v) => match found {
                    Lookup::Act(Action::Back) => {
                        r.file_view = None;
                    },
                    Lookup::Act(Action::OpenEditor) => {
                        return state::one_effect(
                            Effect::OpenEditor { path: v.path(), line: v.top_line() },
                        );
                    },
                    Lookup::Act(action) => {
                        walk::walk_pager(v, action);
                    },
                    Lookup::Pending => {
                        self.pending_key = Some(key);
                    },
                    Lookup::Nothing => {},
                },
                None => {},
            },
            _ => {},
        }
        assert(self@ =~= before.pager_keyed(r0, key, pending).app);
        Vec::new()
    }

    fn on_review_key(&mut self, key: KeyPress, pending: Option<KeyPress>, now: u64) -> (r: Vec<
        Effect,
    >)
        requires
            old(self).reviewing(),
        ensures
            final(self).wf(),
            (Step { app: final(self)@, effects: deep::deep(r@) }) == old(self)@.review_keyed(
                old(self)@.screen->Review_0,
                key,
                pending,
                now,
            ),
    {
        let ghost before = self@;
        let ghost r0 = before.screen->Review_0;
        let (paging, search_active): (bool, bool) = match &self.screen {
            Screen::Review(r) => (r.file_view.is_some(), r.stream.has_search()),
            _ => (false, false),
        };
        if paging {
            return self.on_pager_key(key, pending);
        }
        let table = keymap::review();
        match keymap::lookup(table.as_slice(), Ctx { search_active }, pending, key) {
            Lookup::Act(action) => {
                return self.act(action, now);
            },
            Lookup::Pending => {
                self.pending_key = Some(key);
            },
            Lookup::Nothing => {},
        }
        assert(self@ =~= before.review_keyed(r0, key, pending, now).app);
        Vec::new()
    }
}

// ---- all keys ------------------------------------------------------------------------
impl AppView {
    /// A key press at the time `now`, in seconds. It clears the last message; Ctrl-C
    /// quits from anywhere.
    pub open spec fn keyed(self, code: KeyCode, mods: KeyModifiers, now: u64) -> Step {
        let key = KeyPress::of(code, mods);
        let clear = AppView { error: None, notice: None, ..self };
        let taken = AppView { pending_key: None, ..clear };
        if code == KeyCode::Char('c') && mods.control {
            state::still(AppView { quit: true, ..clear })
        } else if self.overlay is Some {
            taken.overlay_keyed(key, self.pending_key, now)
        } else if code == KeyCode::Char('?') {
            state::still(taken.with_overlay(OverlayView::Help { scroll: 0 }))
        } else {
            match self.screen {
                ScreenView::Picker(p) => taken.menu_keyed(p, key, self.pending_key),
                ScreenView::Log(l) => taken.log_keyed(l, key, self.pending_key),
                ScreenView::Base(b) => taken.base_keyed(b, key, self.pending_key),
                ScreenView::Review(r) => taken.review_keyed(r, key, self.pending_key, now),
            }
        }
    }
}

impl App {
    /// A key press at the time `now`, in seconds.
    pub fn on_key(&mut self, code: KeyCode, modifiers: KeyModifiers, now: u64) -> (r: Vec<Effect>)
        requires
            old(self).wf(),
            old(self).idle(),
        ensures
            final(self).wf(),
            (Step { app: final(self)@, effects: deep::deep(r@) }) == old(self)@.keyed(
                code,
                modifiers,
                now,
            ),
    {
        let ghost before = self@;
        self.error = None;
        self.notice = None;
        // Raw mode swallows the usual SIGINT, so honor Ctrl-C ourselves.
        if code == KeyCode::Char('c') && modifiers.control {
            self.quit = true;
            assert(self@ =~= before.keyed(code, modifiers, now).app);
            return Vec::new();
        }
        let key: KeyPress = KeyPress::new(code, modifiers);
        let pending: Option<KeyPress> = self.pending_key;
        self.pending_key = None;
        assert(self@ =~= (AppView { error: None, notice: None, pending_key: None, ..before }));
        if self.overlay.is_some() {
            return self.on_overlay_key(key, pending, now);
        }
        if code == KeyCode::Char('?') {
            self.overlay = Some(Overlay::Help { scroll: 0 });
            assert(self@ =~= before.keyed(code, modifiers, now).app);
            return Vec::new();
        }
        let screen: u8 = match &self.screen {
            Screen::Picker(_) => 0,
            Screen::Log(_) => 1,
            Screen::Base(_) => 2,
            Screen::Review(_) => 3,
        };
        if screen == 0 {
            self.on_picker_key(key, pending)
        } else if screen == 1 {
            self.on_log_key(key, pending)
        } else if screen == 2 {
            self.on_base_key(key, pending)
        } else {
            self.on_review_key(key, pending, now)
        }
    }
}

} // verus!
