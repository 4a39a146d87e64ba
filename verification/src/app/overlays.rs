//! Keys in the modal overlays.

use crate::app::date;
use crate::app::input;
use crate::app::input::SingleLineInput;
use crate::app::review::{Focus, ReviewView};
use crate::app::state;
use crate::app::state::{
    App, AppView, CommentDraft, Copied, DraftView, Effect, EffectView, Overlay, OverlayView, Saved,
    SavedView, Screen, ScreenView, Step, Waiting, WaitingView,
};
use crate::comments;
use crate::comments::{Comment, CommentView};
use crate::deep;
use crate::keymap;
use crate::keymap::{Action, Ctx, KeyCode, KeyPress, Lookup};
use crate::store::{StoreState, StoreView};
use crate::text;
use crate::ui::editor::EditorView;
use crate::ui::export::{ExportPreview, PreviewView};
use crate::ui::review;
use crate::ui::style;
use vstd::prelude::*;

verus! {

broadcast use crate::deep::group_deep;

/// No search is live.
pub open spec fn no_search() -> Ctx {
    Ctx { search_active: false }
}

impl AppView {
    pub open spec fn with_overlay(self, o: OverlayView) -> AppView {
        AppView { overlay: Some(o), ..self }
    }

    /// A change of the comments: saved first, then applied. Where nothing
    /// changes there is nothing to save.
    pub open spec fn changing(self, change: Option<StoreView>, then: SavedView) -> Step {
        match change {
            Some(s) => state::doing(
                AppView { waiting: Some(WaitingView::Save { state: s, then }), ..self },
                EffectView::Save(s),
            ),
            None => self.after_save(then).replacing_comments(),
        }
    }
}

impl App {
    /// Has a change of the comments saved.
    pub fn change(&mut self, change: Option<StoreState>, then: Saved) -> (r: Vec<Effect>)
        requires
            old(self).wf(),
            old(self).idle(),
        ensures
            final(self).wf(),
            (Step { app: final(self)@, effects: deep::deep(r@) }) == old(self)@.changing(
                deep::deep_opt(change),
                then@,
            ),
    {
        let ghost before = self@;
        match change {
            Some(s) => {
                let kept: StoreState = s.copy();
                self.waiting = Some(Waiting::Save { state: kept, then });
                assert(self@ =~= before.changing(Some(s@), then@).app);
                state::one_effect(Effect::Save(s))
            },
            None => {
                self.take_effect(then);
                self.rebuild_review()
            },
        }
    }
}

// ---- help --------------------------------------------------------------------------
/// The help's scroll position after an action.
pub open spec fn help_scrolled(scroll: u16, action: Action) -> u16 {
    match action {
        Action::Down => style::at_most_u16(scroll + 1),
        Action::Up => style::at_least_zero(scroll - 1) as u16,
        Action::PageDown | Action::HalfPageDown => style::at_most_u16(scroll + 10),
        Action::PageUp | Action::HalfPageUp => style::at_least_zero(scroll - 10) as u16,
        _ => scroll,
    }
}

impl AppView {
    /// A key in the help.
    pub open spec fn help_keyed(self, scroll: u16, key: KeyPress, pending: Option<KeyPress>) -> AppView {
        match keymap::resolved(keymap::help_view_keys(), no_search(), pending, key) {
            Lookup::Act(Action::Back) => self,
            Lookup::Act(a) => self.with_overlay(
                OverlayView::Help { scroll: help_scrolled(scroll, a) },
            ),
            Lookup::Pending => AppView { pending_key: Some(key), ..self }.with_overlay(
                OverlayView::Help { scroll },
            ),
            Lookup::Nothing => self.with_overlay(OverlayView::Help { scroll }),
        }
    }
}

impl App {
    fn on_help_key(&mut self, scroll: u16, key: KeyPress, pending: Option<KeyPress>)
        requires
            old(self).wf(),
            old(self).idle(),
        ensures
            final(self).wf(),
            final(self).idle(),
            final(self)@ == old(self)@.help_keyed(scroll, key, pending),
    {
        let ghost before = self@;
        let table = keymap::help_view();
        let mut at: u16 = scroll;
        let mut close: bool = false;
        match keymap::lookup(table.as_slice(), Ctx::default(), pending, key) {
            Lookup::Act(action) => match action {
                Action::Down => {
                    at = scroll.saturating_add(1);
                },
                Action::Up => {
                    at = scroll.saturating_sub(1);
                },
                Action::PageDown | Action::HalfPageDown => {
                    at = scroll.saturating_add(10);
                },
                Action::PageUp | Action::HalfPageUp => {
                    at = scroll.saturating_sub(10);
                },
                Action::Back => {
                    close = true;
                },
                _ => {},
            },
            Lookup::Pending => {
                self.pending_key = Some(key);
            },
            Lookup::Nothing => {},
        }
        if !close {
            self.overlay = Some(Overlay::Help { scroll: at });
        }
        assert(self@ =~= before.help_keyed(scroll, key, pending));
    }
}

// ---- the comment editor --------------------------------------------------------------
/// An editor after a key that neither saves nor cancels.
pub open spec fn edited(e: EditorView, key: KeyPress) -> EditorView {
    match key.code {
        KeyCode::Backspace => e.backspaced(),
        KeyCode::Delete => e.deleted(),
        KeyCode::Left => e.moved_left(),
        KeyCode::Right => e.moved_right(),
        KeyCode::Up => e.moved_rows(-1),
        KeyCode::Down => e.moved_rows(1),
        KeyCode::Home => e.at_home(),
        KeyCode::End => e.at_end(),
        KeyCode::PageUp => e.moved_rows(-10),
        KeyCode::PageDown => e.moved_rows(10),
        KeyCode::Enter => e.inserted(seq!['\n']),
        KeyCode::Char(c) => e.inserted(seq![c]),
        _ => e,
    }
}

impl AppView {
    /// The label of the open scope.
    pub open spec fn scope_label(self) -> Seq<char> {
        match self.screen {
            ScreenView::Review(r) => r.scope.label(),
            _ => Seq::empty(),
        }
    }

    /// A finished comment, made at the time `now`.
    pub open spec fn submitted(self, d: DraftView, now: u64) -> Step {
        let body = d.editor.text;
        let open = self.with_overlay(OverlayView::Comment(d));
        if text::trim(body).len() == 0 {
            state::still(self.noted("empty comment discarded"@))
        } else {
            match (d.editing, d.target) {
                (Some(id), _) => open.changing(self.store.edited(id, body), SavedView::Comment),
                (None, Some(t)) => {
                    let added = self.store.added(
                        CommentView {
                            id: 0,
                            path: t.path,
                            new_side: t.new_side,
                            lines: t.lines,
                            snippet: t.snippet,
                            body,
                            created_at: now,
                            scope: self.scope_label(),
                            outdated: false,
                        },
                    );
                    match added {
                        Some(_) => open.changing(added, SavedView::Comment),
                        None => state::still(open.failed("comment id space exhausted"@)),
                    }
                },
                (None, None) => open.changing(None, SavedView::Comment),
            }
        }
    }

    /// A key in the comment editor.
    pub open spec fn comment_keyed(self, d: DraftView, key: KeyPress, now: u64) -> Step {
        if key.code == KeyCode::Esc {
            state::still(self)
        } else if key.code == KeyCode::Enter && !key.mods.alt {
            self.submitted(d, now)
        } else {
            state::still(
                self.with_overlay(
                    OverlayView::Comment(DraftView { editor: edited(d.editor, key), ..d }),
                ),
            )
        }
    }
}

fn edit(draft: &mut CommentDraft, key: KeyPress)
    requires
        old(draft).editor.wf(),
    ensures
        final(draft).editor.wf(),
        final(draft)@ == (DraftView { editor: edited(old(draft)@.editor, key), ..old(draft)@ }),
{
    let ghost before = draft@;
    match key.code {
        KeyCode::Backspace => draft.editor.backspace(),
        KeyCode::Delete => draft.editor.delete(),
        KeyCode::Left => draft.editor.move_left(),
        KeyCode::Right => draft.editor.move_right(),
        KeyCode::Up => draft.editor.move_vertical(-1),
        KeyCode::Down => draft.editor.move_vertical(1),
        KeyCode::Home => draft.editor.home(),
        KeyCode::End => draft.editor.end(),
        KeyCode::PageUp => draft.editor.move_vertical(-10),
        KeyCode::PageDown => draft.editor.move_vertical(10),
        KeyCode::Enter => draft.editor.insert_char('\n'),
        KeyCode::Char(c) => draft.editor.insert_char(c),
        _ => {},
    }
    assert(draft@ =~= (DraftView { editor: edited(before.editor, key), ..before }));
}

impl App {
    fn label(&self) -> (r: String)
        ensures
            r@ == self@.scope_label(),
    {
        match &self.screen {
            Screen::Review(r) => r.scope.label(),
            _ => String::new(),
        }
    }

    fn submit(&mut self, draft: CommentDraft, now: u64) -> (r: Vec<Effect>)
        requires
            old(self).wf(),
            old(self).idle(),
            draft.editor.wf(),
        ensures
            final(self).wf(),
            (Step { app: final(self)@, effects: deep::deep(r@) }) == old(self)@.submitted(
                draft@,
                now,
            ),
    {
        let ghost before = self@;
        let body: String = draft.editor.as_str();
        let cs: Vec<char> = text::to_chars(body.as_str());
        if text::trim_chars(cs.as_slice()).len() == 0 {
            self.notice = Some(text::copy("empty comment discarded"));
            assert(self@ =~= before.submitted(draft@, now).app);
            return Vec::new();
        }
        let change: Option<StoreState> = match draft.editing {
            Some(id) => self.store.edit(id, body),
            None => match &draft.target {
                Some(t) => {
                    let outcome: Result<StoreState, String> = self.store.add(
                        text::copy(t.path.as_str()),
                        t.new_side,
                        t.lines,
                        text::copy_all(t.snippet.as_slice()),
                        body,
                        self.label(),
                        now,
                    );
                    match outcome {
                        Ok(s) => Some(s),
                        Err(e) => {
                            self.error = Some(e);
                            self.overlay = Some(Overlay::Comment(draft));
                            assert(self@ =~= before.submitted(draft@, now).app);
                            return Vec::new();
                        },
                    }
                },
                None => None,
            },
        };
        self.overlay = Some(Overlay::Comment(draft));
        assert(self@ =~= before.with_overlay(OverlayView::Comment(draft@)));
        self.change(change, Saved::Comment)
    }

    fn on_comment_key(&mut self, draft: CommentDraft, key: KeyPress, now: u64) -> (r: Vec<Effect>)
        requires
            old(self).wf(),
            old(self).idle(),
            old(self).overlay is None,
            draft.editor.wf(),
        ensures
            final(self).wf(),
            (Step { app: final(self)@, effects: deep::deep(r@) }) == old(self)@.comment_keyed(
                draft@,
                key,
                now,
            ),
    {
        let ghost before = self@;
        if key.code == KeyCode::Esc {
            return Vec::new();
        }
        if key.code == KeyCode::Enter && !key.mods.alt {
            return self.submit(draft, now);
        }
        let mut d: CommentDraft = draft;
        edit(&mut d, key);
        self.overlay = Some(Overlay::Comment(d));
        assert(self@ =~= before.comment_keyed(draft@, key, now).app);
        Vec::new()
    }
}

// ---- the confirmation ----------------------------------------------------------------
impl AppView {
    /// A key at the question whether to delete all comments.
    pub open spec fn clear_keyed(self, key: KeyPress) -> Step {
        if key.code == KeyCode::Char('y') || key.code == KeyCode::Char('Y') {
            self.changing(self.store.emptied(), SavedView::Cleared(self.store.comments))
        } else {
            state::still(self)
        }
    }
}

impl App {
    fn on_clear_key(&mut self, key: KeyPress) -> (r: Vec<Effect>)
        requires
            old(self).wf(),
            old(self).idle(),
        ensures
            final(self).wf(),
            (Step { app: final(self)@, effects: deep::deep(r@) }) == old(self)@.clear_keyed(key),
    {
        if key.code == KeyCode::Char('y') || key.code == KeyCode::Char('Y') {
            let deleted: Vec<Comment> = comments::copy_comments(self.store.comments());
            let change: Option<StoreState> = self.store.delete_all();
            return self.change(change, Saved::Cleared(deleted));
        }
        Vec::new()
    }
}

// ---- search --------------------------------------------------------------------------
/// The message of a search without matches.
pub open spec fn no_matches(query: Seq<char>) -> Seq<char> {
    "no matches for \u{2018}"@ + query + "\u{2019}"@
}

impl AppView {
    /// A search in the open review.
    pub open spec fn searched(self, query: Seq<char>) -> AppView {
        match self.screen {
            ScreenView::Review(r) if query.len() > 0 => {
                let found = review::matching(
                    r.stream.rows,
                    r.diff.files,
                    query,
                    review::has_upper(query),
                    r.stream.rows.len() as int,
                );
                let after = ReviewView { stream: r.stream.searched(query, r.diff.files), ..r };
                if found.len() == 0 {
                    self.with_review(after).failed(no_matches(query))
                } else {
                    self.with_review(ReviewView { focus: Focus::Stream, ..after }.synced())
                }
            },
            _ => self,
        }
    }

    /// A key in the search prompt.
    pub open spec fn search_keyed(self, typed: Seq<char>, key: KeyPress) -> AppView {
        let (query, how) = input::prompted(typed, key.code);
        match how {
            SingleLineInput::Cancel => self,
            SingleLineInput::Submit => self.searched(query),
            SingleLineInput::Continue => self.with_overlay(OverlayView::Search(query)),
        }
    }
}

impl App {
    fn search(&mut self, query: &str)
        requires
            old(self).wf(),
            old(self).idle(),
        ensures
            final(self).wf(),
            final(self).idle(),
            final(self)@ == old(self)@.searched(query@),
    {
        let ghost before = self@;
        if query.is_empty() {
            return;
        }
        match &mut self.screen {
            Screen::Review(r) => {
                let count: usize = r.stream.set_search(query, r.diff.files.as_slice());
                if count == 0 {
                    let mut e: String = text::copy("no matches for \u{2018}");
                    text::put(&mut e, query);
                    text::put(&mut e, "\u{2019}");
                    self.error = Some(e);
                } else {
                    r.focus = Focus::Stream;
                    r.sync_tree();
                }
            },
            _ => {},
        }
        assert(self@ =~= before.searched(query@));
    }

    fn on_search_key(&mut self, typed: String, key: KeyPress)
        requires
            old(self).wf(),
            old(self).idle(),
        ensures
            final(self).wf(),
            final(self).idle(),
            final(self)@ == old(self)@.search_keyed(typed@, key),
    {
        let ghost before = self@;
        let mut query: String = typed;
        match input::edit_single_line(&mut query, key.code) {
            SingleLineInput::Cancel => {},
            SingleLineInput::Submit => {
                self.search(query.as_str());
            },
            SingleLineInput::Continue => {
                self.overlay = Some(Overlay::Search(query));
            },
        }
        assert(self@ =~= before.search_keyed(typed@, key));
    }
}

// ---- export --------------------------------------------------------------------------
/// A preview after an action.
pub open spec fn previewed(p: PreviewView, action: Action) -> PreviewView {
    match action {
        Action::Down => p.scrolled(1),
        Action::Up => p.scrolled(-1),
        Action::PageDown => p.scrolled(1 * p.page_rows()),
        Action::PageUp => p.scrolled(-1 * p.page_rows()),
        Action::HalfPageDown => p.scrolled(1 * p.half_rows()),
        Action::HalfPageUp => p.scrolled(-1 * p.half_rows()),
        Action::GotoTop => PreviewView { scroll: 0, ..p },
        Action::GotoBottom => PreviewView { scroll: p.limit() as usize, ..p },
        _ => p,
    }
}

/// The file name that an export is offered under.
pub open spec fn export_name(now: u64) -> Seq<char> {
    "review-"@ + date::date_text(date::date_on(now as int / 86_400)) + ".md"@
}

impl AppView {
    /// A key in the prompt for the export's path.
    pub open spec fn path_keyed(self, typed: Seq<char>, preview: PreviewView, key: KeyPress) -> Step {
        let (path, how) = input::prompted(typed, key.code);
        let open = self.with_overlay(OverlayView::ExportPath { path, preview });
        match how {
            SingleLineInput::Cancel => state::still(
                self.with_overlay(OverlayView::ExportPreview(preview)),
            ),
            SingleLineInput::Submit => if text::trim(path).len() == 0 {
                state::still(open)
            } else {
                state::doing(open, EffectView::WriteFile { path, content: preview.markdown })
            },
            SingleLineInput::Continue => state::still(open),
        }
    }

    /// A key in the export preview.
    pub open spec fn preview_keyed(
        self,
        preview: PreviewView,
        key: KeyPress,
        pending: Option<KeyPress>,
        now: u64,
    ) -> Step {
        let open = self.with_overlay(OverlayView::ExportPreview(preview));
        match keymap::resolved(keymap::export_preview_keys(), no_search(), pending, key) {
            Lookup::Act(Action::Back) => state::still(self),
            Lookup::Act(Action::WriteFile) => state::still(
                self.with_overlay(OverlayView::ExportPath { path: export_name(now), preview }),
            ),
            Lookup::Act(Action::CopyMarkdown) => state::doing(
                AppView { waiting: Some(WaitingView::Copy(Copied::Markdown)), ..open },
                EffectView::Copy(preview.markdown),
            ),
            Lookup::Act(a) => state::still(
                self.with_overlay(OverlayView::ExportPreview(previewed(preview, a))),
            ),
            Lookup::Pending => state::still(AppView { pending_key: Some(key), ..open }),
            Lookup::Nothing => state::still(open),
        }
    }
}

fn walk_preview(p: &mut ExportPreview, action: Action)
    ensures
        final(p)@ == previewed(old(p)@, action),
{
    match action {
        Action::Down => p.scroll_by(1),
        Action::Up => p.scroll_by(-1),
        Action::PageDown => p.page(1),
        Action::PageUp => p.page(-1),
        Action::HalfPageDown => p.half_page(1),
        Action::HalfPageUp => p.half_page(-1),
        Action::GotoTop => p.top(),
        Action::GotoBottom => p.bottom(),
        _ => {},
    }
}

impl App {
    fn on_path_key(&mut self, typed: String, preview: ExportPreview, key: KeyPress) -> (r: Vec<
        Effect,
    >)
        requires
            old(self).wf(),
            old(self).idle(),
        ensures
            final(self).wf(),
            (Step { app: final(self)@, effects: deep::deep(r@) }) == old(self)@.path_keyed(
                typed@,
                preview@,
                key,
            ),
    {
        let ghost before = self@;
        let mut path: String = typed;
        match input::edit_single_line(&mut path, key.code) {
            SingleLineInput::Cancel => {
                self.overlay = Some(Overlay::ExportPreview(preview));
                assert(self@ =~= before.path_keyed(typed@, preview@, key).app);
                Vec::new()
            },
            SingleLineInput::Submit => {
                let cs: Vec<char> = text::to_chars(path.as_str());
                let blank: bool = text::trim_chars(cs.as_slice()).len() == 0;
                let write = Effect::WriteFile {
                    path: text::copy(path.as_str()),
                    content: text::copy(preview.markdown()),
                };
                self.overlay = Some(Overlay::ExportPath { path, preview });
                assert(self@ =~= before.path_keyed(typed@, preview@, key).app);
                if blank {
                    Vec::new()
                } else {
                    state::one_effect(write)
                }
            },
            SingleLineInput::Continue => {
                self.overlay = Some(Overlay::ExportPath { path, preview });
                assert(self@ =~= before.path_keyed(typed@, preview@, key).app);
                Vec::new()
            },
        }
    }

    fn on_preview_key(
        &mut self,
        preview: ExportPreview,
        key: KeyPress,
        pending: Option<KeyPress>,
        now: u64,
    ) -> (r: Vec<Effect>)
        requires
            old(self).wf(),
            old(self).idle(),
            old(self).overlay is None,
        ensures
            final(self).wf(),
            (Step { app: final(self)@, effects: deep::deep(r@) }) == old(self)@.preview_keyed(
                preview@,
                key,
                pending,
                now,
            ),
    {
        let ghost before = self@;
        let table = keymap::export_preview();
        let found: Lookup = keymap::lookup(table.as_slice(), Ctx::default(), pending, key);
        let mut effects: Vec<Effect> = Vec::new();
        match found {
            Lookup::Act(Action::Back) => {},
            Lookup::Act(Action::WriteFile) => {
                let mut path: String = text::copy("review-");
                text::put(&mut path, date::today_string(now).as_str());
                text::put(&mut path, ".md");
                self.overlay = Some(Overlay::ExportPath { path, preview });
            },
            Lookup::Act(Action::CopyMarkdown) => {
                effects = state::one_effect(Effect::Copy(text::copy(preview.markdown())));
                self.waiting = Some(Waiting::Copy(Copied::Markdown));
                self.overlay = Some(Overlay::ExportPreview(preview));
            },
            Lookup::Act(action) => {
                let mut p: ExportPreview = preview;
                walk_preview(&mut p, action);
                self.overlay = Some(Overlay::ExportPreview(p));
            },
            Lookup::Pending => {
                self.pending_key = Some(key);
                self.overlay = Some(Overlay::ExportPreview(preview));
            },
            Lookup::Nothing => {
                self.overlay = Some(Overlay::ExportPreview(preview));
            },
        }
        assert(self@ =~= before.preview_keyed(preview@, key, pending, now).app);
        effects
    }
}

// ---- all overlays --------------------------------------------------------------------
impl AppView {
    /// A key in an overlay, pressed at the time `now`, in seconds.
    pub open spec fn overlay_keyed(self, key: KeyPress, pending: Option<KeyPress>, now: u64) -> Step {
        let bare = AppView { overlay: None, ..self };
        match self.overlay {
            None => state::still(self),
            Some(OverlayView::Help { scroll }) => state::still(
                bare.help_keyed(scroll, key, pending),
            ),
            Some(OverlayView::Comment(d)) => bare.comment_keyed(d, key, now),
            Some(OverlayView::ConfirmClear) => bare.clear_keyed(key),
            Some(OverlayView::Search(typed)) => state::still(bare.search_keyed(typed, key)),
            Some(OverlayView::ExportPath { path, preview }) => bare.path_keyed(path, preview, key),
            Some(OverlayView::ExportPreview(p)) => bare.preview_keyed(p, key, pending, now),
        }
    }
}

impl App {
    /// A key in an overlay, pressed at the time `now`, in seconds.
    pub fn on_overlay_key(&mut self, key: KeyPress, pending: Option<KeyPress>, now: u64) -> (r: Vec<
        Effect,
    >)
        requires
            old(self).wf(),
            old(self).idle(),
        ensures
            final(self).wf(),
            (Step { app: final(self)@, effects: deep::deep(r@) }) == old(self)@.overlay_keyed(
                key,
                pending,
                now,
            ),
    {
        let ghost before = self@;
        let overlay: Option<Overlay> = self.overlay.take();
        assert(self@ =~= (AppView { overlay: None, ..before }));
        match overlay {
            None => Vec::new(),
            Some(Overlay::Help { scroll }) => {
                self.on_help_key(scroll, key, pending);
                Vec::new()
            },
            Some(Overlay::Comment(draft)) => self.on_comment_key(draft, key, now),
            Some(Overlay::ConfirmClear) => self.on_clear_key(key),
            Some(Overlay::Search(typed)) => {
                self.on_search_key(typed, key);
                Vec::new()
            },
            Some(Overlay::ExportPath { path, preview }) => self.on_path_key(path, preview, key),
            Some(Overlay::ExportPreview(p)) => self.on_preview_key(p, key, pending, now),
        }
    }
}

} // verus!
