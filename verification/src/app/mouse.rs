//! The mouse and pasted text.

use crate::app::input;
use crate::app::review::{Focus, ReviewView};
use crate::app::state;
use crate::app::state::{
    App, AppView, DraftView, Effect, Overlay, OverlayView, Screen, ScreenView, Step,
};
use crate::deep;
use crate::ui::editor;
use crate::ui::picker;
use crate::ui::picker::{BaseView, LogView};
use crate::ui::style;
use crate::ui::tree::TreeView;
use vstd::prelude::*;

verus! {

broadcast use crate::deep::group_deep;

/// What the mouse did.
#[derive(Clone, Copy, Debug, PartialEq, Eq, Structural)]
pub enum MouseKind {
    ScrollDown,
    ScrollUp,
    LeftDown,
    Other,
}

// ---- overlays ------------------------------------------------------------------------
impl AppView {
    /// The mouse over an overlay.
    pub open spec fn overlay_moused(self, o: OverlayView, kind: MouseKind, column: u16, row: u16) -> AppView {
        let by = match kind {
            MouseKind::ScrollDown => 3int,
            _ => -3int,
        };
        let wheel = kind == MouseKind::ScrollDown || kind == MouseKind::ScrollUp;
        match o {
            OverlayView::Help { scroll } => if wheel {
                self.with_overlay(
                    OverlayView::Help {
                        scroll: style::at_most_u16(style::at_least_zero(scroll + by)),
                    },
                )
            } else if kind == MouseKind::LeftDown {
                AppView { overlay: None, ..self }
            } else {
                self
            },
            OverlayView::Comment(d) => if wheel {
                self.with_overlay(
                    OverlayView::Comment(DraftView { editor: d.editor.scrolled(by), ..d }),
                )
            } else if kind == MouseKind::LeftDown {
                self.with_overlay(
                    OverlayView::Comment(DraftView { editor: d.editor.clicked(column, row), ..d }),
                )
            } else {
                self
            },
            OverlayView::ExportPreview(p) => if wheel {
                self.with_overlay(OverlayView::ExportPreview(p.scrolled(by)))
            } else {
                self
            },
            OverlayView::ExportPath { path, preview } => if wheel {
                self.with_overlay(OverlayView::ExportPath { path, preview: preview.scrolled(by) })
            } else {
                self
            },
            OverlayView::ConfirmClear => self,
            OverlayView::Search(_) => self,
        }
    }
}

impl App {
    fn on_overlay_mouse(&mut self, kind: MouseKind, column: u16, row: u16)
        requires
            old(self).wf(),
            old(self).idle(),
            old(self).overlay is Some,
        ensures
            final(self).wf(),
            final(self).idle(),
            final(self)@ == old(self)@.overlay_moused(
                old(self)@.overlay->0,
                kind,
                column,
                row,
            ),
    {
        let ghost before = self@;
        let mut close: bool = false;
        match &mut self.overlay {
            Some(Overlay::Help { scroll }) => match kind {
                MouseKind::ScrollDown => {
                    *scroll = (*scroll).saturating_add(3);
                },
                MouseKind::ScrollUp => {
                    *scroll = (*scroll).saturating_sub(3);
                },
                MouseKind::LeftDown => {
                    close = true;
                },
                MouseKind::Other => {},
            },
            Some(Overlay::Comment(draft)) => match kind {
                MouseKind::ScrollDown => draft.editor.scroll_by(3),
                MouseKind::ScrollUp => draft.editor.scroll_by(-3),
                MouseKind::LeftDown => draft.editor.set_cursor_from_screen(column, row),
                MouseKind::Other => {},
            },
            Some(Overlay::ExportPreview(preview)) => match kind {
                MouseKind::ScrollDown => preview.scroll_by(3),
                MouseKind::ScrollUp => preview.scroll_by(-3),
                _ => {},
            },
            Some(Overlay::ExportPath { preview, .. }) => match kind {
                MouseKind::ScrollDown => preview.scroll_by(3),
                MouseKind::ScrollUp => preview.scroll_by(-3),
                _ => {},
            },
            _ => {},
        }
        if close {
            self.overlay = None;
        }
        assert(self@ =~= before.overlay_moused(before.overlay->0, kind, column, row));
    }
}

// ---- screens -------------------------------------------------------------------------
impl ReviewView {
    /// The row of the tree at a position.
    pub open spec fn tree_row(self, column: u16, row: u16) -> Option<usize> {
        picker::entry_at(self.tree.inner, self.tree.offset, self.tree.rows().len(), column, row)
    }

    /// The wheel over a review: it moves the selection of an active tree, and
    /// scrolls the diff everywhere else.
    pub open spec fn wheeled(self, direction: int, column: u16, row: u16) -> ReviewView {
        match self.file_view {
            Some(v) => ReviewView { file_view: Some(v.scrolled(direction * 3)), ..self },
            None => if self.focus == Focus::Tree && self.tree_row(column, row) is Some {
                ReviewView { tree: self.tree.moved(direction), ..self }
            } else {
                self.followed(self.stream.scrolled(direction * 3))
            },
        }
    }

    /// A click in a review: a row of the tree is activated, a row of the diff
    /// gets the cursor.
    pub open spec fn clicked(self, column: u16, row: u16) -> ReviewView {
        if self.file_view is Some {
            self
        } else {
            match (self.tree_row(column, row), self.stream.row_at(column, row)) {
                (Some(idx), _) if self.show_tree => ReviewView {
                    tree: TreeView { selected: idx, ..self.tree },
                    ..self
                }.picked(),
                (_, Some(idx)) => ReviewView {
                    stream: self.stream.at_row(idx as int),
                    focus: Focus::Stream,
                    ..self
                }.synced(),
                _ => self,
            }
        }
    }
}

impl AppView {
    /// The wheel.
    pub open spec fn wheeled(self, direction: int, column: u16, row: u16) -> AppView {
        match self.screen {
            ScreenView::Review(r) => self.with_review(r.wheeled(direction, column, row)),
            ScreenView::Picker(_) => self.menu_moved(direction),
            ScreenView::Log(l) => self.with_log(l.moved(direction)),
            ScreenView::Base(b) => self.with_bases(b.moved(direction)),
        }
    }

    /// A click. The menu opens directly; in the long lists the first click
    /// selects, and a second one on the selected row opens.
    pub open spec fn clicked(self, column: u16, row: u16) -> Step {
        match self.screen {
            ScreenView::Review(r) => state::still(self.with_review(r.clicked(column, row))),
            ScreenView::Picker(p) => match picker::entry_at(
                p.inner,
                0,
                p.items.len(),
                column,
                row,
            ) {
                Some(idx) => self.menu_at(idx).menu_activated(),
                None => state::still(self),
            },
            ScreenView::Log(l) => match picker::entry_at(
                l.inner,
                l.offset,
                l.entries.len(),
                column,
                row,
            ) {
                Some(idx) => if l.selected == idx {
                    self.commit_activated()
                } else {
                    state::still(self.with_log(LogView { selected: idx, ..l }))
                },
                None => state::still(self),
            },
            ScreenView::Base(b) => match picker::entry_at(
                b.inner,
                b.offset,
                b.names.len(),
                column,
                row,
            ) {
                Some(idx) => if b.selected == idx {
                    self.base_activated()
                } else {
                    state::still(self.with_bases(BaseView { selected: idx, ..b }))
                },
                None => state::still(self),
            },
        }
    }

    /// The mouse.
    pub open spec fn moused(self, kind: MouseKind, column: u16, row: u16) -> Step {
        match self.overlay {
            Some(o) => state::still(self.overlay_moused(o, kind, column, row)),
            None => match kind {
                MouseKind::ScrollDown => state::still(self.wheeled(1, column, row)),
                MouseKind::ScrollUp => state::still(self.wheeled(-1, column, row)),
                MouseKind::LeftDown => self.clicked(column, row),
                MouseKind::Other => state::still(self),
            },
        }
    }
}

impl App {
    fn mouse_scroll(&mut self, direction: isize, column: u16, row: u16)
        requires
            old(self).wf(),
            old(self).idle(),
            -1 <= direction <= 1,
        ensures
            final(self).wf(),
            final(self).idle(),
            final(self)@ == old(self)@.wheeled(direction as int, column, row),
    {
        let ghost before = self@;
        match &mut self.screen {
            Screen::Review(r) => match &mut r.file_view {
                Some(v) => {
                    v.scroll_by(direction * 3);
                },
                None => {
                    if r.focus == Focus::Tree && r.tree.hit(column, row).is_some() {
                        r.tree.move_selection(direction);
                    } else {
                        r.stream.scroll_by(direction * 3);
                        r.sync_tree();
                    }
                },
            },
            Screen::Picker(p) => {
                p.move_selection(direction);
            },
            Screen::Log(l) => {
                l.move_selection(direction);
            },
            Screen::Base(b) => {
                b.move_selection(direction);
            },
        }
        assert(self@ =~= before.wheeled(direction as int, column, row));
    }

    fn mouse_click(&mut self, column: u16, row: u16) -> (r: Vec<Effect>)
        requires
            old(self).wf(),
            old(self).idle(),
        ensures
            final(self).wf(),
            (Step { app: final(self)@, effects: deep::deep(r@) }) == old(self)@.clicked(
                column,
                row,
            ),
    {
        let ghost before = self@;
        let mut open: bool = false;
        match &mut self.screen {
            Screen::Review(r) => {
                if r.file_view.is_some() {
                    assert(self@ =~= before.clicked(column, row).app);
                    return Vec::new();
                }
                let hit: Option<usize> = if r.show_tree {
                    r.tree.hit(column, row)
                } else {
                    None
                };
                match hit {
                    Some(idx) => {
                        r.tree.select(idx);
                        r.pick();
                    },
                    None => match r.stream.hit(column, row) {
                        Some(idx) => {
                            r.stream.set_cursor(idx);
                            r.focus = Focus::Stream;
                            r.sync_tree();
                        },
                        None => {},
                    },
                }
            },
            Screen::Picker(p) => match p.hit(column, row) {
                Some(idx) => {
                    p.select(idx);
                    open = true;
                },
                None => {},
            },
            Screen::Log(l) => match l.hit(column, row) {
                Some(idx) => {
                    if l.selection() == idx {
                        open = true;
                    } else {
                        l.select(idx);
                    }
                },
                None => {},
            },
            Screen::Base(b) => match b.hit(column, row) {
                Some(idx) => {
                    if b.selection() == idx {
                        open = true;
                    } else {
                        b.select(idx);
                    }
                },
                None => {},
            },
        }
        if !open {
            assert(self@ =~= before.clicked(column, row).app);
            return Vec::new();
        }
        let screen: u8 = match &self.screen {
            Screen::Picker(_) => 0,
            Screen::Log(_) => 1,
            _ => 2,
        };
        if screen == 0 {
            assert(self@ =~= before.menu_at(self@.screen->Picker_0.selected));
            self.activate_picker_item()
        } else if screen == 1 {
            assert(self@ =~= before);
            self.open_selected_commit()
        } else {
            assert(self@ =~= before);
            self.open_selected_base()
        }
    }

    /// The mouse.
    pub fn on_mouse(&mut self, kind: MouseKind, column: u16, row: u16) -> (r: Vec<Effect>)
        requires
            old(self).wf(),
            old(self).idle(),
        ensures
            final(self).wf(),
            (Step { app: final(self)@, effects: deep::deep(r@) }) == old(self)@.moused(
                kind,
                column,
                row,
            ),
    {
        if self.overlay.is_some() {
            self.on_overlay_mouse(kind, column, row);
            return Vec::new();
        }
        match kind {
            MouseKind::ScrollDown => {
                self.mouse_scroll(1, column, row);
                Vec::new()
            },
            MouseKind::ScrollUp => {
                self.mouse_scroll(-1, column, row);
                Vec::new()
            },
            MouseKind::LeftDown => self.mouse_click(column, row),
            MouseKind::Other => Vec::new(),
        }
    }
}

// ---- paste ---------------------------------------------------------------------------
impl AppView {
    /// Pasted text: into the comment editor, or without line breaks into a prompt.
    pub open spec fn pasted(self, s: Seq<char>) -> AppView {
        match self.overlay {
            Some(OverlayView::Comment(d)) => self.with_overlay(
                OverlayView::Comment(
                    DraftView { editor: d.editor.inserted(editor::normalized(s, 0)), ..d },
                ),
            ),
            Some(OverlayView::ExportPath { path, preview }) => self.with_overlay(
                OverlayView::ExportPath { path: path + input::one_line(s), preview },
            ),
            Some(OverlayView::Search(q)) => self.with_overlay(
                OverlayView::Search(q + input::one_line(s)),
            ),
            _ => self,
        }
    }
}

impl App {
    /// Pasted text.
    pub fn on_paste(&mut self, s: &str)
        requires
            old(self).wf(),
            old(self).idle(),
        ensures
            final(self).wf(),
            final(self).idle(),
            final(self)@ == old(self)@.pasted(s@),
    {
        let ghost before = self@;
        match &mut self.overlay {
            Some(Overlay::Comment(draft)) => {
                draft.editor.insert_str(s);
            },
            Some(Overlay::ExportPath { path, .. }) => {
                input::paste_line(path, s);
            },
            Some(Overlay::Search(query)) => {
                input::paste_line(query, s);
            },
            _ => {},
        }
        assert(self@ =~= before.pasted(s@));
    }
}

} // verus!
