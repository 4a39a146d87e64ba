//! Actions that only move within a review.

use crate::app::review::{Focus, ReviewState, ReviewView};
use crate::deep;
use crate::keymap::Action;
use crate::ui::fileview::{FileView, PagerView};
use crate::ui::review::StreamView;
use crate::ui::rows::Landmark;
use vstd::prelude::*;

verus! {

broadcast use crate::deep::group_deep;

/// A stream with a selection begun at the cursor.
pub open spec fn selecting(s: StreamView) -> StreamView {
    if s.rows.len() == 0 {
        s
    } else {
        StreamView { selection: Some(s.cursor), ..s }
    }
}

/// The stream after an action that moves its cursor.
pub open spec fn stepped(s: StreamView, action: Action) -> StreamView {
    match action {
        Action::NextComment => s.next_landmark(Landmark::Comment),
        Action::PrevComment => s.prev_landmark(Landmark::Comment),
        Action::NextMatch => s.match_moved(1),
        Action::PrevMatch => s.match_moved(-1),
        Action::PageDown => s.moved(1 * s.page_rows()),
        Action::PageUp => s.moved(-1 * s.page_rows()),
        Action::HalfPageDown => s.moved(1 * s.half_rows()),
        Action::HalfPageUp => s.moved(-1 * s.half_rows()),
        Action::GotoTop => s.at_top(),
        Action::GotoBottom => s.at_bottom(),
        Action::NextFile => s.next_landmark(Landmark::File),
        Action::PrevFile => s.prev_landmark(Landmark::File),
        Action::NextHunk => s.next_landmark(Landmark::Hunk),
        Action::PrevHunk => s.prev_landmark(Landmark::Hunk),
        Action::Up => s.moved(-1),
        _ => s.moved(1),
    }
}

impl ReviewView {
    /// The review with the stream moved and the tree following it.
    pub open spec fn followed(self, s: StreamView) -> ReviewView {
        ReviewView { stream: s, ..self }.synced()
    }

    /// The keys go to the other pane. The pick starts from the file being read,
    /// not from the first row.
    pub open spec fn focus_switched(self) -> ReviewView {
        let shown = ReviewView {
            show_tree: true,
            focus: match self.focus {
                Focus::Tree => Focus::Stream,
                Focus::Stream => Focus::Tree,
            },
            ..self
        };
        match shown.stream.file_here() {
            Some(fi) => ReviewView { tree: shown.tree.at_file(fi), ..shown },
            None => shown,
        }
    }

    /// The review after an action that only moves within it.
    pub open spec fn walked(self, action: Action) -> ReviewView {
        let s = self.stream;
        match action {
            Action::ToggleSelection => if s.selection is Some {
                ReviewView { stream: StreamView { selection: None, ..s }, ..self }
            } else if self.focus == Focus::Stream {
                ReviewView { stream: selecting(s), ..self }
            } else {
                self
            },
            // Select the current line, extend line-wise on repeat.
            Action::SelectLine => if s.selection is Some {
                self.followed(s.moved(1))
            } else if self.focus == Focus::Stream {
                ReviewView { stream: selecting(s), ..self }
            } else {
                self
            },
            Action::ToggleTree => ReviewView {
                show_tree: !self.show_tree,
                focus: if self.show_tree {
                    Focus::Stream
                } else {
                    self.focus
                },
                ..self
            },
            Action::AutoTreeWidth => ReviewView { tree_width: None, show_tree: true, ..self },
            Action::FocusTree => self.focus_switched(),
            Action::Down => match self.focus {
                Focus::Tree => ReviewView { tree: self.tree.moved(1), ..self },
                Focus::Stream => self.followed(stepped(s, action)),
            },
            Action::Up => match self.focus {
                Focus::Tree => ReviewView { tree: self.tree.moved(-1), ..self },
                Focus::Stream => self.followed(stepped(s, action)),
            },
            Action::NextComment | Action::PrevComment | Action::NextMatch | Action::PrevMatch
            | Action::PageDown | Action::PageUp | Action::HalfPageDown | Action::HalfPageUp
            | Action::GotoTop | Action::GotoBottom | Action::NextFile | Action::PrevFile
            | Action::NextHunk | Action::PrevHunk => self.followed(stepped(s, action)),
            _ => self,
        }
    }

    /// The review after the tree's selected row was activated: a file is jumped
    /// to, a directory opens or closes.
    pub open spec fn picked(self) -> ReviewView {
        let (tree, file) = self.tree.activated();
        match file {
            Some(fi) => ReviewView {
                tree,
                stream: self.stream.at_file(fi),
                focus: Focus::Stream,
                ..self
            },
            None => ReviewView { tree, ..self },
        }
    }
}

/// A pager after an action.
pub open spec fn paged(v: PagerView, action: Action) -> PagerView {
    match action {
        Action::Down => v.scrolled(1),
        Action::Up => v.scrolled(-1),
        Action::PageDown => v.scrolled(1 * v.page_rows()),
        Action::PageUp => v.scrolled(-1 * v.page_rows()),
        Action::HalfPageDown => v.scrolled(1 * v.half_rows()),
        Action::HalfPageUp => v.scrolled(-1 * v.half_rows()),
        Action::GotoTop => PagerView { scroll: 0, ..v },
        Action::GotoBottom => v.at_bottom(),
        _ => v,
    }
}

/// Moves within a pager.
pub fn walk_pager(v: &mut FileView, action: Action)
    requires
        old(v).wf(),
    ensures
        final(v).wf(),
        final(v)@ == paged(old(v)@, action),
{
    match action {
        Action::Down => v.scroll_by(1),
        Action::Up => v.scroll_by(-1),
        Action::PageDown => v.page(1),
        Action::PageUp => v.page(-1),
        Action::HalfPageDown => v.half_page(1),
        Action::HalfPageUp => v.half_page(-1),
        Action::GotoTop => v.scroll_to_top(),
        Action::GotoBottom => v.scroll_to_bottom(),
        _ => {},
    }
}

impl ReviewState {
    fn step_stream(&mut self, action: Action)
        requires
            old(self).wf(),
        ensures
            final(self).wf(),
            final(self)@ == (ReviewView {
                stream: stepped(old(self)@.stream, action),
                ..old(self)@
            }),
            final(self)@.stream.rows == old(self)@.stream.rows,
            final(self)@.stream.template == old(self)@.stream.template,
    {
        match action {
            Action::NextComment => self.stream.next_comment(),
            Action::PrevComment => self.stream.prev_comment(),
            Action::NextMatch => self.stream.next_match(),
            Action::PrevMatch => self.stream.prev_match(),
            Action::PageDown => self.stream.page(1),
            Action::PageUp => self.stream.page(-1),
            Action::HalfPageDown => self.stream.half_page(1),
            Action::HalfPageUp => self.stream.half_page(-1),
            Action::GotoTop => self.stream.scroll_to_top(),
            Action::GotoBottom => self.stream.scroll_to_bottom(),
            Action::NextFile => self.stream.next_file(),
            Action::PrevFile => self.stream.prev_file(),
            Action::NextHunk => self.stream.next_hunk(),
            Action::PrevHunk => self.stream.prev_hunk(),
            Action::Up => self.stream.move_cursor(-1),
            _ => self.stream.move_cursor(1),
        }
    }

    fn follow(&mut self, action: Action)
        requires
            old(self).wf(),
        ensures
            final(self).wf(),
            final(self)@.stream.rows == old(self)@.stream.rows,
            final(self)@.stream.template == old(self)@.stream.template,
            final(self)@ == old(self)@.followed(stepped(old(self)@.stream, action)),
    {
        self.step_stream(action);
        self.sync_tree();
    }

    fn switch_focus(&mut self)
        requires
            old(self).wf(),
        ensures
            final(self).wf(),
            final(self)@ == old(self)@.focus_switched(),
    {
        let ghost before = self@;
        self.show_tree = true;
        self.focus = match self.focus {
            Focus::Tree => Focus::Stream,
            Focus::Stream => Focus::Tree,
        };
        match self.stream.current_file() {
            Some(fi) => {
                self.tree.select_file(fi);
            },
            None => {},
        }
        assert(self@ =~= before.focus_switched());
    }

    fn select(&mut self)
        requires
            old(self).wf(),
        ensures
            final(self).wf(),
            final(self)@ == (ReviewView { stream: selecting(old(self)@.stream), ..old(self)@ }),
    {
        let ghost before = self@;
        self.stream.start_selection();
        assert(self@ =~= (ReviewView { stream: selecting(before.stream), ..before }));
    }

    /// Moves within the review.
    pub fn walk(&mut self, action: Action)
        requires
            old(self).wf(),
        ensures
            final(self).wf(),
            final(self)@ == old(self)@.walked(action),
            final(self)@.stream.rows == old(self)@.stream.rows,
            final(self)@.stream.template == old(self)@.stream.template,
    {
        let ghost before = self@;
        match action {
            Action::ToggleSelection => {
                if self.stream.has_selection() {
                    self.stream.cancel_selection();
                } else if self.focus == Focus::Stream {
                    self.select();
                }
            },
            Action::SelectLine => {
                if self.stream.has_selection() {
                    self.follow(Action::Down);
                } else if self.focus == Focus::Stream {
                    self.select();
                }
            },
            Action::ToggleTree => {
                self.show_tree = !self.show_tree;
                if !self.show_tree {
                    self.focus = Focus::Stream;
                }
            },
            Action::AutoTreeWidth => {
                self.tree_width = None;
                self.show_tree = true;
            },
            Action::FocusTree => {
                self.switch_focus();
            },
            Action::Down => match self.focus {
                Focus::Tree => {
                    self.tree.move_selection(1);
                },
                Focus::Stream => {
                    self.follow(action);
                },
            },
            Action::Up => match self.focus {
                Focus::Tree => {
                    self.tree.move_selection(-1);
                },
                Focus::Stream => {
                    self.follow(action);
                },
            },
            Action::NextComment | Action::PrevComment | Action::NextMatch | Action::PrevMatch
            | Action::PageDown | Action::PageUp | Action::HalfPageDown | Action::HalfPageUp
            | Action::GotoTop | Action::GotoBottom | Action::NextFile | Action::PrevFile
            | Action::NextHunk | Action::PrevHunk => {
                self.follow(action);
            },
            _ => {},
        }
        assert(self@ =~= before.walked(action));
    }

    /// Enter in the tree: a file is jumped to, a directory opens or closes.
    pub fn pick(&mut self)
        requires
            old(self).wf(),
        ensures
            final(self).wf(),
            final(self)@ == old(self)@.picked(),
            final(self)@.stream.rows == old(self)@.stream.rows,
            final(self)@.stream.template == old(self)@.stream.template,
    {
        let ghost before = self@;
        match self.tree.activate() {
            Some(fi) => {
                self.stream.jump_to_file(fi);
                self.focus = Focus::Stream;
            },
            None => {},
        }
        assert(self@ =~= before.picked());
    }
}

} // verus!
