//! What the menus and lists offer.

use crate::app::keys;
use crate::app::state;
use crate::app::state::{AppView, EffectView, ScreenView};
use crate::event::RequestView;
use crate::git::scope::ScopeView;
use crate::keymap::{Action, KeyCode, KeyPress};
use crate::laws::trees;
use crate::num;
use crate::ui::picker;
use crate::ui::picker::{BaseView, ItemView, LogView, PickerView, ScopeActionView};
use crate::ui::style::Rect;
use vstd::prelude::*;

verus! {

/// The menu offers the uncommitted and the staged changes, the branch where it
/// has a fork point, another base, and a commit, in this order.
pub proof fn lemma_menu(forkable: Option<Seq<char>>)
    ensures
        ({
            let actions = state::menu(forkable).map_values(|i: ItemView| i.action);
            let fork = match forkable {
                Some(branch) => seq![ScopeActionView::Open(ScopeView::BranchFork { branch })],
                None => Seq::empty(),
            };
            actions == seq![
                ScopeActionView::Open(ScopeView::Uncommitted),
                ScopeActionView::Open(ScopeView::Staged),
            ] + fork + seq![ScopeActionView::PickBase, ScopeActionView::PickCommit]
        }),
{
    let actions = state::menu(forkable).map_values(|i: ItemView| i.action);
    let fork = match forkable {
        Some(branch) => seq![ScopeActionView::Open(ScopeView::BranchFork { branch })],
        None => Seq::empty(),
    };
    assert(actions =~= seq![
        ScopeActionView::Open(ScopeView::Uncommitted),
        ScopeActionView::Open(ScopeView::Staged),
    ] + fork + seq![ScopeActionView::PickBase, ScopeActionView::PickCommit]);
}

/// Each count goes to the entry it is for; titles, actions and the selection stay.
pub proof fn lemma_counts(p: PickerView, unc: nat, staged: nat, branch: Option<usize>, i: int)
    requires
        0 <= i < p.items.len(),
    ensures
        ({
            let q = p.with_counts(unc, staged, branch);
            let was = p.items[i];
            let is = q.items[i];
            &&& q.items.len() == p.items.len() && q.selected == p.selected
            &&& is.title == was.title && is.action == was.action
            &&& was.action == ScopeActionView::Open(ScopeView::Uncommitted) ==> is.detail
                == picker::counted(unc)
            &&& was.action == ScopeActionView::Open(ScopeView::Staged) ==> is.detail
                == picker::counted(staged)
            &&& was.action is PickBase || was.action is PickCommit ==> is.detail == was.detail
            &&& was.action matches ScopeActionView::Open(ScopeView::BranchFork { .. }) ==> (
            branch matches Some(n) ==> is.detail == picker::counted(n as nat))
        }),
        picker::counted(1) == "1 file"@,
        unc != 1 ==> picker::counted(unc) == num::decimal(unc) + " files"@,
{
}

/// Choosing an entry asks for the diff of its scope under a new number, or for
/// the list it stands for; a digit chooses the entry of that number, if there is
/// one.
pub proof fn lemma_choosing(app: AppView, p: PickerView, key: KeyPress, i: int)
    requires
        app.screen == ScreenView::Picker(p),
        p.selected < p.items.len(),
        0 <= i < 9,
        key == (KeyPress {
            code: KeyCode::Char(('1' as u32 + i) as char),
            mods: crate::keymap::no_modifiers(),
        }),
    ensures
        ({
            let step = app.menu_activated();
            match p.items[p.selected as int].action {
                ScopeActionView::Open(scope) => {
                    &&& step.effects == seq![
                        EffectView::Load(RequestView::Diff { seq: step.app.seq, scope }),
                    ]
                    &&& step.app.seq != app.seq
                    &&& step.app.reloading
                },
                ScopeActionView::PickCommit => step.effects == seq![EffectView::ListCommits]
                    && step.app == app,
                ScopeActionView::PickBase => step.effects == seq![EffectView::ListBases]
                    && step.app == app,
            }
        }),
        keys::digit_entry(key) == Some(i),
        i < p.items.len() ==> app.menu_keyed(p, key, None) == app.menu_at(
            i as usize,
        ).menu_activated(),
        i >= p.items.len() ==> app.menu_keyed(p, key, None).effects.len() == 0,
{
}

/// Of two commits the marked one is where the range starts; without a mark, or
/// with the mark on the commit itself, the commit is opened. Marking twice marks
/// nothing.
pub proof fn lemma_commits(l: LogView, other: Seq<char>)
    requires
        l.selected < l.entries.len(),
        other != l.entries[l.selected as int].id,
    ensures
        ({
            let e = l.entries[l.selected as int];
            let open = ScopeView::Commit { id: e.id, summary: e.summary };
            &&& (LogView { marked: None, ..l }).opens() == Some(open)
            &&& (LogView { marked: Some(e.id), ..l }).opens() == Some(open)
            &&& (LogView { marked: Some(other), ..l }).opens() == Some(
                ScopeView::Range { from: other, to: e.id },
            )
            &&& (LogView { marked: None, ..l }).toggled().marked == Some(e.id)
            &&& (LogView { marked: None, ..l }).toggled().toggled().marked is None
            &&& (LogView { marked: Some(other), ..l }).toggled().marked == Some(e.id)
            &&& l.toggled().entries == l.entries && l.toggled().selected == l.selected
        }),
{
}

/// The lists go by one entry, by ten and by twenty, and to both ends, as far as
/// there are entries.
pub proof fn lemma_lists(b: BaseView, l: LogView)
    requires
        b.selected < b.names.len() <= usize::MAX,
        l.selected < l.entries.len() <= usize::MAX,
    ensures
        ({
            let at = |a: Action| keys::bases_walked(b, a).selected as int;
            let n = b.names.len();
            let c = b.selected;
            &&& c + 1 < n ==> at(Action::Down) == c + 1
            &&& c > 0 ==> at(Action::Up) == c - 1
            &&& c + 20 < n ==> at(Action::PageDown) == c + 20
            &&& c >= 20 ==> at(Action::PageUp) == c - 20
            &&& c + 10 < n ==> at(Action::HalfPageDown) == c + 10
            &&& c >= 10 ==> at(Action::HalfPageUp) == c - 10
            &&& c + 20 >= n ==> at(Action::PageDown) == n - 1
            &&& c < 20 ==> at(Action::PageUp) == 0
            &&& at(Action::GotoTop) == 0
            &&& at(Action::GotoBottom) == n - 1
            &&& b.chosen() == Some(b.names[c as int])
        }),
        ({
            let at = |a: Action| keys::log_walked(l, a).selected as int;
            let n = l.entries.len();
            let c = l.selected;
            &&& c + 1 < n ==> at(Action::Down) == c + 1
            &&& c > 0 ==> at(Action::Up) == c - 1
            &&& c + 20 < n ==> at(Action::PageDown) == c + 20
            &&& c >= 20 ==> at(Action::PageUp) == c - 20
            &&& c + 10 < n ==> at(Action::HalfPageDown) == c + 10
            &&& c >= 10 ==> at(Action::HalfPageUp) == c - 10
            &&& at(Action::GotoTop) == 0
            &&& at(Action::GotoBottom) == n - 1
            &&& at(Action::MarkRange) == c
        }),
{
    trees::lemma_selection_steps(b.selected, 1, b.names.len());
}

/// Opening a base compares the branch with it.
pub proof fn lemma_bases(app: AppView, b: BaseView)
    requires
        app.screen == ScreenView::Base(b),
        b.selected < b.names.len(),
    ensures
        ({
            let step = app.base_activated();
            step.effects == seq![
                EffectView::Load(
                    RequestView::Diff {
                        seq: step.app.seq,
                        scope: ScopeView::Branch { base: b.names[b.selected as int] },
                    },
                ),
            ]
        }),
{
}

/// An entry is found where it is shown: entries follow each other from the top of
/// the list down, from the first one shown.
pub proof fn lemma_entries_are_where_they_are_shown(
    inner: Rect,
    offset: usize,
    len: nat,
    column: u16,
    k: u16,
)
    requires
        len <= usize::MAX,
        inner.x <= column < inner.x + inner.width <= u16::MAX,
        inner.y + k < inner.y + inner.height <= u16::MAX,
    ensures
        offset + k < len ==> picker::entry_at(inner, offset, len, column, (inner.y + k) as u16)
            == Some((offset + k) as usize),
        offset + k >= len ==> picker::entry_at(inner, offset, len, column, (inner.y + k) as u16)
            is None,
        picker::entry_at(
            inner,
            offset,
            len,
            (inner.x + inner.width) as u16,
            (inner.y + k) as u16,
        ) is None,
        picker::entry_at(inner, offset, len, column, (inner.y + inner.height) as u16) is None,
{
}

} // verus!
