//! That the hints fit what the keys do.

use crate::app::hints;
use crate::app::keys;
use crate::app::review::{Focus, ReviewView};
use crate::app::state::{AppView, ScreenView};
use crate::keymap;
use crate::keymap::{Action, Ctx, HintView, KeyCode, KeyModifiers, KeyPress, Lookup};
use vstd::prelude::*;

verus! {

/// Is a search live?
pub open spec fn searching(app: AppView) -> bool {
    app.screen matches ScreenView::Review(r) && r.file_view is None && r.stream.search is Some
}

/// A key that the active table has nothing for does nothing, apart from clearing
/// what was said and what was held; and one that starts a chord is held.
pub proof fn lemma_only_active_keys_act(
    app: AppView,
    code: KeyCode,
    mods: KeyModifiers,
    now: u64,
)
    requires
        app.overlay is None,
        !(code == KeyCode::Char('c') && mods.control),
        code != KeyCode::Char('?'),
        app.screen is Picker ==> keys::digit_entry(KeyPress::of(code, mods)) is None,
    ensures
        ({
            let key = KeyPress::of(code, mods);
            let ctx = Ctx { search_active: searching(app) };
            let step = app.keyed(code, mods, now);
            let clear = AppView { error: None, notice: None, pending_key: None, ..app };
            &&& keymap::resolved(app.active_keys(), ctx, app.pending_key, key) == Lookup::Nothing
                ==> step.app == clear && step.effects.len() == 0
            &&& keymap::resolved(app.active_keys(), ctx, app.pending_key, key) == Lookup::Pending
                ==> step.app == (AppView { pending_key: Some(key), ..clear })
                && step.effects.len() == 0
        }),
{
}

/// The hint for actions: their keys in the active table, and what they do.
pub open spec fn hinted(app: AppView, w: u16, actions: Seq<Action>, desc: Seq<char>) -> bool {
    app.hints(w).contains(HintView { key: keymap::label_of(app.active_keys(), actions), desc })
}

/// While lines are selected the bar offers to comment on them and to copy them,
/// under the keys that do.
pub proof fn lemma_hints_of_a_selection(app: AppView, r: ReviewView, w: u16)
    requires
        app.overlay is None,
        app.pending_key is None,
        app.screen == ScreenView::Review(r),
        r.diff.files.len() > 0,
        r.file_view is None,
        r.stream.selection is Some,
        r.stream.stub_at_cursor() is None,
    ensures
        hinted(app, w, seq![Action::Comment], "comment"@),
        hinted(app, w, seq![Action::CopyCode], "copy code"@),
        hinted(app, w, seq![Action::CopyPatch], "copy patch"@),
{
    let h = app.hints(w);
    let t = app.active_keys();
    assert(h[1] == hints::bound(t, seq![Action::Comment], "comment"@));
    assert(h[2] == hints::bound(t, seq![Action::CopyCode], "copy code"@));
    assert(h[3] == hints::bound(t, seq![Action::CopyPatch], "copy patch"@));
    assert(h.contains(h[1]) && h.contains(h[2]) && h.contains(h[3]));
}

/// While reading the bar offers to scroll, to go on by files and to search; a
/// live search its matches; and for a file that can be expanded what that would
/// do now.
pub proof fn lemma_hints_while_reading(app: AppView, r: ReviewView, w: u16)
    requires
        app.overlay is None,
        app.pending_key is None,
        app.screen == ScreenView::Review(r),
        r.diff.files.len() > 0,
        r.file_view is None,
        r.stream.selection is None,
        r.stream.stub_at_cursor() is None,
        r.focus == Focus::Stream,
    ensures
        hinted(app, w, seq![Action::Down, Action::Up], "scroll"@),
        hinted(app, w, seq![Action::NextFile, Action::PrevFile], "file"@),
        r.stream.search is Some ==> hinted(
            app,
            w,
            seq![Action::NextMatch, Action::PrevMatch],
            "match"@,
        ),
        r.full_status() == Some((false, false)) ==> hinted(
            app,
            w,
            seq![Action::Activate],
            "show full diff"@,
        ),
        r.full_status() == Some((true, false)) ==> hinted(
            app,
            w,
            seq![Action::Activate],
            "collapse full diff"@,
        ),
        r.full_status() == Some((true, true)) ==> hinted(
            app,
            w,
            seq![Action::Activate],
            "cancel full diff"@,
        ),
        hinted(app, w, seq![Action::Search], "search"@),
        hinted(app, w, seq![Action::SwitchScope], "scope"@),
{
    let h = app.hints(w);
    let t = app.active_keys();
    assert(h[0] == hints::bound(t, seq![Action::Down, Action::Up], "scroll"@));
    assert(h[1] == hints::bound(t, seq![Action::NextFile, Action::PrevFile], "file"@));
    assert(h.contains(h[0]) && h.contains(h[1]));
    let f = hints::full_hint(r.full_status()).len() as int;
    if r.full_status() is Some {
        assert(h[2] == hints::full_hint(r.full_status())[0]);
        assert(h.contains(h[2]));
    }
    let q = hints::search_hints(r.stream.search is Some).len() as int;
    if r.stream.search is Some {
        assert(h[2 + f] == hints::search_hints(true)[0]);
        assert(h.contains(h[2 + f]));
    }
    assert(h[2 + f + q] == hints::bound(t, seq![Action::Search], "search"@));
    assert(h.contains(h[2 + f + q]));
    let n = h.len() - 2;
    assert(h[n] == hints::bound(t, seq![Action::SwitchScope], "scope"@));
    assert(h.contains(h[n]));
}

/// While a chord is held the bar shows what can complete it.
pub proof fn lemma_hints_of_a_chord(app: AppView, prefix: KeyPress, w: u16, i: int)
    requires
        app.pending_key == Some(prefix),
        0 <= i < keymap::completions(app.active_keys(), prefix).len(),
    ensures
        app.hints(w)[i] == keymap::completions(app.active_keys(), prefix)[i],
        app.hints(w).len() == keymap::completions(app.active_keys(), prefix).len() + 1,
{
}

} // verus!
