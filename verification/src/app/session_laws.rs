//! What holds of a whole session.

use crate::app::keys;
use crate::app::overlays;
use crate::app::review;
use crate::app::review::{FullContextView, ReviewView};
use crate::app::state;
use crate::app::state::{AppView, EffectView, OverlayView, SavedView, ScreenView, WaitingView};
use crate::comments;
use crate::event::{AppEvent, RequestView};
use crate::git::context;
use crate::git::diff::FileDiffView;
use crate::git::scope::ScopeView;
use crate::keymap::{Action, KeyCode, KeyModifiers, KeyPress};
use crate::store;
use crate::store::StoreView;
use crate::ui::export::PreviewView;
use crate::ui::review::TargetView;
use crate::ui::rows::Row;
use vstd::prelude::*;

verus! {

/// The generation of an answer.
pub open spec fn generation(event: AppEvent) -> u64 {
    match event {
        AppEvent::Diff { seq, .. } => seq,
        AppEvent::File { seq, .. } => seq,
        AppEvent::Counts { seq, .. } => seq,
    }
}

/// An answer of another generation does nothing, so it can never be spliced
/// into a newer review.
pub proof fn lemma_stale_answers_do_nothing(app: AppView, event: AppEvent, now: u64)
    requires
        generation(event) != app.seq,
    ensures
        app.loaded(event, now) == state::still(app),
{
}

/// Opening a scope, reloading it, and going back to the menu make every answer
/// that is still on its way stale.
pub proof fn lemma_opening_supersedes(
    app: AppView,
    scope: ScopeView,
    forkable: Option<Seq<char>>,
    event: AppEvent,
    now: u64,
)
    requires
        generation(event) == app.seq,
    ensures
        app.opening(scope).app.loaded(event, now) == state::still(app.opening(scope).app),
        app.at_menu(forkable).app.loaded(event, now) == state::still(app.at_menu(forkable).app),
{
}

/// The lines make up the target, belong to one hunk, and none of them is shown
/// by an inline expansion alone.
pub open spec fn proper_target(files: Seq<FileDiffView>, lines: Seq<Row>, t: TargetView) -> bool {
    &&& crate::ui::review::target_of(files, lines) == Some(t)
    &&& crate::ui::review::one_hunk(lines)
    &&& !crate::ui::review::any_expanded(files, lines)
}

/// A new comment is only ever made on lines of one hunk of the original diff.
pub proof fn lemma_comments_keep_to_the_diff(app: AppView, r: ReviewView, t: TargetView)
    requires
        app.overlay is None,
        app.commenting(r).overlay == Some(OverlayView::Comment(keys::new_draft(t))),
    ensures
        exists|lines: Seq<Row>| #[trigger] proper_target(r.diff.files, lines, t),
{
    let files = r.diff.files;
    let lines = r.stream.selection_lines();
    if crate::ui::review::target_of(files, lines) is Some {
        assert(proper_target(files, lines, t));
    } else {
        let i = r.stream.line_from(files, r.stream.cursor as int)->0;
        let one = seq![r.stream.rows[i]];
        assert(one[0] == r.stream.rows[i]);
        assert(proper_target(files, one, t));
    }
}

proof fn lemma_rebuilding_keeps_store(app: AppView, next: review::NextView)
    ensures
        app.rebuilding(next).app.store == app.store,
{
}

proof fn lemma_changing_keeps_store(app: AppView, change: Option<StoreView>, then: SavedView)
    ensures
        app.changing(change, then).app.store == app.store,
{
    let after = app.after_save(then);
    match after.screen {
        ScreenView::Review(r) => {
            lemma_rebuilding_keeps_store(after, r.again());
        },
        _ => {},
    }
}

proof fn lemma_acting_keeps_store(app: AppView, r: ReviewView, action: Action, now: u64)
    ensures
        app.acted(r, action, now).app.store == app.store,
{
    match action {
        Action::DeleteComment => {
            match r.stream.comment_here() {
                Some(ci) => {
                    let c = app.store.comments[ci as int];
                    lemma_changing_keeps_store(
                        app,
                        app.store.deleted(c.id),
                        SavedView::Deleted(c),
                    );
                },
                None => {},
            }
        },
        Action::RestoreComments => {
            lemma_changing_keeps_store(
                app,
                app.store.restored(app.undo_comments),
                SavedView::Restored(app.undo_comments.len() as usize),
            );
        },
        _ => {},
    }
}

proof fn lemma_overlay_keeps_store(
    app: AppView,
    key: KeyPress,
    pending: Option<KeyPress>,
    now: u64,
)
    ensures
        app.overlay_keyed(key, pending, now).app.store == app.store,
{
    let bare = AppView { overlay: None, ..app };
    match app.overlay {
        Some(OverlayView::Comment(d)) => {
            let open = bare.with_overlay(OverlayView::Comment(d));
            lemma_changing_keeps_store(open, None, SavedView::Comment);
            match d.editing {
                Some(id) => {
                    lemma_changing_keeps_store(
                        open,
                        bare.store.edited(id, d.editor.text),
                        SavedView::Comment,
                    );
                },
                None => {},
            }
        },
        Some(OverlayView::ConfirmClear) => {
            lemma_changing_keeps_store(
                bare,
                bare.store.emptied(),
                SavedView::Cleared(bare.store.comments),
            );
        },
        _ => {},
    }
}

/// No key press changes the comments by itself: a change waits until it is
/// saved.
pub proof fn lemma_keys_never_change_comments(
    app: AppView,
    code: KeyCode,
    mods: KeyModifiers,
    now: u64,
)
    ensures
        app.keyed(code, mods, now).app.store == app.store,
{
    let key = KeyPress::of(code, mods);
    let taken = AppView { error: None, notice: None, pending_key: None, ..app };
    lemma_overlay_keeps_store(taken, key, app.pending_key, now);
    match app.screen {
        ScreenView::Review(r) => {
            assert forall|a: Action| #[trigger] taken.acted(r, a, now).app.store == app.store by {
                lemma_acting_keeps_store(taken, r, a, now);
            }
        },
        _ => {},
    }
}

/// A failed save leaves the comments exactly as they were.
pub proof fn lemma_failed_save_changes_nothing(app: AppView, error: Seq<char>)
    ensures
        app.save_answered(Some(error)).app.store == app.store,
        app.save_answered(Some(error)).app.undo_comments == app.undo_comments,
        app.waiting matches Some(WaitingView::Save { .. }) ==> app.save_answered(
            Some(error),
        ).app.overlay == app.overlay,
{
}

/// After all comments were deleted, restoring asks to save exactly what was
/// there before.
pub proof fn lemma_undo_brings_all_back(app: AppView)
    requires
        app.store.comments.len() > 0,
        app.waiting == Some(
            WaitingView::Save {
                state: app.store.emptied()->0,
                then: SavedView::Cleared(app.store.comments),
            },
        ),
    ensures
        ({
            let after = app.save_answered(None).app;
            &&& after.store.comments.len() == 0
            &&& after.restoring().effects == seq![EffectView::Save(app.store)]
        }),
{
    store::lemma_undo_delete_all(app.store);
    let emptied = app.store.emptied()->0;
    let idle = AppView { waiting: None, ..app };
    let cleared = AppView { store: emptied, ..idle }.after_save(
        SavedView::Cleared(app.store.comments),
    );
    match app.screen {
        ScreenView::Review(r) => {
            let files = r.again().canonical_files();
            assert(comments::all_settled(files, emptied.comments) =~= emptied.comments);
        },
        _ => {},
    }
    let after = app.save_answered(None).app;
    assert(after.store == emptied);
    assert(after.undo_comments == app.store.comments);
}

/// The deleted comment is what restoring puts back.
pub proof fn lemma_undo_remembers_the_deleted_comment(
    app: AppView,
    state: StoreView,
    c: comments::CommentView,
)
    requires
        app.waiting == Some(WaitingView::Save { state, then: SavedView::Deleted(c) }),
    ensures
        app.save_answered(None).app.undo_comments == seq![c],
{
}

/// Moving within the preview never changes the export: what is copied or
/// written is exactly what was previewed.
pub proof fn lemma_preview_is_exact(p: PreviewView, action: Action)
    ensures
        overlays::previewed(p, action).markdown == p.markdown,
{
}

proof fn lemma_eligible_index(files: Seq<FileDiffView>, path: Seq<char>, k: int, i: int)
    requires
        0 <= i <= k < files.len(),
        files[k].path == path,
        context::eligible(files[k]),
    ensures
        review::eligible_index(files, path, i) <= k,
    decreases k - i,
{
    if i < k && !(files[i].path == path && context::eligible(files[i])) {
        lemma_eligible_index(files, path, k, i + 1);
    }
}

proof fn lemma_entry_found(expanded: Seq<FullContextView>, path: Seq<char>, j: int, i: int)
    requires
        0 <= i <= j < expanded.len(),
        expanded[j].path == path,
    ensures
        review::entry_index(expanded, path, i) <= j,
    decreases j - i,
{
    if i < j && expanded[i].path != path {
        lemma_entry_found(expanded, path, j, i + 1);
    }
}

proof fn lemma_carried(
    expanded: Seq<FullContextView>,
    files: Seq<FileDiffView>,
    n: int,
    j: int,
    k: int,
)
    requires
        0 <= j < n <= expanded.len(),
        0 <= k < files.len(),
        files[k].path == expanded[j].path,
        context::eligible(files[k]),
    ensures
        exists|i: int|
            0 <= i < review::carried(expanded, files, n).len() && (#[trigger] review::carried(
                expanded,
                files,
                n,
            )[i]).path == expanded[j].path,
    decreases n,
{
    if j == n - 1 {
        lemma_eligible_index(files, expanded[j].path, k, 0);
        let all = review::carried(expanded, files, n);
        assert(all[all.len() - 1].path == expanded[j].path);
    } else {
        lemma_carried(expanded, files, n - 1, j, k);
        let above = review::carried(expanded, files, n - 1);
        let i = choose|i: int|
            0 <= i < above.len() && (#[trigger] above[i]).path == expanded[j].path;
        assert(review::carried(expanded, files, n)[i] == above[i]);
    }
}

/// The choice to show a file in full survives a reload, as long as the file can
/// still be shown so.
pub proof fn lemma_expansions_survive_reload(
    r: ReviewView,
    diff: crate::git::diff::DiffView,
    path: Seq<char>,
    k: int,
)
    requires
        review::wants(r.full_context, path),
        0 <= k < diff.files.len(),
        diff.files[k].path == path,
        context::eligible(diff.files[k]),
    ensures
        review::wants(r.reloaded(diff).full_context, path),
{
    let j = review::entry_index(r.full_context, path, 0);
    lemma_entry_is(r.full_context, path, 0);
    lemma_carried(r.full_context, diff.files, r.full_context.len() as int, j, k);
    let after = r.reloaded(diff).full_context;
    let i = choose|i: int| 0 <= i < after.len() && (#[trigger] after[i]).path == path;
    lemma_entry_found(after, path, i, 0);
}

proof fn lemma_entry_is(expanded: Seq<FullContextView>, path: Seq<char>, i: int)
    requires
        0 <= i,
        review::entry_index(expanded, path, i) < expanded.len(),
    ensures
        i <= review::entry_index(expanded, path, i),
        expanded[review::entry_index(expanded, path, i)].path == path,
    decreases expanded.len() - i,
{
    if i < expanded.len() && expanded[i].path != path {
        lemma_entry_is(expanded, path, i + 1);
    }
}

/// The expanded files are asked for again with the reload's generation.
pub proof fn lemma_reload_asks_for_expansions(
    app: AppView,
    r: ReviewView,
    scope: ScopeView,
    diff: crate::git::diff::DiffResult,
    now: u64,
    i: int,
)
    requires
        app.screen == ScreenView::Review(r),
        r.scope == scope,
        0 <= i < r.reloaded(diff@).full_context.len(),
    ensures
        app.diff_loaded(scope, Ok(diff), now).effects.contains(
            EffectView::Load(
                RequestView::File {
                    seq: app.seq,
                    scope,
                    path: r.reloaded(diff@).full_context[i].path,
                    old_path: r.reloaded(diff@).full_context[i].base.old_path,
                    kind: crate::event::FileLoadKind::FullContext,
                },
            ),
        ),
{
    let next = r.reloaded(diff@);
    let rested = AppView { reloading: false, ..app };
    let step = AppView { reloaded_at: Some(now), ..rested }.rebuilding(next);
    let all = app.diff_loaded(scope, Ok(diff), now).effects;
    let asks = crate::app::events::full_requests(next.full_context, app.seq, scope);
    assert(all[step.effects.len() + i] == asks[i]);
}

} // verus!
