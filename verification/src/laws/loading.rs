//! What the loader's answers do, and what the lines of a patch say of a file.

use crate::app::review::ReviewView;
use crate::app::state::{AppView, EffectView, ScreenView};
use crate::event::{AppEvent, FileLoadKind, RequestView, ScopeCounts};
use crate::git::cli;
use crate::git::cli::PatchState;
use crate::git::diff::{DiffResult, FileDiff, FileDiffView, FileStatus};
use crate::git::scope::Scope;
use crate::text;
use vstd::prelude::*;

verus! {

/// A diff that could not be loaded leaves the screen as it is and says why.
pub proof fn lemma_diff_failed(app: AppView, scope: Scope, e: String, now: u64)
    ensures
        ({
            let step = app.loaded(AppEvent::Diff { seq: app.seq, scope, diff: Err(e) }, now);
            &&& step.effects.len() == 0
            &&& step.app.screen == app.screen && step.app.store == app.store
            &&& step.app.error == Some(e@)
            &&& !step.app.reloading
        }),
{
}

/// The diff of another scope is opened at its top; where no comment moves that
/// happens at once, else once the moves are saved.
pub proof fn lemma_scope_opened(app: AppView, scope: Scope, d: DiffResult, now: u64)
    requires
        !(app.screen matches ScreenView::Review(r) && r.scope == scope@),
    ensures
        ({
            let step = app.loaded(AppEvent::Diff { seq: app.seq, scope, diff: Ok(d) }, now);
            &&& !step.app.reloading
            &&& app.store.moved(d@.files) is None ==> step.effects.len() == 0 && (
            step.app.screen matches ScreenView::Review(r) && r.scope == scope@ && r.diff == d@
                && r.stream.cursor == 0 && r.stream.scroll == 0 && r.stream.selection is None
                && r.stream.search is None && r.file_view is None && r.full_context.len() == 0
                && r.show_tree)
            &&& app.store.moved(d@.files) matches Some(s) ==> step.effects == seq![
                EffectView::Save(s),
            ] && step.app.waiting is Some && step.app.screen == app.screen
        }),
{
}

/// A reload of the open scope takes over the new diff, keeps the place, and asks
/// once more for each file that is still shown in full.
pub proof fn lemma_scope_reloaded(
    app: AppView,
    r: ReviewView,
    scope: Scope,
    d: DiffResult,
    now: u64,
)
    requires
        app.screen == ScreenView::Review(r),
        r.scope == scope@,
        app.store.moved(r.reloaded(d@).canonical_files()) is None,
    ensures
        ({
            let step = app.loaded(AppEvent::Diff { seq: app.seq, scope, diff: Ok(d) }, now);
            let again = r.reloaded(d@).full_context;
            &&& step.app.screen matches ScreenView::Review(q) && q.diff == d@ && q.scope == r.scope
                && q.full_context == again && q.focus == r.focus
            &&& step.app.reloaded_at == Some(now)
            &&& !step.app.reloading
            &&& step.effects.len() == again.len()
            &&& forall|i: int|
                0 <= i < again.len() ==> #[trigger] step.effects[i] == EffectView::Load(
                    RequestView::File {
                        seq: app.seq,
                        scope: scope@,
                        path: again[i].path,
                        old_path: again[i].base.old_path,
                        kind: FileLoadKind::FullContext,
                    },
                )
        }),
{
}

/// A file for another scope does nothing; one that failed says why and leaves the
/// diff as it is.
pub proof fn lemma_file_failed(
    app: AppView,
    r: ReviewView,
    scope: Scope,
    path: String,
    kind: FileLoadKind,
    files: Result<Vec<FileDiff>, String>,
    e: String,
    now: u64,
)
    requires
        app.screen == ScreenView::Review(r),
    ensures
        r.scope != scope@ ==> app.loaded(
            AppEvent::File { seq: app.seq, scope, path, kind, files },
            now,
        ).app == app,
        r.scope == scope@ ==> ({
            let step = app.loaded(
                AppEvent::File { seq: app.seq, scope, path, kind, files: Err(e) },
                now,
            );
            &&& step.effects.len() == 0
            &&& step.app.error == Some(e@)
            &&& step.app.screen matches ScreenView::Review(q) && q.diff == r.diff && q.stream
                == r.stream
        }),
{
}

/// Counts go to the menu, and nowhere else.
pub proof fn lemma_counts_arrive(app: AppView, counts: ScopeCounts, now: u64)
    ensures
        ({
            let step = app.loaded(AppEvent::Counts { seq: app.seq, counts }, now);
            &&& step.effects.len() == 0
            &&& !(app.screen is Picker) ==> step.app == app
            &&& app.screen matches ScreenView::Picker(p) ==> (step.app.screen matches
                ScreenView::Picker(q) && q.items.len() == p.items.len() && q.selected
                == p.selected)
        }),
{
}

// ---- lines of a patch ---------------------------------------------------------------

proof fn lemma_begins(p: Seq<char>, t: Seq<char>)
    ensures
        text::starts_with(p + t, p),
        cli::after(p + t, p) == t,
{
    assert((p + t).subrange(0, p.len() as int) =~= p);
    assert((p + t).skip(p.len() as int) =~= t);
}

proof fn lemma_begins_otherwise(line: Seq<char>, p: Seq<char>, at: int)
    requires
        0 <= at < p.len(),
        at < line.len(),
        line[at] != p[at],
    ensures
        !text::starts_with(line, p),
        line != p,
{
    if text::starts_with(line, p) {
        assert(line.subrange(0, p.len() as int)[at] == line[at]);
    }
}

/// The file that a patch is at.
pub open spec fn current(s: PatchState) -> FileDiffView {
    s.files.last()
}

/// Outside the hunks the lines of a patch say what happened to a file: that it is
/// new, that it is gone, that it is binary. Nothing else of it changes.
pub proof fn lemma_descriptions(s: PatchState, t: Seq<char>)
    requires
        s.files.len() > 0,
        s.old_left == 0,
        s.new_left == 0,
    ensures
        ({
            let f = current(s);
            let new = cli::patch_step(s, "new file mode"@ + t);
            let gone = cli::patch_step(s, "deleted file mode"@ + t);
            let bin = cli::patch_step(s, "Binary files "@ + t);
            let git = cli::patch_step(s, "GIT binary patch"@);
            &&& current(new) == (FileDiffView { status: FileStatus::Added, ..f })
            &&& current(gone) == (FileDiffView { status: FileStatus::Deleted, ..f })
            &&& current(bin) == (FileDiffView { binary: true, ..f })
            &&& current(git) == (FileDiffView { binary: true, ..f })
            &&& new.files.drop_last() == s.files.drop_last() && gone.files.drop_last()
                == s.files.drop_last() && bin.files.drop_last() == s.files.drop_last()
                && git.files.drop_last() == s.files.drop_last()
        }),
{
    reveal_strlit("diff --git ");
    reveal_strlit("new file mode");
    reveal_strlit("deleted file mode");
    reveal_strlit("rename from ");
    reveal_strlit("rename to ");
    reveal_strlit("Binary files ");
    reveal_strlit("GIT binary patch");
    let a = "new file mode"@ + t;
    let b = "deleted file mode"@ + t;
    let c = "Binary files "@ + t;
    let d = "GIT binary patch"@;
    lemma_begins("new file mode"@, t);
    lemma_begins("deleted file mode"@, t);
    lemma_begins("Binary files "@, t);
    lemma_begins_otherwise(a, "diff --git "@, 0);
    lemma_begins_otherwise(b, "diff --git "@, 1);
    lemma_begins_otherwise(b, "new file mode"@, 0);
    lemma_begins_otherwise(c, "diff --git "@, 0);
    lemma_begins_otherwise(c, "new file mode"@, 0);
    lemma_begins_otherwise(c, "deleted file mode"@, 0);
    lemma_begins_otherwise(c, "rename from "@, 0);
    lemma_begins_otherwise(c, "rename to "@, 0);
    lemma_begins_otherwise(d, "diff --git "@, 0);
    lemma_begins_otherwise(d, "new file mode"@, 0);
    lemma_begins_otherwise(d, "deleted file mode"@, 0);
    lemma_begins_otherwise(d, "rename from "@, 0);
    lemma_begins_otherwise(d, "rename to "@, 0);
    lemma_begins_otherwise(d, "Binary files "@, 0);
    assert(cli::patch_step(s, a).files.drop_last() =~= s.files.drop_last());
    assert(cli::patch_step(s, b).files.drop_last() =~= s.files.drop_last());
    assert(cli::patch_step(s, c).files.drop_last() =~= s.files.drop_last());
    assert(cli::patch_step(s, d).files.drop_last() =~= s.files.drop_last());
}

} // verus!
