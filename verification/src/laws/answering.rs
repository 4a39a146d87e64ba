//! What answers from outside do.

use crate::app::events::EditorReply;
use crate::app::review::ReviewView;
use crate::app::state::{
    AppView, Copied, EffectView, OverlayView, SavedView, ScreenView, WaitingView,
};
use crate::event::RequestView;
use crate::git::log::LogEntry;
use crate::laws::editing;
use crate::store::StoreView;
use crate::ui::editor;
use crate::ui::fileview::FileView;
use crate::ui::review::StreamView;
use vstd::prelude::*;

verus! {

/// A copy that went well drops the selection it was made of and nothing else; one
/// that failed keeps it and says why.
pub proof fn lemma_copied(app: AppView, r: ReviewView, lines: usize, patch: bool, e: Seq<char>)
    requires
        app.screen == ScreenView::Review(r),
        app.waiting == Some(
            WaitingView::Copy(Copied::Selection { lines, patch_style: patch }),
        ),
    ensures
        ({
            let done = app.copy_answered(None);
            let failed = app.copy_answered(Some(e));
            &&& done.waiting is None && failed.waiting is None
            &&& done.screen matches ScreenView::Review(q) && q.stream == (StreamView {
                selection: None,
                ..r.stream
            }) && q.diff == r.diff
            &&& done.error == app.error && done.notice is Some
            &&& done.store == app.store && failed.store == app.store
            &&& failed.screen == app.screen
            &&& failed.error matches Some(m) && e.is_suffix_of(m)
        }),
{
    let m = app.copy_answered(Some(e)).error->0;
    assert(m.skip(m.len() - e.len()) =~= e);
}

/// An export that was written closes the prompt; one that failed leaves it open
/// and says why.
pub proof fn lemma_written(app: AppView, path: Seq<char>, e: Seq<char>)
    requires
        app.overlay matches Some(OverlayView::ExportPath { path: p, .. }) && p == path,
    ensures
        ({
            let done = app.write_answered(None);
            let failed = app.write_answered(Some(e));
            &&& done.overlay is None
            &&& done.notice matches Some(m) && path.is_suffix_of(m)
            &&& done.store == app.store && done.screen == app.screen
            &&& failed.overlay == app.overlay
            &&& failed.error matches Some(m) && e.is_suffix_of(m)
            &&& failed.store == app.store && failed.screen == app.screen
        }),
{
    let m = app.write_answered(None).notice->0;
    assert(m.skip(m.len() - path.len()) =~= path);
    let n = app.write_answered(Some(e)).error->0;
    assert(n.skip(n.len() - e.len()) =~= e);
}

/// A file that was read is opened above the review; one that was not leaves all
/// as it is and says why.
pub proof fn lemma_file_read(app: AppView, r: ReviewView, v: FileView, e: String)
    requires
        app.screen == ScreenView::Review(r),
    ensures
        app.file_answered(Ok(v)).screen == ScreenView::Review(
            ReviewView { file_view: Some(v@), ..r },
        ),
        app.file_answered(Err(e)).screen == app.screen,
        app.file_answered(Err(e)).error == Some(e@),
{
}

/// The lists open at their first entry; an empty one is not opened.
pub proof fn lemma_listed(app: AppView, entries: Vec<LogEntry>, names: Seq<Seq<char>>)
    ensures
        entries@.len() > 0 ==> (app.commits_answered(Ok(entries)).screen matches ScreenView::Log(l)
            && l.selected == 0 && l.entries.len() == entries@.len() && l.marked is None && forall|
            i: int,
        |
            0 <= i < entries@.len() ==> #[trigger] l.entries[i] == entries@[i]@),
        entries@.len() == 0 ==> app.commits_answered(Ok(entries)).screen == app.screen
            && app.commits_answered(Ok(entries)).error is Some,
        names.len() > 0 ==> (app.bases_answered(names).screen matches ScreenView::Base(b) && b.names
            == names && b.selected == 0),
        names.len() == 0 ==> app.bases_answered(names).screen == app.screen && app.bases_answered(
            names,
        ).error is Some,
{
    broadcast use crate::deep::group_deep;

}

/// After the editor the review is loaded again; where it did not run nothing is
/// asked for, and the reason is said.
pub proof fn lemma_edited(app: AppView, r: ReviewView, e: String)
    requires
        app.screen == ScreenView::Review(r),
    ensures
        ({
            let done = app.editor_answered(EditorReply::Done);
            &&& done.effects == seq![
                EffectView::Load(RequestView::Diff { seq: done.app.seq, scope: r.scope }),
            ]
            &&& done.app.seq != app.seq
        }),
        app.editor_answered(EditorReply::Failed(e)).effects.len() == 0,
        app.editor_answered(EditorReply::Failed(e)).app.error == Some(e@),
        app.editor_answered(EditorReply::NoWorkdir).effects.len() == 0,
        app.editor_answered(EditorReply::NoWorkdir).app.error is Some,
        app.editor_answered(EditorReply::NotOnDisk { path: e }).app.error is Some,
{
}

/// A saved change is the state that was saved, and from then on what a delete
/// took away can be brought back; a change that was not saved is no change.
pub proof fn lemma_saved(app: AppView, state: StoreView, then: SavedView, e: Seq<char>)
    requires
        app.waiting == Some(WaitingView::Save { state, then }),
        !(app.screen is Review),
    ensures
        ({
            let done = app.save_answered(None);
            let failed = app.save_answered(Some(e));
            &&& done.app.store == state
            &&& done.effects.len() == 0
            &&& then matches SavedView::Deleted(c) ==> done.app.undo_comments == seq![c]
            &&& then matches SavedView::Cleared(v) ==> done.app.undo_comments == v
            &&& then is Restored ==> done.app.undo_comments.len() == 0
            &&& then is Comment ==> done.app.overlay is None && done.app.undo_comments
                == app.undo_comments
            &&& failed.app.store == app.store && failed.app.undo_comments == app.undo_comments
            &&& failed.app.overlay == app.overlay && failed.app.error == Some(e)
            &&& failed.effects.len() == 0
        }),
{
}

/// What is pasted goes to the cursor of an open comment, or to the end of an open
/// prompt without its line ends; with nothing open it is dropped.
pub proof fn lemma_pasted(app: AppView, s: Seq<char>)
    ensures
        app.overlay is None ==> app.pasted(s) == app,
        app.overlay matches Some(OverlayView::Comment(d)) ==> d.editor.ok() && d.editor.text.len()
            + s.len() <= usize::MAX && !s.contains('\r') ==> (app.pasted(s).overlay matches Some(
            OverlayView::Comment(e),
        ) && e.editor.text == d.editor.text.take(d.editor.cursor as int) + s + d.editor.text.skip(
            d.editor.cursor as int,
        ) && e.target == d.target && e.editing == d.editing),
        app.overlay matches Some(OverlayView::Search(q)) ==> app.pasted(s).overlay == Some(
            OverlayView::Search(q + s.filter(|c: char| c != '\r' && c != '\n')),
        ),
        app.overlay matches Some(OverlayView::ExportPath { path, preview }) ==> app.pasted(
            s,
        ).overlay == Some(
            OverlayView::ExportPath {
                path: path + s.filter(|c: char| c != '\r' && c != '\n'),
                preview,
            },
        ),
{
    crate::laws::prompts::lemma_pasting(s);
    if !s.contains('\r') {
        editing::lemma_pasting(s, Seq::empty());
        assert(editor::normalized(s, 0) == s);
    }
}

} // verus!
