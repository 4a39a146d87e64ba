//! What keys do to the comments, and what they ask for outside.

use crate::app::date;
use crate::app::keys;
use crate::app::review::{Focus, ReviewView};
use crate::app::state::{
    AppView, DraftView, EffectView, OverlayView, ScreenView, WaitingView,
};
use crate::comments::CommentView;
use crate::event::{FileLoadKind, RequestView};
use crate::keymap::{Action, KeyCode, KeyModifiers};
use crate::laws::prompts;
use crate::laws::storing;
use crate::markdown;
use crate::text;
use crate::ui::review;
use crate::ui::review::{StreamView, TargetView};
use crate::ui::rows::Row;
use vstd::prelude::*;

verus! {

/// No modifier is held.
pub open spec fn bare() -> KeyModifiers {
    KeyModifiers { shift: false, control: false, alt: false }
}

/// Nothing but white space.
pub open spec fn blank(s: Seq<char>) -> bool {
    forall|i: int| 0 <= i < s.len() ==> text::white(#[trigger] s[i])
}

proof fn lemma_blank(s: Seq<char>)
    ensures
        text::trim(s).len() == 0 <==> blank(s),
{
    let (a, b) = prompts::lemma_trimming(s);
    let t = text::trim(s);
    if t.len() > 0 {
        assert(t[0] == s[a]);
    }
}

// ---- comments -----------------------------------------------------------------------

/// Enter saves a new comment: the whole text, on the lines it was started on, in
/// the open scope, at the current time, not outdated, and behind all comments
/// there are. The comments themselves change only once that is saved.
pub proof fn lemma_enter_saves_a_new_comment(
    app: AppView,
    d: DraftView,
    t: TargetView,
    r: ReviewView,
    now: u64,
)
    requires
        app.overlay == Some(OverlayView::Comment(d)),
        app.screen == ScreenView::Review(r),
        d.editing is None,
        d.target == Some(t),
        !blank(d.editor.text),
        app.store.next_id < u64::MAX,
    ensures
        ({
            let step = app.keyed(KeyCode::Enter, bare(), now);
            let saved = step.effects[0]->Save_0;
            let c = saved.comments.last();
            &&& step.effects.len() == 1 && step.effects[0] is Save
            &&& saved.comments.drop_last() == app.store.comments
            &&& c.body == d.editor.text
            &&& c.path == t.path && c.new_side == t.new_side && c.lines == t.lines && c.snippet
                == t.snippet
            &&& c.scope == r.scope.label()
            &&& c.created_at == now
            &&& !c.outdated
            &&& c.id == app.store.next_id && saved.next_id == c.id + 1
            &&& step.app.store == app.store
            &&& step.app.screen == app.screen
            &&& step.app.overlay == app.overlay
            &&& step.app.waiting matches Some(WaitingView::Save { state, .. }) && state == saved
        }),
{
    lemma_blank(d.editor.text);
    let step = app.keyed(KeyCode::Enter, bare(), now);
    assert(step.effects[0]->Save_0.comments.drop_last() =~= app.store.comments);
}

/// Enter on an edited comment saves the new text of that comment alone.
pub proof fn lemma_enter_saves_an_edit(app: AppView, d: DraftView, id: u64, now: u64, i: int)
    requires
        app.overlay == Some(OverlayView::Comment(d)),
        d.editing == Some(id),
        !blank(d.editor.text),
        storing::has_id(app.store.comments, id),
        0 <= i < app.store.comments.len(),
    ensures
        ({
            let step = app.keyed(KeyCode::Enter, bare(), now);
            let saved = step.effects[0]->Save_0;
            let first = app.store.comments[i].id == id && !storing::has_id(
                app.store.comments.take(i),
                id,
            );
            &&& step.effects.len() == 1 && step.effects[0] is Save
            &&& saved.comments.len() == app.store.comments.len()
            &&& storing::alike_but_body(saved.comments[i], app.store.comments[i])
            &&& first ==> saved.comments[i].body == d.editor.text
            &&& !first ==> saved.comments[i] == app.store.comments[i]
            &&& step.app.store == app.store
        }),
{
    lemma_blank(d.editor.text);
    storing::lemma_editing(app.store, id, d.editor.text, i);
}

/// Enter on blank text saves nothing and closes the editor, and so does Esc;
/// with Alt held Enter breaks the line instead.
pub proof fn lemma_comment_left(app: AppView, d: DraftView, now: u64)
    requires
        app.overlay == Some(OverlayView::Comment(d)),
        d.editor.ok(),
    ensures
        blank(d.editor.text) ==> app.keyed(KeyCode::Enter, bare(), now).effects.len() == 0
            && app.keyed(KeyCode::Enter, bare(), now).app.overlay is None && app.keyed(
            KeyCode::Enter,
            bare(),
            now,
        ).app.store == app.store,
        app.keyed(KeyCode::Esc, bare(), now).effects.len() == 0,
        app.keyed(KeyCode::Esc, bare(), now).app.overlay is None,
        app.keyed(KeyCode::Esc, bare(), now).app.store == app.store,
        ({
            let broken = app.keyed(KeyCode::Enter, KeyModifiers { alt: true, ..bare() }, now);
            &&& broken.effects.len() == 0
            &&& broken.app.overlay matches Some(OverlayView::Comment(e)) && e.editor.text
                == d.editor.text.insert(d.editor.cursor as int, '\n') && e.target == d.target
                && e.editing == d.editing
        }),
{
    lemma_blank(d.editor.text);
    let e = d.editor;
    let n = e.cursor as int;
    assert(e.text.take(n) + seq!['\n'] + e.text.skip(n) =~= e.text.insert(n, '\n'));
}

/// Deleting asks to save the comments without the one under the cursor; without
/// one nothing happens.
pub proof fn lemma_deleting(app: AppView, r: ReviewView, now: u64)
    requires
        r.stream.comment_here() matches Some(ci) ==> ci < app.store.comments.len(),
    ensures
        ({
            let step = app.acted(r, Action::DeleteComment, now);
            match r.stream.comment_here() {
                None => step.effects.len() == 0 && step.app == app,
                Some(ci) => {
                    let id = app.store.comments[ci as int].id;
                    &&& step.effects.len() == 1 && step.effects[0] is Save
                    &&& step.effects[0]->Save_0.comments == app.store.comments.filter(
                        |c: CommentView| c.id != id,
                    )
                    &&& step.effects[0]->Save_0.next_id == app.store.next_id
                    &&& step.app.store == app.store
                },
            }
        }),
{
    if let Some(ci) = r.stream.comment_here() {
        let id = app.store.comments[ci as int].id;
        assert(storing::has_id(app.store.comments, id));
        storing::lemma_deleting(app.store, id);
    }
}

/// Restoring asks to save what the last delete removed behind the other
/// comments; with nothing removed nothing happens.
pub proof fn lemma_restoring(app: AppView, r: ReviewView, now: u64)
    ensures
        ({
            let step = app.acted(r, Action::RestoreComments, now);
            &&& app.undo_comments.len() == 0 ==> step.effects.len() == 0 && step.app == app
            &&& app.undo_comments.len() > 0 ==> step.effects.len() == 1 && step.effects[0] is Save
                && step.effects[0]->Save_0.comments == app.store.comments + app.undo_comments
                && step.app.store == app.store
        }),
{
}

/// All comments are deleted only after a yes; any other key leaves them.
pub proof fn lemma_clearing(app: AppView, r: ReviewView, code: KeyCode, now: u64)
    requires
        app.overlay == Some(OverlayView::ConfirmClear),
        app.store.comments.len() > 0,
    ensures
        ({
            let step = app.keyed(code, bare(), now);
            let yes = code == KeyCode::Char('y') || code == KeyCode::Char('Y');
            &&& yes ==> step.effects.len() == 1 && step.effects[0] is Save
                && step.effects[0]->Save_0.comments.len() == 0
                && step.effects[0]->Save_0.next_id == app.store.next_id
            &&& !yes ==> step.effects.len() == 0
            &&& step.app.store == app.store
            &&& step.app.overlay is None
        }),
        ({
            let asked = app.acted(r, Action::DeleteAllComments, now);
            asked.effects.len() == 0 && asked.app.overlay == Some(OverlayView::ConfirmClear)
                && asked.app.store == app.store
        }),
{
}

/// A comment is started on the selected lines; else on the comment under the
/// cursor, as an edit of its text; else on the next line. Lines of more than one
/// hunk, and lines that only an expansion shows, are refused.
pub proof fn lemma_commenting(app: AppView, r: ReviewView, now: u64)
    requires
        r.stream.comment_here() matches Some(ci) ==> ci < app.store.comments.len(),
    ensures
        ({
            let lines = r.stream.selection_lines();
            let files = r.diff.files;
            let step = app.acted(r, Action::Comment, now);
            let after = step.app;
            &&& step.effects.len() == 0
            &&& after.store == app.store
            &&& !review::one_hunk(lines) || review::any_expanded(files, lines) ==> after.error is Some
                && after.overlay == app.overlay
            &&& review::one_hunk(lines) && !review::any_expanded(files, lines) ==> (
            match review::target_of(files, lines) {
                Some(t) => after.overlay matches Some(OverlayView::Comment(d)) && d.target == Some(t)
                    && d.editing is None && d.editor.text.len() == 0,
                None => match r.stream.comment_here() {
                    Some(ci) => after.overlay matches Some(OverlayView::Comment(d)) && d.editing
                        == Some(app.store.comments[ci as int].id) && d.editor.text
                        == app.store.comments[ci as int].body && d.editor.cursor
                        == d.editor.text.len() as usize,
                    None => if r.stream.expanded_here(files) {
                        after.error is Some && after.overlay == app.overlay
                    } else {
                        match r.stream.bare_target(files) {
                            Some(t) => after.overlay matches Some(OverlayView::Comment(d))
                                && d.target == Some(t) && d.editing is None && d.editor.text.len()
                                == 0,
                            None => after == app,
                        }
                    },
                },
            })
        }),
{
}

// ---- copying and exporting ----------------------------------------------------------

/// Copying hands out the text of the selected rows in the style asked for, and
/// nothing without a selection.
pub proof fn lemma_copying(app: AppView, r: ReviewView, patch: bool, now: u64)
    ensures
        ({
            let action = if patch {
                Action::CopyPatch
            } else {
                Action::CopyCode
            };
            let step = app.acted(r, action, now);
            &&& r.stream.selection is None ==> step.effects.len() == 0 && step.app == app
            &&& r.stream.selected() matches Some((lo, hi)) ==> {
                let all = review::copied(r.stream.rows, r.diff.files, patch, lo, hi);
                &&& all.len() > 0 ==> step.effects == seq![EffectView::Copy(all)]
                &&& all.len() == 0 ==> step.effects.len() == 0 && step.app.error is Some
            }
            &&& step.app.store == app.store && step.app.screen == app.screen
        }),
{
}

/// The preview shows the export of all comments under the title and the date of
/// the day; without comments there is none.
pub proof fn lemma_previewing(app: AppView, r: ReviewView, now: u64)
    ensures
        ({
            let step = app.acted(r, Action::ExportPreview, now);
            let day = date::date_text(date::date_on(now as int / 86_400));
            &&& step.effects.len() == 0
            &&& app.store.comments.len() == 0 ==> step.app.error is Some && step.app.overlay
                == app.overlay
            &&& app.store.comments.len() > 0 ==> (step.app.overlay matches Some(
                OverlayView::ExportPreview(p),
            ) && p.markdown == markdown::exported(app.store.comments, app.title, day))
        }),
{
}

/// Enter in the path prompt writes what the preview shows to the path as it was
/// typed; a blank path writes nothing, and Esc goes back to the preview.
pub proof fn lemma_writing(app: AppView, path: Seq<char>, now: u64)
    requires
        app.overlay matches Some(OverlayView::ExportPath { path: p, .. }) && p == path,
    ensures
        ({
            let preview = app.overlay->0->ExportPath_preview;
            let entered = app.keyed(KeyCode::Enter, bare(), now);
            let left = app.keyed(KeyCode::Esc, bare(), now);
            &&& !blank(path) ==> entered.effects == seq![
                EffectView::WriteFile { path, content: preview.markdown },
            ]
            &&& blank(path) ==> entered.effects.len() == 0
            &&& left.effects.len() == 0
            &&& left.app.overlay == Some(OverlayView::ExportPreview(preview))
        }),
{
    lemma_blank(path);
}

// ---- the rest -----------------------------------------------------------------------

/// Ctrl-C quits from everywhere, and nothing is done on the way; no other key
/// quits at once while an editor or a prompt is open.
pub proof fn lemma_quitting(app: AppView, mods: KeyModifiers, code: KeyCode, now: u64)
    ensures
        mods.control ==> app.keyed(KeyCode::Char('c'), mods, now).app.quit && app.keyed(
            KeyCode::Char('c'),
            mods,
            now,
        ).effects.len() == 0,
        app.overlay matches Some(OverlayView::Comment(_)) && !mods.control && !app.quit && code
            != KeyCode::Enter ==> !app.keyed(code, mods, now).app.quit,
        app.overlay is None && !mods.control ==> (app.keyed(
            KeyCode::Char('?'),
            mods,
            now,
        ).app.overlay matches Some(OverlayView::Help { scroll }) && scroll == 0),
{
}

/// Esc peels off one layer at a time: the selection, then the search, then the
/// tree, and then the review.
pub proof fn lemma_going_back(app: AppView, r: ReviewView, now: u64)
    ensures
        ({
            let step = app.acted(r, Action::Back, now);
            let s = r.stream;
            &&& s.selection is Some ==> step.effects.len() == 0 && (step.app.screen matches
                ScreenView::Review(q) && q.stream == (StreamView { selection: None, ..s })
                && q.focus == r.focus)
            &&& s.selection is None && s.search is Some ==> step.effects.len() == 0 && (
            step.app.screen matches ScreenView::Review(q) && q.stream == (StreamView {
                search: None,
                ..s
            }) && q.focus == r.focus)
            &&& s.selection is None && s.search is None && r.focus == Focus::Tree
                ==> step.effects.len() == 0 && (step.app.screen matches ScreenView::Review(q)
                && q.focus == Focus::Stream && q.stream == s)
            &&& s.selection is None && s.search is None && r.focus != Focus::Tree ==> step.effects
                == seq![EffectView::OpenPicker]
        }),
{
}

proof fn lemma_place(s: StreamView, files: Seq<crate::git::diff::FileDiffView>, i: int) -> (k: int)
    requires
        0 <= i <= s.rows.len(),
    ensures
        match s.place_from(files, i) {
            None => forall|j: int|
                i <= j < s.rows.len() ==> !((#[trigger] s.rows[j]) is Line) && !(s.rows[j] is FileHeader),
            Some((fi, line)) => {
                &&& i <= k < s.rows.len()
                &&& forall|j: int|
                    i <= j < k ==> !((#[trigger] s.rows[j]) is Line) && !(s.rows[j] is FileHeader)
                &&& match s.rows[k] {
                    Row::Line { file, hunk, line: l, .. } => {
                        let at = files[file as int].hunks[hunk as int].lines[l as int];
                        fi == file && (at.new_lineno is Some ==> line == at.new_lineno) && (
                        at.new_lineno is None ==> line == at.old_lineno)
                    },
                    Row::FileHeader(f) => fi == f && line is None,
                    _ => false,
                }
            },
        },
    decreases s.rows.len() - i,
{
    if i >= s.rows.len() || s.rows[i] is Line || s.rows[i] is FileHeader {
        i
    } else {
        lemma_place(s, files, i + 1)
    }
}

/// Viewing and editing open the file of the first line or header at or below the
/// cursor, at the number the line has on the new side, or else the old one; a
/// header opens the file at its top.
pub proof fn lemma_opening_a_file(app: AppView, r: ReviewView, now: u64) -> (k: int)
    requires
        r.stream.cursor <= r.stream.rows.len(),
    ensures
        ({
            let rows = r.stream.rows;
            let files = r.diff.files;
            let viewed = app.acted(r, Action::FileView, now).effects;
            let edited = app.acted(r, Action::OpenEditor, now).effects;
            if r.stream.place_from(files, r.stream.cursor as int) is None {
                &&& viewed.len() == 0 && edited.len() == 0
                &&& forall|j: int|
                    r.stream.cursor <= j < rows.len() ==> !((#[trigger] rows[j]) is Line) && !(
                    rows[j] is FileHeader)
            } else {
                &&& r.stream.cursor <= k < rows.len()
                &&& forall|j: int|
                    r.stream.cursor <= j < k ==> !((#[trigger] rows[j]) is Line) && !(
                    rows[j] is FileHeader)
                &&& match rows[k] {
                    Row::Line { file, hunk, line: l, .. } => {
                        let at = files[file as int].hunks[hunk as int].lines[l as int];
                        let n = if at.new_lineno is Some {
                            at.new_lineno
                        } else {
                            at.old_lineno
                        };
                        let path = files[file as int].path;
                        n matches Some(x) ==> x > 0 ==> viewed == seq![
                            EffectView::ReadFile { path, target: Some((x - 1) as usize) },
                        ] && edited == seq![EffectView::OpenEditor { path, line: x as usize }]
                    },
                    Row::FileHeader(f) => viewed == seq![
                        EffectView::ReadFile { path: files[f as int].path, target: None },
                    ] && edited == seq![
                        EffectView::OpenEditor { path: files[f as int].path, line: 1 },
                    ],
                    _ => false,
                }
            }
        }),
{
    lemma_place(r.stream, r.diff.files, r.stream.cursor as int)
}

/// Enter on a stub asks for the file it stands for, in the open scope and under
/// the current number, so that its answer is taken.
pub proof fn lemma_loading_a_stub(app: AppView, r: ReviewView, fi: usize, now: u64)
    requires
        r.focus != Focus::Tree,
        r.stream.stub_at_cursor() == Some(fi),
        fi < r.diff.files.len(),
    ensures
        ({
            let f = r.diff.files[fi as int];
            app.acted(r, Action::Activate, now).effects == seq![
                EffectView::Load(
                    RequestView::File {
                        seq: app.seq,
                        scope: r.scope,
                        path: f.path,
                        old_path: None,
                        kind: FileLoadKind::Stub { untracked_dir: f.untracked_dir },
                    },
                ),
            ]
        }),
{
}

/// A draft says where it goes: the path, and the line or the lines.
pub proof fn lemma_drafts(t: TargetView, c: CommentView)
    ensures
        keys::new_draft(t).target == Some(t),
        keys::new_draft(t).editing is None,
        keys::new_draft(t).editor.text.len() == 0,
        t.path.is_prefix_of(keys::new_draft(t).label),
        keys::edit_draft(c).editing == Some(c.id),
        keys::edit_draft(c).editor.text == c.body,
        c.path.is_suffix_of(keys::edit_draft(c).label),
{
    let a = keys::new_draft(t).label;
    assert(a.take(t.path.len() as int) =~= t.path);
    let b = keys::edit_draft(c).label;
    assert(b.skip(b.len() - c.path.len()) =~= c.path);
}

} // verus!
