use gittre::app::date::{date, today_string, Date};
use gittre::app::events::EditorReply;
use gittre::app::input::{
    choose_editor, edit_single_line, paste_line, split_words, target_label, SingleLineInput,
};
use gittre::app::layout::{
    adaptive_tree_width, resize_notice, resized_tree_width, TreeResizeResult,
};
use gittre::app::mouse::MouseKind;
use gittre::app::review::{Focus, ReviewState};
use gittre::app::state::{App, Effect, Overlay, Screen};
use gittre::event::{AppEvent, FileLoadKind, LoadRequest, ScopeCounts};
use gittre::git::diff::{DiffLine, DiffResult, FileDiff, FileStatus, Hunk};
use gittre::git::log::{commit_log, CommitInfo};
use gittre::git::scope::{Oid, Scope};
use gittre::keymap::{KeyCode, KeyModifiers};
use gittre::store::{CommentStore, StoreState};
use gittre::ui::fileview::FileView;
use gittre::ui::review::CommentTarget;
use gittre::ui::style::{Rect, StyledLine};

// ---- helpers ----------------------------------------------------------------

fn line(origin: char, old: Option<u32>, new: Option<u32>, content: &str) -> DiffLine {
    DiffLine {
        origin,
        old_lineno: old,
        new_lineno: new,
        content: content.into(),
        expanded_context: false,
    }
}

fn file(path: &str, lines: Vec<DiffLine>) -> FileDiff {
    let additions = lines.iter().filter(|l| l.origin == '+').count();
    FileDiff {
        path: path.into(),
        old_path: None,
        status: FileStatus::Modified,
        binary: false,
        large: false,
        byte_size: 0,
        untracked_dir: false,
        full_context: false,
        hunks: vec![Hunk {
            header: "@@ @@".into(),
            lines,
        }],
        additions,
        deletions: 0,
    }
}

fn stub(path: &str, untracked_dir: bool) -> FileDiff {
    FileDiff {
        large: !untracked_dir,
        untracked_dir,
        hunks: vec![],
        ..file(path, vec![])
    }
}

fn sample() -> DiffResult {
    DiffResult::from_files(vec![
        file(
            "a.rs",
            vec![
                line(' ', Some(10), Some(10), "fn main() {"),
                line('+', None, Some(11), "    let answer = 42;"),
                line('+', None, Some(12), "    let other = 7;"),
            ],
        ),
        file("b.rs", vec![line('+', None, Some(1), "mod tests;")]),
    ])
}

fn keys() -> KeyModifiers {
    KeyModifiers::none()
}

fn press(app: &mut App, c: char) -> Vec<Effect> {
    app.on_key(KeyCode::Char(c), keys(), 0)
}

fn code(app: &mut App, code: KeyCode) -> Vec<Effect> {
    app.on_key(code, keys(), 0)
}

fn type_text(app: &mut App, text: &str) {
    for c in text.chars() {
        assert!(press(app, c).is_empty());
    }
}

fn review(app: &App) -> &ReviewState {
    match &app.screen {
        Screen::Review(r) => r,
        _ => panic!("no review is open"),
    }
}

fn review_mut(app: &mut App) -> &mut ReviewState {
    match &mut app.screen {
        Screen::Review(r) => r,
        _ => panic!("no review is open"),
    }
}

fn opened(diff: DiffResult) -> App {
    let (mut app, _) = App::new(
        "repo".into(),
        Some(Scope::Uncommitted),
        None,
        CommentStore::empty(),
    );
    let seq = app.seq;
    let effects = app.on_app_event(
        AppEvent::Diff {
            seq,
            scope: Scope::Uncommitted,
            diff: Ok(diff),
        },
        0,
    );
    assert!(effects.is_empty());
    review_mut(&mut app).stream.set_viewport(Rect {
        x: 0,
        y: 0,
        width: 80,
        height: 20,
    });
    app
}

fn the_save(effects: &[Effect]) -> &StoreState {
    match effects {
        [Effect::Save(state)] => state,
        _ => panic!("expected one save"),
    }
}

fn with_comment(body: &str) -> App {
    let mut app = opened(sample());
    review_mut(&mut app).stream.set_cursor(3);
    press(&mut app, 'c');
    type_text(&mut app, body);
    let effects = code(&mut app, KeyCode::Enter);
    assert_eq!(the_save(&effects).comments.len(), 1);
    assert!(app.on_saved(Ok(())).is_empty());
    app
}

fn text_of(line: &StyledLine) -> String {
    line.spans.iter().map(|s| s.text.as_str()).collect()
}

fn hints(app: &App, width: u16) -> Vec<String> {
    app.hints(width)
        .iter()
        .map(|h| format!("{} {}", h.key, h.desc))
        .collect()
}

// ---- layout -----------------------------------------------------------------

#[test]
fn tree_grows_on_wide_screens_but_preserves_diff_space() {
    assert_eq!(adaptive_tree_width(80, None, 90), 30);
    assert_eq!(adaptive_tree_width(80, None, 160), 64);
    assert_eq!(adaptive_tree_width(100, None, 240), 72);
}

#[test]
fn short_trees_do_not_waste_wide_screen_space() {
    assert_eq!(adaptive_tree_width(18, None, 200), 26);
}

#[test]
fn manual_width_can_exceed_auto_caps_but_preserves_diff_space() {
    assert_eq!(adaptive_tree_width(18, Some(100), 200), 100);
    assert_eq!(adaptive_tree_width(18, Some(180), 200), 140);
    assert_eq!(adaptive_tree_width(18, Some(8), 200), 16);
    assert_eq!(adaptive_tree_width(18, Some(40), 70), 10);
}

#[test]
fn resize_reports_each_width_limit_precisely() {
    assert_eq!(
        resized_tree_width(18, Some(40), 70, false),
        TreeResizeResult::TerminalTooNarrow
    );
    assert_eq!(
        resized_tree_width(18, Some(16), 200, false),
        TreeResizeResult::AtMinimum
    );
    assert_eq!(
        resized_tree_width(18, Some(140), 200, true),
        TreeResizeResult::AtMaximum
    );
    assert_eq!(
        resized_tree_width(18, None, 160, true),
        TreeResizeResult::Changed(30)
    );
    assert_eq!(
        resize_notice(TreeResizeResult::AtMinimum),
        Some("tree is already at minimum width")
    );
    assert_eq!(
        resize_notice(TreeResizeResult::AtMaximum),
        Some("tree is already at maximum width")
    );
    assert_eq!(
        resize_notice(TreeResizeResult::TerminalTooNarrow),
        Some("terminal too narrow to resize panes")
    );
}

#[test]
fn single_line_input_shares_edit_submit_and_cancel_behavior() {
    let mut input = "ab".to_string();
    assert!(matches!(
        edit_single_line(&mut input, KeyCode::Backspace),
        SingleLineInput::Continue
    ));
    assert_eq!(input, "a");
    edit_single_line(&mut input, KeyCode::Char('z'));
    assert_eq!(input, "az");
    assert!(matches!(
        edit_single_line(&mut input, KeyCode::Enter),
        SingleLineInput::Submit
    ));
    assert!(matches!(
        edit_single_line(&mut input, KeyCode::Esc),
        SingleLineInput::Cancel
    ));
}

#[test]
fn pasted_prompts_stay_on_one_line() {
    let mut input = "a".to_string();
    paste_line(&mut input, "b\r\nc\n");
    assert_eq!(input, "abc");
}

#[test]
fn dates_follow_the_calendar() {
    assert_eq!(today_string(0), "1970-01-01");
    assert_eq!(today_string(951_782_399), "2000-02-28");
    assert_eq!(today_string(951_782_400), "2000-02-29");
    assert_eq!(today_string(951_868_800), "2000-03-01");
    assert_eq!(today_string(4_107_542_400), "2100-03-01");
    assert_eq!(today_string(1_735_689_599), "2024-12-31");
    assert_eq!(
        date(20_454),
        Date {
            year: 2026,
            month: 1,
            day: 1
        }
    );
}

#[test]
fn targets_and_editors_are_labelled() {
    let mut t = CommentTarget {
        path: "a.rs".into(),
        new_side: true,
        lines: (3, 3),
        snippet: vec![],
    };
    assert_eq!(target_label(&t), "a.rs:3");
    t.lines = (3, 5);
    assert_eq!(target_label(&t), "a.rs:3-5");
    assert_eq!(choose_editor(Some(""), Some("nano")), "nano");
    assert_eq!(choose_editor(Some("code -w"), Some("nano")), "code -w");
    assert_eq!(choose_editor(None, None), "vi");
    assert_eq!(split_words("  code  -w "), ["code", "-w"]);
    assert!(split_words(" ").is_empty());
}

// ---- comment persistence ----------------------------------------------------

fn store_with(comments: &[(u32, &str)]) -> CommentStore {
    let mut store = CommentStore::empty();
    for (line, body) in comments {
        let state = store
            .add(
                "a.rs".into(),
                true,
                (*line, *line),
                vec![format!("+line {line}")],
                (*body).into(),
                "test".into(),
                0,
            )
            .unwrap();
        store.commit_state(state);
    }
    store
}

fn lines_at(numbers: &[(u32, u32)]) -> DiffResult {
    DiffResult::from_files(vec![file(
        "a.rs",
        numbers
            .iter()
            .map(|(name, at)| line('+', None, Some(*at), &format!("line {name}")))
            .collect(),
    )])
}

#[test]
fn comment_persistence_failure_does_not_block_a_fresh_review() {
    let mut store = store_with(&[(11, "note")]);
    let diff = lines_at(&[(11, 14)]);
    assert!(ReviewState::unsaved(&diff, &store).is_some());

    let (review, warning) =
        ReviewState::new(Scope::Uncommitted, diff, &mut store, Err("disk full".into()));

    assert_eq!(review.diff.files.len(), 1);
    assert!(!review.stream.has_comments());
    assert!(warning.unwrap().contains("inline comments hidden"));
    assert_eq!(store.comments()[0].lines, (11, 11));
}

#[test]
fn failed_rebuild_never_keeps_rows_for_an_old_comment_vector() {
    let mut store = store_with(&[(11, "first"), (12, "second")]);
    let diff = lines_at(&[(11, 11), (12, 12)]);
    let (mut review, warning) = ReviewState::new(Scope::Uncommitted, diff, &mut store, Ok(()));
    assert!(warning.is_none());
    assert!(review.stream.has_comments());

    let state = store.delete(1).unwrap();
    store.commit_state(state);
    review.diff.files[0].hunks[0].lines[1].new_lineno = Some(15);

    let next = review.again();
    assert!(next.unsaved(&store).is_some());
    let warning = review.finish(next, &mut store, Err("disk full".into()));

    assert!(warning.unwrap().contains("inline comments hidden"));
    assert!(!review.stream.has_comments());
    assert_eq!(store.comments().len(), 1);
}

#[test]
fn moved_comments_are_saved_before_they_show() {
    let store = store_with(&[(11, "note")]);
    let (mut app, _) = App::new("repo".into(), Some(Scope::Staged), None, store);
    let effects = app.on_app_event(
        AppEvent::Diff {
            seq: app.seq,
            scope: Scope::Staged,
            diff: Ok(lines_at(&[(11, 14)])),
        },
        0,
    );
    assert_eq!(the_save(&effects).comments[0].lines, (14, 14));
    assert!(matches!(app.screen, Screen::Picker(_)));
    assert!(app.on_saved(Ok(())).is_empty());
    assert!(review(&app).stream.has_comments());
    assert_eq!(app.store.comments()[0].lines, (14, 14));
    assert!(app.comment_warning.is_none());
}

// ---- the session ------------------------------------------------------------

#[test]
fn launch_asks_for_counts_or_opens_a_scope() {
    let (app, effects) = App::new(
        "repo".into(),
        None,
        Some("feature".into()),
        CommentStore::empty(),
    );
    assert!(matches!(
        effects.as_slice(),
        [Effect::Load(LoadRequest::Counts { seq: 1 })]
    ));
    match &app.screen {
        Screen::Picker(p) => {
            let titles: Vec<&str> = p.items.iter().map(|i| i.title.as_str()).collect();
            assert_eq!(
                titles,
                [
                    "Uncommitted changes",
                    "Staged changes",
                    "Branch vs fork point",
                    "Branch vs a base you pick…",
                    "A specific commit…"
                ]
            );
        }
        _ => panic!("no menu"),
    }
    let (app, effects) = App::new(
        "repo".into(),
        Some(Scope::Staged),
        None,
        CommentStore::empty(),
    );
    assert!(app.reloading);
    assert!(matches!(
        effects.as_slice(),
        [Effect::Load(LoadRequest::Diff {
            seq: 1,
            scope: Scope::Staged
        })]
    ));
    match &app.screen {
        Screen::Picker(p) => {
            assert_eq!(p.items.len(), 4);
            assert_eq!(p.items[2].detail, "no fork point detected");
        }
        _ => panic!("no menu"),
    }
}

#[test]
fn menu_opens_by_digit_key_and_click() {
    let (mut app, _) = App::new("repo".into(), None, None, CommentStore::empty());
    assert!(press(&mut app, '9').is_empty());
    let effects = press(&mut app, '2');
    assert!(matches!(
        effects.as_slice(),
        [Effect::Load(LoadRequest::Diff {
            seq: 2,
            scope: Scope::Staged
        })]
    ));
    assert!(matches!(
        press(&mut app, '3').as_slice(),
        [Effect::ListBases]
    ));
    code(&mut app, KeyCode::Down);
    assert!(matches!(
        code(&mut app, KeyCode::Enter).as_slice(),
        [Effect::ListCommits]
    ));
    if let Screen::Picker(p) = &mut app.screen {
        p.render(
            60,
            Rect {
                x: 1,
                y: 1,
                width: 58,
                height: 4,
            },
        );
    }
    assert!(matches!(
        app.on_mouse(MouseKind::LeftDown, 5, 1).as_slice(),
        [Effect::Load(LoadRequest::Diff {
            scope: Scope::Uncommitted,
            ..
        })]
    ));
    assert!(!app.quit);
    press(&mut app, 'q');
    assert!(app.quit);
}

#[test]
fn stale_answers_are_dropped() {
    let mut app = opened(sample());
    let effects = app.on_app_event(
        AppEvent::Diff {
            seq: app.seq + 1,
            scope: Scope::Uncommitted,
            diff: Err("late".into()),
        },
        0,
    );
    assert!(effects.is_empty());
    assert!(app.error.is_none());
    assert!(matches!(
        press(&mut app, 'q').as_slice(),
        [Effect::OpenPicker]
    ));
    let old = app.seq;
    let effects = app.show_picker(None);
    assert!(matches!(
        effects.as_slice(),
        [Effect::Load(LoadRequest::Counts { .. })]
    ));
    app.on_app_event(
        AppEvent::Diff {
            seq: old,
            scope: Scope::Uncommitted,
            diff: Ok(sample()),
        },
        0,
    );
    assert!(matches!(app.screen, Screen::Picker(_)));
    app.on_app_event(
        AppEvent::Counts {
            seq: app.seq,
            counts: ScopeCounts {
                uncommitted: 3,
                staged: 1,
                branch: None,
            },
        },
        0,
    );
    match &app.screen {
        Screen::Picker(p) => assert_eq!(p.items[0].detail, "3 files"),
        _ => panic!("no menu"),
    }
}

#[test]
fn a_comment_is_written_saved_and_shown() {
    let app = with_comment("looks good");
    assert!(app.overlay.is_none());
    let c = &app.store.comments()[0];
    assert_eq!(c.id, 1);
    assert_eq!(c.path, "a.rs");
    assert_eq!(c.lines, (11, 11));
    assert_eq!(c.snippet, ["+    let answer = 42;"]);
    assert_eq!(c.body, "looks good");
    assert_eq!(c.scope, "uncommitted changes");
    assert!(review(&app).stream.has_comments());
    assert!(text_of(&app.draw_title(9999)).contains("✎ 1"));
}

#[test]
fn a_failed_save_keeps_the_draft() {
    let mut app = opened(sample());
    review_mut(&mut app).stream.set_cursor(3);
    press(&mut app, 'c');
    type_text(&mut app, "draft");
    code(&mut app, KeyCode::Enter);
    assert!(app.on_saved(Err("disk full".into())).is_empty());
    assert_eq!(app.error.as_deref(), Some("disk full"));
    assert!(app.store.comments().is_empty());
    match &app.overlay {
        Some(Overlay::Comment(d)) => {
            assert_eq!(d.editor.as_str(), "draft");
            assert_eq!(d.label, "a.rs:11");
        }
        _ => panic!("the draft is gone"),
    }
}

#[test]
fn empty_comments_are_discarded_and_alt_enter_breaks_lines() {
    let mut app = opened(sample());
    review_mut(&mut app).stream.set_cursor(3);
    press(&mut app, 'c');
    assert!(code(&mut app, KeyCode::Enter).is_empty());
    assert_eq!(app.notice.as_deref(), Some("empty comment discarded"));
    assert!(app.overlay.is_none());

    press(&mut app, 'c');
    type_text(&mut app, "a");
    app.on_key(
        KeyCode::Enter,
        KeyModifiers {
            shift: false,
            control: false,
            alt: true,
        },
        0,
    );
    app.on_paste("b\r\nc");
    match &app.overlay {
        Some(Overlay::Comment(d)) => assert_eq!(d.editor.as_str(), "a\nb\nc"),
        _ => panic!("no editor"),
    }
    code(&mut app, KeyCode::Esc);
    assert!(app.overlay.is_none());
}

#[test]
fn comments_are_edited_deleted_and_restored() {
    let mut app = with_comment("first");
    press(&mut app, '}');
    press(&mut app, 'c');
    type_text(&mut app, "!");
    let effects = code(&mut app, KeyCode::Enter);
    assert_eq!(the_save(&effects).comments[0].body, "first!");
    app.on_saved(Ok(()));

    press(&mut app, '}');
    let effects = press(&mut app, 'd');
    assert!(the_save(&effects).comments.is_empty());
    assert_eq!(app.store.comments().len(), 1);
    app.on_saved(Ok(()));
    assert!(app.store.comments().is_empty());
    assert_eq!(
        app.notice.as_deref(),
        Some("deleted comment #1 (u restores)")
    );
    assert!(!review(&app).stream.has_comments());

    let effects = press(&mut app, 'u');
    assert_eq!(the_save(&effects).comments[0].body, "first!");
    app.on_saved(Ok(()));
    assert_eq!(app.notice.as_deref(), Some("restored 1 comment"));
    assert!(press(&mut app, 'u').is_empty());

    press(&mut app, 'D');
    assert!(matches!(app.overlay, Some(Overlay::ConfirmClear)));
    assert!(press(&mut app, 'n').is_empty());
    assert_eq!(app.store.comments().len(), 1);
    press(&mut app, 'D');
    press(&mut app, 'y');
    app.on_saved(Ok(()));
    assert_eq!(
        app.notice.as_deref(),
        Some("all comments deleted (u restores)")
    );
    let effects = press(&mut app, 'u');
    assert_eq!(the_save(&effects).comments[0].id, 1);
}

#[test]
fn search_finds_or_says_so() {
    let mut app = opened(sample());
    press(&mut app, '/');
    type_text(&mut app, "zzz");
    code(&mut app, KeyCode::Enter);
    assert_eq!(app.error.as_deref(), Some("no matches for ‘zzz’"));
    press(&mut app, '/');
    type_text(&mut app, "mod");
    code(&mut app, KeyCode::Enter);
    assert!(app.error.is_none());
    assert_eq!(review(&app).stream.current_file(), Some(1));
    assert!(hints(&app, 100).contains(&"Esc clear search".to_string()));
    code(&mut app, KeyCode::Esc);
    assert!(!review(&app).stream.has_search());
}

#[test]
fn export_is_previewed_copied_and_written() {
    let mut app = opened(sample());
    press(&mut app, 'e');
    assert_eq!(app.error.as_deref(), Some("no comments to export"));

    let mut app = with_comment("note");
    press(&mut app, 'e');
    let effects = press(&mut app, 'y');
    let copied = match effects.as_slice() {
        [Effect::Copy(text)] => text.clone(),
        _ => panic!("nothing copied"),
    };
    assert!(copied.starts_with("# Review comments — repo (1970-01-01)\n"));
    app.on_copied(Ok(()));
    assert_eq!(app.notice.as_deref(), Some("copied export markdown"));

    press(&mut app, 'w');
    let effects = code(&mut app, KeyCode::Enter);
    match effects.as_slice() {
        [Effect::WriteFile { path, content }] => {
            assert_eq!(path, "review-1970-01-01.md");
            assert_eq!(*content, copied);
        }
        _ => panic!("nothing written"),
    }
    app.on_written(Err("denied".into()));
    assert_eq!(app.error.as_deref(), Some("export failed: denied"));
    code(&mut app, KeyCode::Enter);
    app.on_written(Ok(()));
    assert_eq!(
        app.notice.as_deref(),
        Some("exported 1 comment to review-1970-01-01.md")
    );
    assert!(app.overlay.is_none());
}

#[test]
fn selections_are_copied_with_their_style() {
    let mut app = opened(sample());
    review_mut(&mut app).stream.set_cursor(3);
    press(&mut app, 'x');
    press(&mut app, 'x');
    assert!(hints(&app, 100).contains(&"y copy code".to_string()));
    match press(&mut app, 'Y').as_slice() {
        [Effect::Copy(text)] => {
            assert_eq!(text, "+    let answer = 42;\n+    let other = 7;\n")
        }
        _ => panic!("nothing copied"),
    }
    app.on_copied(Err("no display".into()));
    assert_eq!(app.error.as_deref(), Some("clipboard: no display"));
    assert!(review(&app).stream.has_selection());
    press(&mut app, 'Y');
    app.on_copied(Ok(()));
    assert_eq!(app.notice.as_deref(), Some("copied 2 lines as patch"));
    assert!(!review(&app).stream.has_selection());
}

#[test]
fn enter_expands_and_collapses_a_modified_file() {
    let mut app = opened(sample());
    let seq = app.seq;
    match code(&mut app, KeyCode::Enter).as_slice() {
        [Effect::Load(LoadRequest::File {
            seq: s, path, kind, ..
        })] => {
            assert_eq!(*s, seq);
            assert_eq!(path, "a.rs");
            assert_eq!(*kind, FileLoadKind::FullContext);
        }
        _ => panic!("nothing loaded"),
    }
    assert_eq!(
        app.notice.as_deref(),
        Some("loading full diff for a.rs…")
    );
    let full = file(
        "a.rs",
        vec![
            line(' ', Some(9), Some(9), "// more"),
            line(' ', Some(10), Some(10), "fn main() {"),
            line('+', None, Some(11), "    let answer = 42;"),
            line('+', None, Some(12), "    let other = 7;"),
        ],
    );
    app.on_app_event(
        AppEvent::File {
            seq,
            scope: Scope::Uncommitted,
            path: "a.rs".into(),
            kind: FileLoadKind::FullContext,
            files: Ok(vec![full]),
        },
        0,
    );
    assert_eq!(app.notice.as_deref(), Some("showing full diff for a.rs"));
    let shown = &review(&app).diff.files[0].hunks[0].lines;
    assert_eq!(shown.len(), 4);
    assert!(shown[0].expanded_context && !shown[1].expanded_context);

    // Lines that only the expansion shows take no comments.
    review_mut(&mut app).stream.set_cursor(2);
    press(&mut app, 'c');
    assert_eq!(
        app.error.as_deref(),
        Some("comments require a line in the original diff")
    );
    assert!(app.overlay.is_none());

    // The choice survives a reload.
    let effects = press(&mut app, 'r');
    assert_eq!(effects.len(), 1);
    let effects = app.on_app_event(
        AppEvent::Diff {
            seq: app.seq,
            scope: Scope::Uncommitted,
            diff: Ok(sample()),
        },
        5000,
    );
    assert!(matches!(
        effects.as_slice(),
        [Effect::Load(LoadRequest::File {
            kind: FileLoadKind::FullContext,
            ..
        })]
    ));
    assert!(text_of(&app.draw_title(6499)).ends_with("↻ reloaded"));
    assert!(!text_of(&app.draw_title(6500)).contains("reloaded"));

    assert!(code(&mut app, KeyCode::Enter).is_empty());
    assert_eq!(app.notice.as_deref(), Some("collapsed full diff context"));
    assert_eq!(review(&app).diff.files[0].hunks[0].lines.len(), 3);
}

#[test]
fn a_file_that_changed_in_flight_is_refused() {
    let mut app = opened(sample());
    code(&mut app, KeyCode::Enter);
    app.on_app_event(
        AppEvent::File {
            seq: app.seq,
            scope: Scope::Uncommitted,
            path: "a.rs".into(),
            kind: FileLoadKind::FullContext,
            files: Ok(vec![file("a.rs", vec![line('+', None, Some(1), "other")])]),
        },
        0,
    );
    assert_eq!(
        app.error.as_deref(),
        Some("a.rs changed since this review snapshot; press r to reload")
    );
    assert_eq!(review(&app).diff.files[0].hunks[0].lines.len(), 3);
    code(&mut app, KeyCode::Enter);
    app.on_app_event(
        AppEvent::File {
            seq: app.seq,
            scope: Scope::Uncommitted,
            path: "a.rs".into(),
            kind: FileLoadKind::FullContext,
            files: Ok(vec![]),
        },
        0,
    );
    assert_eq!(app.error.as_deref(), Some("no diff returned for a.rs"));
}

#[test]
fn stubs_load_what_they_stand_for() {
    let mut app = opened(DiffResult::from_files(vec![
        stub("big.txt", false),
        stub("vendor", true),
    ]));
    press(&mut app, 'j');
    assert_eq!(hints(&app, 100)[0], "⏎ expand");
    code(&mut app, KeyCode::Enter);
    assert_eq!(app.notice.as_deref(), Some("loading diff for big.txt…"));
    press(&mut app, ']');
    press(&mut app, 'j');
    match code(&mut app, KeyCode::Enter).as_slice() {
        [Effect::Load(LoadRequest::File { path, kind, .. })] => {
            assert_eq!(path, "vendor");
            assert_eq!(
                *kind,
                FileLoadKind::Stub {
                    untracked_dir: true
                }
            );
        }
        _ => panic!("nothing loaded"),
    }
    assert_eq!(app.notice.as_deref(), Some("listing vendor/…"));
    app.on_app_event(
        AppEvent::File {
            seq: app.seq,
            scope: Scope::Uncommitted,
            path: "vendor".into(),
            kind: FileLoadKind::Stub {
                untracked_dir: true,
            },
            files: Ok(vec![
                file("vendor/b.rs", vec![line('+', None, Some(1), "b")]),
                file("vendor/a.rs", vec![line('+', None, Some(1), "a")]),
            ]),
        },
        0,
    );
    let paths: Vec<&str> = review(&app)
        .diff
        .files
        .iter()
        .map(|f| f.path.as_str())
        .collect();
    assert_eq!(paths, ["vendor/a.rs", "vendor/b.rs", "big.txt"]);
}

#[test]
fn reloads_keep_the_reading_position() {
    let mut app = opened(sample());
    press(&mut app, ']');
    press(&mut app, 'j');
    assert_eq!(review(&app).stream.current_file(), Some(1));
    let grown = DiffResult::from_files(vec![
        file(
            "a.rs",
            (1..=30)
                .map(|n| line('+', None, Some(n), "more"))
                .collect(),
        ),
        file("b.rs", vec![line('+', None, Some(1), "mod tests;")]),
    ]);
    press(&mut app, 'r');
    assert!(app.reloading);
    app.on_app_event(
        AppEvent::Diff {
            seq: app.seq,
            scope: Scope::Uncommitted,
            diff: Ok(grown),
        },
        0,
    );
    assert!(!app.reloading);
    assert_eq!(review(&app).stream.current_file(), Some(1));
    assert_eq!(review(&app).tree.selected, 1);
}

#[test]
fn the_tree_is_picked_from_and_resized() {
    let mut app = opened(sample());
    review_mut(&mut app).rendered_review_width = 160;
    code(&mut app, KeyCode::Tab);
    assert_eq!(review(&app).focus, Focus::Tree);
    assert!(hints(&app, 100).contains(&"</>/= tree width".to_string()));
    press(&mut app, 'j');
    code(&mut app, KeyCode::Enter);
    assert_eq!(review(&app).focus, Focus::Stream);
    assert_eq!(review(&app).stream.current_file(), Some(1));
    press(&mut app, '>');
    assert_eq!(review(&app).tree_width, Some(30));
    press(&mut app, '=');
    assert_eq!(review(&app).tree_width, None);
    press(&mut app, 't');
    assert!(!review(&app).show_tree);
    review_mut(&mut app).rendered_review_width = 60;
    press(&mut app, '<');
    assert!(review(&app).show_tree);
    assert_eq!(
        app.notice.as_deref(),
        Some("terminal too narrow to resize panes")
    );
}

#[test]
fn escape_peels_back_one_layer_at_a_time() {
    let mut app = opened(sample());
    press(&mut app, '/');
    type_text(&mut app, "let");
    code(&mut app, KeyCode::Enter);
    press(&mut app, 'v');
    code(&mut app, KeyCode::Tab);
    assert!(code(&mut app, KeyCode::Esc).is_empty());
    assert!(!review(&app).stream.has_selection());
    assert!(review(&app).stream.has_search());
    code(&mut app, KeyCode::Esc);
    assert!(!review(&app).stream.has_search());
    code(&mut app, KeyCode::Esc);
    assert_eq!(review(&app).focus, Focus::Stream);
    assert!(matches!(
        code(&mut app, KeyCode::Esc).as_slice(),
        [Effect::OpenPicker]
    ));
}

#[test]
fn files_are_paged_and_handed_to_an_editor() {
    let mut app = opened(sample());
    review_mut(&mut app).stream.set_cursor(3);
    match press(&mut app, 'o').as_slice() {
        [Effect::ReadFile { path, target }] => {
            assert_eq!(path, "a.rs");
            assert_eq!(*target, Some(10));
        }
        _ => panic!("nothing read"),
    }
    let content: String = (1..=40).map(|n| format!("{n}\n")).collect();
    app.on_file(Ok(FileView::with_colors(
        "a.rs".into(),
        "working tree".into(),
        &content,
        Some(10),
        None,
    )));
    assert_eq!(hints(&app, 100)[3], "q back to diff");
    match press(&mut app, 'E').as_slice() {
        [Effect::OpenEditor { path, line }] => {
            assert_eq!(path, "a.rs");
            assert_eq!(*line, 8);
        }
        _ => panic!("no editor"),
    }
    press(&mut app, 'g');
    assert_eq!(hints(&app, 100), ["gg top", "ge bottom", "other cancel"]);
    press(&mut app, 'g');
    press(&mut app, 'q');
    assert!(review(&app).file_view.is_none());
    match press(&mut app, 'E').as_slice() {
        [Effect::OpenEditor { line, .. }] => assert_eq!(*line, 11),
        _ => panic!("no editor"),
    }
    app.on_editor(EditorReply::NotOnDisk {
        path: "a.rs".into(),
    });
    assert_eq!(
        app.error.as_deref(),
        Some("a.rs is not on disk (deleted or historical)")
    );
    app.on_editor(EditorReply::NoWorkdir);
    assert_eq!(app.error.as_deref(), Some("no working directory"));
    app.on_editor(EditorReply::Failed("vi exited with 1".into()));
    assert_eq!(app.error.as_deref(), Some("vi exited with 1"));
    assert!(matches!(
        app.on_editor(EditorReply::Done).as_slice(),
        [Effect::Load(LoadRequest::Diff { .. })]
    ));
}

#[test]
fn the_bar_teaches_the_primary_keys() {
    let app = opened(sample());
    assert_eq!(
        hints(&app, 100),
        [
            "j/k scroll",
            "]/[ file",
            "⏎ show full diff",
            "/ search",
            "r reload",
            "c comment",
            "Tab pick file",
            "t hide tree",
            "q scope",
            "? help"
        ]
    );
    let narrow = hints(&app, 69);
    assert!(!narrow.iter().any(|h| h.contains("tree") || h.contains("pick")));
    assert!(narrow.contains(&"q scope".to_string()));
}

#[test]
fn lists_answer_and_open() {
    let (mut app, _) = App::new("repo".into(), None, None, CommentStore::empty());
    app.on_bases(vec![]);
    assert_eq!(
        app.error.as_deref(),
        Some("only one branch and no upstream — nothing to compare")
    );
    app.on_bases(vec!["main".into(), "dev".into()]);
    press(&mut app, 'j');
    match code(&mut app, KeyCode::Enter).as_slice() {
        [Effect::Load(LoadRequest::Diff {
            scope: Scope::Branch { base },
            ..
        })] => assert_eq!(base, "dev"),
        _ => panic!("nothing opened"),
    }
    app.on_commits(Ok(vec![]));
    assert_eq!(app.error.as_deref(), Some("no commits yet"));
    let log = commit_log(
        &[
            CommitInfo {
                id: Oid {
                    hex: "a".repeat(40),
                },
                summary: Some("tip".into()),
                author: None,
                time: 0,
            },
            CommitInfo {
                id: Oid {
                    hex: "b".repeat(40),
                },
                summary: None,
                author: None,
                time: 0,
            },
        ],
        0,
    );
    app.on_commits(Ok(log));
    assert!(hints(&app, 100).contains(&"Space mark range start".to_string()));
    press(&mut app, ' ');
    press(&mut app, 'G');
    match code(&mut app, KeyCode::Enter).as_slice() {
        [Effect::Load(LoadRequest::Diff {
            scope: Scope::Range { from, to },
            ..
        })] => {
            assert_eq!(from.short(), "aaaaaaa");
            assert_eq!(to.short(), "bbbbbbb");
        }
        _ => panic!("nothing opened"),
    }
    app.on_commits(Err("broken".into()));
    assert_eq!(app.error.as_deref(), Some("broken"));
    assert!(matches!(
        press(&mut app, 'q').as_slice(),
        [Effect::OpenPicker]
    ));
}

#[test]
fn the_wheel_scrolls_what_is_under_it() {
    let mut app = opened(sample());
    review_mut(&mut app).tree.placed(
        Rect {
            x: 0,
            y: 0,
            width: 20,
            height: 10,
        },
        0,
    );
    code(&mut app, KeyCode::Tab);
    app.on_mouse(MouseKind::ScrollDown, 3, 1);
    assert_eq!(review(&app).tree.selected, 1);
    app.on_mouse(MouseKind::LeftDown, 3, 0);
    assert_eq!(review(&app).focus, Focus::Stream);
    assert_eq!(review(&app).stream.current_file(), Some(0));
    press(&mut app, '?');
    app.on_mouse(MouseKind::ScrollDown, 0, 0);
    assert!(matches!(app.overlay, Some(Overlay::Help { scroll: 3 })));
    app.on_mouse(MouseKind::LeftDown, 0, 0);
    assert!(app.overlay.is_none());
}

#[test]
fn control_c_quits_from_anywhere() {
    let mut app = opened(sample());
    press(&mut app, '/');
    app.on_key(
        KeyCode::Char('c'),
        KeyModifiers {
            shift: false,
            control: true,
            alt: false,
        },
        0,
    );
    assert!(app.quit);
}
