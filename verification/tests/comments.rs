use gittre::comments::{placements_for_display, reanchor, snippet_text, Anchor, Comment, Placed};
use gittre::git::diff::{DiffLine, DiffResult, FileDiff, FileStatus, Hunk};
use gittre::markdown::export_markdown;
use gittre::store::{CommentStore, StoreState};

fn added(n: u32, content: &str) -> DiffLine {
    DiffLine {
        origin: '+',
        old_lineno: None,
        new_lineno: Some(n),
        content: content.into(),
        expanded_context: false,
    }
}

fn diff_of(path: &str, hunks: Vec<Vec<DiffLine>>) -> DiffResult {
    let additions = hunks.iter().map(|h| h.len()).sum();
    DiffResult {
        files: vec![FileDiff {
            path: path.into(),
            old_path: None,
            status: FileStatus::Modified,
            binary: false,
            large: false,
            byte_size: 0,
            untracked_dir: false,
            full_context: false,
            hunks: hunks
                .into_iter()
                .map(|lines| Hunk {
                    header: "@@ @@".into(),
                    lines,
                })
                .collect(),
            additions,
            deletions: 0,
        }],
        additions,
        deletions: 0,
    }
}

fn diff_with(path: &str, new_linenos: &[u32]) -> DiffResult {
    diff_of(
        path,
        vec![new_linenos
            .iter()
            .map(|&n| added(n, &format!("line {n}")))
            .collect()],
    )
}

fn comment(path: &str, end_line: u32) -> Comment {
    Comment {
        id: 1,
        path: path.into(),
        new_side: true,
        lines: (end_line, end_line),
        snippet: vec![format!("+line {end_line}")],
        body: "note".into(),
        created_at: 0,
        scope: "test".into(),
        outdated: false,
    }
}

#[test]
fn exact_anchor_stays_put() {
    let diff = diff_with("a.rs", &[10, 11, 12]);
    let mut comments = vec![comment("a.rs", 11)];
    let (placed, changed) = reanchor(&diff, &mut comments);
    assert!(matches!(
        placed[0].anchor,
        Anchor::Line { hunk: 0, line: 1 }
    ));
    assert!(!changed);
    assert_eq!(comments[0].lines, (11, 11));
}

#[test]
fn moved_content_updates_stored_lines() {
    // "line 11" now lives at line 14 (content is keyed by the snippet).
    let diff = diff_of(
        "a.rs",
        vec![vec![
            added(13, "line 10"),
            added(14, "line 11"),
            added(15, "line 12"),
        ]],
    );
    let mut comments = vec![comment("a.rs", 11)];
    let (placed, changed) = reanchor(&diff, &mut comments);
    assert!(matches!(
        placed[0].anchor,
        Anchor::Line { hunk: 0, line: 1 }
    ));
    assert!(changed);
    assert_eq!(comments[0].lines, (14, 14), "range shifted with the move");
    assert!(!comments[0].outdated);
}

#[test]
fn multi_line_anchor_matches_the_whole_same_side_snippet() {
    let diff = diff_of(
        "a.rs",
        vec![vec![
            added(20, "other"),
            added(21, "}"),
            added(30, "unique"),
            added(31, "}"),
        ]],
    );
    let mut c = comment("a.rs", 21);
    c.lines = (20, 21);
    c.snippet = vec!["+unique".into(), "+}".into()];
    let mut comments = vec![c];

    let (placed, changed) = reanchor(&diff, &mut comments);

    assert!(matches!(
        placed[0].anchor,
        Anchor::Line { hunk: 0, line: 3 }
    ));
    assert!(changed);
    assert_eq!(comments[0].lines, (30, 31));
}

#[test]
fn multi_line_anchor_never_spans_hunks_or_line_gaps() {
    let mut diff = diff_of("a.rs", vec![vec![added(40, "foo")], vec![added(400, "bar")]]);
    diff.files[0].hunks[0].header = "@@ -40 +40 @@".into();
    diff.files[0].hunks[1].header = "@@ -400 +400 @@".into();
    let mut c = comment("a.rs", 11);
    c.lines = (10, 11);
    c.snippet = vec!["+foo".into(), "+bar".into()];
    let mut comments = vec![c];

    let (placed, changed) = reanchor(&diff, &mut comments);

    assert!(matches!(placed[0].anchor, Anchor::Outdated));
    assert!(changed);
    assert_eq!(comments[0].lines, (10, 11));
}

#[test]
fn vanished_content_goes_outdated_and_can_recover() {
    let diff = diff_with("a.rs", &[10, 11]);
    let mut comments = vec![comment("a.rs", 99)];
    let (placed, changed) = reanchor(&diff, &mut comments);
    assert!(matches!(placed[0].anchor, Anchor::Outdated));
    assert!(changed);
    assert!(comments[0].outdated);

    // The content comes back: comment recovers to live.
    let diff = diff_with("a.rs", &[97, 98, 99]);
    let (placed, changed) = reanchor(&diff, &mut comments);
    assert!(matches!(placed[0].anchor, Anchor::Line { .. }));
    assert!(changed, "outdated flag cleared");
    assert!(!comments[0].outdated);
}

#[test]
fn blank_snippet_never_matches_by_content() {
    let mut c = comment("a.rs", 99);
    c.snippet = vec!["+".into()];
    let diff = diff_of("a.rs", vec![vec![added(5, "")]]);
    let mut comments = vec![c];
    let (placed, _) = reanchor(&diff, &mut comments);
    assert!(matches!(placed[0].anchor, Anchor::Outdated));
}

#[test]
fn skips_files_not_in_diff() {
    let diff = diff_with("a.rs", &[10]);
    let mut comments = vec![comment("other.rs", 10)];
    let (placed, _) = reanchor(&diff, &mut comments);
    assert!(placed.is_empty());
    assert!(!comments[0].outdated, "untouched when file absent");
}

#[test]
fn the_nearest_of_several_moves_wins_and_the_first_of_equals() {
    let diff = diff_of(
        "a.rs",
        vec![vec![
            added(1, "x"),
            added(6, "x"),
            added(14, "x"),
            added(30, "x"),
        ]],
    );
    let mut c = comment("a.rs", 10);
    c.lines = (9, 10);
    c.snippet = vec!["+x".into()];
    let mut comments = vec![c];
    let (placed, changed) = reanchor(&diff, &mut comments);
    assert!(changed);
    assert!(matches!(placed[0].anchor, Anchor::Line { hunk: 0, line: 1 }));
    assert_eq!(comments[0].lines, (5, 6));
    // Again: nothing more to do.
    let (again, changed) = reanchor(&diff, &mut comments);
    assert!(!changed);
    assert_eq!(placed, again);
}

#[test]
fn a_shifted_range_starts_at_one_at_the_least() {
    let diff = diff_of("a.rs", vec![vec![added(2, "x")]]);
    let mut c = comment("a.rs", 20);
    c.lines = (5, 20);
    c.snippet = vec!["+x".into()];
    let mut comments = vec![c];
    reanchor(&diff, &mut comments);
    assert_eq!(comments[0].lines, (1, 2));
}

#[test]
fn signs_are_stripped_once() {
    assert_eq!(snippet_text("+-x"), "-x");
    assert_eq!(snippet_text(" x"), "x");
    assert_eq!(snippet_text("x"), "x");
    assert_eq!(snippet_text(""), "");
}

#[test]
fn the_old_side_looks_at_old_lines_only() {
    let mut diff = diff_with("a.rs", &[3]);
    diff.files[0].hunks[0].lines.push(DiffLine {
        origin: '-',
        old_lineno: Some(3),
        new_lineno: None,
        content: "gone".into(),
        expanded_context: false,
    });
    let mut c = comment("a.rs", 3);
    c.new_side = false;
    c.snippet = vec!["-gone".into(), "+line 3".into()];
    let mut comments = vec![c];
    let (placed, changed) = reanchor(&diff, &mut comments);
    assert!(!changed);
    assert!(matches!(placed[0].anchor, Anchor::Line { hunk: 0, line: 1 }));
}

#[test]
fn placements_follow_their_lines_into_an_expanded_file() {
    let canonical = diff_with("a.rs", &[10, 11]);
    let display = diff_with("a.rs", &[8, 9, 10, 11, 12]);
    let placed = [
        Placed {
            comment: 0,
            file: 0,
            anchor: Anchor::Line { hunk: 0, line: 1 },
        },
        Placed {
            comment: 1,
            file: 0,
            anchor: Anchor::Outdated,
        },
    ];
    let shown = placements_for_display(&canonical, &display, &placed);
    assert_eq!(shown[0].anchor, Anchor::Line { hunk: 0, line: 3 });
    assert_eq!(shown[1].anchor, Anchor::Outdated);
    let elsewhere = diff_with("b.rs", &[10]);
    assert!(placements_for_display(&canonical, &elsewhere, &placed).is_empty());
}

#[test]
fn export_groups_and_flags() {
    let mut a = comment("b.rs", 5);
    a.body = "second file".into();
    let mut b = comment("a.rs", 9);
    b.id = 2;
    b.body = "line one\nline two".into();
    b.outdated = true;
    let md = export_markdown(&[a, b], "demo", "2026-07-03");
    let a_pos = md.find("## a.rs").unwrap();
    let b_pos = md.find("## b.rs").unwrap();
    assert!(a_pos < b_pos, "files sorted");
    assert!(md.contains("⚠ outdated"));
    assert!(md.contains("```diff\n+line 9\n```"));
    assert!(md.contains("> line one\n> line two"));
}

#[test]
fn an_export_is_exactly_this() {
    let mut a = comment("a.rs", 9);
    a.lines = (7, 9);
    a.snippet = Vec::new();
    a.new_side = false;
    let b = comment("a.rs", 3);
    assert_eq!(
        export_markdown(&[a, b], "demo", "2026-07-03"),
        "# Review comments — demo (2026-07-03)\n\n## a.rs\n\n**L3** · _test_\n\n```diff\n+line 3\n```\n\n> note\n\n**L7–L9**, old side · _test_\n\n> note\n"
    );
    assert_eq!(
        export_markdown(&[], "demo", "today"),
        "# Review comments — demo (today)\n"
    );
}

fn note(store: &CommentStore, path: &str, lines: (u32, u32), snippet: &str, body: &str) -> StoreState {
    store
        .add(
            path.into(),
            true,
            lines,
            vec![snippet.into()],
            body.into(),
            "uncommitted changes".into(),
            7,
        )
        .unwrap()
}

#[test]
fn store_roundtrip() {
    let mut store = CommentStore::empty();
    let state = note(&store, "a.rs", (3, 5), "+x", "hello");
    store.commit_state(state);
    let reloaded = CommentStore::load(store.state());
    assert_eq!(reloaded.comments().len(), 1);
    assert_eq!(reloaded.comments()[0].body, "hello");
    assert_eq!(reloaded.comments()[0].id, 1);
    assert_eq!(reloaded.comments()[0].created_at, 7);

    let mut store = reloaded;
    let state = store.delete(1).unwrap();
    store.commit_state(state);
    assert!(CommentStore::load(store.state()).comments().is_empty());
    assert!(store.delete(1).is_none());
    assert!(store.delete_all().is_none());
}

#[test]
fn exhausted_comment_ids_fail_without_creating_a_duplicate() {
    let mut existing = comment("a.rs", 1);
    existing.id = u64::MAX;
    let store = CommentStore::load(StoreState {
        next_id: u64::MAX,
        comments: vec![existing],
    });
    let err = store
        .add(
            "b.rs".into(),
            true,
            (1, 1),
            vec!["+y".into()],
            "new".into(),
            "test".into(),
            0,
        )
        .unwrap_err();
    assert!(err.contains("comment id space exhausted"));
    assert_eq!(store.comments().len(), 1);
}

#[test]
fn failed_write_leaves_mutations_out_of_memory() {
    let mut store = CommentStore::empty();
    let state = note(&store, "a.rs", (1, 1), "+old", "original");
    store.commit_state(state);

    // The proposed states are never committed.
    assert_eq!(store.edit(1, "changed".into()).unwrap().comments[0].body, "changed");
    assert_eq!(store.comments()[0].body, "original");
    assert!(store.delete(1).unwrap().comments.is_empty());
    assert_eq!(store.comments().len(), 1);
    assert!(store.edit(2, "nobody".into()).is_none());
}

#[test]
fn failed_reanchor_write_keeps_stored_position() {
    let mut store = CommentStore::empty();
    let state = note(&store, "a.rs", (11, 11), "+line 11", "note");
    store.commit_state(state);
    let moved = diff_of("a.rs", vec![vec![added(14, "line 11")]]);
    let (placed, proposed) = store.reanchor(&moved);
    assert_eq!(placed.len(), 1);
    assert_eq!(proposed.unwrap().comments[0].lines, (14, 14));
    assert_eq!(store.comments()[0].lines, (11, 11));
}

#[test]
fn restore_after_delete_keeps_id_and_uniqueness() {
    let mut store = CommentStore::empty();
    let state = note(&store, "a.rs", (3, 5), "+x", "hello");
    store.commit_state(state);
    let deleted = store.comments()[0].clone();
    let state = store.delete(deleted.id).unwrap();
    store.commit_state(state);
    let state = store.restore(vec![deleted]).unwrap();
    store.commit_state(state);

    let reloaded = CommentStore::load(store.state());
    assert_eq!(reloaded.comments().len(), 1);
    assert_eq!(reloaded.comments()[0].id, 1);
    assert_eq!(reloaded.comments()[0].body, "hello");

    // Ids minted after a restore never collide with the restored one.
    let mut store = reloaded;
    let state = note(&store, "b.rs", (1, 1), "+y", "later");
    store.commit_state(state);
    assert_ne!(store.comments()[0].id, store.comments()[1].id);
    assert_eq!(store.count_for_path("b.rs"), 1);
    assert_eq!(store.count_for_path("c.rs"), 0);
    assert!(store.restore(Vec::new()).is_none());
}

#[test]
fn the_next_id_is_past_every_loaded_one() {
    let mut c = comment("a.rs", 1);
    c.id = 41;
    let store = CommentStore::load(StoreState {
        next_id: 0,
        comments: vec![c],
    });
    assert_eq!(store.state().next_id, 42);
    assert_eq!(
        CommentStore::load(StoreState {
            next_id: 0,
            comments: Vec::new()
        })
        .state()
        .next_id,
        1
    );
}
