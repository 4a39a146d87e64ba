use std::cmp::Ordering;

use gittre::git::context::{full_context_eligible, mark_expanded_context, same_changes};
use gittre::git::diff::{
    delta_status, load_file, tree_order, Collector, Delta, DiffLine, DiffResult, FileDelta,
    FileDiff, FileStatus, Hunk,
};

fn line(origin: char, old: Option<u32>, new: Option<u32>, content: &str) -> DiffLine {
    DiffLine {
        origin,
        old_lineno: old,
        new_lineno: new,
        content: content.into(),
        expanded_context: false,
    }
}

fn file(path: &str, lines: Vec<DiffLine>) -> FileDiff {
    let additions = lines.iter().filter(|l| l.origin == '+').count();
    let deletions = lines.iter().filter(|l| l.origin == '-').count();
    FileDiff {
        path: path.into(),
        old_path: None,
        status: FileStatus::Modified,
        binary: false,
        large: false,
        byte_size: 0,
        untracked_dir: false,
        full_context: false,
        hunks: vec![Hunk {
            header: "@@ @@".into(),
            lines,
        }],
        additions,
        deletions,
    }
}

#[test]
fn files_come_in_tree_order() {
    let paths = [
        "zeta/a.txt",     // dirs before root files, "zeta" after "docs"
        "docs/readme.md", // within docs: sub/ before files
        "docs/sub/x.txt",
        "a_root_file.txt",
    ];
    let mut sorted: Vec<&str> = paths.to_vec();
    sorted.sort_by(|a, b| tree_order(a, b));
    assert_eq!(
        sorted,
        [
            "docs/sub/x.txt",
            "docs/readme.md",
            "zeta/a.txt",
            "a_root_file.txt",
        ]
    );
    assert_eq!(tree_order("a.txt", "a.txt"), Ordering::Equal);
}

#[test]
fn a_diff_is_sorted_stably_and_totalled() {
    let mut twin = file("b.txt", vec![line('+', None, Some(1), "second")]);
    twin.binary = true;
    let diff = DiffResult::from_files(vec![
        file("b.txt", vec![line('+', None, Some(1), "first")]),
        twin,
        file("a/z.txt", vec![line('-', Some(1), None, "x")]),
    ]);
    let paths: Vec<&str> = diff.files.iter().map(|f| f.path.as_str()).collect();
    assert_eq!(paths, ["a/z.txt", "b.txt", "b.txt"]);
    assert!(!diff.files[1].binary && diff.files[2].binary);
    assert_eq!((diff.additions, diff.deletions), (2, 1));
    let empty = DiffResult::default();
    assert!(empty.files.is_empty());
    assert_eq!((empty.additions, empty.deletions), (0, 0));
}

#[test]
fn status_letters_and_delta_kinds() {
    assert_eq!(FileStatus::Modified.letter(), 'M');
    assert_eq!(FileStatus::Added.letter(), 'A');
    assert_eq!(FileStatus::Deleted.letter(), 'D');
    assert_eq!(FileStatus::Renamed.letter(), 'R');
    assert_eq!(FileStatus::Typechange.letter(), 'T');
    assert_eq!(delta_status(Delta::Untracked), FileStatus::Added);
    assert_eq!(delta_status(Delta::Copied), FileStatus::Added);
    assert_eq!(delta_status(Delta::Conflicted), FileStatus::Modified);
}

fn delta(path: &str, status: Delta, size: u64) -> FileDelta {
    FileDelta {
        new_path: Some(path.into()),
        old_path: Some("before.txt".into()),
        status,
        new_size: size,
        old_size: 3,
        new_binary: false,
        old_binary: true,
    }
}

#[test]
fn a_walk_is_collected_into_files() {
    let mut walk = Collector::new();
    walk.on_binary(); // nothing to mark yet
    walk.on_file(delta("renamed.txt", Delta::Renamed, 10));
    walk.on_hunk(b"@@ -1,2 +1,2 @@ f()  \n");
    walk.on_line('F', None, None, b"file header");
    walk.on_line('-', Some(1), None, b"old\r\n");
    walk.on_line('+', None, Some(1), b"caf\xc3\xa9\n");
    walk.on_line(' ', Some(2), Some(2), b"bad \xff\n");
    walk.on_file(delta("big.bin", Delta::Modified, 2_000_000));
    walk.on_binary();
    let diff = walk.finish();
    assert_eq!(diff.files.len(), 2);
    let big = &diff.files[0];
    assert_eq!(big.path, "big.bin");
    assert!(big.large && big.binary);
    assert_eq!(big.byte_size, 2_000_000);
    assert_eq!(big.old_path, None);
    let renamed = &diff.files[1];
    assert_eq!(renamed.old_path.as_deref(), Some("before.txt"));
    assert_eq!(renamed.status, FileStatus::Renamed);
    assert!(renamed.binary && !renamed.large);
    assert_eq!(renamed.hunks[0].header, "@@ -1,2 +1,2 @@ f()");
    let shown: Vec<&str> = renamed.hunks[0].lines.iter().map(|l| l.content.as_str()).collect();
    assert_eq!(shown, ["old", "café", "bad \u{fffd}"]);
    assert_eq!((diff.additions, diff.deletions), (1, 1));
}

#[test]
fn one_file_is_picked_out_of_a_load() {
    let mut stub = file("a.txt", vec![line('+', None, Some(1), "x")]);
    stub.large = true;
    let files = vec![stub];
    assert!(!load_file(&files, "a.txt", true).unwrap().large);
    assert!(load_file(&files, "a.txt", false).unwrap().large);
    assert_eq!(
        load_file(&files, "b.txt", true).unwrap_err(),
        "'b.txt' no longer in the diff"
    );
}

#[test]
fn expanded_lines_are_told_apart_from_the_original_diff() {
    let base = file(
        "a.txt",
        vec![
            line(' ', Some(2), Some(2), "two"),
            line('-', Some(3), None, "three"),
            line('+', None, Some(3), "THREE"),
        ],
    );
    let mut full = file(
        "a.txt",
        vec![
            line(' ', Some(1), Some(1), "one"),
            line(' ', Some(2), Some(2), "two"),
            line('-', Some(3), None, "three"),
            line('+', None, Some(3), "THREE"),
        ],
    );
    assert!(same_changes(&base, &full));
    mark_expanded_context(&base, &mut full);
    assert!(full.full_context);
    let marks: Vec<bool> = full.hunks[0].lines.iter().map(|l| l.expanded_context).collect();
    assert_eq!(marks, [true, false, false, false]);
    assert!(same_changes(&base, &full));
    full.hunks[0].lines[3].content = "tree".into();
    assert!(!same_changes(&base, &full));
}

#[test]
fn only_plain_modified_files_expand_inline() {
    let mut f = file("a.txt", vec![line('+', None, Some(1), "x")]);
    assert!(full_context_eligible(&f));
    f.status = FileStatus::Renamed;
    assert!(full_context_eligible(&f));
    f.status = FileStatus::Added;
    assert!(!full_context_eligible(&f));
    f.status = FileStatus::Modified;
    f.hunks.clear();
    assert!(!full_context_eligible(&f));
}
