use gittre::git::diff::{Collector, DiffResult, FileDiff, FileStatus};
use gittre::git::scope::MAX_CONTENT_FILE_SIZE;
use gittre::git::worktree::{
    file_source, full_context_allowed, is_untracked_dir, load_worktree, load_worktree_file, reads_content,
    untracked_dir, untracked_file, FileSource, UntrackedBudget,
};

fn find<'a>(result: &'a DiffResult, path: &str) -> &'a FileDiff {
    result
        .files
        .iter()
        .find(|f| f.path == path)
        .unwrap_or_else(|| panic!("{path} not in the diff"))
}

const PATCH: &str = "\
diff --git a/src/lib.rs b/src/lib.rs
deleted file mode 100644
--- a/src/lib.rs
+++ /dev/null
@@ -1 +0,0 @@
-pub fn f() {}
diff --git a/a.txt b/a.txt
--- a/a.txt
+++ b/a.txt
@@ -1,3 +1,3 @@
 one
-two
+TWO
 three
";

#[test]
fn clean_tree_is_empty() {
    assert!(load_worktree("", Vec::new()).files.is_empty());
    assert!(Collector::new().finish().files.is_empty());
}

#[test]
fn modified_added_deleted_untracked() {
    let extra = vec![untracked_file("new.txt", 6, u64::MAX, b"hello\n")];
    let result = load_worktree(PATCH, extra);
    assert_eq!(result.files.len(), 3);

    let modified = find(&result, "a.txt");
    assert_eq!(modified.status, FileStatus::Modified);
    assert_eq!(modified.additions, 1);
    assert_eq!(modified.deletions, 1);
    let lines = &modified.hunks[0].lines;
    assert!(lines.iter().any(|l| l.origin == '-' && l.content == "two"));
    assert!(lines.iter().any(|l| l.origin == '+' && l.content == "TWO"));

    assert_eq!(find(&result, "src/lib.rs").status, FileStatus::Deleted);
    assert_eq!(find(&result, "new.txt").status, FileStatus::Added);
    assert_eq!(result.additions, 2);
    assert_eq!(result.deletions, 2);

    let order: Vec<&str> = result.files.iter().map(|f| f.path.as_str()).collect();
    assert_eq!(order, ["src/lib.rs", "a.txt", "new.txt"]);
}

#[test]
fn one_file_is_picked_from_a_patch() {
    let file = load_worktree_file(PATCH, "a.txt").unwrap();
    assert_eq!(file.path, "a.txt");
    assert_eq!(file.additions, 1);
    assert!(load_worktree_file(PATCH, "b.txt").is_err());
}

#[test]
fn untracked_files_are_shown_as_added() {
    let file = untracked_file("new.txt", 8, 100, b"one\ntwo\n");
    assert_eq!(file.status, FileStatus::Added);
    assert_eq!(file.additions, 2);
    assert_eq!(file.hunks[0].header, "@@ -0,0 +1,2 @@");
    assert_eq!(file.hunks[0].lines[1].new_lineno, Some(2));
    assert_eq!(file.hunks[0].lines[1].old_lineno, None);
    assert_eq!(file.hunks[0].lines[1].content, "two");

    let binary = untracked_file("pic.png", 3, 100, &[1, 0, 2]);
    assert!(binary.binary);
    assert!(binary.hunks.is_empty());

    let large = untracked_file("big.log", 101, 100, b"");
    assert!(large.large);
    assert_eq!(large.byte_size, 101);
    assert!(large.hunks.is_empty());

    let empty = untracked_file("empty", 0, 100, b"");
    assert!(empty.hunks.is_empty());
    assert!(!empty.large);

    let odd = untracked_file("latin1.txt", 4, 100, &[b'a', 0xff, b'b', b'\n']);
    assert_eq!(odd.hunks[0].lines[0].content, "a\u{fffd}b");
}

#[test]
fn untracked_directories_stay_collapsed() {
    assert!(is_untracked_dir("target/"));
    assert!(!is_untracked_dir("target"));
    let dir = untracked_dir("target/");
    assert_eq!(dir.path, "target");
    assert!(dir.untracked_dir);
    assert_eq!(dir.status, FileStatus::Added);
    assert!(dir.hunks.is_empty());
}

#[test]
fn the_inline_budget_runs_out() {
    let mut budget = UntrackedBudget::new();
    assert_eq!(budget.cap(), MAX_CONTENT_FILE_SIZE as u64);
    assert!(reads_content(10, budget.cap()));
    let mut read = 0;
    while budget.cap() > 0 {
        budget.record(&untracked_file("f", 1, budget.cap(), b"x"));
        read += 1;
    }
    assert!(read > 1);
    assert!(!reads_content(1, budget.cap()));
    assert!(untracked_file("g", 1, budget.cap(), b"").large);
}

#[test]
fn whole_files_are_shown_up_to_a_limit() {
    assert!(full_context_allowed("a.rs", 4 * 1024 * 1024).is_ok());
    assert_eq!(
        full_context_allowed("a.rs", 4 * 1024 * 1024 + 1),
        Err("a.rs is too large to show in full (limit 4 MB)".to_string())
    );
}

#[test]
fn a_listing_collapses_directories_and_spends_the_budget_on_files() {
    let mut budget = UntrackedBudget::new();
    assert!(!budget.reads("target/", 1));
    assert!(budget.reads("new.txt", 6));
    let dir = budget.list("target/", 4096, b"");
    assert!(dir.untracked_dir);
    assert_eq!((budget.files, budget.inlined_bytes), (0, 0));
    let file = budget.list("new.txt", 6, b"hello\n");
    assert_eq!(file.additions, 1);
    assert_eq!((budget.files, budget.inlined_bytes), (1, 6));
    // Stubs are counted, but cost no bytes.
    let large = budget.list("big.bin", MAX_CONTENT_FILE_SIZE as u64 + 1, b"");
    assert!(large.large);
    assert_eq!((budget.files, budget.inlined_bytes), (2, 6));
}

#[test]
fn inlined_content_stays_within_the_budget_and_one_file() {
    let mut budget = UntrackedBudget::new();
    for _ in 0..50 {
        budget.list("f", MAX_CONTENT_FILE_SIZE as u64, b"x");
    }
    assert_eq!(budget.inlined_bytes, 5 * 1024 * 1024);
    let mut budget = UntrackedBudget::new();
    let shown = (0..300)
        .filter(|_| !budget.list("f", 1, b"x").large)
        .count();
    assert_eq!(shown, 200);
}

#[test]
fn untracked_files_come_from_disk_and_all_others_from_a_patch() {
    let listing = "?? new.txt\0 M a.txt\0";
    assert_eq!(file_source(Some(listing), "new.txt"), FileSource::Disk);
    assert_eq!(file_source(Some(listing), "a.txt"), FileSource::Patch);
    assert_eq!(file_source(Some(listing), "b.txt"), FileSource::Patch);
    assert_eq!(file_source(None, "new.txt"), FileSource::Patch);
}
