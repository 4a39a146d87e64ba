use gittre::git::cli::{
    guess_b_path, is_untracked, parse_hunk_header, parse_patch, parse_status_z,
    status_is_well_formed, unquote, untracked_paths, worktree_counts,
};
use gittre::git::diff::FileStatus;

const SAMPLE: &str = "\
diff --git a/src/lib.rs b/src/lib.rs
index 1234567..89abcde 100644
--- a/src/lib.rs
+++ b/src/lib.rs
@@ -1,3 +1,4 @@ fn context()
 fn one() {}
-fn two() {}
+fn two() { updated(); }
+fn extra() {}
 fn three() {}
diff --git a/gone.txt b/gone.txt
deleted file mode 100644
index abc..000
--- a/gone.txt
+++ /dev/null
@@ -1,2 +0,0 @@
-first
-second
diff --git a/old_name.rs b/new_name.rs
similarity index 90%
rename from old_name.rs
rename to new_name.rs
diff --git a/pic.png b/pic.png
index 111..222 100644
Binary files a/pic.png and b/pic.png differ
diff --git a/fresh.txt b/fresh.txt
new file mode 100644
index 000..333
--- /dev/null
+++ b/fresh.txt
@@ -0,0 +1,2 @@
+hello
+--- not a header, content
";

#[test]
fn parses_statuses_hunks_and_line_numbers() {
    let files = parse_patch(SAMPLE);
    assert_eq!(files.len(), 5);

    let modified = &files[0];
    assert_eq!(modified.path, "src/lib.rs");
    assert_eq!(modified.status, FileStatus::Modified);
    assert_eq!((modified.additions, modified.deletions), (2, 1));
    let lines = &modified.hunks[0].lines;
    assert_eq!(lines[0].origin, ' ');
    assert_eq!(lines[0].old_lineno, Some(1));
    assert_eq!(lines[1].origin, '-');
    assert_eq!(lines[1].content, "fn two() {}");
    assert_eq!(lines[2].new_lineno, Some(2));
    assert_eq!(lines[4].origin, ' ');
    assert_eq!(lines[4].new_lineno, Some(4));

    assert_eq!(files[1].status, FileStatus::Deleted);
    assert_eq!(files[1].path, "gone.txt");

    assert_eq!(files[2].status, FileStatus::Renamed);
    assert_eq!(files[2].old_path.as_deref(), Some("old_name.rs"));
    assert_eq!(files[2].path, "new_name.rs");

    assert!(files[3].binary);

    let fresh = &files[4];
    assert_eq!(fresh.status, FileStatus::Added);
    assert_eq!(fresh.additions, 2);
    assert_eq!(
        fresh.hunks[0].lines[1].content, "--- not a header, content",
        "content lines can't be mistaken for headers"
    );
}

#[test]
fn hunk_header_forms() {
    assert_eq!(
        parse_hunk_header("@@ -12,3 +14,4 @@ fn x"),
        Some((12, 3, 14, 4, "@@ -12,3 +14,4 @@ fn x"))
    );
    assert_eq!(
        parse_hunk_header("@@ -1 +1 @@"),
        Some((1, 1, 1, 1, "@@ -1 +1 @@"))
    );
    assert_eq!(parse_hunk_header("not a header"), None);
}

#[test]
fn hunk_header_numbers_are_bounded() {
    assert_eq!(
        parse_hunk_header("@@ -4294967295 +1 @@"),
        Some((4294967295, 1, 1, 1, "@@ -4294967295 +1 @@"))
    );
    assert_eq!(parse_hunk_header("@@ -4294967296 +1 @@"), None);
    assert_eq!(parse_hunk_header("@@ -+7 +1 @@"), Some((7, 1, 1, 1, "@@ -+7 +1 @@")));
    assert_eq!(parse_hunk_header("@@ -,1 +1 @@"), None);
    assert_eq!(parse_hunk_header("@@ -1 +1"), None);
}

#[test]
fn unquotes_special_paths() {
    assert_eq!(unquote("plain.txt"), "plain.txt");
    assert_eq!(unquote("\"with \\\"quote\\\".txt\""), "with \"quote\".txt");
    assert_eq!(unquote("\"tab\\there\""), "tab\there");
    assert_eq!(unquote("\"caf\\303\\251.txt\""), "café.txt");
}

#[test]
fn unquoting_edge_cases() {
    assert_eq!(unquote("  spaced.txt \u{3000}"), "spaced.txt");
    assert_eq!(unquote("\""), "\"");
    assert_eq!(unquote("\"\""), "");
    assert_eq!(unquote("\"a\\nb\\\\c\\qd\\\""), "a\nb\\cqd");
    assert_eq!(unquote("\"\\1x\\12x\\1234\""), "\u{1}x\nxS4");
    assert_eq!(unquote("\"\\777\""), "\u{fffd}");
}

#[test]
fn the_last_b_prefix_names_the_file() {
    assert_eq!(guess_b_path("a/x b/x"), "x");
    assert_eq!(guess_b_path("a/dir b/x b/dir b/x"), "x");
    assert_eq!(guess_b_path("no marker"), "no marker");
}

#[test]
fn lines_before_the_first_file_are_passed_over() {
    assert!(parse_patch("warning: something\n@@ -1 +1 @@\n+x\n").is_empty());
    assert!(parse_patch("").is_empty());
}

#[test]
fn a_marker_for_a_missing_newline_is_no_content() {
    let files = parse_patch(
        "diff --git a/x b/x\n@@ -1 +1 @@\n-a\n\\ No newline at end of file\n+b\n",
    );
    let lines = &files[0].hunks[0].lines;
    assert_eq!(lines.len(), 2);
    assert_eq!((files[0].additions, files[0].deletions), (1, 1));
    assert_eq!(lines[1].content, "b");
}

#[test]
fn status_entries_pair_renames_with_their_origin() {
    let out = " M a.txt\0R  new.rs\0old.rs\0?? dir/\0A  b\0\0";
    assert!(status_is_well_formed(out));
    let entries = parse_status_z(out);
    let shown: Vec<(char, char, &str)> =
        entries.iter().map(|e| (e.x, e.y, e.path.as_str())).collect();
    assert_eq!(
        shown,
        vec![
            (' ', 'M', "a.txt"),
            ('R', ' ', "new.rs"),
            ('?', '?', "dir/"),
            ('A', ' ', "b"),
        ]
    );
    assert_eq!(worktree_counts(out), (4, 2));
    assert!(is_untracked(out, "dir/"));
    assert!(!is_untracked(out, "a.txt"));
    assert_eq!(untracked_paths(out), vec!["dir/".to_string()]);
}

#[test]
fn a_path_that_starts_inside_a_character_is_not_well_formed() {
    assert!(!status_is_well_formed("\u{00e9}\u{00e9}x\0"));
    assert!(status_is_well_formed("?\u{00e9}\0"));
}

#[test]
fn every_escape_of_a_quoted_name_is_undone() {
    assert_eq!(unquote("\"a\\rb\""), "a\rb");
    assert_eq!(
        unquote("\"\\a\\b\\t\\n\\v\\f\\r\\\"\\\\\""),
        "\u{7}\u{8}\t\n\u{b}\u{c}\r\"\\"
    );
    assert_eq!(unquote("\"\\001\\033\\177\""), "\u{1}\u{1b}\u{7f}");
}

#[test]
fn quoted_header_names_give_the_path() {
    let patch = [
        r#"diff --git "a/x\"y" "b/x\"y""#,
        r#"--- "a/x\"y""#,
        r#"+++ "b/x\"y""#,
        "@@ -1 +1 @@",
        "-p",
        "+q",
    ]
    .join("\n");
    let files = parse_patch(&patch);
    assert_eq!(files.len(), 1);
    assert_eq!(files[0].path, r#"x"y"#);
    assert_eq!((files[0].additions, files[0].deletions), (1, 1));

    // No header lines: the first line alone names the file.
    let mode = "diff --git \"a/x\\ty\" \"b/x\\ty\"\nold mode 100644\nnew mode 100755\n";
    assert_eq!(parse_patch(mode)[0].path, "x\ty");
    assert_eq!(guess_b_path(r#"a/old "b/n b/\\w""#), r"n b/\w");

    let renamed = "diff --git \"a/o\\\"ld\" b/new\nsimilarity index 100%\nrename from \"o\\\"ld\"\nrename to new\n";
    let files = parse_patch(renamed);
    assert_eq!(files[0].old_path.as_deref(), Some("o\"ld"));
    assert_eq!(files[0].path, "new");

    let deleted = "diff --git \"a/x\\\\y\" \"b/x\\\\y\"\ndeleted file mode 100644\n--- \"a/x\\\\y\"\n+++ /dev/null\n@@ -1 +0,0 @@\n-p\n";
    assert_eq!(parse_patch(deleted)[0].path, "x\\y");
}

#[test]
fn blanks_belong_to_names_but_the_appended_tab_does_not() {
    let patch = "diff --git a/ x  b/ x \n--- a/ x \t\n+++ b/ x \t\n@@ -1 +1 @@\n-p\n+q\n";
    assert_eq!(parse_patch(patch)[0].path, " x ");
    let mode = "diff --git a/x  b/x \nold mode 100644\nnew mode 100755\n";
    assert_eq!(parse_patch(mode)[0].path, "x ");
    let renamed = "diff --git a/old  b/ new\nsimilarity index 100%\nrename from old \nrename to  new\n";
    let files = parse_patch(renamed);
    assert_eq!(files[0].old_path.as_deref(), Some("old "));
    assert_eq!(files[0].path, " new");
}

#[test]
fn patches_parse_the_same_after_one_that_is_cut_short() {
    let cut = "diff --git a/a b/a\n--- a/a\n+++ b/a\n@@ -1,9 +1,9 @@\n x\n";
    let both = parse_patch(&format!("{cut}{SAMPLE}"));
    let first = parse_patch(cut);
    let second = parse_patch(SAMPLE);
    assert_eq!(both.len(), first.len() + second.len());
    for (got, want) in both.iter().zip(first.iter().chain(second.iter())) {
        assert_eq!(got.path, want.path);
        assert_eq!(got.status, want.status);
        assert_eq!(got.hunks.len(), want.hunks.len());
        for (a, b) in got.hunks.iter().zip(want.hunks.iter()) {
            assert_eq!(a.header, b.header);
            assert_eq!(a.lines.len(), b.lines.len());
            for (x, y) in a.lines.iter().zip(b.lines.iter()) {
                assert_eq!(
                    (x.origin, x.old_lineno, x.new_lineno, &x.content),
                    (y.origin, y.old_lineno, y.new_lineno, &y.content)
                );
            }
        }
    }
}
