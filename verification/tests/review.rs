use gittre::comments::{reanchor, Anchor, Comment, Placed};
use gittre::git::diff::{DiffLine, DiffResult, FileDiff, FileStatus, Hunk};
use gittre::git::worktree::load_worktree;
use gittre::ui::highlight::Highlighter;
use gittre::ui::paint::{human_size, paint_content, render_row, slice_spans};
use gittre::ui::review::Stream;
use gittre::ui::rows::Row;
use gittre::ui::stream_view;
use gittre::ui::style::{Color, Rect, Span, Style};

fn file(path: &str, lines: usize) -> FileDiff {
    FileDiff {
        path: path.into(),
        old_path: None,
        status: FileStatus::Modified,
        binary: false,
        large: false,
        byte_size: 0,
        untracked_dir: false,
        full_context: false,
        hunks: vec![Hunk {
            header: "@@ @@".into(),
            lines: (0..lines)
                .map(|i| DiffLine {
                    origin: '+',
                    old_lineno: None,
                    new_lineno: Some(i as u32 + 1),
                    content: format!("line {i}"),
                    expanded_context: false,
                })
                .collect(),
        }],
        additions: lines,
        deletions: 0,
    }
}

fn diff(specs: &[(&str, usize)]) -> DiffResult {
    DiffResult {
        files: specs.iter().map(|(p, n)| file(p, *n)).collect(),
        additions: 0,
        deletions: 0,
    }
}

fn area(width: u16, height: u16) -> Rect {
    Rect {
        x: 0,
        y: 0,
        width,
        height,
    }
}

fn comment(body: &str) -> Comment {
    Comment {
        id: 1,
        path: "a.txt".into(),
        new_side: true,
        lines: (1, 1),
        snippet: vec!["+line 0".into()],
        body: body.into(),
        created_at: 0,
        scope: "test".into(),
        outdated: false,
    }
}

fn text_of(spans: &[Span]) -> String {
    spans.iter().map(|s| s.text.as_str()).collect()
}

#[test]
fn anchor_survives_growth_of_earlier_files() {
    let before = diff(&[("a.txt", 3), ("b.txt", 5)]);
    let mut stream = Stream::new(&before, &[], &[]);
    stream.set_viewport(area(40, 4));
    stream.jump_to_file(1);
    stream.scroll_by(2); // two rows into b.txt
    let anchor = stream.anchor(&before.files).unwrap();
    assert_eq!(anchor.0, "b.txt");

    // a.txt grows by 10 lines; b.txt's rows all shift down.
    let after = diff(&[("a.txt", 13), ("b.txt", 5)]);
    let mut stream = Stream::new(&after, &[], &[]);
    stream.set_viewport(area(40, 4));
    stream.restore(&anchor, &after.files);
    assert_eq!(stream.current_file(), Some(1), "still reading b.txt");
}

#[test]
fn anchor_of_vanished_file_clamps_safely() {
    let before = diff(&[("a.txt", 3), ("b.txt", 40)]);
    let mut stream = Stream::new(&before, &[], &[]);
    stream.set_viewport(area(40, 4));
    stream.scroll_to_bottom();
    let anchor = stream.anchor(&before.files).unwrap();

    let after = diff(&[("a.txt", 3)]);
    let mut stream = Stream::new(&after, &[], &[]);
    stream.set_viewport(area(40, 4));
    stream.restore(&anchor, &after.files);
    assert!(stream.scroll < 6, "scroll clamped into the smaller diff");
}

#[test]
fn saved_comments_wrap_and_keep_cursor_on_resize() {
    let diff = diff(&[("a.txt", 1)]);
    let comments = [comment("a deliberately long saved comment")];
    let placed = [Placed {
        comment: 0,
        file: 0,
        anchor: Anchor::Line { hunk: 0, line: 0 },
    }];
    let mut stream = Stream::new(&diff, &placed, &comments);

    stream.reflow_comments(10, &comments);
    assert_eq!(stream.comment_starts(), [3]);
    assert_eq!(stream.row_count(), 8, "body expands to four visual rows");
    stream.cursor = 5;
    assert_eq!(stream.comment_at_cursor(), Some(0));

    stream.reflow_comments(20, &comments);
    assert_eq!(stream.comment_at_cursor(), Some(0));
    assert_eq!(stream.row_count(), 6, "body reflows to two visual rows");
}

#[test]
fn rows_follow_files_and_hunks() {
    let d = diff(&[("a.txt", 1), ("b.txt", 1)]);
    let stream = Stream::new(&d, &[], &[]);
    assert_eq!(stream.row_count(), 7);
    assert_eq!(stream.row(0), Row::FileHeader(0));
    assert_eq!(stream.row(1), Row::HunkHeader(0, 0));
    assert_eq!(
        stream.row(2),
        Row::Line {
            file: 0,
            hunk: 0,
            line: 0,
            start: 0,
            end: 6
        }
    );
    assert_eq!(stream.row(3), Row::Spacer);
    assert_eq!(stream.row(4), Row::FileHeader(1));
}

#[test]
fn landmarks_are_walked_in_both_directions() {
    let d = diff(&[("a.txt", 3), ("b.txt", 3)]);
    let mut stream = Stream::new(&d, &[], &[]);
    stream.set_viewport(area(40, 4));
    stream.next_file();
    assert_eq!(stream.cursor_row(), 6);
    assert_eq!(stream.current_file(), Some(1));
    stream.next_hunk();
    assert_eq!(stream.cursor_row(), 7);
    stream.prev_hunk();
    assert_eq!(stream.cursor_row(), 1);
    stream.prev_file();
    assert_eq!(stream.cursor_row(), 0);
}

#[test]
fn smart_case_search_walks_matches_and_wraps_around() {
    let d = diff(&[("a.txt", 3)]);
    let mut stream = Stream::new(&d, &[], &[]);
    stream.set_viewport(area(40, 4));
    assert_eq!(stream.set_search("LINE", &d.files), 0);
    assert!(!stream.has_search());
    assert_eq!(stream.set_search("line", &d.files), 3);
    assert_eq!(stream.search_query().as_deref(), Some("line"));
    let first = stream.cursor_row();
    stream.next_match();
    stream.next_match();
    stream.next_match();
    assert_eq!(stream.cursor_row(), first);
    stream.prev_match();
    assert_eq!(stream.cursor_row(), first + 2);
    stream.clear_search();
    assert!(!stream.has_search());
}

#[test]
fn selection_copies_code_or_patch() {
    let d = diff(&[("a.txt", 3)]);
    let mut stream = Stream::new(&d, &[], &[]);
    stream.set_viewport(area(40, 10));
    stream.set_cursor(2);
    stream.start_selection();
    stream.move_cursor(1);
    assert_eq!(
        stream.selected_text(&d.files, false).as_deref(),
        Some("line 0\nline 1\n")
    );
    assert_eq!(
        stream.selected_text(&d.files, true).as_deref(),
        Some("+line 0\n+line 1\n")
    );
    let target = stream.selection_target(&d.files).unwrap().unwrap();
    assert_eq!(target.path, "a.txt");
    assert_eq!(target.lines, (1, 2));
    assert!(target.new_side);
    assert_eq!(target.snippet, ["+line 0", "+line 1"]);
    stream.cancel_selection();
    assert!(!stream.has_selection());
}

#[test]
fn comment_selections_stay_within_one_hunk() {
    let d = diff(&[("a.txt", 1), ("b.txt", 1)]);
    let mut stream = Stream::new(&d, &[], &[]);
    stream.set_viewport(area(40, 10));
    stream.set_cursor(2);
    stream.start_selection();
    stream.set_cursor(6);
    assert_eq!(
        stream.selection_target(&d.files).err(),
        Some("comment selections must stay within one file and hunk")
    );
    assert_eq!(
        stream.selected_text(&d.files, false).as_deref(),
        Some("line 0\nline 0\n")
    );
}

#[test]
fn long_lines_wrap_beneath_the_gutter() {
    let mut d = diff(&[("a.txt", 1)]);
    d.files[0].hunks[0].lines[0].content = "0123456789abcdefghij".into();
    let mut stream = Stream::new(&d, &[], &[]);
    let hl = Highlighter::new(None);
    let screen = stream_view::render(
        &mut stream,
        25,
        area(25, 6),
        &d.files,
        &[],
        true,
        &hl,
    );
    let lines: Vec<String> = screen.lines.iter().map(|l| text_of(&l.spans)).collect();
    assert_eq!(stream.row_count(), 4);
    assert!(lines[2].ends_with("0123456789ab"), "{lines:?}");
    assert!(lines[3].contains('↪') && lines[3].ends_with("cdefghij"), "{lines:?}");
}

#[test]
fn search_hits_are_painted_without_changing_the_text() {
    let spans = paint_content(
        "one two one",
        Style::plain(),
        &Some(("ONE".to_string(), false)),
    );
    assert_eq!(text_of(&spans), "one two one");
    assert_eq!(spans.len(), 3);
    assert_eq!(spans[0].text, "one");
    assert_eq!(spans[0].style.bg, Some(Color::Yellow));
    assert_eq!(spans[1].text, " two ");
    let cut = slice_spans(&spans, 2, 9);
    assert_eq!(text_of(&cut), "e two o");
}

#[test]
fn sizes_are_labelled_in_the_largest_fitting_unit() {
    assert_eq!(human_size(512), "0 KB");
    assert_eq!(human_size(1536), "1 KB");
    assert_eq!(human_size(3 * 1024 * 1024 / 2), "1.5 MB");
}

#[test]
fn comments_and_stubs_are_found_at_the_cursor() {
    let mut d = diff(&[("a.txt", 1)]);
    d.files.push(FileDiff {
        large: true,
        hunks: vec![],
        byte_size: 2 * 1024 * 1024,
        ..file("big.bin", 0)
    });
    let comments = [comment("note")];
    let placed = [Placed {
        comment: 0,
        file: 0,
        anchor: Anchor::Line { hunk: 0, line: 0 },
    }];
    let mut stream = Stream::new(&d, &placed, &comments);
    stream.set_viewport(area(40, 20));
    assert!(stream.has_comments());
    stream.next_comment();
    assert_eq!(stream.comment_at_cursor(), Some(0));
    stream.next_file();
    stream.move_cursor(1);
    assert_eq!(stream.large_stub_at_cursor(), Some(1));
    assert_eq!(stream.comment_at_cursor(), None);
}

#[test]
fn a_new_comment_is_found_where_it_was_made() {
    let patch = "\
diff --git a/src/lib.rs b/src/lib.rs
--- a/src/lib.rs
+++ b/src/lib.rs
@@ -1,3 +1,4 @@
 fn one() {}
-fn two() {}
+fn two() { updated(); }
+fn extra() {}
 fn three() {}
";
    let d = load_worktree(patch, Vec::new());
    let mut stream = Stream::new(&d, &[], &[]);
    stream.set_viewport(area(60, 20));
    stream.set_cursor(2);
    stream.start_selection();
    stream.move_cursor(2);
    let target = stream.selection_target(&d.files).unwrap().unwrap();
    assert_eq!(target.lines, (1, 2));
    assert_eq!(
        target.snippet,
        [" fn one() {}", "-fn two() {}", "+fn two() { updated(); }"]
    );
    let mut made = comment("here");
    made.path = target.path;
    made.new_side = target.new_side;
    made.lines = target.lines;
    made.snippet = target.snippet;
    let mut list = vec![made];
    let (placed, changed) = reanchor(&d, &mut list);
    assert!(!changed);
    assert_eq!(list[0].lines, (1, 2));
    assert!(!list[0].outdated);
    assert_eq!(placed[0].anchor, Anchor::Line { hunk: 0, line: 2 });
}

#[test]
fn a_line_without_content_still_has_a_span_for_it() {
    let mut d = diff(&[("a.txt", 1)]);
    d.files[0].hunks[0].lines[0].content = String::new();
    let row = Row::Line {
        file: 0,
        hunk: 0,
        line: 0,
        start: 0,
        end: 0,
    };
    let line = render_row(row, &d.files, &[], 40, &None, &None);
    let texts: Vec<&str> = line.spans.iter().map(|s| s.text.as_str()).collect();
    assert_eq!(texts, ["          1 ", "+", ""]);
    assert_eq!(line.spans[2].style.fg, Some(Color::Green));
}

#[test]
fn an_unbroken_line_keeps_its_spans_and_a_broken_one_is_cut() {
    let d = diff(&[("a.txt", 1)]);
    let part = |text: &str| Span {
        text: text.into(),
        style: Style {
            fg: None,
            bg: None,
            bold: false,
            italic: false,
            underlined: false,
        },
    };
    let syntax = Some(vec![part("line"), part(""), part(" 0")]);
    let texts = |start: usize, end: usize| -> Vec<String> {
        let row = Row::Line {
            file: 0,
            hunk: 0,
            line: 0,
            start,
            end,
        };
        render_row(row, &d.files, &[], 40, &None, &syntax)
            .spans
            .iter()
            .skip(2)
            .map(|s| s.text.clone())
            .collect()
    };
    assert_eq!(texts(0, 6), ["line", "", " 0"]);
    assert_eq!(texts(0, 5), ["line", " "]);
    assert_eq!(texts(5, 6), ["0"]);
}
