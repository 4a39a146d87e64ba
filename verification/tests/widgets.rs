use gittre::git::diff::{FileDiff, FileStatus};
use gittre::git::log::{commit_log, humanize, CommitInfo, LOG_LIMIT};
use gittre::git::scope::{Oid, Scope};
use gittre::keymap::Hint;
use gittre::ui::bar::{display_key, pack_rows, render, render_input};
use gittre::ui::editor::TextEditor;
use gittre::ui::export::{popup, title, wrapped_lines, ExportPreview};
use gittre::ui::fileview::FileView;
use gittre::ui::highlight::{truecolor, Highlighter};
use gittre::ui::picker::{
    count_label, list_hit, BasePicker, LogPicker, ScopeAction, ScopeItem, ScopePicker,
};
use gittre::ui::popups::{
    clear_message, help_lines, render_comment_editor, render_confirm, render_help,
};
use gittre::ui::style::{Color, Position, Rect, StyledLine};
use gittre::ui::tree::FileTree;
use gittre::ui::width::cell_width;
use gittre::ui::wrap::visual_lines;

fn area(x: u16, y: u16, width: u16, height: u16) -> Rect {
    Rect {
        x,
        y,
        width,
        height,
    }
}

fn text_of(line: &StyledLine) -> String {
    line.spans.iter().map(|s| s.text.as_str()).collect()
}

fn texts(lines: &[StyledLine]) -> Vec<String> {
    lines.iter().map(text_of).collect()
}

fn hint(key: &str, desc: &'static str) -> Hint {
    Hint {
        key: key.into(),
        desc,
    }
}

fn changed(path: &str, status: FileStatus) -> FileDiff {
    FileDiff {
        path: path.into(),
        old_path: None,
        status,
        binary: false,
        large: false,
        byte_size: 0,
        untracked_dir: false,
        full_context: false,
        hunks: vec![],
        additions: 0,
        deletions: 0,
    }
}

// ---- command bar ----------------------------------------------------------

#[test]
fn keys_render_without_decorative_brackets() {
    assert_eq!(display_key("]/["), "]/[");
    assert_eq!(display_key("j/k"), "j/k");
    assert_eq!(display_key("/"), "/");
}

#[test]
fn packing_never_returns_a_partial_hint() {
    let hints = vec![hint("a", "one"), hint("b", "two"), hint("c", "three")];
    assert_eq!(pack_rows(&hints, 10, 2), vec![vec![0], vec![1]]);
}

#[test]
fn packing_fills_rows_and_skips_what_never_fits() {
    let hints = vec![
        hint("a", "one"),
        hint("b", "far too long to ever fit"),
        hint("c", "two"),
        hint("d", "x"),
    ];
    assert_eq!(pack_rows(&hints, 12, 2), vec![vec![0, 2], vec![3]]);
    assert!(pack_rows(&hints, 0, 2).is_empty());
    assert!(pack_rows(&hints, 12, 0).is_empty());
    assert_eq!(texts(&render(&hints, 12, 2)), ["a one  c two", "d x"]);
}

#[test]
fn prompts_show_label_value_and_action() {
    let line = render_input("/", "needle", "search");
    assert_eq!(text_of(&line), "/needle▏   ⏎ search  Esc cancel");
}

// ---- editor ---------------------------------------------------------------

#[test]
fn edits_at_cursor_without_breaking_utf8() {
    let mut editor = TextEditor::new("a界b".into());
    editor.move_left();
    editor.backspace();
    assert_eq!(editor.as_str(), "ab");
    editor.insert_char('é');
    assert_eq!(editor.as_str(), "aéb");
    editor.delete();
    assert_eq!(editor.as_str(), "aé");
}

#[test]
fn wraps_and_moves_between_visual_rows() {
    let mut editor = TextEditor::new("abcdef".into());
    editor.set_width(3);
    editor.home();
    assert_eq!(editor.cursor(), 3);
    editor.move_vertical(-1);
    assert_eq!(editor.cursor(), 0);
    editor.end();
    assert_eq!(editor.cursor(), 3);
    assert_eq!(editor.visual_line_count(3), 2);
}

#[test]
fn newlines_make_empty_visual_rows() {
    let text: Vec<char> = "one\n\n".chars().collect();
    let lines = visual_lines(&text, 20);
    assert_eq!(lines.len(), 3);
    assert!(text[lines[1].start..lines[1].end].is_empty());
    assert!(text[lines[2].start..lines[2].end].is_empty());
}

#[test]
fn pasted_line_endings_are_normalized() {
    let mut editor = TextEditor::new(String::new());
    editor.insert_str("one\r\ntwo\rthree");
    assert_eq!(editor.as_str(), "one\ntwo\nthree");
}

#[test]
fn clicks_put_the_cursor_where_they_fall() {
    let mut editor = TextEditor::new("abcdef".into());
    let screen = editor.render(area(10, 5, 3, 4));
    assert_eq!(screen.lines, ["abc", "def"]);
    editor.set_cursor_from_screen(11, 6);
    assert_eq!(editor.cursor(), 4);
    editor.set_cursor_from_screen(0, 0);
    assert_eq!(editor.cursor(), 4);
}

#[test]
fn typing_and_taking_back_leaves_the_text() {
    let mut editor = TextEditor::new("ab".into());
    editor.move_left();
    editor.insert_char('x');
    editor.backspace();
    assert_eq!(editor.as_str(), "ab");
    assert_eq!(editor.cursor(), 1);
}

#[test]
fn wide_characters_take_two_cells() {
    assert_eq!(cell_width('界'), 2);
    assert_eq!(cell_width('a'), 1);
    assert_eq!(cell_width('\n'), 0);
    let text: Vec<char> = "界界".chars().collect();
    assert_eq!(visual_lines(&text, 3).len(), 2);
}

// ---- export preview -------------------------------------------------------

#[test]
fn scrolling_stays_bounded() {
    let mut preview = ExportPreview::new((0..50).map(|n| format!("{n}\n")).collect());
    preview.set_viewport(10);
    preview.scroll_by(999);
    assert_eq!(preview.scroll(), 40);
    preview.scroll_by(-999);
    assert_eq!(preview.scroll(), 0);
}

#[test]
fn long_comment_lines_wrap_without_changing_markdown() {
    let markdown = "> a deliberately long comment".to_string();
    let preview = ExportPreview::new(markdown.clone());
    let lines = wrapped_lines(preview.markdown(), 10);
    assert_eq!(lines, ["> a delibe", "rately lon", "g comment"]);
    assert_eq!(preview.markdown(), markdown);
}

#[test]
fn previews_page_and_fit_their_window() {
    let mut preview = ExportPreview::new((0..50).map(|n| format!("{n}\n")).collect());
    assert_eq!(preview.render(area(0, 0, 40, 3)), ["0", "1", "2"]);
    preview.page(1);
    assert_eq!(preview.scroll(), 2);
    preview.half_page(1);
    assert_eq!(preview.scroll(), 3);
    preview.bottom();
    assert_eq!(preview.render(area(0, 0, 40, 3)), ["47", "48", "49"]);
    preview.top();
    assert_eq!(preview.scroll(), 0);
    assert_eq!(wrapped_lines("", 10), [""]);
    assert_eq!(title(1), " export preview · 1 comment ");
    assert_eq!(title(2), " export preview · 2 comments ");
    assert_eq!(popup(area(0, 0, 200, 40)), area(40, 1, 120, 38));
}

// ---- pager ----------------------------------------------------------------

#[test]
fn pager_opens_a_little_above_its_target() {
    let content: String = (1..=20).map(|n| format!("line {n}\n")).collect();
    let mut view = FileView::with_colors("a.txt".into(), "HEAD".into(), &content, Some(9), None);
    assert_eq!(view.top_line(), 7);
    let screen = view.render(4);
    assert_eq!(screen.title, " a.txt  full file · HEAD · 20 lines ");
    assert_eq!(
        texts(&screen.lines),
        ["   7 line 7", "   8 line 8", "   9 line 9", "  10 line 10"]
    );
    assert!(screen.lines[3].style.bold);
    assert!(!screen.lines[2].style.bold);
    view.scroll_by(99);
    assert_eq!(view.top_line(), 20);
    view.scroll_to_bottom();
    assert_eq!(view.top_line(), 17);
    view.page(-1);
    assert_eq!(view.top_line(), 14);
    view.half_page(-1);
    assert_eq!(view.top_line(), 12);
    view.scroll_to_top();
    assert_eq!(view.top_line(), 1);
}

#[test]
fn coloring_a_file_keeps_its_text() {
    let hl = Highlighter::new(Some("truecolor"));
    let content = "fn main() {\n    let x = 1;\n}\n";
    let mut view = FileView::new("main.rs".into(), "working tree".into(), content, None, &hl);
    let screen = view.render(10);
    assert_eq!(
        texts(&screen.lines),
        ["   1 fn main() {", "   2     let x = 1;", "   3 }"]
    );
    assert!(screen.lines[0].spans.len() > 2, "tokens are colored apart");
    assert!(hl.file_lines("notes.unknown-extension", "x\n").is_none());
    let plain = Highlighter::new(None);
    assert!(plain.file_lines("main.rs", content).is_none());
    assert!(truecolor("24bit") && !truecolor("256"));
}

// ---- pickers --------------------------------------------------------------

fn item(title: &str, action: ScopeAction) -> ScopeItem {
    ScopeItem {
        title: title.into(),
        detail: "…".into(),
        action,
    }
}

#[test]
fn counts_fill_in_the_menu() {
    let mut menu = ScopePicker::new(vec![
        item("Uncommitted changes", ScopeAction::Open(Scope::Uncommitted)),
        item("Staged changes", ScopeAction::Open(Scope::Staged)),
        item(
            "Branch vs fork point",
            ScopeAction::Open(Scope::BranchFork {
                branch: "feature".into(),
            }),
        ),
        item("A specific commit…", ScopeAction::PickCommit),
    ]);
    menu.set_counts(12, 1, None);
    let details: Vec<&str> = menu.items.iter().map(|i| i.detail.as_str()).collect();
    assert_eq!(details, ["12 files", "1 file", "…", "…"]);
    menu.set_counts(0, 1, Some(27));
    assert_eq!(menu.items[2].detail, "27 files");
    assert_eq!(count_label(0), "0 files");
}

#[test]
fn menus_move_hit_and_lay_out() {
    let mut menu = ScopePicker::new(vec![
        item("One", ScopeAction::PickBase),
        item("Two", ScopeAction::PickCommit),
    ]);
    menu.move_selection(5);
    assert_eq!(menu.selected, 1);
    menu.move_selection(-5);
    assert_eq!(menu.selected, 0);
    assert_eq!(menu.popup(area(0, 0, 100, 20)), area(20, 8, 60, 4));
    let lines = menu.render(20, area(21, 9, 58, 2));
    assert_eq!(text_of(&lines[0]), " 1  One       …");
    assert_eq!(menu.hit(30, 10), Some(1));
    assert_eq!(menu.hit(30, 11), None);
    assert_eq!(menu.hit(0, 0), None);
}

#[test]
fn lists_are_hit_below_their_offset() {
    let inner = area(0, 1, 10, 3);
    assert_eq!(list_hit(inner, 5, 7, 2, 1), Some(5));
    assert_eq!(list_hit(inner, 5, 7, 2, 2), Some(6));
    assert_eq!(list_hit(inner, 5, 7, 2, 3), None);
    assert_eq!(list_hit(inner, 5, 7, 2, 4), None);
}

#[test]
fn branches_are_listed_and_chosen() {
    let mut list = BasePicker::new(vec!["main".into(), "origin/main".into()]);
    list.move_selection(1);
    assert_eq!(list.chosen().as_deref(), Some("origin/main"));
    assert_eq!(list.render(), [" main", " origin/main"]);
    list.placed(area(0, 1, 20, 5), 1);
    assert_eq!(list.hit(3, 1), Some(1));
    assert_eq!(BasePicker::new(vec![]).chosen(), None);
}

fn oid(c: char) -> Oid {
    Oid {
        hex: c.to_string().repeat(40),
    }
}

fn commit(c: char, summary: &str, author: &str, time: i64) -> CommitInfo {
    CommitInfo {
        id: oid(c),
        summary: Some(summary.into()),
        author: Some(author.into()),
        time,
    }
}

#[test]
fn marking_a_commit_reviews_the_range() {
    let entries = commit_log(
        &[
            commit('a', "newest", "Ada", 990),
            commit('b', "older", "A very long author name", 0),
        ],
        1000,
    );
    let mut log = LogPicker::new(entries);
    match log.chosen() {
        Some(Scope::Commit { id, summary }) => {
            assert_eq!(id.hex, "a".repeat(40));
            assert_eq!(summary, "newest");
        }
        other => panic!("{other:?}"),
    }
    log.move_selection(1);
    log.toggle_mark();
    assert!(matches!(log.chosen(), Some(Scope::Commit { .. })));
    log.move_selection(-1);
    match log.chosen() {
        Some(Scope::Range { from, to }) => {
            assert_eq!(from.hex, "b".repeat(40));
            assert_eq!(to.hex, "a".repeat(40));
        }
        other => panic!("{other:?}"),
    }
    assert_eq!(
        texts(&log.render()),
        [
            " aaaaaaa now Ada          newest",
            "●bbbbbbb 16m A very long  older"
        ]
    );
    log.move_selection(1);
    log.toggle_mark();
    assert!(!log.has_mark());
}

#[test]
fn ages_use_their_largest_unit() {
    assert_eq!(humanize(-5), "now");
    assert_eq!(humanize(59), "now");
    assert_eq!(humanize(60), "1m");
    assert_eq!(humanize(7200), "2h");
    assert_eq!(humanize(86_400 * 6), "6d");
    assert_eq!(humanize(604_800 * 3), "3w");
    assert_eq!(humanize(31_536_000 * 2), "2y");
    assert_eq!(LOG_LIMIT, 1000);
    let many: Vec<CommitInfo> = (0..1200).map(|_| commit('c', "x", "y", 0)).collect();
    assert_eq!(commit_log(&many, 0).len(), 1000);
}

// ---- tree -----------------------------------------------------------------

#[test]
fn tree_lists_directories_before_files_and_folds() {
    let files = [
        changed("src/ui/tree.rs", FileStatus::Added),
        changed("src/app.rs", FileStatus::Modified),
        changed("README.md", FileStatus::Deleted),
    ];
    let mut tree = FileTree::new(&files, &[0, 2, 0]);
    assert_eq!(
        texts(&tree.render(false).lines),
        [
            "▾ src/",
            "  ▾ ui/",
            "    A tree.rs",
            "  M app.rs ✎ 2",
            "D README.md"
        ]
    );
    assert_eq!(tree.len(), 5);
    tree.select_file(1);
    assert_eq!(tree.selected, 3);
    assert_eq!(tree.activate(), Some(1));
    tree.move_selection(-2);
    assert_eq!(tree.activate(), None);
    assert_eq!(
        texts(&tree.render(true).lines),
        ["▾ src/", "  ▸ ui/", "  M app.rs ✎ 2", "D README.md"]
    );
    assert_eq!(tree.collapsed_dirs(), ["src/ui"]);

    let mut again = FileTree::new(&files, &[0, 2, 0]);
    again.apply_collapsed(&tree.collapsed_dirs());
    assert_eq!(again.len(), 4);
    again.select_file(0); // hidden: the selection stays
    assert_eq!(again.selected, 0);
}

#[test]
fn tree_follows_the_order_of_a_sorted_stream() {
    let files = [
        changed("docs/sub/x.txt", FileStatus::Modified),
        changed("docs/readme.md", FileStatus::Modified),
        changed("zeta/a.txt", FileStatus::Modified),
        changed("a_root_file.txt", FileStatus::Modified),
    ];
    let mut tree = FileTree::new(&files, &[0, 0, 0, 0]);
    let mut picked = Vec::new();
    for row in 0..tree.len() {
        tree.select(row);
        if let Some(file) = tree.activate() {
            picked.push(file);
        } else {
            tree.activate();
        }
    }
    assert_eq!(picked, [0, 1, 2, 3]);
}

#[test]
fn tree_asks_for_its_widest_row() {
    let files = [changed("dir/a-rather-long-name.txt", FileStatus::Added)];
    let mut tree = FileTree::new(&files, &[0]);
    assert_eq!(tree.preferred_width(), 2 + 2 + 22 + 2);
    tree.select(0);
    tree.activate();
    assert_eq!(tree.preferred_width(), 2 + 3 + 1 + 2);
    tree.placed(area(0, 1, 26, 10), 0);
    assert_eq!(tree.hit(3, 1), Some(0));
    assert_eq!(tree.hit(3, 2), None);
}

// ---- popups ---------------------------------------------------------------

#[test]
fn help_scrolls_when_it_does_not_fit() {
    let lines = help_lines();
    let tall = render_help(area(0, 0, 100, 200), 7);
    assert_eq!(tall.scroll, 0);
    assert!(tall.footer.is_none());
    assert_eq!(tall.popup.width, 72);
    assert_eq!(tall.lines.len(), lines.len());
    let short = render_help(area(0, 0, 100, 12), 999);
    let limit = lines.len() as u16 - 8;
    assert_eq!(short.scroll, limit);
    assert_eq!(
        short.footer,
        Some(format!(" j/k scroll ({limit}/{limit}) "))
    );
}

#[test]
fn comment_editor_stays_next_to_its_row() {
    let editor = TextEditor::new("note".into());
    let bounds = area(10, 1, 60, 30);
    let below = render_comment_editor(bounds, Some(Position { x: 10, y: 3 }), "a.rs:1", &editor);
    assert_eq!(below.popup, area(10, 4, 56, 5));
    assert_eq!(below.title, " ✎ a.rs:1 ");
    let above = render_comment_editor(bounds, Some(Position { x: 10, y: 29 }), "a.rs:1", &editor);
    assert_eq!(above.popup, area(10, 24, 56, 5));
    let middle = render_comment_editor(bounds, None, "a.rs:1", &editor);
    assert_eq!(middle.popup, area(12, 13, 56, 5));
}

#[test]
fn confirmation_names_what_it_deletes() {
    assert_eq!(clear_message(1), "delete the 1 comment? [y/n]");
    assert_eq!(clear_message(3), "delete all 3 comments? [y/n]");
    assert_eq!(
        render_confirm(area(0, 0, 100, 25), &clear_message(3)),
        area(33, 11, 34, 3)
    );
}

#[test]
fn keywords_take_the_color_of_the_theme() {
    let hl = Highlighter::new(Some("truecolor"));
    let spans = hl.line_spans("src/main.rs", "fn main() {}").unwrap();
    let whole: String = spans.iter().map(|s| s.text.as_str()).collect();
    assert_eq!(whole, "fn main() {}");
    assert_eq!(spans[0].text, "fn");
    assert_eq!(spans[0].style.fg, Some(Color::Rgb(180, 142, 173)));
    assert!(spans.len() > 1);
    let lines = hl.file_lines("MAIN.RS", "/* a\nfn b */\n").unwrap();
    assert_eq!(lines.len(), 2);
    assert_ne!(
        lines[1][0].style.fg,
        Some(Color::Rgb(180, 142, 173)),
        "a comment goes on over lines"
    );
    assert!(hl.line_spans("Makefile.nothing", "fn main() {}").is_none());
    assert!(hl.line_spans(".rs", "fn main() {}").is_none());
}
