//! What lists, pagers and questions say.

use crate::app::review as views;
use crate::app::review::ReaderView;
use crate::comments::CommentView;
use crate::git::diff::FileDiffView;
use crate::laws::searching;
use crate::num;
use crate::store::StoreView;
use crate::text;
use crate::ui::editor::EditorView;
use crate::ui::export;
use crate::ui::fileview::PagerView;
use crate::ui::highlight::HighlighterView;
use crate::ui::paint;
use crate::ui::picker;
use crate::ui::picker::{LogView, PickerView};
use crate::ui::popups;
use crate::ui::review;
use crate::ui::review::StreamView;
use crate::ui::rows;
use crate::ui::stream_view;
use crate::ui::style::Color;
use vstd::prelude::*;

verus! {

/// A row on screen says what the row says; it looks selected when it is, and the
/// cursor's row stands out while the stream has the keys.
pub proof fn lemma_rows_on_screen(
    hl: HighlighterView,
    s: StreamView,
    files: Seq<FileDiffView>,
    cs: Seq<CommentView>,
    focused: bool,
    i: int,
)
    requires
        0 <= i < s.rows.len(),
    ensures
        ({
            let shown = stream_view::shown_row(hl, s, files, cs, focused, i);
            let plain = paint::row_line(
                s.rows[i],
                files,
                cs,
                s.inner.width,
                stream_view::terms(s),
                stream_view::syntax_of(hl, s.rows[i], files),
            );
            &&& shown.spans == plain.spans
            &&& stream_view::is_selected(s, i) ==> shown.style.bg == Some(Color::DarkGray)
            &&& i == s.cursor && focused ==> shown.style.bold && shown.style.underlined
            &&& !stream_view::is_selected(s, i) && !(i == s.cursor && focused) ==> shown == plain
            &&& s.search is None ==> stream_view::terms(s) is None
            &&& s.search matches Some(q) ==> stream_view::terms(s) == Some(
                (q.query, q.case_sensitive),
            )
        }),
{
}

/// The pager shows each line behind its number, all numbers as wide, and marks
/// the line it was opened at.
pub proof fn lemma_pager_lines(v: PagerView, i: int)
    requires
        0 <= i < v.lines.len() <= usize::MAX,
        v.colors is None,
    ensures
        ({
            let l = v.shown_line(i);
            let n = num::decimal((i + 1) as nat);
            let w = v.number_width();
            &&& l.spans.len() == 2
            &&& l.spans[1].text == v.lines[i]
            &&& n.len() <= w ==> l.spans[0].text == text::repeat(' ', (w - n.len()) as nat) + n
                + " "@
            &&& w >= 4 && w >= num::decimal(v.lines.len()).len()
            &&& v.target == Some(i as usize) <==> l.style.bold
        }),
{
    let n = num::decimal((i + 1) as nat);
    let w = v.number_width();
    if n.len() == w {
        assert(text::repeat(' ', 0) + n =~= n);
    }
}

/// Each line of a file is colored with what goes before it in the file; files of
/// more than half a mebibyte are not colored.
pub proof fn lemma_colored_files(hl: HighlighterView, path: Seq<char>, content: Seq<char>, i: int)
    requires
        0 <= i < text::lines(content).len(),
    ensures
        hl.colored_file(path, content) matches Some(all) ==> {
            let lines = text::lines(content);
            &&& all.len() == lines.len()
            &&& hl.colored(path, lines.subrange(0, i), lines[i]) == Some(all[i])
        },
        vstd::utf8::encode_utf8(content).len() > 512 * 1024 ==> hl.colored_file(
            path,
            content,
        ) is None,
        !hl.enabled ==> hl.colored_file(path, content) is None,
{
    let lines = text::lines(content);
    assert(lines.subrange(0, i) =~= lines.take(i));
    if hl.colored_file(path, content) is Some {
        assert(hl.regions(path, lines.take(i), lines[i]) is Some);
    }
}

/// The caret is in the row and the column of the cursor, within the editor.
pub proof fn lemma_caret(e: EditorView)
    requires
        e.ok(),
        e.inner.width > 0,
        e.inner.height > 0,
        e.inner.x + e.inner.width <= u16::MAX,
        e.inner.y + e.inner.height <= u16::MAX,
    ensures
        ({
            let row = e.cursor_row(e.rows());
            let column = e.cursor_column(e.rows());
            &&& e.caret() is Some <==> e.scroll <= row < e.scroll + e.inner.height
            &&& e.caret() matches Some(p) ==> {
                &&& p.y == e.inner.y + (row - e.scroll)
                &&& column < e.inner.width ==> p.x == e.inner.x + column
                &&& e.inner.holds(p.x, p.y)
            }
        }),
{
    let column = e.cursor_column(e.rows());
    if column < e.inner.width {
        vstd::arithmetic::div_mod::lemma_small_mod(column as nat, 0x1_0000);
    }
}

/// Commits are listed with their short id, their age, their author in twelve
/// columns and what they say, behind the mark if they have it.
pub proof fn lemma_commit_lines(l: LogView, i: int)
    requires
        0 <= i < l.entries.len(),
    ensures
        ({
            let e = l.entries[i];
            let spans = l.shown(i).spans;
            &&& spans.len() == 5
            &&& spans[0].text == (if l.marked == Some(e.id) {
                "●"@
            } else {
                " "@
            })
            &&& spans[1].text == e.short + " "@
            &&& spans[3].text.len() == 13
            &&& e.author.len() <= 12 ==> e.author.is_prefix_of(spans[3].text)
            &&& e.author.len() > 12 ==> spans[3].text == e.author.take(12) + " "@
            &&& spans[4].text == e.summary
        }),
{
    reveal_strlit(" ");
    let e = l.entries[i];
    let t = picker::author_column(e.author) + " "@;
    if e.author.len() <= 12 {
        assert(t.take(e.author.len() as int) =~= e.author);
    }
}

/// The entries of the menu are numbered from one, and end at the same column.
pub proof fn lemma_menu_lines(p: PickerView, i: int, width: u16)
    requires
        0 <= i < p.items.len(),
    ensures
        ({
            let spans = p.shown(i, width).spans;
            let item = p.items[i];
            &&& spans.len() == 4
            &&& spans[0].text == " "@ + num::decimal((i + 1) as nat) + "  "@
            &&& spans[1].text == item.title && spans[3].text == item.detail
            &&& 10 + item.title.len() + item.detail.len() <= width ==> spans[1].text.len()
                + spans[2].text.len() + spans[3].text.len() == width - 9
        }),
{
}

/// One comment is one comment, and several are several.
pub proof fn lemma_numbers_of_comments(n: nat)
    ensures
        popups::clear_question(1) == "delete the 1 comment? [y/n]"@,
        n != 1 ==> popups::clear_question(n) == "delete all "@ + num::decimal(n)
            + " comments? [y/n]"@,
        n != 1 ==> export::preview_title(n) == " export preview · "@ + num::decimal(n)
            + " comments "@,
{
    if n != 1 {
        reveal_strlit(" comment");
        reveal_strlit("s");
        reveal_strlit(" ");
        reveal_strlit(" comments ");
        assert(" comments "@ =~= " comment"@ + "s"@ + " "@);
        assert(export::preview_title(n) =~= " export preview · "@ + num::decimal(n)
            + " comments "@);
    }
}

/// A rebuilt stream shows the displayed files; a search goes on with its query as
/// long as a line holds it, and without one there is none.
pub proof fn lemma_rebuilt_stream(
    canonical: Seq<FileDiffView>,
    display: Seq<FileDiffView>,
    s: StoreView,
    reader: ReaderView,
)
    requires
        review::fresh(
            display,
            views::shown_placements(canonical, display, s, true),
            views::anchored(s, canonical, true).comments,
        ).ok(),
    ensures
        ({
            let placed = views::shown_placements(canonical, display, s, true);
            let cs = views::anchored(s, canonical, true).comments;
            let t = views::built_stream(canonical, display, s, true, reader);
            &&& t.template == rows::stream_rows(display, placed, cs, display.len() as int)
            &&& t.rows == t.template
            &&& t.selection is None
            &&& reader.query is None ==> t.search is None
            &&& t.search matches Some(q) ==> reader.query == Some(q.query)
            &&& reader.query matches Some(query) ==> (t.search is Some <==> exists|i: int|
                0 <= i < t.rows.len() && searching::is_found(#[trigger] t.rows[i], display, query))
            &&& reader.query is None && reader.anchor is None ==> t.cursor == 0 && t.scroll == 0
        }),
{
    let placed = views::shown_placements(canonical, display, s, true);
    let cs = views::anchored(s, canonical, true).comments;
    let bare = review::fresh(display, placed, cs);
    if let Some(query) = reader.query {
        searching::lemma_search_finds_every_line(bare, display, query);
        let t = bare.searched(query, display);
        if t.search is Some {
            assert(searching::is_found(bare.rows[t.cursor as int], display, query));
        }
    }
}

} // verus!
