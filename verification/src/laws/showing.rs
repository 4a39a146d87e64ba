//! What rows, entries and titles say.

use crate::app::state::{AppView, ScreenView};
use crate::comments::CommentView;
use crate::git::diff::FileDiffView;
use crate::num;
use crate::text;
use crate::ui::paint;
use crate::ui::review::StreamView;
use crate::ui::rows::Row;
use crate::ui::stream_view;
use crate::ui::style;
use crate::ui::style::SpanView;
use crate::ui::tree;
use crate::ui::tree::EntryView;
use vstd::prelude::*;

verus! {

proof fn lemma_plain_push(spans: Seq<SpanView>, s: SpanView)
    ensures
        style::plain_text(spans.push(s)) == style::plain_text(spans) + s.text,
{
    assert(spans.push(s).drop_last() =~= spans);
}

proof fn lemma_plain_two(a: SpanView, b: SpanView)
    ensures
        style::plain_text(seq![a, b]) == a.text + b.text,
{
    let none = Seq::<SpanView>::empty();
    assert(seq![a, b] =~= none.push(a).push(b));
    lemma_plain_push(none, a);
    lemma_plain_push(none.push(a), b);
    assert(style::plain_text(none) + a.text =~= a.text);
}

proof fn lemma_plain_add(a: Seq<SpanView>, b: Seq<SpanView>)
    ensures
        style::plain_text(a + b) == style::plain_text(a) + style::plain_text(b),
    decreases b.len(),
{
    if b.len() == 0 {
        assert(a + b =~= a);
        assert(style::plain_text(a) + style::plain_text(b) =~= style::plain_text(a));
    } else {
        lemma_plain_add(a, b.drop_last());
        assert((a + b).drop_last() =~= a + b.drop_last());
        assert(style::plain_text(a + b) =~= style::plain_text(a) + style::plain_text(b));
    }
}

/// The row of a comment's text shows its piece of that line of the text, the row
/// of a snippet shows that line of the snippet, and both stand behind the bar of
/// the comment.
pub proof fn lemma_comment_rows(
    files: Seq<FileDiffView>,
    cs: Seq<CommentView>,
    ci: usize,
    line: usize,
    start: usize,
    end: usize,
    width: u16,
    search: Option<(Seq<char>, bool)>,
    syntax: Option<Seq<SpanView>>,
)
    requires
        ci < cs.len(),
        line < text::lines(cs[ci as int].body).len(),
        start <= end <= text::lines(cs[ci as int].body)[line as int].len(),
    ensures
        style::plain_text(
            paint::row_line(
                Row::CommentBody { comment: ci, line, start, end },
                files,
                cs,
                width,
                search,
                syntax,
            ).spans,
        ) == "▐ "@ + text::lines(cs[ci as int].body)[line as int].subrange(
            start as int,
            end as int,
        ),
        line < cs[ci as int].snippet.len() ==> style::plain_text(
            paint::row_line(Row::CommentSnippet(ci, line), files, cs, width, search, syntax).spans,
        ) == "▐ "@ + cs[ci as int].snippet[line as int],
{
    let a = paint::row_line(
        Row::CommentBody { comment: ci, line, start, end },
        files,
        cs,
        width,
        search,
        syntax,
    ).spans;
    assert(a =~= seq![a[0], a[1]]);
    lemma_plain_two(a[0], a[1]);
    let b = paint::row_line(Row::CommentSnippet(ci, line), files, cs, width, search, syntax).spans;
    assert(b =~= seq![b[0], b[1]]);
    lemma_plain_two(b[0], b[1]);
}

/// The row of a diff line shows the gutter and then the row's piece of the line,
/// with syntax colors as without them; the row of a hunk shows its header.
pub proof fn lemma_line_rows(
    files: Seq<FileDiffView>,
    cs: Seq<CommentView>,
    f: usize,
    h: usize,
    l: usize,
    start: usize,
    end: usize,
    width: u16,
    search: Option<(Seq<char>, bool)>,
    syntax: Option<Seq<SpanView>>,
)
    requires
        f < files.len(),
        h < files[f as int].hunks.len(),
        l < files[f as int].hunks[h as int].lines.len(),
        start <= end <= files[f as int].hunks[h as int].lines[l as int].content.len(),
        syntax matches Some(spans) ==> style::plain_text(spans)
            == files[f as int].hunks[h as int].lines[l as int].content,
    ensures
        ({
            let at = files[f as int].hunks[h as int].lines[l as int];
            let row = Row::Line { file: f, hunk: h, line: l, start, end };
            &&& style::plain_text(
                paint::row_line(row, files, cs, width, search, syntax).spans,
            ) == style::plain_text(paint::gutter(at, start)) + at.content.subrange(
                start as int,
                end as int,
            )
            &&& paint::row_line(
                Row::HunkHeader(f, h),
                files,
                cs,
                width,
                search,
                syntax,
            ).spans.len() == 1
            &&& paint::row_line(
                Row::HunkHeader(f, h),
                files,
                cs,
                width,
                search,
                syntax,
            ).spans[0].text == files[f as int].hunks[h as int].header
        }),
{
    let at = files[f as int].hunks[h as int].lines[l as int];
    let content = paint::line_content(at, search, syntax);
    assert(style::plain_text(content) == at.content) by {
        if !paint::searched(at.content, search) && syntax is Some {
            lemma_tinted(syntax->0, at.origin);
        } else {
            paint::lemma_painting_keeps_text(
                at.content,
                paint::origin_style(at.origin),
                search,
            );
        }
    }
    paint::lemma_row_shows_its_piece(content, at.content, start, end);
    lemma_plain_add(
        paint::gutter(at, start),
        paint::row_spans(content, at.content, start, end),
    );
}

proof fn lemma_tinted(spans: Seq<SpanView>, origin: char)
    ensures
        style::plain_text(paint::tinted(spans, origin)) == style::plain_text(spans),
    decreases spans.len(),
{
    if spans.len() > 0 {
        lemma_tinted(spans.drop_last(), origin);
        assert(paint::tinted(spans, origin).drop_last() =~= paint::tinted(
            spans.drop_last(),
            origin,
        ));
    }
}

/// An entry of the tree says its name behind two blanks for every directory it is
/// in: a directory behind the arrow that says whether it is open, a file behind
/// the letter of its status and, where it has comments, before their number.
pub proof fn lemma_tree_entries(e: EntryView)
    ensures
        ({
            let t = style::plain_text(tree::entry_line(e).spans);
            let indent = Seq::new((2 * e.depth) as nat, |i: int| ' ');
            match e.status {
                None => t == indent + (if e.expanded {
                    "▾ "@
                } else {
                    "▸ "@
                }) + e.name + "/"@,
                Some(s) => t == indent + seq![s.letter_of(), ' '] + e.name + (if e.count > 0 {
                    " ✎ "@ + num::decimal(e.count as nat)
                } else {
                    Seq::empty()
                }),
            }
        }),
{
    let spans = tree::entry_line(e).spans;
    let none = Seq::<SpanView>::empty();
    let indent = Seq::new((2 * e.depth) as nat, |i: int| ' ');
    assert(spans[0].text =~= indent);
    lemma_plain_push(none, spans[0]);
    lemma_plain_push(none.push(spans[0]), spans[1]);
    lemma_plain_push(none.push(spans[0]).push(spans[1]), spans[2]);
    let three = none.push(spans[0]).push(spans[1]).push(spans[2]);
    if spans.len() > 3 {
        lemma_plain_push(three, spans[3]);
        assert(three.push(spans[3]) =~= spans);
    } else {
        assert(three =~= spans);
    }
    let t = style::plain_text(spans);
    match e.status {
        None => {
            assert(t =~= indent + (if e.expanded {
                "▾ "@
            } else {
                "▸ "@
            }) + e.name + "/"@);
        },
        Some(s) => {
            assert(t =~= indent + seq![s.letter_of(), ' '] + e.name + (if e.count > 0 {
                " ✎ "@ + num::decimal(e.count as nat)
            } else {
                Seq::empty()
            }));
        },
    }
}

/// The title of the diff names the current file and which of the files it is, and
/// of a search the query and which of the matches is the current one.
pub proof fn lemma_stream_title(s: StreamView, files: Seq<FileDiffView>, fi: usize)
    requires
        s.file_here() == Some(fi),
        fi < files.len(),
    ensures
        ({
            let place = " "@ + files[fi as int].path + "  ("@ + num::decimal((fi + 1) as nat)
                + "/"@ + num::decimal(files.len()) + ") "@;
            let t = stream_view::stream_title(s, files);
            match s.search {
                None => t == place,
                Some(q) => t == place + "─ /"@ + q.query + "  "@ + num::decimal(
                    (q.current + 1) as nat,
                ) + "/"@ + num::decimal(q.matches.len()) + " "@,
            }
        }),
{
}

/// The title bar says an error before a notice, and a notice before what is on
/// screen; a reload is mentioned for a second and a half.
pub proof fn lemma_title(app: AppView, now: u64)
    ensures
        app.error matches Some(e) ==> app.title_line(now).spans.len() == 2 && app.title_line(
            now,
        ).spans[1].text == " "@ + e,
        app.error is None ==> (app.notice matches Some(n) ==> app.title_line(now).spans.len() == 2
            && app.title_line(now).spans[1].text == " ✔ "@ + n),
        app.error is None && app.notice is None ==> (app.screen matches ScreenView::Review(r)
            ==> app.title_line(now).spans[1].text == " "@ + r.scope.label()),
        app.reloaded_at matches Some(t) ==> (app.just_reloaded(now) <==> now < t + 1500),
        app.reloaded_at is None ==> !app.just_reloaded(now),
{
}

} // verus!
