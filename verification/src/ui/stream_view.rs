//! The diff stream on screen: its title and its visible rows.

use crate::comments::{Comment, CommentView};
use crate::deep;
use crate::git::diff::{FileDiff, FileDiffView};
use crate::num;
use crate::text;
use crate::ui::highlight;
use crate::ui::highlight::{Highlighter, HighlighterView};
use crate::ui::paint;
use crate::ui::review;
use crate::ui::review::{Stream, StreamView};
use crate::ui::rows;
use crate::ui::rows::Row;
use crate::ui::stream_laws;
use crate::ui::style;
use crate::ui::style::{LineView, Rect, Span, SpanView, StyledLine};
use vstd::prelude::*;

verus! {

broadcast use crate::deep::group_deep;

/// What the stream pane shows.
pub struct StreamScreen {
    pub title: String,
    pub lines: Vec<StyledLine>,
}

/// Columns that the gutter of a diff line takes: two line numbers and the sign.
pub const GUTTER_WIDTH: u16 = 13;

/// The width that comments wrap at in a pane.
pub open spec fn comment_columns(width: u16) -> usize {
    if width < 3 {
        1
    } else {
        (width - 2) as usize
    }
}

/// The width that diff lines wrap at in a pane.
pub open spec fn line_columns(width: u16) -> usize {
    if width < GUTTER_WIDTH + 1 {
        1
    } else {
        (width - GUTTER_WIDTH) as usize
    }
}

/// The stream laid out for a pane, its rows shown in the inner area.
pub open spec fn laid_out(
    s: StreamView,
    files: Seq<FileDiffView>,
    comments: Seq<CommentView>,
    width: u16,
    inner: Rect,
) -> StreamView {
    StreamView {
        viewport: inner.height as usize,
        inner,
        ..s.reflowed(files, comments, comment_columns(width), Some(line_columns(width)))
    }
}

/// The sticky header: the current file, and the state of a live search.
pub open spec fn stream_title(s: StreamView, files: Seq<FileDiffView>) -> Seq<char> {
    let head = match s.file_here() {
        Some(fi) => " "@ + files[fi as int].path + "  ("@ + num::decimal((fi + 1) as nat) + "/"@
            + num::decimal(files.len()) + ") "@,
        None => " diff "@,
    };
    match s.search {
        Some(q) => head + "─ /"@ + q.query + "  "@ + num::decimal((q.current + 1) as nat) + "/"@
            + num::decimal(q.matches.len()) + " "@,
        None => head,
    }
}

/// The terms of a live search.
pub open spec fn terms(s: StreamView) -> Option<(Seq<char>, bool)> {
    match s.search {
        Some(q) => Some((q.query, q.case_sensitive)),
        None => None,
    }
}

/// Is the row part of the selection?
pub open spec fn is_selected(s: StreamView, row: int) -> bool {
    match s.selected() {
        Some((lo, hi)) => lo <= row < hi,
        None => false,
    }
}

/// The syntax spans that a row is painted with: those of its diff line, taken
/// by itself.
pub open spec fn syntax_of(hl: HighlighterView, row: Row, files: Seq<FileDiffView>) -> Option<
    Seq<SpanView>,
> {
    match row {
        Row::Line { file, .. } => hl.colored(
            files[file as int].path,
            Seq::empty(),
            review::line_at(files, row).content,
        ),
        _ => None,
    }
}

/// Row `i` of the stream, as it is shown.
pub open spec fn shown_row(
    hl: HighlighterView,
    s: StreamView,
    files: Seq<FileDiffView>,
    comments: Seq<CommentView>,
    focused: bool,
    i: int,
) -> LineView {
    paint::marked_line(
        paint::row_line(
            s.rows[i],
            files,
            comments,
            s.inner.width,
            terms(s),
            syntax_of(hl, s.rows[i], files),
        ),
        is_selected(s, i),
        i == s.cursor && focused,
    )
}

/// The syntax spans of the row make up its line.
pub open spec fn fits_row(hl: HighlighterView, row: Row, files: Seq<FileDiffView>) -> bool {
    match syntax_of(hl, row, files) {
        None => true,
        Some(spans) => highlight::colored_line(spans, review::line_at(files, row).content),
    }
}

fn paint_title(stream: &Stream, files: &[FileDiff]) -> (r: String)
    requires
        stream.wf(),
        stream@.shows(deep::deep(files@)),
    ensures
        r@ == stream_title(stream@, deep::deep(files@)),
{
    proof {
        stream.lemma_wf();
        rows::lemma_headers_at(stream@.rows);
    }
    let mut title: String = match stream.current_file() {
        Some(fi) => {
            assert(deep::deep(files@)[fi as int] == files@[fi as int]@);
            let mut s: String = text::copy(" ");
            text::put(&mut s, files[fi].path.as_str());
            text::put(&mut s, "  (");
            text::put(&mut s, num::decimal_text(fi as u64 + 1).as_str());
            text::put(&mut s, "/");
            text::put(&mut s, num::decimal_text(files.len() as u64).as_str());
            text::put(&mut s, ") ");
            s
        },
        None => text::copy(" diff "),
    };
    if let Some((current, total, query)) = stream.search_status() {
        text::put(&mut title, "─ /");
        text::put(&mut title, query.as_str());
        text::put(&mut title, "  ");
        text::put(&mut title, num::decimal_text(current as u64).as_str());
        text::put(&mut title, "/");
        text::put(&mut title, num::decimal_text(total as u64).as_str());
        text::put(&mut title, " ");
    }
    title
}

fn paint_at(
    stream: &Stream,
    files: &[FileDiff],
    comments: &[Comment],
    focused: bool,
    hl: &Highlighter,
    search: &Option<(String, bool)>,
    selection: Option<(usize, usize)>,
    i: usize,
) -> (r: StyledLine)
    requires
        stream.wf(),
        stream@.speaks_of(deep::deep(files@), comments@.len()),
        i < stream@.rows.len(),
        paint::terms_view(*search) == terms(stream@),
        match selection {
            Some((lo, hi)) => stream@.selected() == Some((lo as int, hi as int)),
            None => stream@.selected() is None,
        },
    ensures
        r@ == shown_row(
            hl@,
            stream@,
            deep::deep(files@),
            deep::deep(comments@),
            focused,
            i as int,
        ),
        fits_row(hl@, stream@.rows[i as int], deep::deep(files@)),
{
    let ghost fs = deep::deep(files@);
    let row: Row = stream.row(i);
    assert(rows::row_valid(stream@.rows[i as int], fs, comments@.len()));
    let syntax: Option<Vec<Span>> = match row {
        Row::Line { file, .. } => {
            assert(fs[file as int] == files@[file as int]@);
            let l = review::shown_line(files, row);
            hl.line_spans(files[file].path.as_str(), l.content.as_str())
        },
        _ => None,
    };
    assert(highlight::spans_view(syntax) == syntax_of(hl@, row, fs));
    let width: u16 = stream.viewport_rect().width;
    let line: StyledLine = paint::render_row(row, files, comments, width, search, &syntax);
    let selected: bool = match selection {
        Some((lo, hi)) => lo <= i && i < hi,
        None => false,
    };
    paint::mark_row(line, selected, i == stream.cursor_row() && focused)
}

/// Lays the stream out for a pane of the given width and paints the rows that
/// its inner area shows.
pub fn render(
    stream: &mut Stream,
    width: u16,
    inner: Rect,
    files: &[FileDiff],
    comments: &[Comment],
    focused: bool,
    hl: &Highlighter,
) -> (r: StreamScreen)
    requires
        old(stream).wf(),
        old(stream)@.shows(deep::deep(files@)),
        old(stream)@.speaks_of(deep::deep(files@), comments@.len()),
    ensures
        final(stream).wf(),
        final(stream)@ == laid_out(
            old(stream)@,
            deep::deep(files@),
            deep::deep(comments@),
            width,
            inner,
        ),
        final(stream)@.shows(deep::deep(files@)),
        final(stream)@.speaks_of(deep::deep(files@), comments@.len()),
        r.title@ == stream_title(final(stream)@, deep::deep(files@)),
        r.lines@.len() == style::least(
            inner.height as int,
            style::at_least_zero(final(stream)@.rows.len() - final(stream)@.scroll),
        ),
        forall|k: int|
            0 <= k < r.lines@.len() ==> (#[trigger] r.lines@[k])@ == shown_row(
                hl@,
                final(stream)@,
                deep::deep(files@),
                deep::deep(comments@),
                focused,
                final(stream)@.scroll + k,
            ) && fits_row(
                hl@,
                final(stream)@.rows[final(stream)@.scroll + k],
                deep::deep(files@),
            ),
{
    let ghost fs = deep::deep(files@);
    let ghost cs = deep::deep(comments@);
    let ghost before = stream@;
    let cw: usize = if width < 3 {
        1
    } else {
        (width - 2) as usize
    };
    let lw: usize = if width < GUTTER_WIDTH + 1 {
        1
    } else {
        (width - GUTTER_WIDTH) as usize
    };
    proof {
        stream.lemma_wf();
        stream_laws::lemma_reflow_shows(before, fs, cs, cw, Some(lw));
        lemma_bodies(before.template, fs, cs.len());
    }
    stream.reflow(cw, Some(lw), files, comments);
    stream.set_viewport(inner);
    let title: String = paint_title(stream, files);
    let search: Option<(String, bool)> = stream.search_terms();
    let selection: Option<(usize, usize)> = stream.selection_range();
    let mut lines: Vec<StyledLine> = Vec::new();
    let total: usize = stream.row_count();
    let first: usize = stream.scroll_row();
    let mut i: usize = first;
    while i < total && lines.len() < inner.height as usize
        invariant
            stream.wf(),
            stream@.speaks_of(fs, comments@.len()),
            fs == deep::deep(files@),
            cs == deep::deep(comments@),
            total == stream@.rows.len(),
            first == stream@.scroll,
            i == first + lines@.len(),
            i <= total || lines@.len() == 0,
            lines@.len() <= inner.height,
            paint::terms_view(search) == terms(stream@),
            match selection {
                Some((lo, hi)) => stream@.selected() == Some((lo as int, hi as int)),
                None => stream@.selected() is None,
            },
            forall|k: int|
                0 <= k < lines@.len() ==> (#[trigger] lines@[k])@ == shown_row(
                    hl@,
                    stream@,
                    fs,
                    cs,
                    focused,
                    first + k,
                ) && fits_row(hl@, stream@.rows[first + k], fs),
        decreases total - i,
    {
        let line: StyledLine = paint_at(
            stream,
            files,
            comments,
            focused,
            hl,
            &search,
            selection,
            i,
        );
        lines.push(line);
        i += 1;
    }
    StreamScreen { title, lines }
}

proof fn lemma_bodies(rows: Seq<Row>, files: Seq<FileDiffView>, comments: nat)
    requires
        rows::rows_valid(rows, files, comments),
    ensures
        rows::bodies_valid(rows, comments),
{
    assert forall|i: int| 0 <= i < rows.len() && (#[trigger] rows[i]) is CommentBody implies rows[i]->CommentBody_comment
        < comments by {
        assert(rows::row_valid(rows[i], files, comments));
    }
}

} // verus!
