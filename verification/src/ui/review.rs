//! The continuous multi-file diff view: cursor, selection, search, comment
//! positions and reading position.

use crate::case;
use crate::comments;
use crate::comments::{Comment, CommentView, Placed};
use crate::deep;
use crate::git::diff;
use crate::git::diff::{DiffLine, DiffLineView, DiffResult, FileDiff, FileDiffView};
use crate::text;
use crate::ui::rows;
use crate::ui::rows::{Landmark, Row, RowOrigin};
use crate::ui::style;
use crate::ui::style::{Position, Rect};
use vstd::prelude::*;

verus! {

broadcast use crate::deep::group_deep;

struct SearchState {
    query: String,
    case_sensitive: bool,
    /// Row indices of matching lines, ascending.
    matches: Vec<usize>,
    current: usize,
}

/// What a live search holds.
#[verifier::ext_equal]
pub struct SearchView {
    pub query: Seq<char>,
    pub case_sensitive: bool,
    pub matches: Seq<usize>,
    pub current: usize,
}

impl View for SearchState {
    type V = SearchView;

    closed spec fn view(&self) -> SearchView {
        SearchView {
            query: self.query@,
            case_sensitive: self.case_sensitive,
            matches: self.matches@,
            current: self.current,
        }
    }
}

/// Everything needed to create a comment: captured at `c` time.
#[derive(Debug)]
pub struct CommentTarget {
    pub path: String,
    pub new_side: bool,
    pub lines: (u32, u32),
    pub snippet: Vec<String>,
}

/// What a comment target says.
#[verifier::ext_equal]
pub struct TargetView {
    pub path: Seq<char>,
    pub new_side: bool,
    pub lines: (u32, u32),
    pub snippet: Seq<Seq<char>>,
}

impl View for CommentTarget {
    type V = TargetView;

    open spec fn view(&self) -> TargetView {
        TargetView {
            path: self.path@,
            new_side: self.new_side,
            lines: self.lines,
            snippet: deep::deep(self.snippet@),
        }
    }
}

impl CommentTarget {
    /// A copy of the target.
    pub fn copy(&self) -> (r: CommentTarget)
        ensures
            r@ == self@,
    {
        CommentTarget {
            path: text::copy(self.path.as_str()),
            new_side: self.new_side,
            lines: self.lines,
            snippet: text::copy_all(self.snippet.as_slice()),
        }
    }
}

/// Where the reader is: file path, cursor rows below its header, cursor rows
/// below the viewport top.
pub type StreamAnchor = (String, usize, usize);

/// What an anchor says.
#[verifier::ext_equal]
pub struct AnchorView {
    pub path: Seq<char>,
    pub rel: usize,
    pub screen_offset: usize,
}

/// What an anchor says.
pub open spec fn anchor_view(a: StreamAnchor) -> AnchorView {
    AnchorView { path: a.0@, rel: a.1, screen_offset: a.2 }
}

/// The continuous multi-file diff view.
pub struct Stream {
    /// Width-independent rows. Long rows are expanded from this template
    /// whenever the diff pane changes width.
    template_rows: Vec<Row>,
    rows: Vec<Row>,
    row_origins: Vec<RowOrigin>,
    comment_wrap_width: usize,
    line_wrap_width: Option<usize>,
    /// Row index of each file's header, in file order.
    file_starts: Vec<usize>,
    /// Row index of each hunk header, in stream order.
    hunk_starts: Vec<usize>,
    /// Row index of each comment header, in stream order.
    comment_starts: Vec<usize>,
    pub scroll: usize,
    /// The highlighted row all position-dependent actions operate on.
    pub cursor: usize,
    /// Selection anchor (`v`); the selection is anchor..=cursor.
    selection_anchor: Option<usize>,
    /// Height of the last rendered viewport, for paging and clamping.
    viewport: usize,
    search: Option<SearchState>,
    /// Inner rect from the last render, for mouse hit-testing.
    last_inner: Rect,
}

/// What a stream holds. The lists of landmark rows follow from the rows: see
/// `landmarks`.
#[verifier::ext_equal]
pub struct StreamView {
    pub template: Seq<Row>,
    pub rows: Seq<Row>,
    pub origins: Seq<RowOrigin>,
    pub comment_width: usize,
    pub line_width: Option<usize>,
    pub scroll: usize,
    pub cursor: usize,
    pub selection: Option<usize>,
    pub viewport: usize,
    pub search: Option<SearchView>,
    pub inner: Rect,
}

impl View for Stream {
    type V = StreamView;

    closed spec fn view(&self) -> StreamView {
        StreamView {
            template: self.template_rows@,
            rows: self.rows@,
            origins: self.row_origins@,
            comment_width: self.comment_wrap_width,
            line_width: self.line_wrap_width,
            scroll: self.scroll,
            cursor: self.cursor,
            selection: self.selection_anchor,
            viewport: self.viewport,
            search: deep::deep_opt(self.search),
            inner: self.last_inner,
        }
    }
}

// ---- the model ------------------------------------------------------------------------

/// `n` brought into `lo..=hi`.
pub open spec fn clamped(n: int, lo: int, hi: int) -> int {
    if n < lo {
        lo
    } else if n > hi {
        hi
    } else {
        n
    }
}

/// The first landmark past a row, from index `i` on.
pub open spec fn first_past(starts: Seq<usize>, row: usize, i: int) -> Option<usize>
    decreases starts.len() - i,
{
    if i < 0 || i >= starts.len() {
        None
    } else if starts[i] > row {
        Some(starts[i])
    } else {
        first_past(starts, row, i + 1)
    }
}

/// The last landmark before a row, among the first `n`.
pub open spec fn last_before(starts: Seq<usize>, row: usize, n: int) -> Option<usize>
    decreases n,
{
    if n <= 0 {
        None
    } else if starts[n - 1] < row {
        Some(starts[n - 1])
    } else {
        last_before(starts, row, n - 1)
    }
}

/// How many of the landmarks lie at or before a row; they are ascending.
pub open spec fn count_reached(starts: Seq<usize>, row: usize) -> nat
    decreases starts.len(),
{
    if starts.len() == 0 {
        0
    } else if starts.last() <= row {
        starts.len()
    } else {
        count_reached(starts.drop_last(), row)
    }
}

/// Do two rows show pieces of the same diff line?
pub open spec fn same_line(a: Row, b: Row) -> bool {
    match (a, b) {
        (
            Row::Line { file: f1, hunk: h1, line: l1, .. },
            Row::Line { file: f2, hunk: h2, line: l2, .. },
        ) => f1 == f2 && h1 == h2 && l1 == l2,
        _ => false,
    }
}

/// The diff line that a row shows a piece of.
pub open spec fn line_at(files: Seq<FileDiffView>, row: Row) -> DiffLineView {
    match row {
        Row::Line { file, hunk, line, .. } =>
            files[file as int].hunks[hunk as int].lines[line as int],
        _ => arbitrary(),
    }
}

/// A diff line with its sign, as snippets hold it.
pub open spec fn signed(line: DiffLineView) -> Seq<char> {
    seq![line.origin] + line.content
}

/// The rows `lo..hi` that show a diff line, each line once.
pub open spec fn picked(rows: Seq<Row>, lo: int, hi: int) -> Seq<Row>
    decreases hi - lo,
{
    if hi <= lo {
        Seq::empty()
    } else {
        let before = picked(rows, lo, hi - 1);
        let row = rows[hi - 1];
        if row is Line && (hi - 1 == lo || !same_line(rows[hi - 2], row)) {
            before.push(row)
        } else {
            before
        }
    }
}

/// The numbers that lines have on the new side, in order.
pub open spec fn new_numbers(files: Seq<FileDiffView>, lines: Seq<Row>) -> Seq<u32>
    decreases lines.len(),
{
    if lines.len() == 0 {
        Seq::empty()
    } else {
        let before = new_numbers(files, lines.drop_last());
        match line_at(files, lines.last()).new_lineno {
            Some(n) => before.push(n),
            None => before,
        }
    }
}

/// The numbers that lines have on the old side, in order.
pub open spec fn old_numbers(files: Seq<FileDiffView>, lines: Seq<Row>) -> Seq<u32>
    decreases lines.len(),
{
    if lines.len() == 0 {
        Seq::empty()
    } else {
        let before = old_numbers(files, lines.drop_last());
        match line_at(files, lines.last()).old_lineno {
            Some(n) => before.push(n),
            None => before,
        }
    }
}

/// Do all lines belong to the file and hunk of the first one?
pub open spec fn one_hunk(lines: Seq<Row>) -> bool {
    forall|i: int|
        0 <= i < lines.len() ==> (#[trigger] lines[i])->Line_file == lines[0]->Line_file
            && lines[i]->Line_hunk == lines[0]->Line_hunk
}

/// Is one of the lines shown only by an inline expansion?
pub open spec fn any_expanded(files: Seq<FileDiffView>, lines: Seq<Row>) -> bool {
    exists|i: int|
        0 <= i < lines.len() && line_at(files, #[trigger] lines[i]).expanded_context
}

/// The message for a selection that a comment cannot be made on.
pub open spec fn spans_hunks() -> Seq<char> {
    "comment selections must stay within one file and hunk"@
}

/// The message for a line that is not part of the original diff.
pub open spec fn not_in_diff() -> Seq<char> {
    "comments require a line in the original diff"@
}

/// The comment target made of diff lines, `None` if they have no numbers.
pub open spec fn target_of(files: Seq<FileDiffView>, lines: Seq<Row>) -> Option<TargetView> {
    let new = new_numbers(files, lines);
    let old = old_numbers(files, lines);
    let nums = if new.len() == 0 {
        old
    } else {
        new
    };
    if nums.len() == 0 {
        None
    } else {
        Some(
            TargetView {
                path: files[lines[0]->Line_file as int].path,
                new_side: new.len() > 0,
                lines: (nums[0], nums.last()),
                snippet: lines.map_values(|r: Row| signed(line_at(files, r))),
            },
        )
    }
}

/// The text that copying the rows `lo..hi` gives: patch lines with signs and
/// hunk headers, or clean new-side code without deletions.
pub open spec fn copied(
    rows: Seq<Row>,
    files: Seq<FileDiffView>,
    patch_style: bool,
    lo: int,
    hi: int,
) -> Seq<char>
    decreases hi - lo,
{
    if hi <= lo {
        Seq::empty()
    } else {
        let before = copied(rows, files, patch_style, lo, hi - 1);
        match rows[hi - 1] {
            Row::Line { .. } => {
                let line = line_at(files, rows[hi - 1]);
                if hi - 1 > lo && same_line(rows[hi - 2], rows[hi - 1]) {
                    before
                } else if patch_style {
                    before.push(line.origin) + line.content + "\n"@
                } else if line.origin != '-' {
                    before + line.content + "\n"@
                } else {
                    before
                }
            },
            Row::HunkHeader(fi, hi_) => if patch_style {
                before + files[fi as int].hunks[hi_ as int].header + "\n"@
            } else {
                before
            },
            _ => before,
        }
    }
}

/// Smart case: a query with an uppercase character is case-sensitive.
pub open spec fn has_upper(query: Seq<char>) -> bool {
    exists|i: int| 0 <= i < query.len() && case::is_upper(#[trigger] query[i])
}

/// Does a line's content hold the query?
pub open spec fn hits(content: Seq<char>, query: Seq<char>, case_sensitive: bool) -> bool {
    if case_sensitive {
        text::find_from(content, query, 0) is Some
    } else {
        text::find_from(case::lowercase(content), case::lowercase(query), 0) is Some
    }
}

/// Is the row the first piece of a diff line that holds the query?
pub open spec fn row_hits(
    row: Row,
    files: Seq<FileDiffView>,
    query: Seq<char>,
    case_sensitive: bool,
) -> bool {
    match row {
        Row::Line { start, .. } => start == 0 && hits(
            line_at(files, row).content,
            query,
            case_sensitive,
        ),
        _ => false,
    }
}

/// The first `n` rows that hold the query, ascending.
pub open spec fn matching(
    rows: Seq<Row>,
    files: Seq<FileDiffView>,
    query: Seq<char>,
    case_sensitive: bool,
    n: int,
) -> Seq<usize>
    decreases n,
{
    if n <= 0 {
        Seq::empty()
    } else {
        let before = matching(rows, files, query, case_sensitive, n - 1);
        if row_hits(rows[n - 1], files, query, case_sensitive) {
            before.push((n - 1) as usize)
        } else {
            before
        }
    }
}

/// Where the listed rows went; those that are gone are left out.
pub open spec fn relocated(
    matches: Seq<usize>,
    from: Seq<RowOrigin>,
    to: Seq<RowOrigin>,
) -> Seq<usize>
    decreases matches.len(),
{
    if matches.len() == 0 {
        Seq::empty()
    } else {
        let before = relocated(matches.drop_last(), from, to);
        let m = matches.last();
        if m < from.len() {
            match rows::located(to, from[m as int], to.len() as int) {
                Some(r) => before.push(r),
                None => before,
            }
        } else {
            before
        }
    }
}

impl StreamView {
    /// The last row that the cursor or the view can reach.
    pub open spec fn limit(self) -> int {
        if self.rows.len() == 0 {
            0
        } else {
            self.rows.len() - 1
        }
    }

    /// The rows that a viewport shows, at least one.
    pub open spec fn window(self) -> int {
        if self.viewport == 0 {
            1
        } else {
            self.viewport as int
        }
    }

    pub open spec fn landmarks(self, kind: Landmark) -> Seq<usize> {
        rows::landmarks(self.rows, kind)
    }

    /// What always holds of a stream.
    pub open spec fn ok(self) -> bool {
        &&& self.rows.len() == self.origins.len()
        &&& self.rows.len() <= usize::MAX
        &&& self.template.len() <= usize::MAX
        &&& forall|i: int|
            0 <= i < self.origins.len() ==> (#[trigger] self.origins[i]).template
                < self.template.len()
        &&& forall|t: int|
            0 <= t < self.template.len() ==> rows::has_first_piece(self.origins, t)
        &&& forall|i: int|
            0 <= i < self.rows.len() ==> rows::same_kind(
                #[trigger] self.rows[i],
                self.template[self.origins[i].template as int],
            )
        &&& self.rows.len() > 0 ==> self.rows[0] is FileHeader
        &&& self.template.len() > 0 ==> self.template[0] is FileHeader
        &&& self.cursor <= self.limit()
        &&& self.scroll <= self.rows.len()
        &&& self.selection matches Some(a) ==> a < self.rows.len()
        &&& self.search matches Some(s) ==> {
            &&& s.matches.len() > 0
            &&& s.current < s.matches.len() <= usize::MAX
            &&& forall|i: int| 0 <= i < s.matches.len() ==> (#[trigger] s.matches[i]) < self.rows.len()
        }
    }

    /// The rows show the given files: they refer to what is there, and every
    /// file has its header, in order.
    pub open spec fn shows(self, files: Seq<FileDiffView>) -> bool {
        &&& rows::rows_in(self.rows, files)
        &&& rows::rows_in(self.template, files)
        &&& rows::headers(self.rows) == rows::numbers(files.len())
        &&& rows::headers(self.template) == rows::numbers(files.len())
    }

    /// The rows refer to the given comments.
    pub open spec fn speaks_of(self, files: Seq<FileDiffView>, comments: nat) -> bool {
        &&& rows::rows_valid(self.rows, files, comments)
        &&& rows::rows_valid(self.template, files, comments)
    }

    /// Scrolled just enough to keep the cursor on screen.
    pub open spec fn revealed(self) -> StreamView {
        if self.cursor < self.scroll {
            StreamView { scroll: self.cursor, ..self }
        } else if self.cursor >= self.scroll + self.window() {
            StreamView { scroll: (self.cursor + 1 - self.window()) as usize, ..self }
        } else {
            self
        }
    }

    /// The cursor put on a row, the view following.
    pub open spec fn at_row(self, row: int) -> StreamView {
        StreamView { cursor: clamped(row, 0, self.limit()) as usize, ..self }.revealed()
    }

    /// The cursor moved by `delta` rows, the view following.
    pub open spec fn moved(self, delta: int) -> StreamView {
        self.at_row(self.cursor + delta)
    }

    /// A row brought to the top of the viewport with the cursor on it.
    pub open spec fn jumped(self, row: int) -> StreamView {
        let c = clamped(row, 0, self.limit()) as usize;
        StreamView { cursor: c, scroll: c, ..self }
    }

    /// The jump to a landmark, if there is one.
    pub open spec fn jumped_to(self, start: Option<usize>) -> StreamView {
        match start {
            Some(row) => self.jumped(row as int),
            None => self,
        }
    }

    pub open spec fn next_landmark(self, kind: Landmark) -> StreamView {
        self.jumped_to(first_past(self.landmarks(kind), self.cursor, 0))
    }

    pub open spec fn prev_landmark(self, kind: Landmark) -> StreamView {
        let starts = self.landmarks(kind);
        self.jumped_to(last_before(starts, self.cursor, starts.len() as int))
    }

    /// The jump to the header of a file.
    pub open spec fn at_file(self, fi: usize) -> StreamView {
        let starts = self.landmarks(Landmark::File);
        if fi < starts.len() {
            self.jumped(starts[fi as int] as int)
        } else {
            self
        }
    }

    /// The view scrolled by `delta` rows, dragging the cursor along.
    pub open spec fn scrolled(self, delta: int) -> StreamView {
        let scroll = clamped(self.scroll + delta, 0, self.limit());
        let last = style::least(scroll + self.window() - 1, self.limit());
        StreamView {
            scroll: scroll as usize,
            cursor: clamped(self.cursor as int, scroll, last) as usize,
            ..self
        }
    }

    /// One page less a row of overlap.
    pub open spec fn page_rows(self) -> int {
        if self.viewport == 0 {
            0
        } else {
            self.viewport - 1
        }
    }

    /// Half a page, at least one row.
    pub open spec fn half_rows(self) -> int {
        if self.viewport < 2 {
            1
        } else {
            self.viewport as int / 2
        }
    }

    pub open spec fn at_top(self) -> StreamView {
        StreamView { cursor: 0, scroll: 0, ..self }
    }

    /// Cursor on the last row; the full last page shown.
    pub open spec fn at_bottom(self) -> StreamView {
        StreamView {
            cursor: self.limit() as usize,
            scroll: style::at_least_zero(self.rows.len() - self.viewport) as usize,
            ..self
        }
    }

    /// The row at a screen position.
    pub open spec fn row_at(self, column: u16, row: u16) -> Option<usize> {
        if self.inner.holds(column, row) && self.scroll + (row - self.inner.y) < self.rows.len() {
            Some((self.scroll + (row - self.inner.y)) as usize)
        } else {
            None
        }
    }

    /// The screen position of the cursor row.
    pub open spec fn cursor_position(self) -> Option<Position> {
        let offset = (self.cursor - self.scroll) % 0x1_0000;
        if self.cursor >= self.scroll && offset < self.inner.height {
            Some(
                Position {
                    x: style::at_most_u16(self.inner.x + 2),
                    y: style::at_most_u16(self.inner.y + offset),
                },
            )
        } else {
            None
        }
    }

    pub open spec fn stub_at_cursor(self) -> Option<usize> {
        if self.cursor < self.rows.len() {
            match self.rows[self.cursor as int] {
                Row::LargeStub(fi) => Some(fi),
                _ => None,
            }
        } else {
            None
        }
    }

    pub open spec fn comment_here(self) -> Option<usize> {
        if self.cursor < self.rows.len() {
            match self.rows[self.cursor as int] {
                Row::CommentHeader(ci) => Some(ci),
                Row::CommentSnippet(ci, _) => Some(ci),
                Row::CommentBody { comment, .. } => Some(comment),
                _ => None,
            }
        } else {
            None
        }
    }

    /// The selected rows: from the first one to the one past the last.
    pub open spec fn selected(self) -> Option<(int, int)> {
        match self.selection {
            None => None,
            Some(a) => Some(
                (
                    style::least(a as int, self.cursor as int),
                    style::most(a as int, self.cursor as int) + 1,
                ),
            ),
        }
    }

    /// What a comment on the selection is made on.
    pub open spec fn selection_lines(self) -> Seq<Row> {
        match self.selected() {
            None => Seq::empty(),
            Some((lo, hi)) => picked(self.rows, lo, hi),
        }
    }

    /// Position of the first diff line with a number at or after row `i`.
    pub open spec fn line_from(self, files: Seq<FileDiffView>, i: int) -> Option<int>
        decreases self.rows.len() - i,
    {
        if i < 0 || i >= self.rows.len() {
            None
        } else if self.rows[i] is Line && (line_at(files, self.rows[i]).new_lineno is Some
            || line_at(files, self.rows[i]).old_lineno is Some) {
            Some(i)
        } else {
            self.line_from(files, i + 1)
        }
    }

    /// What a bare `c` comments on: the first diff line at or below the cursor.
    pub open spec fn bare_target(self, files: Seq<FileDiffView>) -> Option<TargetView> {
        match self.line_from(files, self.cursor as int) {
            Some(i) => target_of(files, seq![self.rows[i]]),
            None => None,
        }
    }

    /// Is the line that a bare `c` comments on shown only by an inline expansion?
    pub open spec fn expanded_here(self, files: Seq<FileDiffView>) -> bool {
        match self.line_from(files, self.cursor as int) {
            Some(i) => line_at(files, self.rows[i]).expanded_context,
            None => false,
        }
    }

    /// The file and, where known, the line number of the first row at or after
    /// `i` that has one.
    pub open spec fn place_from(self, files: Seq<FileDiffView>, i: int) -> Option<
        (usize, Option<u32>),
    >
        decreases self.rows.len() - i,
    {
        if i < 0 || i >= self.rows.len() {
            None
        } else {
            match self.rows[i] {
                Row::Line { file, .. } => {
                    let line = line_at(files, self.rows[i]);
                    Some(
                        (
                            file,
                            if line.new_lineno is Some {
                                line.new_lineno
                            } else {
                                line.old_lineno
                            },
                        ),
                    )
                },
                Row::FileHeader(fi) => Some((fi, None)),
                _ => self.place_from(files, i + 1),
            }
        }
    }

    /// The file that the cursor is in.
    pub open spec fn file_here(self) -> Option<usize> {
        let starts = self.landmarks(Landmark::File);
        if starts.len() == 0 {
            None
        } else {
            Some(style::at_least_zero(count_reached(starts, self.cursor) - 1) as usize)
        }
    }

    /// Where the reader is, stable across reloads.
    pub open spec fn anchor(self, files: Seq<FileDiffView>) -> Option<AnchorView> {
        match self.file_here() {
            None => None,
            Some(fi) => Some(
                AnchorView {
                    path: files[fi as int].path,
                    rel: (self.cursor - self.landmarks(Landmark::File)[fi as int]) as usize,
                    screen_offset: style::at_least_zero(self.cursor - self.scroll) as usize,
                },
            ),
        }
    }

    /// The row past the last one of a file.
    pub open spec fn file_end(self, fi: int) -> int {
        let starts = self.landmarks(Landmark::File);
        if fi + 1 < starts.len() {
            starts[fi + 1] as int
        } else {
            self.rows.len() as int
        }
    }

    /// The cursor brought back to an anchor; left alone if its file is gone.
    pub open spec fn restored_cursor(self, a: AnchorView, files: Seq<FileDiffView>) -> int {
        let k = diff::path_index(files, a.path);
        let starts = self.landmarks(Landmark::File);
        if k < files.len() && k < starts.len() {
            style::least(starts[k] + a.rel, style::at_least_zero(self.file_end(k) - 1))
        } else {
            self.cursor as int
        }
    }

    /// The view with an offset of the cursor from its top.
    pub open spec fn with_offset(self, screen_offset: usize) -> StreamView {
        StreamView {
            scroll: style::least(
                style::at_least_zero(self.cursor - screen_offset),
                self.limit(),
            ) as usize,
            ..self
        }.revealed()
    }

    /// The reading position brought back after the diff was rebuilt.
    pub open spec fn restored(self, a: AnchorView, files: Seq<FileDiffView>) -> StreamView {
        StreamView {
            cursor: clamped(self.restored_cursor(a, files), 0, self.limit()) as usize,
            ..self
        }.with_offset(a.screen_offset)
    }

    /// The jump to the current match, a few rows of context above it.
    pub open spec fn at_match(self) -> StreamView {
        match self.search {
            None => self,
            Some(s) => if s.current < s.matches.len() {
                let row = s.matches[s.current as int] as int;
                StreamView {
                    cursor: style::least(row, self.limit()) as usize,
                    scroll: style::least(style::at_least_zero(row - 3), self.limit()) as usize,
                    ..self
                }
            } else {
                self
            },
        }
    }

    /// A search started; `None` of it stays if nothing matches.
    pub open spec fn searched(self, query: Seq<char>, files: Seq<FileDiffView>) -> StreamView {
        let case_sensitive = has_upper(query);
        let m = matching(self.rows, files, query, case_sensitive, self.rows.len() as int);
        if m.len() == 0 {
            StreamView { search: None, ..self }
        } else {
            StreamView {
                search: Some(SearchView { query, case_sensitive, matches: m, current: 0 }),
                ..self
            }.at_match()
        }
    }

    /// The search moved on by `step` matches, around the ends.
    pub open spec fn match_moved(self, step: int) -> StreamView {
        match self.search {
            None => self,
            Some(s) => StreamView {
                search: Some(
                    SearchView {
                        current: ((s.current + step) % s.matches.len() as int) as usize,
                        ..s
                    },
                ),
                ..self
            }.at_match(),
        }
    }

    /// The rows broken to new widths, the cursor, the selection and the
    /// matches staying on what they were on.
    pub open spec fn reflowed(
        self,
        files: Seq<FileDiffView>,
        comments: Seq<CommentView>,
        comment_width: usize,
        line_width: Option<usize>,
    ) -> StreamView {
        if comment_width == self.comment_width && line_width == self.line_width {
            self
        } else {
            let n = self.template.len() as int;
            let rows = rows::laid_rows(
                self.template,
                files,
                comments,
                comment_width,
                line_width,
                n,
            );
            let origins = rows::laid_origins(
                self.template,
                files,
                comments,
                comment_width,
                line_width,
                n,
            );
            let cursor = if self.cursor < self.origins.len() {
                match rows::located(
                    origins,
                    self.origins[self.cursor as int],
                    origins.len() as int,
                ) {
                    Some(r) => r,
                    None => self.cursor,
                }
            } else {
                self.cursor
            };
            let selection = match self.selection {
                Some(a) => if a < self.origins.len() {
                    rows::located(origins, self.origins[a as int], origins.len() as int)
                } else {
                    None
                },
                None => None,
            };
            let search = match self.search {
                None => None,
                Some(s) => {
                    let m = relocated(s.matches, self.origins, origins);
                    Some(
                        SearchView {
                            matches: m,
                            current: style::least(
                                s.current as int,
                                style::at_least_zero(m.len() - 1),
                            ) as usize,
                            ..s
                        },
                    )
                },
            };
            let laid = StreamView {
                rows,
                origins,
                comment_width,
                line_width,
                cursor,
                selection,
                search,
                ..self
            };
            StreamView {
                cursor: clamped(laid.cursor as int, 0, laid.limit()) as usize,
                ..laid
            }.with_offset(style::at_least_zero(self.cursor - self.scroll) as usize)
        }
    }
}

/// The stream of a diff that has just been opened.
pub open spec fn fresh(
    files: Seq<FileDiffView>,
    placed: Seq<Placed>,
    comments: Seq<CommentView>,
) -> StreamView {
    let template = rows::stream_rows(files, placed, comments, files.len() as int);
    StreamView {
        template,
        rows: template,
        origins: Seq::new(
            template.len(),
            |i: int| RowOrigin { template: i as usize, offset: 0 },
        ),
        comment_width: 0,
        line_width: None,
        scroll: 0,
        cursor: 0,
        selection: None,
        viewport: 24,
        search: None,
        inner: style::no_area(),
    }
}

// ---- the stream -------------------------------------------------------------------------

fn bring_into(n: i128, lo: usize, hi: usize) -> (r: usize)
    requires
        lo <= hi,
    ensures
        r == clamped(n as int, lo as int, hi as int),
{
    if n < lo as i128 {
        lo
    } else if n > hi as i128 {
        hi
    } else {
        n as usize
    }
}

fn smaller(a: usize, b: usize) -> (r: usize)
    ensures
        r == style::least(a as int, b as int),
{
    if a <= b {
        a
    } else {
        b
    }
}

impl Stream {
    /// What always holds of a stream.
    pub closed spec fn wf(&self) -> bool {
        &&& self@.ok()
        &&& self.file_starts@ == self@.landmarks(Landmark::File)
        &&& self.hunk_starts@ == self@.landmarks(Landmark::Hunk)
        &&& self.comment_starts@ == self@.landmarks(Landmark::Comment)
    }

    /// What `wf` says of the rows that a stream shows.
    pub proof fn lemma_wf(&self)
        requires
            self.wf(),
        ensures
            self@.ok(),
    {
    }

    pub fn new(diff: &DiffResult, placed: &[Placed], comments: &[Comment]) -> (r: Self)
        requires
            rows::names_comments(placed@, comments@.len()),
        ensures
            r.wf(),
            r@ == fresh(diff@.files, placed@, deep::deep(comments@)),
            r@.shows(diff@.files),
            r@.speaks_of(diff@.files, comments@.len()),
    {
        let template: Vec<Row> = rows::build_rows(diff.files.as_slice(), placed, comments);
        let mut shown: Vec<Row> = Vec::new();
        let mut origins: Vec<RowOrigin> = Vec::new();
        let ghost from = Seq::new(
            template@.len(),
            |i: int| RowOrigin { template: i as usize, offset: 0 },
        );
        let mut i: usize = 0;
        while i < template.len()
            invariant
                i <= template@.len(),
                from == Seq::new(
                    template@.len(),
                    |i: int| RowOrigin { template: i as usize, offset: 0 },
                ),
                shown@ =~= template@.take(i as int),
                origins@ =~= from.take(i as int),
            decreases template@.len() - i,
        {
            shown.push(template[i]);
            origins.push(RowOrigin { template: i, offset: 0 });
            i += 1;
        }
        assert(template@.take(i as int) =~= template@);
        assert(from.take(i as int) =~= from);
        let file_starts: Vec<usize> = rows::find_landmarks(shown.as_slice(), Landmark::File);
        let hunk_starts: Vec<usize> = rows::find_landmarks(shown.as_slice(), Landmark::Hunk);
        let comment_starts: Vec<usize> = rows::find_landmarks(
            shown.as_slice(),
            Landmark::Comment,
        );
        let r = Stream {
            template_rows: template,
            rows: shown,
            row_origins: origins,
            comment_wrap_width: 0,
            line_wrap_width: None,
            file_starts,
            hunk_starts,
            comment_starts,
            scroll: 0,
            cursor: 0,
            selection_anchor: None,
            viewport: 24,
            search: None,
            last_inner: Rect::empty(),
        };
        proof {
            let cs = deep::deep(comments@);
            let fs = diff@.files;
            let n = fs.len() as int;
            comments::lemma_countable(diff.files);
            rows::lemma_stream_valid(fs, placed@, cs, n);
            rows::lemma_stream_headers(fs, placed@, cs, n);
            assert(r@ =~= fresh(fs, placed@, cs));
            assert(template.len() <= usize::MAX);
            assert forall|t: int| 0 <= t < r@.template.len() implies rows::has_first_piece(
                r@.origins,
                t,
            ) by {
                assert(r@.origins[t].template == t && r@.origins[t].offset == 0);
            }
            lemma_valid_rows_in(r@.rows, fs, cs.len());
            if n == 0 {
                assert(r@.rows.len() == 0);
            }
        }
        r
    }

    // ---- cursor ------------------------------------------------------------

    fn last_row(&self) -> (r: usize)
        ensures
            r == self@.limit(),
    {
        if self.rows.len() == 0 {
            0
        } else {
            self.rows.len() - 1
        }
    }

    fn window_rows(&self) -> (r: usize)
        ensures
            r == self@.window(),
    {
        if self.viewport == 0 {
            1
        } else {
            self.viewport
        }
    }

    /// Scroll just enough to keep the cursor on screen.
    fn ensure_cursor_visible(&mut self)
        requires
            old(self).wf(),
        ensures
            final(self).wf(),
            final(self)@ == old(self)@.revealed(),
    {
        let window: usize = self.window_rows();
        let ghost before = self@;
        if self.cursor < self.scroll {
            self.scroll = self.cursor;
        } else if self.cursor - self.scroll >= window {
            self.scroll = self.cursor - (window - 1);
        }
        assert(self@ =~= before.revealed());
    }

    fn put_cursor(&mut self, row: i128)
        requires
            old(self).wf(),
        ensures
            final(self).wf(),
            final(self)@ == old(self)@.at_row(row as int),
    {
        let ghost before = self@;
        let last: usize = self.last_row();
        self.cursor = bring_into(row, 0, last);
        assert(self@ =~= (StreamView {
            cursor: clamped(row as int, 0, before.limit()) as usize,
            ..before
        }));
        self.ensure_cursor_visible();
    }

    /// Vim-style: j/k move the cursor; the view follows.
    pub fn move_cursor(&mut self, delta: isize)
        requires
            old(self).wf(),
        ensures
            final(self).wf(),
            final(self)@ == old(self)@.moved(delta as int),
    {
        self.put_cursor(self.cursor as i128 + delta as i128);
    }

    pub fn set_cursor(&mut self, row: usize)
        requires
            old(self).wf(),
        ensures
            final(self).wf(),
            final(self)@ == old(self)@.at_row(row as int),
    {
        self.put_cursor(row as i128);
    }

    /// Put a jump target at the top of the viewport with the cursor on it.
    fn jump_to(&mut self, row: usize)
        requires
            old(self).wf(),
        ensures
            final(self).wf(),
            final(self)@ == old(self)@.jumped(row as int),
    {
        let ghost before = self@;
        let last: usize = self.last_row();
        self.cursor = smaller(row, last);
        self.scroll = self.cursor;
        assert(self@ =~= before.jumped(row as int));
    }

    /// Mouse: map a screen position to a stream row.
    pub fn hit(&self, column: u16, row: u16) -> (r: Option<usize>)
        requires
            self.wf(),
        ensures
            r == self@.row_at(column, row),
    {
        if !self.last_inner.contains(column, row) {
            return None;
        }
        let below: usize = (row - self.last_inner.y) as usize;
        let total: usize = self.rows.len();
        if self.scroll < total && below < total - self.scroll {
            Some(self.scroll + below)
        } else {
            None
        }
    }

    /// Screen position of the active row after the latest render. Popups use
    /// this to stay visually attached to the line or comment being edited.
    pub fn cursor_screen_position(&self) -> (r: Option<Position>)
        ensures
            r == self@.cursor_position(),
    {
        if self.cursor < self.scroll {
            return None;
        }
        let offset: usize = (self.cursor - self.scroll) % 0x1_0000;
        if offset < self.last_inner.height as usize {
            Some(
                Position {
                    x: self.last_inner.x.saturating_add(2),
                    y: self.last_inner.y.saturating_add(offset as u16),
                },
            )
        } else {
            None
        }
    }

    pub fn viewport_rect(&self) -> (r: Rect)
        ensures
            r == self@.inner,
    {
        self.last_inner
    }

    /// Takes over the area that the rows are shown in.
    pub fn set_viewport(&mut self, inner: Rect)
        requires
            old(self).wf(),
        ensures
            final(self).wf(),
            final(self)@ == (StreamView {
                viewport: inner.height as usize,
                inner,
                ..old(self)@
            }),
    {
        let ghost before = self@;
        self.viewport = inner.height as usize;
        self.last_inner = inner;
        assert(self@ =~= (StreamView { viewport: inner.height as usize, inner, ..before }));
    }

    /// How many rows there are.
    pub fn row_count(&self) -> (r: usize)
        ensures
            r == self@.rows.len(),
    {
        self.rows.len()
    }

    /// The row at an index.
    pub fn row(&self, i: usize) -> (r: Row)
        requires
            i < self@.rows.len(),
        ensures
            r == self@.rows[i as int],
    {
        self.rows[i]
    }

    /// The highlighted row.
    pub fn cursor_row(&self) -> (r: usize)
        ensures
            r == self@.cursor,
    {
        self.cursor
    }

    /// The first visible row.
    pub fn scroll_row(&self) -> (r: usize)
        ensures
            r == self@.scroll,
    {
        self.scroll
    }

    /// Row index of each comment header, in stream order.
    pub fn comment_starts(&self) -> (r: &[usize])
        requires
            self.wf(),
        ensures
            r@ == self@.landmarks(Landmark::Comment),
    {
        self.comment_starts.as_slice()
    }

    // ---- landmarks ---------------------------------------------------------

    fn starts(&self, kind: Landmark) -> (r: &Vec<usize>)
        requires
            self.wf(),
        ensures
            r@ == self@.landmarks(kind),
    {
        match kind {
            Landmark::File => &self.file_starts,
            Landmark::Hunk => &self.hunk_starts,
            Landmark::Comment => &self.comment_starts,
        }
    }

    fn jump_forward(&mut self, kind: Landmark)
        requires
            old(self).wf(),
        ensures
            final(self).wf(),
            final(self)@ == old(self)@.next_landmark(kind),
    {
        let starts: &Vec<usize> = self.starts(kind);
        let mut i: usize = 0;
        let mut found: Option<usize> = None;
        while i < starts.len() && found.is_none()
            invariant
                i <= starts@.len(),
                starts@ == self@.landmarks(kind),
                self.wf(),
                match found {
                    None => first_past(starts@, self@.cursor, i as int) == first_past(
                        starts@,
                        self@.cursor,
                        0,
                    ),
                    Some(r) => first_past(starts@, self@.cursor, 0) == Some(r),
                },
            decreases starts@.len() - i, if found is None { 1int } else { 0 },
        {
            if starts[i] > self.cursor {
                found = Some(starts[i]);
            } else {
                i += 1;
            }
        }
        if let Some(row) = found {
            self.jump_to(row);
        }
    }

    fn jump_backward(&mut self, kind: Landmark)
        requires
            old(self).wf(),
        ensures
            final(self).wf(),
            final(self)@ == old(self)@.prev_landmark(kind),
    {
        let starts: &Vec<usize> = self.starts(kind);
        let mut n: usize = starts.len();
        let mut found: Option<usize> = None;
        while n > 0 && found.is_none()
            invariant
                n <= starts@.len(),
                starts@ == self@.landmarks(kind),
                self.wf(),
                match found {
                    None => last_before(starts@, self@.cursor, n as int) == last_before(
                        starts@,
                        self@.cursor,
                        starts@.len() as int,
                    ),
                    Some(r) => last_before(starts@, self@.cursor, starts@.len() as int) == Some(r),
                },
            decreases n, if found is None { 1int } else { 0 },
        {
            if starts[n - 1] < self.cursor {
                found = Some(starts[n - 1]);
            } else {
                n -= 1;
            }
        }
        if let Some(row) = found {
            self.jump_to(row);
        }
    }

    pub fn next_file(&mut self)
        requires
            old(self).wf(),
        ensures
            final(self).wf(),
            final(self)@ == old(self)@.next_landmark(Landmark::File),
    {
        self.jump_forward(Landmark::File);
    }

    pub fn prev_file(&mut self)
        requires
            old(self).wf(),
        ensures
            final(self).wf(),
            final(self)@ == old(self)@.prev_landmark(Landmark::File),
    {
        self.jump_backward(Landmark::File);
    }

    pub fn next_hunk(&mut self)
        requires
            old(self).wf(),
        ensures
            final(self).wf(),
            final(self)@ == old(self)@.next_landmark(Landmark::Hunk),
    {
        self.jump_forward(Landmark::Hunk);
    }

    pub fn prev_hunk(&mut self)
        requires
            old(self).wf(),
        ensures
            final(self).wf(),
            final(self)@ == old(self)@.prev_landmark(Landmark::Hunk),
    {
        self.jump_backward(Landmark::Hunk);
    }

    pub fn next_comment(&mut self)
        requires
            old(self).wf(),
        ensures
            final(self).wf(),
            final(self)@ == old(self)@.next_landmark(Landmark::Comment),
    {
        self.jump_forward(Landmark::Comment);
    }

    pub fn prev_comment(&mut self)
        requires
            old(self).wf(),
        ensures
            final(self).wf(),
            final(self)@ == old(self)@.prev_landmark(Landmark::Comment),
    {
        self.jump_backward(Landmark::Comment);
    }

    pub fn has_comments(&self) -> (r: bool)
        requires
            self.wf(),
        ensures
            r == (self@.landmarks(Landmark::Comment).len() > 0),
    {
        self.comment_starts.len() > 0
    }

    pub fn jump_to_file(&mut self, file_idx: usize)
        requires
            old(self).wf(),
        ensures
            final(self).wf(),
            final(self)@ == old(self)@.at_file(file_idx),
    {
        if file_idx < self.file_starts.len() {
            let row: usize = self.file_starts[file_idx];
            self.jump_to(row);
        }
    }

    /// Index of the file the cursor is in.
    pub fn current_file(&self) -> (r: Option<usize>)
        requires
            self.wf(),
        ensures
            r == self@.file_here(),
            r matches Some(fi) ==> fi < self@.landmarks(Landmark::File).len(),
    {
        if self.file_starts.len() == 0 {
            return None;
        }
        let ghost starts = self.file_starts@;
        let mut n: usize = self.file_starts.len();
        assert(starts.take(n as int) =~= starts);
        while n > 0 && self.file_starts[n - 1] > self.cursor
            invariant
                n <= self.file_starts@.len(),
                starts == self.file_starts@,
                count_reached(starts.take(n as int), self@.cursor) == count_reached(
                    starts,
                    self@.cursor,
                ),
            decreases n,
        {
            assert(starts.take(n as int).drop_last() =~= starts.take(n - 1));
            assert(starts.take(n as int).last() == starts[n - 1]);
            n -= 1;
        }
        if n > 0 {
            assert(starts.take(n as int).last() == starts[n - 1]);
        }
        assert(count_reached(starts.take(n as int), self@.cursor) == n);
        if n == 0 {
            Some(0)
        } else {
            Some(n - 1)
        }
    }

    /// File index if the cursor is on a large-file stub row.
    pub fn large_stub_at_cursor(&self) -> (r: Option<usize>)
        ensures
            r == self@.stub_at_cursor(),
    {
        if self.cursor < self.rows.len() {
            match self.rows[self.cursor] {
                Row::LargeStub(fi) => Some(fi),
                _ => None,
            }
        } else {
            None
        }
    }

    /// The comment whose block the cursor is on, if any.
    pub fn comment_at_cursor(&self) -> (r: Option<usize>)
        ensures
            r == self@.comment_here(),
    {
        if self.cursor < self.rows.len() {
            match self.rows[self.cursor] {
                Row::CommentHeader(ci) => Some(ci),
                Row::CommentSnippet(ci, _) => Some(ci),
                Row::CommentBody { comment, .. } => Some(comment),
                _ => None,
            }
        } else {
            None
        }
    }
}

impl Stream {
    // ---- scrolling ---------------------------------------------------------

    /// Wheel scroll: moves the view, dragging the cursor along if it would
    /// leave the window.
    pub fn scroll_by(&mut self, delta: isize)
        requires
            old(self).wf(),
        ensures
            final(self).wf(),
            final(self)@ == old(self)@.scrolled(delta as int),
    {
        let ghost before = self@;
        let last: usize = self.last_row();
        let window: usize = self.window_rows();
        let scroll: usize = bring_into(self.scroll as i128 + delta as i128, 0, last);
        let bottom: usize = if window - 1 <= last - scroll {
            scroll + (window - 1)
        } else {
            last
        };
        self.scroll = scroll;
        self.cursor = bring_into(self.cursor as i128, scroll, bottom);
        assert(self@ =~= before.scrolled(delta as int));
    }

    /// Moves by pages, one row less than the viewport each.
    pub fn page(&mut self, direction: isize)
        requires
            old(self).wf(),
        ensures
            final(self).wf(),
            final(self)@ == old(self)@.moved(direction * old(self)@.page_rows()),
    {
        let rows: usize = if self.viewport == 0 {
            0
        } else {
            self.viewport - 1
        };
        self.move_by(direction, rows);
    }

    /// Moves by half pages.
    pub fn half_page(&mut self, direction: isize)
        requires
            old(self).wf(),
        ensures
            final(self).wf(),
            final(self)@ == old(self)@.moved(direction * old(self)@.half_rows()),
    {
        let rows: usize = if self.viewport < 2 {
            1
        } else {
            self.viewport / 2
        };
        self.move_by(direction, rows);
    }

    fn move_by(&mut self, direction: isize, rows: usize)
        requires
            old(self).wf(),
        ensures
            final(self).wf(),
            final(self)@ == old(self)@.moved(direction * rows),
    {
        let d: i128 = direction as i128;
        let n: i128 = rows as i128;
        assert(-0x8000_0000_0000_0000 <= d <= 0x7fff_ffff_ffff_ffff);
        assert(0 <= n <= 0xffff_ffff_ffff_ffff);
        assert(-0x8000_0000_0000_0000 * 0xffff_ffff_ffff_ffff <= d * n <= 0x7fff_ffff_ffff_ffff
            * 0xffff_ffff_ffff_ffff) by (nonlinear_arith)
            requires
                -0x8000_0000_0000_0000 <= d <= 0x7fff_ffff_ffff_ffff,
                0 <= n <= 0xffff_ffff_ffff_ffff,
        ;
        let step: i128 = d * n;
        self.put_cursor(self.cursor as i128 + step);
    }

    pub fn scroll_to_top(&mut self)
        requires
            old(self).wf(),
        ensures
            final(self).wf(),
            final(self)@ == old(self)@.at_top(),
    {
        let ghost before = self@;
        self.cursor = 0;
        self.scroll = 0;
        assert(self@ =~= before.at_top());
    }

    /// Cursor to the last row; show the full last page.
    pub fn scroll_to_bottom(&mut self)
        requires
            old(self).wf(),
        ensures
            final(self).wf(),
            final(self)@ == old(self)@.at_bottom(),
    {
        let ghost before = self@;
        let total: usize = self.rows.len();
        self.cursor = self.last_row();
        self.scroll = if total < self.viewport {
            0
        } else {
            total - self.viewport
        };
        assert(self@ =~= before.at_bottom());
    }

    // ---- reading position --------------------------------------------------

    /// Where the reader is: (file path, cursor rows below its header, cursor
    /// rows below the viewport top) — stable across reloads even when other
    /// files grow or shrink.
    pub fn anchor(&self, files: &[FileDiff]) -> (r: Option<StreamAnchor>)
        requires
            self.wf(),
            self@.shows(deep::deep(files@)),
        ensures
            match (r, self@.anchor(deep::deep(files@))) {
                (Some(a), Some(b)) => anchor_view(a) == b,
                (None, None) => true,
                _ => false,
            },
    {
        match self.current_file() {
            None => None,
            Some(fi) => {
                proof {
                    rows::lemma_headers_at(self@.rows);
                    rows::lemma_landmarks(self@.rows, Landmark::File);
                    lemma_reached(self@.landmarks(Landmark::File), self@.cursor);
                    lemma_first_header(self@);
                    assert(deep::deep(files@)[fi as int] == files@[fi as int]@);
                }
                let rel: usize = self.cursor - self.file_starts[fi];
                let screen_offset: usize = if self.cursor < self.scroll {
                    0
                } else {
                    self.cursor - self.scroll
                };
                Some((text::copy(files[fi].path.as_str()), rel, screen_offset))
            },
        }
    }

    fn offset_scroll(&mut self, screen_offset: usize)
        requires
            old(self).wf(),
        ensures
            final(self).wf(),
            final(self)@ == old(self)@.with_offset(screen_offset),
    {
        let ghost before = self@;
        let last: usize = self.last_row();
        let wanted: usize = if self.cursor < screen_offset {
            0
        } else {
            self.cursor - screen_offset
        };
        self.scroll = smaller(wanted, last);
        assert(self@ =~= (StreamView {
            scroll: style::least(
                style::at_least_zero(before.cursor - screen_offset),
                before.limit(),
            ) as usize,
            ..before
        }));
        self.ensure_cursor_visible();
    }

    /// Re-apply an anchor after the diff was rebuilt. Falls back to clamping
    /// when the anchored file disappeared from the new diff.
    pub fn restore(&mut self, anchor: &StreamAnchor, files: &[FileDiff])
        requires
            old(self).wf(),
            old(self)@.shows(deep::deep(files@)),
        ensures
            final(self).wf(),
            final(self)@ == old(self)@.restored(anchor_view(*anchor), deep::deep(files@)),
    {
        let ghost before = self@;
        let ghost fs = deep::deep(files@);
        let k: usize = diff::position(files, anchor.0.as_str());
        proof {
            rows::lemma_headers_at(self@.rows);
            rows::lemma_landmarks(self@.rows, Landmark::File);
        }
        let mut wanted: i128 = self.cursor as i128;
        if k < files.len() {
            let start: usize = self.file_starts[k];
            let end: usize = if k < self.file_starts.len() - 1 {
                self.file_starts[k + 1]
            } else {
                self.rows.len()
            };
            let last: i128 = if end == 0 {
                0
            } else {
                end as i128 - 1
            };
            let there: i128 = start as i128 + anchor.1 as i128;
            wanted = if there <= last {
                there
            } else {
                last
            };
        }
        assert(wanted == before.restored_cursor(anchor_view(*anchor), fs));
        let bottom: usize = self.last_row();
        self.cursor = bring_into(wanted, 0, bottom);
        assert(self@ =~= (StreamView {
            cursor: clamped(wanted as int, 0, before.limit()) as usize,
            ..before
        }));
        self.offset_scroll(anchor.2);
    }

    /// The first content row at or below the cursor: (file index, 1-based
    /// line number on the new side when known).
    pub fn current_position(&self, files: &[FileDiff]) -> (r: Option<(usize, Option<u32>)>)
        requires
            self.wf(),
            self@.shows(deep::deep(files@)),
        ensures
            r == self@.place_from(deep::deep(files@), self@.cursor as int),
            r matches Some((fi, _)) ==> fi < files@.len(),
    {
        let ghost fs = deep::deep(files@);
        let mut i: usize = self.cursor;
        while i < self.rows.len()
            invariant
                i <= self@.rows.len() || i == self@.cursor,
                self@.rows == self.rows@,
                fs == deep::deep(files@),
                self@.shows(fs),
                self@.place_from(fs, i as int) == self@.place_from(fs, self@.cursor as int),
            decreases self@.rows.len() - i,
        {
            assert(rows::row_in(self@.rows[i as int], fs));
            match self.rows[i] {
                Row::Line { file, hunk, line, .. } => {
                    assert(fs[file as int] == files@[file as int]@);
                    let l: &DiffLine = &files[file].hunks[hunk].lines[line];
                    assert(line_at(fs, self@.rows[i as int]) == l@);
                    let n: Option<u32> = if l.new_lineno.is_some() {
                        l.new_lineno
                    } else {
                        l.old_lineno
                    };
                    return Some((file, n));
                },
                Row::FileHeader(fi) => {
                    return Some((fi, None));
                },
                _ => {},
            }
            i += 1;
        }
        None
    }

    // ---- selection ---------------------------------------------------------

    /// `v`: anchor a selection at the cursor; it extends as the cursor moves.
    pub fn start_selection(&mut self)
        requires
            old(self).wf(),
        ensures
            final(self).wf(),
            final(self)@ == (if old(self)@.rows.len() == 0 {
                old(self)@
            } else {
                StreamView { selection: Some(old(self)@.cursor), ..old(self)@ }
            }),
    {
        let ghost before = self@;
        if self.rows.len() > 0 {
            self.selection_anchor = Some(self.cursor);
            assert(self@ =~= (StreamView { selection: Some(before.cursor), ..before }));
        }
    }

    pub fn cancel_selection(&mut self)
        requires
            old(self).wf(),
        ensures
            final(self).wf(),
            final(self)@ == (StreamView { selection: None, ..old(self)@ }),
    {
        let ghost before = self@;
        self.selection_anchor = None;
        assert(self@ =~= (StreamView { selection: None, ..before }));
    }

    pub fn has_selection(&self) -> (r: bool)
        ensures
            r == (self@.selection is Some),
    {
        self.selection_anchor.is_some()
    }

    /// The selected rows: the first one and the one past the last.
    pub fn selection_range(&self) -> (r: Option<(usize, usize)>)
        requires
            self.wf(),
        ensures
            match r {
                Some((lo, hi)) => self@.selected() == Some((lo as int, hi as int)) && lo < hi
                    && hi <= self@.rows.len(),
                None => self@.selected() is None,
            },
    {
        let total: usize = self.rows.len();
        match self.selection_anchor {
            None => None,
            Some(a) => {
                assert(a < self@.rows.len());
                assert(self@.cursor < self@.rows.len());
                if a <= self.cursor {
                    Some((a, self.cursor + 1))
                } else {
                    Some((self.cursor, a + 1))
                }
            },
        }
    }

    fn picked_lines(&self) -> (r: Vec<Row>)
        requires
            self.wf(),
        ensures
            r@ == self@.selection_lines(),
    {
        let mut out: Vec<Row> = Vec::new();
        if let Some((lo, hi)) = self.selection_range() {
            let ghost all = self.rows@;
            let mut i: usize = lo;
            while i < hi
                invariant
                    lo <= i <= hi <= self.rows@.len(),
                    all == self.rows@,
                    out@ == picked(all, lo as int, i as int),
                decreases hi - i,
            {
                let row: Row = self.rows[i];
                if let Row::Line { .. } = row {
                    if i == lo || !is_same_line(self.rows[i - 1], row) {
                        out.push(row);
                    }
                }
                i += 1;
            }
        }
        out
    }

    /// Build a comment target from the active selection. The selection has to
    /// stay within one file and hunk, so that the stored snippet is contiguous,
    /// and within the original diff.
    pub fn selection_target(&self, files: &[FileDiff]) -> (r: Result<
        Option<CommentTarget>,
        &'static str,
    >)
        requires
            self.wf(),
            self@.shows(deep::deep(files@)),
        ensures
            ({
                let fs = deep::deep(files@);
                let lines = self@.selection_lines();
                if !one_hunk(lines) {
                    r matches Err(e) && e@ == spans_hunks()
                } else if any_expanded(fs, lines) {
                    r matches Err(e) && e@ == not_in_diff()
                } else {
                    r matches Ok(t) && deep::deep_opt(t) == target_of(fs, lines)
                }
            }),
    {
        let ghost fs = deep::deep(files@);
        let lines: Vec<Row> = self.picked_lines();
        proof {
            lemma_picked_in(self@, fs);
        }
        let mut i: usize = 0;
        while i < lines.len()
            invariant
                i <= lines@.len(),
                lines@ == self@.selection_lines(),
                lines_in(lines@, fs),
                forall|j: int|
                    0 <= j < i ==> (#[trigger] lines@[j])->Line_file == lines@[0]->Line_file
                        && lines@[j]->Line_hunk == lines@[0]->Line_hunk,
            decreases lines@.len() - i,
        {
            assert(line_in(lines@[0], fs));
            assert(line_in(lines@[i as int], fs));
            if !in_same_hunk(lines[0], lines[i]) {
                assert(!one_hunk(lines@));
                return Err("comment selections must stay within one file and hunk");
            }
            i += 1;
        }
        assert(one_hunk(lines@));
        i = 0;
        while i < lines.len()
            invariant
                i <= lines@.len(),
                lines@ == self@.selection_lines(),
                one_hunk(lines@),
                fs == deep::deep(files@),
                lines_in(lines@, fs),
                forall|j: int|
                    0 <= j < i ==> !line_at(fs, #[trigger] lines@[j]).expanded_context,
            decreases lines@.len() - i,
        {
            assert(line_in(lines@[i as int], fs));
            let l: &DiffLine = shown_line(files, lines[i]);
            if l.expanded_context {
                assert(any_expanded(fs, lines@));
                return Err("comments require a line in the original diff");
            }
            i += 1;
        }
        Ok(make_target(files, lines.as_slice()))
    }

    fn find_line(&self, files: &[FileDiff]) -> (r: Option<usize>)
        requires
            self.wf(),
            self@.shows(deep::deep(files@)),
        ensures
            match r {
                Some(i) => self@.line_from(deep::deep(files@), self@.cursor as int) == Some(
                    i as int,
                ) && i < self@.rows.len() && line_in(self@.rows[i as int], deep::deep(files@)),
                None => self@.line_from(deep::deep(files@), self@.cursor as int) is None,
            },
    {
        let ghost fs = deep::deep(files@);
        let mut i: usize = self.cursor;
        while i < self.rows.len()
            invariant
                self@.rows == self.rows@,
                fs == deep::deep(files@),
                self@.shows(fs),
                self@.line_from(fs, i as int) == self@.line_from(fs, self@.cursor as int),
            decreases self@.rows.len() - i,
        {
            assert(rows::row_in(self@.rows[i as int], fs));
            let row: Row = self.rows[i];
            if let Row::Line { .. } = row {
                assert(line_in(row, fs));
                let l: &DiffLine = shown_line(files, row);
                if l.new_lineno.is_some() || l.old_lineno.is_some() {
                    return Some(i);
                }
            }
            i += 1;
        }
        None
    }

    /// Target for a bare `c`: the first diff line at/below the cursor.
    pub fn line_target(&self, files: &[FileDiff]) -> (r: Option<CommentTarget>)
        requires
            self.wf(),
            self@.shows(deep::deep(files@)),
        ensures
            deep::deep_opt(r) == self@.bare_target(deep::deep(files@)),
    {
        let ghost fs = deep::deep(files@);
        match self.find_line(files) {
            None => None,
            Some(i) => {
                let mut one: Vec<Row> = Vec::new();
                one.push(self.rows[i]);
                assert(one@ =~= seq![self@.rows[i as int]]);
                assert(lines_in(one@, fs));
                make_target(files, one.as_slice())
            },
        }
    }

    /// Is the line that a bare `c` would comment on shown only because its
    /// file is expanded inline?
    pub fn expanded_context_at_cursor(&self, files: &[FileDiff]) -> (r: bool)
        requires
            self.wf(),
            self@.shows(deep::deep(files@)),
        ensures
            r == self@.expanded_here(deep::deep(files@)),
    {
        match self.find_line(files) {
            None => false,
            Some(i) => shown_line(files, self.rows[i]).expanded_context,
        }
    }

    /// Text of the selection. `patch_style` keeps +/- signs and hunk headers;
    /// otherwise returns clean new-side code (deletions skipped).
    pub fn selected_text(&self, files: &[FileDiff], patch_style: bool) -> (r: Option<String>)
        requires
            self.wf(),
            self@.shows(deep::deep(files@)),
        ensures
            ({
                let all = match self@.selected() {
                    None => Seq::empty(),
                    Some((lo, hi)) => copied(
                        self@.rows,
                        deep::deep(files@),
                        patch_style,
                        lo,
                        hi,
                    ),
                };
                if all.len() == 0 {
                    r is None
                } else {
                    r matches Some(s) && s@ == all
                }
            }),
    {
        let ghost fs = deep::deep(files@);
        let ghost all = self.rows@;
        let mut out: String = String::new();
        match self.selection_range() {
            None => {
                return None;
            },
            Some((lo, hi)) => {
                let mut i: usize = lo;
                while i < hi
                    invariant
                        lo <= i <= hi <= self.rows@.len(),
                        all == self.rows@,
                        all == self@.rows,
                        fs == deep::deep(files@),
                        self@.shows(fs),
                        out@ == copied(all, fs, patch_style, lo as int, i as int),
                    decreases hi - i,
                {
                    let row: Row = self.rows[i];
                    assert(rows::row_in(self@.rows[i as int], fs));
                    match row {
                        Row::Line { .. } => {
                            assert(line_in(row, fs));
                            let l: &DiffLine = shown_line(files, row);
                            if i == lo || !is_same_line(self.rows[i - 1], row) {
                                if patch_style {
                                    out.push(l.origin);
                                    text::put(&mut out, l.content.as_str());
                                    text::put(&mut out, "\n");
                                } else if l.origin != '-' {
                                    text::put(&mut out, l.content.as_str());
                                    text::put(&mut out, "\n");
                                }
                            }
                        },
                        Row::HunkHeader(fi, h) => {
                            if patch_style {
                                assert(fs[fi as int] == files@[fi as int]@);
                                text::put(&mut out, files[fi].hunks[h].header.as_str());
                                text::put(&mut out, "\n");
                            }
                        },
                        _ => {},
                    }
                    i += 1;
                }
            },
        }
        if out.as_str().is_empty() {
            None
        } else {
            Some(out)
        }
    }
}

proof fn lemma_matching(
    rows: Seq<Row>,
    files: Seq<FileDiffView>,
    query: Seq<char>,
    case_sensitive: bool,
    n: int,
)
    requires
        0 <= n <= rows.len() <= usize::MAX,
    ensures
        matching(rows, files, query, case_sensitive, n).len() <= n,
        forall|i: int|
            0 <= i < matching(rows, files, query, case_sensitive, n).len() ==> (
            #[trigger] matching(rows, files, query, case_sensitive, n)[i]) < n,
    decreases n,
{
    if n > 0 {
        lemma_matching(rows, files, query, case_sensitive, n - 1);
        let before = matching(rows, files, query, case_sensitive, n - 1);
        let all = matching(rows, files, query, case_sensitive, n);
        assert forall|i: int| 0 <= i < all.len() implies (#[trigger] all[i]) < n by {
            if i < before.len() {
                assert(all[i] == before[i]);
            }
        }
    }
}

fn query_has_upper(query: &str) -> (r: bool)
    ensures
        r == has_upper(query@),
{
    let cs: Vec<char> = text::to_chars(query);
    let mut i: usize = 0;
    while i < cs.len()
        invariant
            i <= cs@.len(),
            cs@ == query@,
            forall|j: int| 0 <= j < i ==> !case::is_upper(#[trigger] cs@[j]),
        decreases cs@.len() - i,
    {
        if case::upper(cs[i]) {
            assert(case::is_upper(query@[i as int]));
            return true;
        }
        i += 1;
    }
    false
}

pub(crate) fn content_hits(content: &str, needle: &[char], case_sensitive: bool) -> (r: bool)
    ensures
        r == (text::find_from(
            if case_sensitive {
                content@
            } else {
                case::lowercase(content@)
            },
            needle@,
            0,
        ) is Some),
{
    let hay: Vec<char> = if case_sensitive {
        text::to_chars(content)
    } else {
        let low: String = case::lowercase_text(content);
        text::to_chars(low.as_str())
    };
    text::find(hay.as_slice(), needle, 0).is_some()
}

pub(crate) fn search_needle(query: &str, case_sensitive: bool) -> (r: Vec<char>)
    ensures
        r@ == (if case_sensitive {
            query@
        } else {
            case::lowercase(query@)
        }),
{
    if case_sensitive {
        text::to_chars(query)
    } else {
        let low: String = case::lowercase_text(query);
        text::to_chars(low.as_str())
    }
}

impl Stream {
    // ---- search ------------------------------------------------------------

    /// Smart-case: case-sensitive only when the query has an uppercase char.
    /// Returns the number of matches and jumps to the first one.
    pub fn set_search(&mut self, query: &str, files: &[FileDiff]) -> (r: usize)
        requires
            old(self).wf(),
            old(self)@.shows(deep::deep(files@)),
        ensures
            final(self).wf(),
            final(self)@ == old(self)@.searched(query@, deep::deep(files@)),
            r == matching(
                old(self)@.rows,
                deep::deep(files@),
                query@,
                has_upper(query@),
                old(self)@.rows.len() as int,
            ).len(),
            r == (match final(self)@.search {
                Some(q) => q.matches.len(),
                None => 0,
            }),
    {
        let ghost fs = deep::deep(files@);
        let ghost before = self@;
        let case_sensitive: bool = query_has_upper(query);
        let needle: Vec<char> = search_needle(query, case_sensitive);
        let mut matches: Vec<usize> = Vec::new();
        let mut i: usize = 0;
        while i < self.rows.len()
            invariant
                i <= self.rows@.len(),
                self.rows@ == self@.rows,
                before == self@,
                self.wf(),
                fs == deep::deep(files@),
                self@.shows(fs),
                case_sensitive == has_upper(query@),
                needle@ == (if case_sensitive {
                    query@
                } else {
                    case::lowercase(query@)
                }),
                matches@ == matching(self@.rows, fs, query@, case_sensitive, i as int),
            decreases self.rows@.len() - i,
        {
            let row: Row = self.rows[i];
            assert(rows::row_in(self@.rows[i as int], fs));
            if let Row::Line { start, .. } = row {
                assert(line_in(row, fs));
                let l: &DiffLine = shown_line(files, row);
                if start == 0 && content_hits(
                    l.content.as_str(),
                    needle.as_slice(),
                    case_sensitive,
                ) {
                    matches.push(i);
                }
            }
            i += 1;
        }
        proof {
            lemma_matching(self@.rows, fs, query@, case_sensitive, self@.rows.len() as int);
        }
        let count: usize = matches.len();
        if count == 0 {
            self.search = None;
            assert(self@ =~= before.searched(query@, fs));
        } else {
            let s = SearchState { query: text::copy(query), case_sensitive, matches, current: 0 };
            let ghost shown = s@;
            self.search = Some(s);
            assert(self@ =~= (StreamView { search: Some(shown), ..before }));
            self.jump_to_current_match();
        }
        count
    }

    pub fn clear_search(&mut self)
        requires
            old(self).wf(),
        ensures
            final(self).wf(),
            final(self)@ == (StreamView { search: None, ..old(self)@ }),
    {
        let ghost before = self@;
        self.search = None;
        assert(self@ =~= (StreamView { search: None, ..before }));
    }

    pub fn has_search(&self) -> (r: bool)
        ensures
            r == (self@.search is Some),
    {
        self.search.is_some()
    }

    pub fn search_query(&self) -> (r: Option<String>)
        ensures
            deep::deep_opt(r) == (match self@.search {
                Some(s) => Some(s.query),
                None => None,
            }),
    {
        match &self.search {
            Some(s) => Some(text::copy(s.query.as_str())),
            None => None,
        }
    }

    /// (current 1-based, total, query) for the status display.
    pub fn search_status(&self) -> (r: Option<(usize, usize, String)>)
        requires
            self.wf(),
        ensures
            match (r, self@.search) {
                (Some((current, total, query)), Some(s)) => current == s.current + 1 && total
                    == s.matches.len() && query@ == s.query,
                (None, None) => true,
                _ => false,
            },
    {
        match &self.search {
            Some(s) => {
                assert(self@.search == Some(s@));
                Some((s.current + 1, s.matches.len(), text::copy(s.query.as_str())))
            },
            None => None,
        }
    }

    /// The query and whether it is case-sensitive.
    pub fn search_terms(&self) -> (r: Option<(String, bool)>)
        ensures
            match (r, self@.search) {
                (Some((query, case_sensitive)), Some(s)) => query@ == s.query && case_sensitive
                    == s.case_sensitive,
                (None, None) => true,
                _ => false,
            },
    {
        match &self.search {
            Some(s) => Some((text::copy(s.query.as_str()), s.case_sensitive)),
            None => None,
        }
    }

    fn step_match(&mut self, forward: bool)
        requires
            old(self).wf(),
        ensures
            final(self).wf(),
            final(self)@ == old(self)@.match_moved(
                if forward {
                    1
                } else {
                    -1
                },
            ),
    {
        let ghost before = self@;
        match self.search.take() {
            None => {
                assert(self@ =~= before);
            },
            Some(mut s) => {
                let ghost was = s@;
                assert(before.search == Some(was));
                let total: usize = s.matches.len();
                let current: usize = if forward {
                    if s.current == total - 1 {
                        0
                    } else {
                        s.current + 1
                    }
                } else if s.current == 0 {
                    total - 1
                } else {
                    s.current - 1
                };
                proof {
                    lemma_around(was.current as int, total as int);
                }
                s.current = current;
                let ghost now = s@;
                assert(now =~= (SearchView { current, ..was }));
                self.search = Some(s);
                assert(self@ =~= (StreamView { search: Some(now), ..before }));
                self.jump_to_current_match();
            },
        }
    }

    pub fn next_match(&mut self)
        requires
            old(self).wf(),
        ensures
            final(self).wf(),
            final(self)@ == old(self)@.match_moved(1),
    {
        self.step_match(true);
    }

    pub fn prev_match(&mut self)
        requires
            old(self).wf(),
        ensures
            final(self).wf(),
            final(self)@ == old(self)@.match_moved(-1),
    {
        self.step_match(false);
    }

    fn jump_to_current_match(&mut self)
        requires
            old(self).wf(),
        ensures
            final(self).wf(),
            final(self)@ == old(self)@.at_match(),
    {
        let ghost before = self@;
        let mut target: Option<usize> = None;
        if let Some(s) = &self.search {
            assert(before.search == Some(s@));
            if s.current < s.matches.len() {
                target = Some(s.matches[s.current]);
            }
        }
        if let Some(row) = target {
            let last: usize = self.last_row();
            self.cursor = smaller(row, last);
            self.scroll = smaller(
                if row < 3 {
                    0
                } else {
                    row - 3
                },
                last,
            );
            assert(self@ =~= before.at_match());
        }
    }

    // ---- reflow ------------------------------------------------------------

    /// Breaks the rows to new widths. The cursor, the selection and the
    /// matches stay on what they were on, and the cursor keeps its distance
    /// from the top of the view.
    #[verifier::rlimit(60)]
    pub fn reflow(
        &mut self,
        comment_width: usize,
        line_width: Option<usize>,
        files: &[FileDiff],
        comments: &[Comment],
    )
        requires
            old(self).wf(),
            line_width is Some ==> rows::rows_valid(
                old(self)@.template,
                deep::deep(files@),
                comments@.len(),
            ),
            rows::bodies_valid(old(self)@.template, comments@.len()),
        ensures
            final(self).wf(),
            final(self)@ == old(self)@.reflowed(
                deep::deep(files@),
                deep::deep(comments@),
                comment_width,
                line_width,
            ),
    {
        let ghost before = self@;
        let ghost fs = deep::deep(files@);
        let ghost cs = deep::deep(comments@);
        if comment_width == self.comment_wrap_width && line_width == self.line_wrap_width {
            return;
        }
        let screen_offset: usize = if self.cursor < self.scroll {
            0
        } else {
            self.cursor - self.scroll
        };
        let (rows, origins) = rows::lay_out(
            self.template_rows.as_slice(),
            files,
            comments,
            comment_width,
            line_width,
        );
        let ghost n = before.template.len() as int;
        proof {
            rows::lemma_laid(before.template, fs, cs, comment_width, line_width, n);
        }
        let cursor: usize = if self.cursor < self.row_origins.len() {
            match rows::find_origin(origins.as_slice(), self.row_origins[self.cursor]) {
                Some(r) => r,
                None => self.cursor,
            }
        } else {
            self.cursor
        };
        let selection: Option<usize> = match self.selection_anchor {
            Some(a) => if a < self.row_origins.len() {
                rows::find_origin(origins.as_slice(), self.row_origins[a])
            } else {
                None
            },
            None => None,
        };
        let search: Option<SearchState> = match self.search.take() {
            None => None,
            Some(s) => {
                let ghost was = s@;
                assert(before.search == Some(was));
                let matches: Vec<usize> = relocate_all(
                    s.matches.as_slice(),
                    self.row_origins.as_slice(),
                    origins.as_slice(),
                );
                let last: usize = if matches.len() == 0 {
                    0
                } else {
                    matches.len() - 1
                };
                let current: usize = smaller(s.current, last);
                Some(
                    SearchState {
                        query: s.query,
                        case_sensitive: s.case_sensitive,
                        matches,
                        current,
                    },
                )
            },
        };
        proof {
            assert(origins@.len() == origins.len());
            lemma_reflow_keeps(before, rows@, origins@);
        }
        self.rows = rows;
        self.row_origins = origins;
        self.comment_wrap_width = comment_width;
        self.line_wrap_width = line_width;
        self.selection_anchor = selection;
        self.search = search;
        self.file_starts = rows::find_landmarks(self.rows.as_slice(), Landmark::File);
        self.hunk_starts = rows::find_landmarks(self.rows.as_slice(), Landmark::Hunk);
        self.comment_starts = rows::find_landmarks(self.rows.as_slice(), Landmark::Comment);
        let last: usize = self.last_row();
        self.cursor = smaller(cursor, last);
        let top: usize = self.rows.len();
        if self.scroll > top {
            self.scroll = top;
        }
        assert(self.wf());
        self.offset_scroll(screen_offset);
        assert(self@ =~= before.reflowed(fs, cs, comment_width, line_width));
    }

    /// Breaks comment bodies to a new width, diff lines staying as they are.
    pub fn reflow_comments(&mut self, width: u16, comments: &[Comment])
        requires
            old(self).wf(),
            old(self)@.line_width is None,
            rows::bodies_valid(old(self)@.template, comments@.len()),
        ensures
            final(self).wf(),
            final(self)@ == old(self)@.reflowed(
                Seq::empty(),
                deep::deep(comments@),
                if width == 0 {
                    1
                } else {
                    width as usize
                },
                None,
            ),
    {
        let none: Vec<FileDiff> = Vec::new();
        assert(deep::deep(none@) =~= Seq::empty());
        self.reflow(
            if width == 0 {
                1
            } else {
                width as usize
            },
            None,
            none.as_slice(),
            comments,
        );
    }
}

/// Stepping around a ring of `total` places.
pub proof fn lemma_around(current: int, total: int)
    requires
        0 <= current < total,
    ensures
        (current + 1) % total == (if current == total - 1 {
            0
        } else {
            current + 1
        }),
        (current - 1) % total == (if current == 0 {
            total - 1
        } else {
            current - 1
        }),
{
    if current == total - 1 {
        vstd::arithmetic::div_mod::lemma_mod_self_0(total);
    } else {
        vstd::arithmetic::div_mod::lemma_small_mod((current + 1) as nat, total as nat);
    }
    if current == 0 {
        vstd::arithmetic::div_mod::lemma_mod_add_multiples_vanish(-1, total);
        vstd::arithmetic::div_mod::lemma_small_mod((total - 1) as nat, total as nat);
    } else {
        vstd::arithmetic::div_mod::lemma_small_mod((current - 1) as nat, total as nat);
    }
}

fn relocate_all(matches: &[usize], from: &[RowOrigin], to: &[RowOrigin]) -> (r: Vec<usize>)
    ensures
        r@ == relocated(matches@, from@, to@),
{
    let mut out: Vec<usize> = Vec::new();
    let mut i: usize = 0;
    while i < matches.len()
        invariant
            i <= matches@.len(),
            out@ == relocated(matches@.take(i as int), from@, to@),
        decreases matches@.len() - i,
    {
        let m: usize = matches[i];
        assert(matches@.take(i + 1).drop_last() =~= matches@.take(i as int));
        assert(matches@.take(i + 1).last() == m);
        if m < from.len() {
            if let Some(r) = rows::find_origin(to, from[m]) {
                out.push(r);
            }
        }
        i += 1;
    }
    assert(matches@.take(i as int) =~= matches@);
    out
}

proof fn lemma_found_again(s: StreamView, to: Seq<RowOrigin>, row: int)
    requires
        s.ok(),
        0 <= row < s.rows.len(),
        to.len() <= usize::MAX,
        forall|t: int| 0 <= t < s.template.len() ==> rows::has_first_piece(to, t),
    ensures
        rows::located(to, s.origins[row], to.len() as int) matches Some(r) && r < to.len(),
{
    let o = s.origins[row];
    rows::lemma_located(to, o, to.len() as int);
    assert(o.template < s.template.len());
    assert(rows::has_first_piece(to, o.template as int));
    let i = choose|i: int|
        0 <= i < to.len() && (#[trigger] to[i]).template == o.template && to[i].offset == 0;
    assert(to[i].template == o.template && to[i].offset <= o.offset);
}

proof fn lemma_relocated(s: StreamView, matches: Seq<usize>, to: Seq<RowOrigin>)
    requires
        s.ok(),
        forall|i: int| 0 <= i < matches.len() ==> (#[trigger] matches[i]) < s.rows.len(),
        to.len() <= usize::MAX,
        forall|t: int| 0 <= t < s.template.len() ==> rows::has_first_piece(to, t),
    ensures
        relocated(matches, s.origins, to).len() == matches.len(),
        forall|i: int|
            0 <= i < matches.len() ==> (#[trigger] relocated(matches, s.origins, to)[i])
                < to.len(),
    decreases matches.len(),
{
    if matches.len() > 0 {
        let front = matches.drop_last();
        assert forall|i: int| 0 <= i < front.len() implies (#[trigger] front[i]) < s.rows.len() by {
            assert(front[i] == matches[i]);
        }
        lemma_relocated(s, front, to);
        assert(matches[matches.len() - 1] < s.rows.len());
        lemma_found_again(s, to, matches.last() as int);
        let before = relocated(front, s.origins, to);
        let all = relocated(matches, s.origins, to);
        assert forall|i: int| 0 <= i < matches.len() implies (#[trigger] all[i]) < to.len() by {
            if i < before.len() {
                assert(all[i] == before[i]);
            }
        }
    }
}

proof fn lemma_reflow_keeps(s: StreamView, rows: Seq<Row>, to: Seq<RowOrigin>)
    requires
        s.ok(),
        to.len() <= usize::MAX,
        rows.len() == to.len(),
        forall|t: int| 0 <= t < s.template.len() ==> rows::has_first_piece(to, t),
    ensures
        s.selection matches Some(a) ==> (rows::located(
            to,
            s.origins[a as int],
            to.len() as int,
        ) matches Some(r) && r < to.len()),
        s.rows.len() > 0 ==> (rows::located(
            to,
            s.origins[s.cursor as int],
            to.len() as int,
        ) matches Some(r) && r < to.len()),
        s.search matches Some(q) ==> {
            let m = relocated(q.matches, s.origins, to);
            &&& m.len() == q.matches.len()
            &&& forall|i: int| 0 <= i < m.len() ==> (#[trigger] m[i]) < to.len()
        },
{
    if let Some(a) = s.selection {
        lemma_found_again(s, to, a as int);
    }
    if s.rows.len() > 0 {
        lemma_found_again(s, to, s.cursor as int);
    }
    if let Some(q) = s.search {
        lemma_relocated(s, q.matches, to);
    }
}

/// The row shows a piece of a diff line that is there.
pub open spec fn line_in(row: Row, files: Seq<FileDiffView>) -> bool {
    row is Line && rows::row_in(row, files)
}

/// Every row shows a piece of a diff line that is there.
pub open spec fn lines_in(lines: Seq<Row>, files: Seq<FileDiffView>) -> bool {
    forall|i: int| 0 <= i < lines.len() ==> line_in(#[trigger] lines[i], files)
}

/// What a selection picks are lines of the diff.
pub proof fn lemma_picked(rows: Seq<Row>, files: Seq<FileDiffView>, lo: int, hi: int)
    requires
        rows::rows_in(rows, files),
        0 <= lo,
        hi <= rows.len(),
    ensures
        lines_in(picked(rows, lo, hi), files),
    decreases hi - lo,
{
    if lo < hi {
        lemma_picked(rows, files, lo, hi - 1);
        assert(rows::row_in(rows[hi - 1], files));
        let before = picked(rows, lo, hi - 1);
        let all = picked(rows, lo, hi);
        assert forall|i: int| 0 <= i < all.len() implies line_in(#[trigger] all[i], files) by {
            if i < before.len() {
                assert(all[i] == before[i]);
            }
        }
    }
}

proof fn lemma_picked_in(s: StreamView, files: Seq<FileDiffView>)
    requires
        s.ok(),
        s.shows(files),
    ensures
        lines_in(s.selection_lines(), files),
{
    if let Some((lo, hi)) = s.selected() {
        lemma_picked(s.rows, files, lo, hi);
    }
}

proof fn lemma_reached(starts: Seq<usize>, row: usize)
    requires
        starts.len() > 0,
        starts[0] <= row,
    ensures
        0 < count_reached(starts, row) <= starts.len(),
        starts[count_reached(starts, row) - 1] <= row,
    decreases starts.len(),
{
    if starts.last() > row {
        lemma_reached(starts.drop_last(), row);
    }
}

/// The first file starts at the first row.
pub proof fn lemma_first_header(s: StreamView)
    requires
        s.ok(),
        s.landmarks(Landmark::File).len() > 0,
    ensures
        s.landmarks(Landmark::File)[0] == 0,
{
    let starts = s.landmarks(Landmark::File);
    rows::lemma_landmarks(s.rows, Landmark::File);
    assert(starts[0] < s.rows.len());
    assert(rows::is_landmark(s.rows[0], Landmark::File));
    assert(starts.contains(0));
    let k = starts.index_of(0);
    if k > 0 {
        assert(starts[0] < starts[k]);
    }
}

fn is_same_line(a: Row, b: Row) -> (r: bool)
    ensures
        r == same_line(a, b),
{
    match (a, b) {
        (
            Row::Line { file: f1, hunk: h1, line: l1, .. },
            Row::Line { file: f2, hunk: h2, line: l2, .. },
        ) => f1 == f2 && h1 == h2 && l1 == l2,
        _ => false,
    }
}

fn in_same_hunk(a: Row, b: Row) -> (r: bool)
    requires
        a is Line,
        b is Line,
    ensures
        r == (b->Line_file == a->Line_file && b->Line_hunk == a->Line_hunk),
{
    match (a, b) {
        (
            Row::Line { file: f1, hunk: h1, .. },
            Row::Line { file: f2, hunk: h2, .. },
        ) => f1 == f2 && h1 == h2,
        _ => false,
    }
}

/// The diff line that a row shows a piece of.
pub fn shown_line(files: &[FileDiff], row: Row) -> (r: &DiffLine)
    requires
        line_in(row, deep::deep(files@)),
    ensures
        r@ == line_at(deep::deep(files@), row),
{
    match row {
        Row::Line { file, hunk, line, .. } => {
            assert(deep::deep(files@)[file as int] == files@[file as int]@);
            &files[file].hunks[hunk].lines[line]
        },
        _ => &files[0].hunks[0].lines[0],
    }
}

fn make_target(files: &[FileDiff], lines: &[Row]) -> (r: Option<CommentTarget>)
    requires
        lines_in(lines@, deep::deep(files@)),
    ensures
        deep::deep_opt(r) == target_of(deep::deep(files@), lines@),
{
    let ghost fs = deep::deep(files@);
    let mut new: Vec<u32> = Vec::new();
    let mut old: Vec<u32> = Vec::new();
    let mut snippet: Vec<String> = Vec::new();
    let mut i: usize = 0;
    while i < lines.len()
        invariant
            i <= lines@.len(),
            fs == deep::deep(files@),
            lines_in(lines@, fs),
            new@ == new_numbers(fs, lines@.take(i as int)),
            old@ == old_numbers(fs, lines@.take(i as int)),
            deep::deep(snippet@) =~= lines@.take(i as int).map_values(
                |r: Row| signed(line_at(fs, r)),
            ),
            new@.len() <= i,
            old@.len() <= i,
        decreases lines@.len() - i,
    {
        assert(line_in(lines@[i as int], fs));
        let l: &DiffLine = shown_line(files, lines[i]);
        assert(lines@.take(i + 1).drop_last() =~= lines@.take(i as int));
        assert(lines@.take(i + 1).last() == lines@[i as int]);
        if let Some(n) = l.new_lineno {
            new.push(n);
        }
        if let Some(n) = l.old_lineno {
            old.push(n);
        }
        let mut s: String = String::new();
        s.push(l.origin);
        text::put(&mut s, l.content.as_str());
        assert(s@ =~= signed(l@));
        snippet.push(s);
        i += 1;
    }
    assert(lines@.take(i as int) =~= lines@);
    let new_side: bool = new.len() > 0;
    let nums: &Vec<u32> = if new_side {
        &new
    } else {
        &old
    };
    if nums.len() == 0 {
        return None;
    }
    assert(line_in(lines@[0], fs));
    let path: String = match lines[0] {
        Row::Line { file, .. } => {
            assert(fs[file as int] == files@[file as int]@);
            text::copy(files[file].path.as_str())
        },
        _ => String::new(),
    };
    let t = CommentTarget {
        path,
        new_side,
        lines: (nums[0], nums[nums.len() - 1]),
        snippet,
    };
    assert(t@ =~= target_of(fs, lines@)->0);
    Some(t)
}

/// Rows that refer to what is there refer to files that are there.
pub proof fn lemma_valid_rows_in(rows: Seq<Row>, files: Seq<FileDiffView>, comments: nat)
    requires
        rows::rows_valid(rows, files, comments),
    ensures
        rows::rows_in(rows, files),
{
    assert forall|i: int| 0 <= i < rows.len() implies rows::row_in(#[trigger] rows[i], files) by {
        assert(rows::row_valid(rows[i], files, comments));
    }
}

} // verus!
