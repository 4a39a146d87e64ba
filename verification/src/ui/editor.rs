//! Small multiline editor used by comment drafts.

use crate::deep;
use crate::text;
use crate::ui::review;
use crate::ui::style;
use crate::ui::style::{Position, Rect};
use crate::ui::width;
use crate::ui::wrap;
use crate::ui::wrap::VisualLine;
use vstd::prelude::*;

verus! {

broadcast use crate::deep::group_deep;

/// The cursor is a position between characters; wrapping and vertical movement
/// use terminal cell widths.
pub struct TextEditor {
    text: Vec<char>,
    cursor: usize,
    preferred_column: Option<usize>,
    scroll: usize,
    reveal_cursor: bool,
    last_width: usize,
    last_inner: Rect,
}

/// What an editor holds.
#[verifier::ext_equal]
pub struct EditorView {
    pub text: Seq<char>,
    pub cursor: usize,
    pub preferred: Option<usize>,
    pub scroll: usize,
    pub reveal: bool,
    pub width: usize,
    pub inner: Rect,
}

impl View for TextEditor {
    type V = EditorView;

    closed spec fn view(&self) -> EditorView {
        EditorView {
            text: self.text@,
            cursor: self.cursor,
            preferred: self.preferred_column,
            scroll: self.scroll,
            reveal: self.reveal_cursor,
            width: self.last_width,
            inner: self.last_inner,
        }
    }
}

/// A pasted text with line feeds only.
pub open spec fn normalized(s: Seq<char>, i: int) -> Seq<char>
    decreases s.len() - i,
{
    if i < 0 || i >= s.len() {
        Seq::empty()
    } else if s[i] != '\r' {
        seq![s[i]] + normalized(s, i + 1)
    } else if i + 1 < s.len() && s[i + 1] == '\n' {
        seq!['\n'] + normalized(s, i + 2)
    } else {
        seq!['\n'] + normalized(s, i + 1)
    }
}

/// The last row that starts no later than the cursor, before row `n`; the
/// first row if there is none.
pub open spec fn row_of(rows: Seq<VisualLine>, cursor: usize, n: int) -> int
    decreases n,
{
    if n <= 0 {
        0
    } else if rows[n - 1].start <= cursor {
        n - 1
    } else {
        row_of(rows, cursor, n - 1)
    }
}

/// The position in `lo..hi` that a column falls on: before the first character
/// that reaches past it.
pub open spec fn at_column(s: Seq<char>, lo: int, hi: int, column: int) -> int
    decreases hi - lo,
{
    if lo >= hi {
        hi
    } else if width::cells(s[lo]) > column {
        lo
    } else {
        at_column(s, lo + 1, hi, column - width::cells(s[lo]))
    }
}

impl EditorView {
    pub open spec fn ok(self) -> bool {
        self.cursor <= self.text.len() <= usize::MAX
    }

    /// The rows of the text at the width it was last shown in.
    pub open spec fn rows(self) -> Seq<VisualLine> {
        wrap::laid_out(self.text, self.width)
    }

    /// The row that the cursor is on.
    pub open spec fn cursor_row(self, rows: Seq<VisualLine>) -> int {
        row_of(rows, self.cursor, rows.len() as int)
    }

    /// The column that the cursor is on.
    pub open spec fn cursor_column(self, rows: Seq<VisualLine>) -> usize {
        width::str_cells(
            self.text.subrange(rows[self.cursor_row(rows)].start as int, self.cursor as int),
        )
    }

    /// The editor after an edit or a move that forgets the preferred column.
    pub open spec fn settled(self, text: Seq<char>, cursor: int) -> EditorView {
        EditorView { text, cursor: cursor as usize, preferred: None, reveal: true, ..self }
    }

    pub open spec fn inserted(self, s: Seq<char>) -> EditorView {
        self.settled(
            self.text.take(self.cursor as int) + s + self.text.skip(self.cursor as int),
            self.cursor + s.len(),
        )
    }

    pub open spec fn backspaced(self) -> EditorView {
        if self.cursor == 0 {
            self
        } else {
            self.settled(self.text.remove(self.cursor - 1), self.cursor - 1)
        }
    }

    pub open spec fn deleted(self) -> EditorView {
        if self.cursor >= self.text.len() {
            self
        } else {
            self.settled(self.text.remove(self.cursor as int), self.cursor as int)
        }
    }

    pub open spec fn moved_left(self) -> EditorView {
        self.settled(self.text, style::at_least_zero(self.cursor - 1))
    }

    pub open spec fn moved_right(self) -> EditorView {
        self.settled(self.text, style::least(self.cursor + 1, self.text.len() as int))
    }

    /// The cursor moved by rows, keeping to the column it set out from.
    pub open spec fn moved_rows(self, delta: int) -> EditorView {
        let rows = self.rows();
        let wanted = match self.preferred {
            Some(c) => c,
            None => self.cursor_column(rows),
        };
        let r = rows[review::clamped(self.cursor_row(rows) + delta, 0, rows.len() - 1)];
        EditorView {
            cursor: at_column(self.text, r.start as int, r.end as int, wanted as int) as usize,
            preferred: Some(wanted),
            reveal: true,
            ..self
        }
    }

    pub open spec fn at_home(self) -> EditorView {
        let rows = self.rows();
        self.settled(self.text, rows[self.cursor_row(rows)].start as int)
    }

    pub open spec fn at_end(self) -> EditorView {
        let rows = self.rows();
        self.settled(self.text, rows[self.cursor_row(rows)].end as int)
    }

    /// The cursor put where a click falls.
    pub open spec fn clicked(self, column: u16, row: u16) -> EditorView {
        let rows = wrap::laid_out(self.text, self.inner.width as usize);
        let at = self.scroll + (row - self.inner.y);
        if self.inner.holds(column, row) && at < rows.len() {
            self.settled(
                self.text,
                at_column(
                    self.text,
                    rows[at].start as int,
                    rows[at].end as int,
                    column - self.inner.x,
                ),
            )
        } else {
            self
        }
    }

    /// Rows that the editor shows at once.
    pub open spec fn shown_rows(height: u16) -> int {
        if height == 0 {
            1
        } else {
            height as int
        }
    }

    /// The view moved without the cursor.
    pub open spec fn scrolled(self, delta: int) -> EditorView {
        let most = style::at_least_zero(
            self.rows().len() - EditorView::shown_rows(self.inner.height),
        );
        EditorView {
            scroll: review::clamped(self.scroll + delta, 0, most) as usize,
            reveal: false,
            ..self
        }
    }

    /// The first row to show in an area.
    pub open spec fn first_row(self, inner: Rect) -> int {
        let w = if inner.width == 0 {
            1
        } else {
            inner.width as usize
        };
        let rows = wrap::laid_out(self.text, w);
        let cursor = self.cursor_row(rows);
        let n = EditorView::shown_rows(inner.height);
        let wanted = if self.reveal || self.width != w {
            if cursor < self.scroll {
                cursor
            } else if cursor >= self.scroll + n {
                cursor + 1 - n
            } else {
                self.scroll as int
            }
        } else {
            self.scroll as int
        };
        style::least(wanted, style::at_least_zero(rows.len() - n))
    }

    /// The editor after it was shown in an area.
    pub open spec fn shown(self, inner: Rect) -> EditorView {
        EditorView {
            scroll: self.first_row(inner) as usize,
            reveal: false,
            width: if inner.width == 0 {
                1
            } else {
                inner.width as usize
            },
            inner,
            ..self
        }
    }

    /// Where the cursor is on screen, if it is.
    pub open spec fn caret(self) -> Option<Position> {
        let rows = self.rows();
        let row = self.cursor_row(rows);
        let n = EditorView::shown_rows(self.inner.height);
        if self.scroll <= row < self.scroll + n {
            Some(
                Position {
                    x: style::at_most_u16(
                        self.inner.x + style::least(
                            (self.cursor_column(rows) % 0x1_0000) as int,
                            style::at_least_zero(self.inner.width - 1),
                        ),
                    ),
                    y: style::at_most_u16(self.inner.y + (row - self.scroll)),
                },
            )
        } else {
            None
        }
    }
}

proof fn lemma_row_of(rows: Seq<VisualLine>, cursor: usize, n: int)
    requires
        0 <= n <= rows.len(),
    ensures
        0 <= row_of(rows, cursor, n),
        n > 0 ==> row_of(rows, cursor, n) < n,
        n > 0 && rows[0].start <= cursor ==> rows[row_of(rows, cursor, n)].start <= cursor,
    decreases n,
{
    if n > 0 && rows[n - 1].start > cursor {
        lemma_row_of(rows, cursor, n - 1);
    }
}

proof fn lemma_at_column(s: Seq<char>, lo: int, hi: int, column: int)
    requires
        lo <= hi,
    ensures
        lo <= at_column(s, lo, hi, column) <= hi,
    decreases hi - lo,
{
    if lo < hi && width::cells(s[lo]) <= column {
        lemma_at_column(s, lo + 1, hi, column - width::cells(s[lo]));
    }
}

fn find_row(rows: &[VisualLine], cursor: usize) -> (r: usize)
    ensures
        r == row_of(rows@, cursor, rows@.len() as int),
{
    let mut n: usize = rows.len();
    while n > 0
        invariant
            n <= rows@.len(),
            row_of(rows@, cursor, n as int) == row_of(rows@, cursor, rows@.len() as int),
        decreases n,
    {
        if rows[n - 1].start <= cursor {
            return n - 1;
        }
        n -= 1;
    }
    0
}

/// The position that a column of a row falls on.
pub fn index_at_column(s: &[char], line: VisualLine, column: usize) -> (r: usize)
    requires
        line.start <= line.end <= s@.len(),
    ensures
        r == at_column(s@, line.start as int, line.end as int, column as int),
        line.start <= r <= line.end,
{
    let mut i: usize = line.start;
    let mut left: usize = column;
    while i < line.end
        invariant
            line.start <= i <= line.end <= s@.len(),
            at_column(s@, i as int, line.end as int, left as int) == at_column(
                s@,
                line.start as int,
                line.end as int,
                column as int,
            ),
        decreases line.end - i,
    {
        let w: usize = width::cell_width(s[i]);
        if w > left {
            return i;
        }
        left = left - w;
        i += 1;
    }
    i
}

fn normalize(s: &str) -> (r: Vec<char>)
    ensures
        r@ == normalized(s@, 0),
{
    let cs: Vec<char> = text::to_chars(s);
    let mut out: Vec<char> = Vec::new();
    let mut i: usize = 0;
    while i < cs.len()
        invariant
            i <= cs@.len(),
            cs@ == s@,
            out@ + normalized(s@, i as int) == normalized(s@, 0),
        decreases cs@.len() - i,
    {
        let ghost before = out@;
        let ghost at = i as int;
        if cs[i] != '\r' {
            out.push(cs[i]);
            i += 1;
        } else if i < cs.len() - 1 && cs[i + 1] == '\n' {
            out.push('\n');
            i += 2;
        } else {
            out.push('\n');
            i += 1;
        }
        assert(out@ + normalized(s@, i as int) =~= before + normalized(s@, at));
    }
    assert(out@ =~= normalized(s@, 0));
    out
}

/// What the editor shows: its visible rows and the cursor.
pub struct EditorScreen {
    pub lines: Vec<String>,
    pub caret: Option<Position>,
}

impl TextEditor {
    /// What always holds of an editor.
    pub closed spec fn wf(&self) -> bool {
        self@.ok()
    }

    pub fn new(s: String) -> (r: Self)
        ensures
            r.wf(),
            r@ == (EditorView {
                text: s@,
                cursor: s@.len() as usize,
                preferred: None,
                scroll: 0,
                reveal: true,
                width: 70,
                inner: style::no_area(),
            }),
    {
        let text: Vec<char> = text::to_chars(s.as_str());
        let cursor: usize = text.len();
        TextEditor {
            text,
            cursor,
            preferred_column: None,
            scroll: 0,
            reveal_cursor: true,
            last_width: 70,
            last_inner: Rect::empty(),
        }
    }

    /// The text.
    pub fn as_str(&self) -> (r: String)
        ensures
            r@ == self@.text,
    {
        text::to_text(self.text.as_slice())
    }

    /// The position of the cursor, in characters.
    pub fn cursor(&self) -> (r: usize)
        ensures
            r == self@.cursor,
    {
        self.cursor
    }

    /// Takes over the width that the text is shown in.
    pub fn set_width(&mut self, w: usize)
        requires
            old(self).wf(),
        ensures
            final(self).wf(),
            final(self)@ == (EditorView { width: w, ..old(self)@ }),
    {
        let ghost before = self@;
        self.last_width = w;
        assert(self@ =~= (EditorView { width: w, ..before }));
    }

    fn insert_chars(&mut self, s: &[char])
        requires
            old(self).wf(),
        ensures
            final(self).wf(),
            final(self)@ == old(self)@.inserted(s@),
    {
        let ghost before = self@;
        let mut tail: Vec<char> = self.text.split_off(self.cursor);
        let ghost head = self.text@;
        let ghost rest = tail@;
        let mut i: usize = 0;
        while i < s.len()
            invariant
                i <= s@.len(),
                self.text@ =~= head + s@.take(i as int),
                self.cursor == before.cursor,
                self.scroll == before.scroll,
                self.last_width == before.width,
                self.last_inner == before.inner,
            decreases s@.len() - i,
        {
            self.text.push(s[i]);
            i += 1;
        }
        assert(s@.take(i as int) =~= s@);
        self.cursor = self.text.len();
        self.text.append(&mut tail);
        self.preferred_column = None;
        self.reveal_cursor = true;
        assert(self.text@ =~= head + s@ + rest);
        assert(self@ =~= before.inserted(s@));
        assert(self.text@.len() == self.text.len());
    }

    pub fn insert_char(&mut self, c: char)
        requires
            old(self).wf(),
        ensures
            final(self).wf(),
            final(self)@ == old(self)@.inserted(seq![c]),
    {
        let mut one: Vec<char> = Vec::new();
        one.push(c);
        assert(one@ =~= seq![c]);
        self.insert_chars(one.as_slice());
    }

    pub fn insert_str(&mut self, s: &str)
        requires
            old(self).wf(),
        ensures
            final(self).wf(),
            final(self)@ == old(self)@.inserted(normalized(s@, 0)),
    {
        let clean: Vec<char> = normalize(s);
        self.insert_chars(clean.as_slice());
    }

    fn settle(&mut self, cursor: usize)
        requires
            old(self).wf(),
            cursor <= old(self)@.text.len(),
        ensures
            final(self).wf(),
            final(self)@ == old(self)@.settled(old(self)@.text, cursor as int),
    {
        let ghost before = self@;
        self.cursor = cursor;
        self.preferred_column = None;
        self.reveal_cursor = true;
        assert(self@ =~= before.settled(before.text, cursor as int));
    }

    pub fn backspace(&mut self)
        requires
            old(self).wf(),
        ensures
            final(self).wf(),
            final(self)@ == old(self)@.backspaced(),
    {
        if self.cursor == 0 {
            return;
        }
        let ghost before = self@;
        let at: usize = self.cursor - 1;
        self.cursor = at;
        let _ = self.text.remove(at);
        self.preferred_column = None;
        self.reveal_cursor = true;
        assert(self@ =~= before.backspaced());
    }

    pub fn delete(&mut self)
        requires
            old(self).wf(),
        ensures
            final(self).wf(),
            final(self)@ == old(self)@.deleted(),
    {
        if self.cursor >= self.text.len() {
            return;
        }
        let ghost before = self@;
        let _ = self.text.remove(self.cursor);
        self.preferred_column = None;
        self.reveal_cursor = true;
        assert(self@ =~= before.deleted());
    }

    pub fn move_left(&mut self)
        requires
            old(self).wf(),
        ensures
            final(self).wf(),
            final(self)@ == old(self)@.moved_left(),
    {
        let to: usize = if self.cursor == 0 {
            0
        } else {
            self.cursor - 1
        };
        self.settle(to);
    }

    pub fn move_right(&mut self)
        requires
            old(self).wf(),
        ensures
            final(self).wf(),
            final(self)@ == old(self)@.moved_right(),
    {
        let total: usize = self.text.len();
        let to: usize = if self.cursor < total {
            self.cursor + 1
        } else {
            total
        };
        self.settle(to);
    }

    fn column(&self, rows: &[VisualLine], row: usize) -> (r: usize)
        requires
            self.wf(),
            row == self@.cursor_row(rows@),
            row < rows@.len(),
            rows@[row as int].start <= self@.cursor,
        ensures
            r == self@.cursor_column(rows@),
    {
        let before: String = text::text_range(self.text.as_slice(), rows[row].start, self.cursor);
        width::str_width(before.as_str())
    }

    pub fn move_vertical(&mut self, delta: isize)
        requires
            old(self).wf(),
        ensures
            final(self).wf(),
            final(self)@ == old(self)@.moved_rows(delta as int),
    {
        let ghost before = self@;
        let rows: Vec<VisualLine> = wrap::visual_lines(self.text.as_slice(), self.last_width);
        proof {
            wrap::lemma_rows_cover(before.text, wrap::at_least_one(before.width), 0, true);
            lemma_row_of(rows@, before.cursor, rows@.len() as int);
        }
        let row: usize = find_row(rows.as_slice(), self.cursor);
        let column: usize = self.column(rows.as_slice(), row);
        let wanted: usize = match self.preferred_column {
            Some(c) => c,
            None => column,
        };
        let there: i128 = row as i128 + delta as i128;
        let target: usize = if there < 0 {
            0
        } else if there > rows.len() as i128 - 1 {
            rows.len() - 1
        } else {
            there as usize
        };
        let line: VisualLine = rows[target];
        assert(rows@[target as int].start <= rows@[target as int].end <= before.text.len());
        self.cursor = index_at_column(self.text.as_slice(), line, wanted);
        self.preferred_column = Some(wanted);
        self.reveal_cursor = true;
        assert(self@ =~= before.moved_rows(delta as int));
    }

    pub fn home(&mut self)
        requires
            old(self).wf(),
        ensures
            final(self).wf(),
            final(self)@ == old(self)@.at_home(),
    {
        let rows: Vec<VisualLine> = wrap::visual_lines(self.text.as_slice(), self.last_width);
        proof {
            wrap::lemma_rows_cover(self@.text, wrap::at_least_one(self@.width), 0, true);
            lemma_row_of(rows@, self@.cursor, rows@.len() as int);
        }
        let row: usize = find_row(rows.as_slice(), self.cursor);
        assert(rows@[row as int].start <= rows@[row as int].end <= self@.text.len());
        self.settle(rows[row].start);
    }

    pub fn end(&mut self)
        requires
            old(self).wf(),
        ensures
            final(self).wf(),
            final(self)@ == old(self)@.at_end(),
    {
        let rows: Vec<VisualLine> = wrap::visual_lines(self.text.as_slice(), self.last_width);
        proof {
            wrap::lemma_rows_cover(self@.text, wrap::at_least_one(self@.width), 0, true);
            lemma_row_of(rows@, self@.cursor, rows@.len() as int);
        }
        let row: usize = find_row(rows.as_slice(), self.cursor);
        assert(rows@[row as int].start <= rows@[row as int].end <= self@.text.len());
        self.settle(rows[row].end);
    }

    /// How many rows the text takes at a width.
    pub fn visual_line_count(&self, w: u16) -> (r: usize)
        ensures
            r == wrap::laid_out(self@.text, w as usize).len(),
    {
        wrap::visual_lines(self.text.as_slice(), w as usize).len()
    }

    pub fn set_cursor_from_screen(&mut self, column: u16, row: u16)
        requires
            old(self).wf(),
        ensures
            final(self).wf(),
            final(self)@ == old(self)@.clicked(column, row),
    {
        if !self.last_inner.contains(column, row) {
            return;
        }
        let rows: Vec<VisualLine> = wrap::visual_lines(
            self.text.as_slice(),
            self.last_inner.width as usize,
        );
        let below: usize = (row - self.last_inner.y) as usize;
        if self.scroll >= rows.len() || below >= rows.len() - self.scroll {
            return;
        }
        let line: VisualLine = rows[self.scroll + below];
        proof {
            wrap::lemma_rows_cover(
                self@.text,
                wrap::at_least_one(self@.inner.width as usize),
                0,
                true,
            );
            assert(rows@[self@.scroll + below].start <= rows@[self@.scroll + below].end
                <= self@.text.len());
        }
        let to: usize = index_at_column(
            self.text.as_slice(),
            line,
            (column - self.last_inner.x) as usize,
        );
        self.settle(to);
    }

    pub fn scroll_by(&mut self, delta: isize)
        requires
            old(self).wf(),
        ensures
            final(self).wf(),
            final(self)@ == old(self)@.scrolled(delta as int),
    {
        let ghost before = self@;
        let rows: usize = wrap::visual_lines(self.text.as_slice(), self.last_width).len();
        let shown: usize = if self.last_inner.height == 0 {
            1
        } else {
            self.last_inner.height as usize
        };
        let most: usize = if rows < shown {
            0
        } else {
            rows - shown
        };
        let there: i128 = self.scroll as i128 + delta as i128;
        self.scroll = if there < 0 {
            0
        } else if there > most as i128 {
            most
        } else {
            there as usize
        };
        self.reveal_cursor = false;
        assert(self@ =~= before.scrolled(delta as int));
    }

    /// Shows the text in an area: the rows that fit, and the cursor.
    pub fn render(&mut self, inner: Rect) -> (r: EditorScreen)
        requires
            old(self).wf(),
        ensures
            final(self).wf(),
            final(self)@ == old(self)@.shown(inner),
            r.caret == final(self)@.caret(),
            deep::deep(r.lines@) == row_texts(
                final(self)@.text,
                final(self)@.rows(),
                final(self)@.scroll as int,
                EditorView::shown_rows(inner.height),
            ),
    {
        let rows: Vec<VisualLine> = self.lay_out(inner);
        proof {
            wrap::lemma_rows_cover(self@.text, wrap::at_least_one(self@.width), 0, true);
        }
        let shown: usize = if inner.height == 0 {
            1
        } else {
            inner.height as usize
        };
        let lines: Vec<String> = show_rows(
            self.text.as_slice(),
            rows.as_slice(),
            self.scroll,
            shown,
        );
        let caret: Option<Position> = self.find_caret(rows.as_slice());
        EditorScreen { lines, caret }
    }

    fn lay_out(&mut self, inner: Rect) -> (rows: Vec<VisualLine>)
        requires
            old(self).wf(),
        ensures
            final(self).wf(),
            final(self)@ == old(self)@.shown(inner),
            rows@ == final(self)@.rows(),
    {
        let ghost before = self@;
        let w: usize = if inner.width == 0 {
            1
        } else {
            inner.width as usize
        };
        let rows: Vec<VisualLine> = wrap::visual_lines(self.text.as_slice(), w);
        proof {
            wrap::lemma_rows_cover(before.text, wrap::at_least_one(w), 0, true);
            lemma_row_of(rows@, before.cursor, rows@.len() as int);
        }
        let row: usize = find_row(rows.as_slice(), self.cursor);
        let shown: usize = if inner.height == 0 {
            1
        } else {
            inner.height as usize
        };
        let mut first: usize = self.scroll;
        if self.reveal_cursor || self.last_width != w {
            if row < first {
                first = row;
            } else if row - first >= shown {
                first = row - (shown - 1);
            }
        }
        let most: usize = if rows.len() < shown {
            0
        } else {
            rows.len() - shown
        };
        if first > most {
            first = most;
        }
        assert(first == before.first_row(inner));
        self.scroll = first;
        self.last_width = w;
        self.last_inner = inner;
        self.reveal_cursor = false;
        assert(self@ =~= before.shown(inner));
        rows
    }

    fn find_caret(&self, rows: &[VisualLine]) -> (r: Option<Position>)
        requires
            self.wf(),
            rows@ == self@.rows(),
        ensures
            r == self@.caret(),
    {
        proof {
            wrap::lemma_rows_cover(self@.text, wrap::at_least_one(self@.width), 0, true);
            lemma_row_of(rows@, self@.cursor, rows@.len() as int);
        }
        let inner: Rect = self.last_inner;
        let row: usize = find_row(rows, self.cursor);
        let column: usize = self.column(rows, row);
        let shown: usize = if inner.height == 0 {
            1
        } else {
            inner.height as usize
        };
        if row < self.scroll || row - self.scroll >= shown {
            return None;
        }
        let x: u16 = (column % 0x1_0000) as u16;
        let edge: u16 = if inner.width == 0 {
            0
        } else {
            inner.width - 1
        };
        let right: u16 = if x <= edge {
            x
        } else {
            edge
        };
        let below: u16 = (row - self.scroll) as u16;
        Some(Position { x: inner.x.saturating_add(right), y: inner.y.saturating_add(below) })
    }
}

/// The texts of up to `n` rows from row `first` on.
pub open spec fn row_texts(
    s: Seq<char>,
    rows: Seq<VisualLine>,
    first: int,
    n: int,
) -> Seq<Seq<char>> {
    Seq::new(
        style::least(n, style::at_least_zero(rows.len() - first)) as nat,
        |k: int| s.subrange(rows[first + k].start as int, rows[first + k].end as int),
    )
}

fn show_rows(s: &[char], rows: &[VisualLine], first: usize, n: usize) -> (r: Vec<String>)
    requires
        forall|k: int|
            0 <= k < rows@.len() ==> (#[trigger] rows@[k]).start <= rows@[k].end <= s@.len(),
    ensures
        deep::deep(r@) == row_texts(s@, rows@, first as int, n as int),
{
    let ghost goal = row_texts(s@, rows@, first as int, n as int);
    let mut lines: Vec<String> = Vec::new();
    let mut i: usize = first;
    while i < rows.len() && lines.len() < n
        invariant
            forall|k: int|
                0 <= k < rows@.len() ==> (#[trigger] rows@[k]).start <= rows@[k].end <= s@.len(),
            goal == row_texts(s@, rows@, first as int, n as int),
            i == first + lines@.len(),
            i <= rows@.len() || lines@.len() == 0,
            lines@.len() <= n,
            lines@.len() <= goal.len(),
            deep::deep(lines@) =~= goal.take(lines@.len() as int),
        decreases rows@.len() - i,
    {
        assert(rows@[i as int].start <= rows@[i as int].end <= s@.len());
        lines.push(text::text_range(s, rows[i].start, rows[i].end));
        i += 1;
    }
    assert(lines@.len() == goal.len());
    assert(goal.take(lines@.len() as int) =~= goal);
    lines
}

/// Typing a character and taking it back with a backspace gives the text back
/// as it was, the cursor where it was.
pub proof fn lemma_backspace_undoes_insert(e: EditorView, c: char)
    requires
        e.ok(),
        e.text.len() < usize::MAX,
    ensures
        e.inserted(seq![c]).backspaced().text == e.text,
        e.inserted(seq![c]).backspaced().cursor == e.cursor,
{
    let t = e.inserted(seq![c]);
    assert(t.text.remove(e.cursor as int) =~= e.text);
}

} // verus!
