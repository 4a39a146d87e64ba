//! What editing a text does.

use crate::laws::wrapping;
use crate::ui::editor;
use crate::ui::editor::EditorView;
use crate::ui::width;
use crate::ui::wrap;
use crate::ui::wrap::VisualLine;
use vstd::prelude::*;

verus! {

/// The text before the cursor.
pub open spec fn before(e: EditorView) -> Seq<char> {
    e.text.take(e.cursor as int)
}

/// The text behind the cursor.
pub open spec fn behind(e: EditorView) -> Seq<char> {
    e.text.skip(e.cursor as int)
}

/// Inserting puts the text before the cursor and keeps all that was there;
/// inserting two texts in turn inserts them as one.
pub proof fn lemma_inserting(e: EditorView, a: Seq<char>, b: Seq<char>)
    requires
        e.ok(),
        e.text.len() + a.len() + b.len() <= usize::MAX,
    ensures
        before(e.inserted(a)) == before(e) + a,
        behind(e.inserted(a)) == behind(e),
        e.inserted(a).ok(),
        e.inserted(a).inserted(b).text == e.inserted(a + b).text,
        e.inserted(a).inserted(b).cursor == e.inserted(a + b).cursor,
{
    let t = e.inserted(a);
    assert(before(t) =~= before(e) + a);
    assert(behind(t) =~= behind(e));
    assert(t.inserted(b).text =~= e.inserted(a + b).text);
}

/// Backspace takes the last character before the cursor, delete the first one
/// behind it; where there is none nothing happens. Deleting is going right and
/// then backspacing.
pub proof fn lemma_erasing(e: EditorView)
    requires
        e.ok(),
    ensures
        e.cursor == 0 ==> e.backspaced() == e,
        e.cursor > 0 ==> before(e.backspaced()) == before(e).drop_last() && behind(e.backspaced())
            == behind(e),
        e.cursor == e.text.len() ==> e.deleted() == e,
        e.cursor < e.text.len() ==> before(e.deleted()) == before(e) && behind(e.deleted())
            == behind(e).skip(1) && e.deleted().text == e.moved_right().backspaced().text
            && e.deleted().cursor == e.moved_right().backspaced().cursor,
{
    if e.cursor > 0 {
        assert(before(e.backspaced()) =~= before(e).drop_last());
        assert(behind(e.backspaced()) =~= behind(e));
    }
    if e.cursor < e.text.len() {
        assert(before(e.deleted()) =~= before(e));
        assert(behind(e.deleted()) =~= behind(e).skip(1));
    }
}

/// The arrows move by one character and stop at the ends; they change nothing of
/// the text.
pub proof fn lemma_going(e: EditorView)
    requires
        e.ok(),
    ensures
        e.moved_left().text == e.text && e.moved_right().text == e.text,
        e.cursor == 0 ==> e.moved_left().cursor == 0,
        e.cursor > 0 ==> e.moved_left().cursor + 1 == e.cursor
            && e.moved_left().moved_right().cursor == e.cursor,
        e.cursor == e.text.len() ==> e.moved_right().cursor == e.cursor,
        e.cursor < e.text.len() ==> e.moved_right().cursor == e.cursor + 1
            && e.moved_right().moved_left().cursor == e.cursor,
{
}

// ---- pasting ------------------------------------------------------------------------

proof fn lemma_plain(s: Seq<char>, i: int)
    requires
        0 <= i <= s.len(),
        !s.contains('\r'),
    ensures
        editor::normalized(s, i) == s.skip(i),
    decreases s.len() - i,
{
    if i < s.len() {
        assert(s.contains(s[i]));
        lemma_plain(s, i + 1);
        assert(seq![s[i]] + s.skip(i + 1) =~= s.skip(i));
    } else {
        assert(s.skip(i) =~= Seq::empty());
    }
}

proof fn lemma_past(a: Seq<char>, b: Seq<char>, i: int)
    requires
        0 <= i,
    ensures
        editor::normalized(a + b, a.len() + i) == editor::normalized(b, i),
    decreases b.len() + 2 - i,
{
    if i < b.len() {
        assert((a + b)[a.len() + i] == b[i]);
        if i + 1 < b.len() {
            assert((a + b)[a.len() + i + 1] == b[i + 1]);
        }
        lemma_past(a, b, i + 1);
        lemma_past(a, b, i + 2);
    }
}

proof fn lemma_front(a: Seq<char>, b: Seq<char>, i: int)
    requires
        0 <= i <= a.len(),
        !a.contains('\r'),
    ensures
        editor::normalized(a + b, i) == a.skip(i) + editor::normalized(b, 0),
    decreases a.len() - i,
{
    let s = a + b;
    if i < a.len() {
        assert(a.contains(a[i]));
        assert(s[i] == a[i]);
        lemma_front(a, b, i + 1);
        assert(seq![a[i]] + (a.skip(i + 1) + editor::normalized(b, 0)) =~= a.skip(i)
            + editor::normalized(b, 0));
    } else {
        lemma_past(a, b, 0);
        assert(a.skip(i) + editor::normalized(b, 0) =~= editor::normalized(b, 0));
    }
}

/// Pasted text keeps all but its carriage returns: a line end of two characters
/// becomes a line feed, and so does a carriage return by itself.
pub proof fn lemma_pasting(a: Seq<char>, b: Seq<char>)
    requires
        !a.contains('\r'),
    ensures
        editor::normalized(a, 0) == a,
        editor::normalized(a + seq!['\r', '\n'] + b, 0) == a + seq!['\n'] + editor::normalized(
            b,
            0,
        ),
        !(b.len() > 0 && b[0] == '\n') ==> editor::normalized(a + seq!['\r'] + b, 0) == a
            + seq!['\n'] + editor::normalized(b, 0),
{
    lemma_plain(a, 0);
    assert(a.skip(0) =~= a);
    let two = seq!['\r', '\n'];
    lemma_front(a, two + b, 0);
    lemma_past(two, b, 0);
    assert(a + two + b =~= a + (two + b));
    assert((two + b)[0] == '\r' && (two + b)[1] == '\n');
    assert(a + seq!['\n'] + editor::normalized(b, 0) =~= a + (seq!['\n'] + editor::normalized(
        b,
        0,
    )));
    let one = seq!['\r'];
    lemma_front(a, one + b, 0);
    lemma_past(one, b, 0);
    assert(a + one + b =~= a + (one + b));
    assert((one + b)[0] == '\r');
    if b.len() > 0 {
        assert((one + b)[1] == b[0]);
    }
}

// ---- rows ---------------------------------------------------------------------------

/// A column falls before the first character that reaches past it.
pub proof fn lemma_column(s: Seq<char>, lo: int, hi: int, column: int)
    requires
        0 <= lo <= hi <= s.len(),
        0 <= column,
    ensures
        ({
            let p = editor::at_column(s, lo, hi, column);
            &&& lo <= p <= hi
            &&& wrapping::cells_of(s.subrange(lo, p)) <= column
            &&& p < hi ==> wrapping::cells_of(s.subrange(lo, p + 1)) > column
        }),
    decreases hi - lo,
{
    if lo < hi {
        let c = width::cells(s[lo]) as int;
        if c > column {
            assert(s.subrange(lo, lo) =~= Seq::empty());
            assert(s.subrange(lo, lo + 1).skip(1) =~= Seq::empty());
            assert(wrapping::cells_of(s.subrange(lo, lo + 1).skip(1)) == 0);
        } else {
            lemma_column(s, lo + 1, hi, column - c);
            let p = editor::at_column(s, lo, hi, column);
            assert(s.subrange(lo, p).skip(1) =~= s.subrange(lo + 1, p));
            if p < hi {
                assert(s.subrange(lo, p + 1).skip(1) =~= s.subrange(lo + 1, p + 1));
            }
        }
    } else {
        assert(s.subrange(lo, lo) =~= Seq::empty());
    }
}

proof fn lemma_row_of(rows: Seq<VisualLine>, cursor: usize, n: int)
    requires
        0 < n <= rows.len(),
        rows[0].start <= cursor,
    ensures
        ({
            let k = editor::row_of(rows, cursor, n);
            &&& 0 <= k < n
            &&& rows[k].start <= cursor
            &&& forall|j: int| k < j < n ==> (#[trigger] rows[j]).start > cursor
        }),
    decreases n,
{
    if rows[n - 1].start > cursor {
        lemma_row_of(rows, cursor, n - 1);
    }
}

/// The cursor is on the last row that starts at or before it; home goes to the
/// start of that row and end to its end.
pub proof fn lemma_cursor_row(e: EditorView)
    requires
        e.ok(),
    ensures
        ({
            let rows = e.rows();
            let k = e.cursor_row(rows);
            &&& 0 <= k < rows.len()
            &&& rows[k].start <= e.cursor
            &&& forall|j: int| k < j < rows.len() ==> (#[trigger] rows[j]).start > e.cursor
            &&& e.at_home().cursor == rows[k].start && e.at_home().text == e.text
            &&& e.at_end().cursor == rows[k].end && e.at_end().text == e.text
        }),
{
    wrap::lemma_rows_cover(e.text, wrap::at_least_one(e.width), 0, true);
    let rows = e.rows();
    lemma_row_of(rows, e.cursor, rows.len() as int);
}

/// Going up or down stays within the rows and ends on the row asked for, at the
/// column that the move set out from as far as that row has it; the column is
/// remembered.
pub proof fn lemma_going_by_rows(e: EditorView, delta: int)
    requires
        e.ok(),
    ensures
        ({
            let rows = e.rows();
            let k = e.cursor_row(rows) + delta;
            let t = e.moved_rows(delta);
            let to = if k < 0 {
                0
            } else if k >= rows.len() {
                rows.len() - 1
            } else {
                k
            };
            let r = rows[to];
            let wanted = t.preferred->0;
            &&& t.text == e.text
            &&& t.preferred is Some
            &&& e.preferred is Some ==> t.preferred == e.preferred
            &&& e.preferred is None ==> wanted == e.cursor_column(rows)
            &&& r.start <= t.cursor <= r.end
            &&& wrapping::cells_of(e.text.subrange(r.start as int, t.cursor as int)) <= wanted
            &&& t.cursor < r.end ==> wrapping::cells_of(
                e.text.subrange(r.start as int, t.cursor + 1),
            ) > wanted
        }),
{
    wrap::lemma_rows_cover(e.text, wrap::at_least_one(e.width), 0, true);
    let rows = e.rows();
    let t = e.moved_rows(delta);
    lemma_row_of(rows, e.cursor, rows.len() as int);
    let k = e.cursor_row(rows) + delta;
    let to = if k < 0 {
        0
    } else if k >= rows.len() {
        rows.len() - 1
    } else {
        k
    };
    let r = rows[to];
    lemma_column(e.text, r.start as int, r.end as int, t.preferred->0 as int);
}

/// Scrolling moves the view alone: neither the text nor the cursor changes, and
/// the view stops at the first row and where the last page is full.
pub proof fn lemma_scrolling(e: EditorView, delta: int)
    requires
        e.ok(),
        e.inner.height > 0,
        e.rows().len() <= usize::MAX,
    ensures
        ({
            let t = e.scrolled(delta);
            let n = e.rows().len();
            &&& t.text == e.text && t.cursor == e.cursor
            &&& 0 <= e.scroll + delta && e.scroll + delta + e.inner.height <= n ==> t.scroll
                == e.scroll + delta
            &&& e.scroll + delta < 0 ==> t.scroll == 0
            &&& n >= e.inner.height && e.scroll + delta + e.inner.height > n ==> t.scroll
                + e.inner.height == n
            &&& n <= e.inner.height ==> t.scroll == 0
        }),
{
}

/// After an edit or a move the cursor's row is shown.
pub proof fn lemma_cursor_is_revealed(e: EditorView, inner: crate::ui::style::Rect)
    requires
        e.ok(),
        e.reveal,
        inner.width > 0,
        inner.height > 0,
        wrap::laid_out(e.text, inner.width as usize).len() <= usize::MAX,
    ensures
        ({
            let t = e.shown(inner);
            let row = t.cursor_row(t.rows());
            &&& t.scroll <= row < t.scroll + inner.height
            &&& t.text == e.text && t.cursor == e.cursor
        }),
{
    let rows = wrap::laid_out(e.text, inner.width as usize);
    wrap::lemma_rows_cover(e.text, wrap::at_least_one(inner.width as usize), 0, true);
    lemma_row_of(rows, e.cursor, rows.len() as int);
}

} // verus!
