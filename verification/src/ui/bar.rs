//! The contextual command bar.

use crate::deep;
use crate::keymap::{Hint, HintView};
use crate::text;
use crate::ui::style;
use crate::ui::style::{Color, LineView, SpanView, Style, StyledLine};
use crate::ui::width;
use vstd::prelude::*;

verus! {

broadcast use crate::deep::group_deep;

/// A one-line prompt (search, export path…) in place of the command bar.
pub open spec fn prompt(label: Seq<char>, value: Seq<char>, action: Seq<char>) -> LineView {
    style::line(
        seq![
            style::span(label, style::bold_colored(Color::Cyan)),
            style::span(value, style::no_style()),
            style::span("▏"@, style::colored(Color::Cyan)),
            style::span("   "@, style::no_style()),
            style::span("⏎"@, style::bold_colored(Color::Cyan)),
            style::span(" "@ + action + "  "@, style::colored(Color::DarkGray)),
            style::span("Esc"@, style::bold_colored(Color::Cyan)),
            style::span(" cancel"@, style::colored(Color::DarkGray)),
        ],
    )
}

/// A one-line prompt (search, export path…) in place of the command bar.
pub fn render_input(label: &str, value: &str, action: &str) -> (r: StyledLine)
    ensures
        r@ == prompt(label@, value@, action@),
{
    let mut what: String = text::copy(" ");
    text::put(&mut what, action);
    text::put(&mut what, "  ");
    let mut line = StyledLine::new();
    line.put(label, Style::bold_fg(Color::Cyan));
    line.put(value, Style::plain());
    line.put("▏", Style::fg(Color::Cyan));
    line.put("   ", Style::plain());
    line.put("⏎", Style::bold_fg(Color::Cyan));
    line.put(what.as_str(), Style::fg(Color::DarkGray));
    line.put("Esc", Style::bold_fg(Color::Cyan));
    line.put(" cancel", Style::fg(Color::DarkGray));
    assert(line@ =~= prompt(label@, value@, action@));
    line
}

/// A key as the bar shows it: color and weight set it off, nothing else.
pub fn display_key(key: &str) -> (r: String)
    ensures
        r@ == key@,
{
    text::copy(key)
}

/// Columns of a hint.
pub open spec fn hint_cells(h: HintView) -> int {
    width::str_cells(h.key) + 1 + width::str_cells(h.desc)
}

/// Columns of a hint; the largest number if they are more.
pub fn hint_width(key: &str, label: &str) -> (r: usize)
    ensures
        r == style::least(
            hint_cells((HintView { key: key@, desc: label@ })),
            usize::MAX as int,
        ),
{
    width::str_width(display_key(key).as_str()).saturating_add(1).saturating_add(
        width::str_width(label),
    )
}

/// Rows of complete hints, by index.
#[verifier::ext_equal]
pub struct Packing {
    pub rows: Seq<Seq<usize>>,
    /// Columns taken in the last row.
    pub used: int,
    /// A hint found no room in the last row.
    pub full: bool,
}

impl Packing {
    /// Blanks in front of the next hint of the last row.
    pub open spec fn separator(self) -> int {
        if self.rows.len() > 0 && self.rows.last().len() > 0 {
            2
        } else {
            0
        }
    }

    /// The packing with one more hint: behind the others if it fits, else in a
    /// new row, else left out with all that follow. A hint wider than the bar is
    /// skipped.
    pub open spec fn with_hint(self, i: usize, cells: int, w: int, h: int) -> Packing {
        if self.full || cells > w {
            self
        } else if self.rows.len() == 0 {
            Packing { rows: seq![seq![i]], used: cells, full: false }
        } else if self.used + self.separator() + cells <= w {
            Packing {
                rows: self.rows.drop_last().push(self.rows.last().push(i)),
                used: self.used + self.separator() + cells,
                full: false,
            }
        } else if self.rows.len() == h {
            Packing { full: true, ..self }
        } else {
            Packing { rows: self.rows.push(seq![i]), used: cells, full: false }
        }
    }
}

/// The first `n` hints packed into `h` rows of `w` columns.
pub open spec fn packed(hints: Seq<HintView>, w: int, h: int, n: int) -> Packing
    decreases n,
{
    if n <= 0 || w <= 0 || h <= 0 {
        Packing { rows: Seq::empty(), used: 0, full: false }
    } else {
        packed(hints, w, h, n - 1).with_hint((n - 1) as usize, hint_cells(hints[n - 1]), w, h)
    }
}

/// The rows of the bar.
pub open spec fn bar_rows(hints: Seq<HintView>, w: u16, h: u16) -> Seq<Seq<usize>> {
    packed(hints, w as int, h as int, hints.len() as int).rows
}

proof fn lemma_packed_full(hints: Seq<HintView>, w: int, h: int, n: int, m: int)
    requires
        packed(hints, w, h, n).full,
        n <= m,
    ensures
        packed(hints, w, h, m) == packed(hints, w, h, n),
    decreases m - n,
{
    if n < m {
        lemma_packed_full(hints, w, h, n, m - 1);
    }
}

/// Pack only complete hint groups into the available rows. Text wrapping can
/// clip the final group midway through its label; keeping layout at item
/// boundaries makes narrow bars degrade by omission instead.
pub fn pack_rows(hints: &[Hint], width: u16, height: u16) -> (r: Vec<Vec<usize>>)
    ensures
        deep::deep(r@) == bar_rows(deep::deep(hints@), width, height),
{
    let ghost all = deep::deep(hints@);
    let w: usize = width as usize;
    let h: usize = height as usize;
    let mut rows: Vec<Vec<usize>> = Vec::new();
    if w == 0 || h == 0 {
        return rows;
    }
    let mut used: usize = 0;
    let mut index: usize = 0;
    while index < hints.len()
        invariant
            all == deep::deep(hints@),
            index <= hints@.len(),
            0 < w <= 0xffff,
            0 < h,
            w == width,
            h == height,
            used <= w,
            !packed(all, w as int, h as int, index as int).full,
            deep::deep(rows@) == packed(all, w as int, h as int, index as int).rows,
            used == packed(all, w as int, h as int, index as int).used,
        decreases hints@.len() - index,
    {
        let ghost before = packed(all, w as int, h as int, index as int);
        let ghost after = packed(all, w as int, h as int, index + 1);
        let hint: &Hint = &hints[index];
        assert(all[index as int] == hint@);
        let item: usize = hint_width(hint.key.as_str(), hint.desc);
        if item <= w {
            let last: usize = rows.len();
            if last == 0 {
                let mut row: Vec<usize> = Vec::new();
                row.push(index);
                assert(row@ =~= seq![index]);
                rows.push(row);
                used = item;
                assert(deep::deep(rows@) =~= after.rows);
            } else {
                assert(before.rows.last() == rows@[last - 1]@);
                let separator: usize = if rows[last - 1].len() > 0 {
                    2
                } else {
                    0
                };
                if used + separator + item <= w {
                    rows[last - 1].push(index);
                    used = used + separator + item;
                    assert(deep::deep(rows@) =~= after.rows);
                } else if last == h {
                    proof {
                        assert(after.full);
                        lemma_packed_full(all, w as int, h as int, index + 1, all.len() as int);
                    }
                    return rows;
                } else {
                    let mut row: Vec<usize> = Vec::new();
                    row.push(index);
                    assert(row@ =~= seq![index]);
                    rows.push(row);
                    used = item;
                    assert(deep::deep(rows@) =~= after.rows);
                }
            }
        }
        index += 1;
    }
    rows
}

/// Columns of a row of hints.
pub open spec fn row_cells(hints: Seq<HintView>, row: Seq<usize>) -> int
    decreases row.len(),
{
    if row.len() == 0 {
        0
    } else {
        row_cells(hints, row.drop_last()) + (if row.len() > 1 {
            2int
        } else {
            0
        }) + hint_cells(hints[row.last() as int])
    }
}

proof fn lemma_packed(hints: Seq<HintView>, w: int, h: int, n: int)
    requires
        0 <= n <= hints.len(),
        hints.len() <= usize::MAX,
    ensures
        ({
            let p = packed(hints, w, h, n);
            &&& p.rows.len() <= style::at_least_zero(h)
            &&& p.rows.len() > 0 ==> row_cells(hints, p.rows.last()) == p.used
            &&& forall|k: int|
                0 <= k < p.rows.len() ==> (#[trigger] p.rows[k]).len() > 0 && row_cells(
                    hints,
                    p.rows[k],
                ) <= w
        }),
    decreases n,
{
    if n > 0 && w > 0 && h > 0 {
        lemma_packed(hints, w, h, n - 1);
        let p = packed(hints, w, h, n - 1);
        let q = packed(hints, w, h, n);
        let i = (n - 1) as usize;
        assert(seq![i].drop_last() =~= Seq::<usize>::empty());
        assert(row_cells(hints, seq![i]) == hint_cells(hints[n - 1])) by {
            assert(seq![i].last() == i);
            assert(row_cells(hints, seq![i].drop_last()) == 0);
        }
        if p.rows.len() > 0 {
            let grown = p.rows.last().push(i);
            assert(grown.drop_last() =~= p.rows.last());
        }
        assert forall|k: int| 0 <= k < q.rows.len() implies (#[trigger] q.rows[k]).len() > 0
            && row_cells(hints, q.rows[k]) <= w by {
            if k < p.rows.len() {
                assert(p.rows[k].len() > 0 && row_cells(hints, p.rows[k]) <= w);
            }
        }
    }
}

/// The bar never shows part of a hint: no row is wider than the bar, no row is
/// empty, and there are no more rows than the bar has.
pub proof fn lemma_hints_are_never_clipped(hints: Seq<HintView>, w: u16, h: u16)
    requires
        hints.len() <= usize::MAX,
    ensures
        bar_rows(hints, w, h).len() <= h,
        forall|k: int|
            0 <= k < bar_rows(hints, w, h).len() ==> (#[trigger] bar_rows(hints, w, h)[k]).len() > 0
                && row_cells(hints, bar_rows(hints, w, h)[k]) <= w,
{
    lemma_packed(hints, w as int, h as int, hints.len() as int);
}

/// The spans of the first `n` hints of a row.
pub open spec fn row_spans(hints: Seq<HintView>, row: Seq<usize>, n: int) -> Seq<SpanView>
    decreases n,
{
    if n <= 0 {
        Seq::empty()
    } else {
        let hint = hints[row[n - 1] as int];
        row_spans(hints, row, n - 1) + (if n > 1 {
            seq![style::span("  "@, style::no_style())]
        } else {
            Seq::empty()
        }) + seq![
            style::span(hint.key, style::bold_colored(Color::Cyan)),
            style::span(" "@ + hint.desc, style::colored(Color::DarkGray)),
        ]
    }
}

/// The line of a row of hints.
pub open spec fn row_line(hints: Seq<HintView>, row: Seq<usize>) -> LineView {
    style::line(row_spans(hints, row, row.len() as int))
}

fn paint_row(hints: &[Hint], row: &[usize]) -> (r: StyledLine)
    requires
        forall|k: int| 0 <= k < row@.len() ==> (#[trigger] row@[k]) < hints@.len(),
    ensures
        r@ == row_line(deep::deep(hints@), row@),
{
    let ghost all = deep::deep(hints@);
    let mut line = StyledLine::new();
    let mut k: usize = 0;
    while k < row.len()
        invariant
            k <= row@.len(),
            all == deep::deep(hints@),
            forall|k: int| 0 <= k < row@.len() ==> (#[trigger] row@[k]) < hints@.len(),
            line@ == style::line(row_spans(all, row@, k as int)),
        decreases row@.len() - k,
    {
        let hint: &Hint = &hints[row[k]];
        assert(all[row@[k as int] as int] == hint@);
        if k > 0 {
            line.put("  ", Style::plain());
        }
        line.put(display_key(hint.key.as_str()).as_str(), Style::bold_fg(Color::Cyan));
        let mut label: String = text::copy(" ");
        text::put(&mut label, hint.desc);
        line.put(label.as_str(), Style::fg(Color::DarkGray));
        assert(line@ =~= style::line(row_spans(all, row@, k + 1)));
        k += 1;
    }
    line
}

proof fn lemma_packed_indices(hints: Seq<HintView>, w: int, h: int, n: int)
    requires
        0 <= n <= hints.len(),
        hints.len() <= usize::MAX,
    ensures
        forall|k: int, j: int|
            0 <= k < packed(hints, w, h, n).rows.len() && 0 <= j < packed(
                hints,
                w,
                h,
                n,
            ).rows[k].len() ==> (#[trigger] packed(hints, w, h, n).rows[k][j]) < n,
    decreases n,
{
    if n > 0 && w > 0 && h > 0 {
        lemma_packed_indices(hints, w, h, n - 1);
        let p = packed(hints, w, h, n - 1);
        let q = packed(hints, w, h, n);
        assert forall|k: int, j: int| 0 <= k < q.rows.len() && 0 <= j < q.rows[k].len() implies (
        #[trigger] q.rows[k][j]) < n by {
            if k < p.rows.len() && j < p.rows[k].len() {
                assert(p.rows[k][j] < n - 1);
            }
        }
    }
}

/// The command bar for the primary keys valid right now.
pub fn render(hints: &[Hint], width: u16, height: u16) -> (r: Vec<StyledLine>)
    ensures
        r@.len() == bar_rows(deep::deep(hints@), width, height).len(),
        forall|k: int|
            0 <= k < r@.len() ==> (#[trigger] r@[k])@ == row_line(
                deep::deep(hints@),
                bar_rows(deep::deep(hints@), width, height)[k],
            ),
{
    let ghost all = deep::deep(hints@);
    let rows: Vec<Vec<usize>> = pack_rows(hints, width, height);
    let ghost goal = bar_rows(all, width, height);
    let total: usize = hints.len();
    proof {
        lemma_packed_indices(all, width as int, height as int, all.len() as int);
    }
    let mut out: Vec<StyledLine> = Vec::new();
    while out.len() < rows.len()
        invariant
            out@.len() <= rows@.len(),
            all == deep::deep(hints@),
            goal == deep::deep(rows@),
            forall|k: int, j: int|
                0 <= k < goal.len() && 0 <= j < goal[k].len() ==> (#[trigger] goal[k][j])
                    < hints@.len(),
            forall|k: int|
                0 <= k < out@.len() ==> (#[trigger] out@[k])@ == row_line(all, goal[k]),
        decreases rows@.len() - out@.len(),
    {
        let row: &Vec<usize> = &rows[out.len()];
        assert(goal[out@.len() as int] == row@);
        assert forall|j: int| 0 <= j < row@.len() implies (#[trigger] row@[j]) < hints@.len() by {
            assert(goal[out@.len() as int][j] < hints@.len());
        }
        out.push(paint_row(hints, row.as_slice()));
    }
    out
}

} // verus!
