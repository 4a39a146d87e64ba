//! The preview of a comment export.

use crate::deep;
use crate::num;
use crate::text;
use crate::ui::review;
use crate::ui::style;
use crate::ui::style::Rect;
use crate::ui::wrap;
use crate::ui::wrap::VisualLine;
use vstd::prelude::*;

verus! {

broadcast use crate::deep::group_deep;

/// The rows of one line, as texts.
pub open spec fn line_pieces(line: Seq<char>, w: usize) -> Seq<Seq<char>> {
    wrap::wrapped(line, w).map_values(
        |r: VisualLine| line.subrange(r.start as int, r.end as int),
    )
}

/// The rows of the first `n` lines.
pub open spec fn pieces(lines: Seq<Seq<char>>, w: usize, n: int) -> Seq<Seq<char>>
    decreases n,
{
    if n <= 0 {
        Seq::empty()
    } else {
        pieces(lines, w, n - 1) + line_pieces(lines[n - 1], w)
    }
}

/// A text broken to a width; an empty text is one empty row.
pub open spec fn broken(s: Seq<char>, w: usize) -> Seq<Seq<char>> {
    let lines = text::lines(s);
    if lines.len() == 0 {
        seq![Seq::empty()]
    } else {
        pieces(lines, w, lines.len() as int)
    }
}

/// Breaks a text to a width.
pub fn wrapped_lines(s: &str, w: usize) -> (r: Vec<String>)
    ensures
        deep::deep(r@) == broken(s@, w),
        r@.len() >= 1,
{
    let cs: Vec<char> = text::to_chars(s);
    let lines: Vec<Vec<char>> = text::line_chars(cs.as_slice());
    let ghost all = deep::deep(lines@);
    let mut out: Vec<String> = Vec::new();
    let mut i: usize = 0;
    while i < lines.len()
        invariant
            i <= lines@.len(),
            all == deep::deep(lines@),
            all == text::lines(s@),
            out@.len() >= i,
            deep::deep(out@) == pieces(all, w, i as int),
        decreases lines@.len() - i,
    {
        let line: &Vec<char> = &lines[i];
        assert(all[i as int] == line@);
        let rows: Vec<VisualLine> = wrap::wrap_ranges(line.as_slice(), w);
        proof {
            assert(line@.len() == line.len());
            wrap::lemma_rows_cover(line@, wrap::at_least_one(w), 0, false);
        }
        let ghost before = deep::deep(out@);
        let ghost goal = line_pieces(line@, w);
        let mut k: usize = 0;
        assert(before + goal.take(0) =~= before);
        while k < rows.len()
            invariant
                k <= rows@.len(),
                rows@ == wrap::wrapped(line@, w),
                wrap::covers(line@, rows@, 0, false),
                goal == line_pieces(line@, w),
                out@.len() >= i + k,
                deep::deep(out@) =~= before + goal.take(k as int),
            decreases rows@.len() - k,
        {
            assert(rows@[k as int].start <= rows@[k as int].end <= line@.len());
            out.push(text::text_range(line.as_slice(), rows[k].start, rows[k].end));
            k += 1;
        }
        assert(goal.take(k as int) =~= goal);
        i += 1;
    }
    if out.len() == 0 {
        let none: String = String::new();
        assert(none@ =~= Seq::empty());
        out.push(none);
        assert(deep::deep(out@) =~= broken(s@, w));
    }
    out
}

/// Read-only preview of the exact Markdown produced by comment export.
pub struct ExportPreview {
    markdown: String,
    lines: Vec<String>,
    scroll: usize,
    viewport: usize,
    line_width: usize,
}

/// What a preview holds.
#[verifier::ext_equal]
pub struct PreviewView {
    pub markdown: Seq<char>,
    pub lines: Seq<Seq<char>>,
    pub scroll: usize,
    pub viewport: usize,
    pub line_width: usize,
}

impl View for ExportPreview {
    type V = PreviewView;

    closed spec fn view(&self) -> PreviewView {
        PreviewView {
            markdown: self.markdown@,
            lines: deep::deep(self.lines@),
            scroll: self.scroll,
            viewport: self.viewport,
            line_width: self.line_width,
        }
    }
}

impl PreviewView {
    /// The furthest that the view can be scrolled.
    pub open spec fn limit(self) -> int {
        style::at_least_zero(self.lines.len() - self.viewport)
    }

    pub open spec fn scrolled(self, delta: int) -> PreviewView {
        PreviewView {
            scroll: review::clamped(self.scroll + delta, 0, self.limit()) as usize,
            ..self
        }
    }

    pub open spec fn page_rows(self) -> int {
        style::at_least_zero(self.viewport - 1)
    }

    pub open spec fn half_rows(self) -> int {
        if self.viewport < 2 {
            1
        } else {
            self.viewport as int / 2
        }
    }

    /// The preview after it was shown in an area.
    pub open spec fn shown(self, inner: Rect) -> PreviewView {
        let w = if inner.width == 0 {
            1
        } else {
            inner.width as usize
        };
        let lines = if w == self.line_width {
            self.lines
        } else {
            broken(self.markdown, w)
        };
        PreviewView {
            lines,
            line_width: w,
            viewport: if inner.height == 0 {
                1
            } else {
                inner.height as usize
            },
            scroll: style::least(
                self.scroll as int,
                style::at_least_zero(lines.len() - inner.height),
            ) as usize,
            ..self
        }
    }

    /// The rows visible in an area of the given height.
    pub open spec fn visible(self, height: u16) -> Seq<Seq<char>> {
        Seq::new(
            style::least(height as int, style::at_least_zero(self.lines.len() - self.scroll)) as nat,
            |k: int| self.lines[self.scroll + k],
        )
    }
}

/// A preview that has just been opened.
pub open spec fn opened(markdown: Seq<char>) -> PreviewView {
    PreviewView {
        markdown,
        lines: broken(markdown, 100),
        scroll: 0,
        viewport: 20,
        line_width: 100,
    }
}

/// The title of the preview.
pub open spec fn preview_title(comments: nat) -> Seq<char> {
    " export preview · "@ + num::decimal(comments) + " comment"@ + (if comments == 1 {
        ""@
    } else {
        "s"@
    }) + " "@
}

/// The title of the preview.
pub fn title(comments: usize) -> (r: String)
    ensures
        r@ == preview_title(comments as nat),
{
    let mut s: String = text::copy(" export preview · ");
    text::put(&mut s, num::decimal_text(comments as u64).as_str());
    text::put(&mut s, " comment");
    text::put(
        &mut s,
        if comments == 1 {
            ""
        } else {
            "s"
        },
    );
    text::put(&mut s, " ");
    s
}

/// Where the preview pops up over an area.
pub open spec fn preview_area(bounds: Rect) -> Rect {
    let w = style::least(style::at_least_zero(bounds.width - 4), 120);
    let h = style::most(style::at_least_zero(bounds.height - 2), 3);
    Rect {
        x: style::at_most_u16(bounds.x + style::at_least_zero(bounds.width - w) / 2),
        y: style::at_most_u16(bounds.y + style::at_least_zero(bounds.height - h) / 2),
        width: w as u16,
        height: h as u16,
    }
}

/// Where the preview pops up over an area.
pub fn popup(bounds: Rect) -> (r: Rect)
    ensures
        r == preview_area(bounds),
{
    let mut w: u16 = bounds.width.saturating_sub(4);
    if w > 120 {
        w = 120;
    }
    let mut h: u16 = bounds.height.saturating_sub(2);
    if h < 3 {
        h = 3;
    }
    Rect {
        x: bounds.x.saturating_add(bounds.width.saturating_sub(w) / 2),
        y: bounds.y.saturating_add(bounds.height.saturating_sub(h) / 2),
        width: w,
        height: h,
    }
}

impl ExportPreview {
    pub fn new(markdown: String) -> (r: Self)
        ensures
            r@ == opened(markdown@),
    {
        let lines: Vec<String> = wrapped_lines(markdown.as_str(), 100);
        ExportPreview { markdown, lines, scroll: 0, viewport: 20, line_width: 100 }
    }

    pub fn markdown(&self) -> (r: &str)
        ensures
            r@ == self@.markdown,
    {
        self.markdown.as_str()
    }

    /// The first visible row.
    pub fn scroll(&self) -> (r: usize)
        ensures
            r == self@.scroll,
    {
        self.scroll
    }

    /// Takes over the height that rows are shown in.
    pub fn set_viewport(&mut self, height: usize)
        ensures
            final(self)@ == (PreviewView { viewport: height, ..old(self)@ }),
    {
        let ghost before = self@;
        self.viewport = height;
        assert(self@ =~= (PreviewView { viewport: height, ..before }));
    }

    fn shift(&mut self, delta: i128)
        requires
            old(self)@.scroll + delta <= i128::MAX,
        ensures
            final(self)@ == old(self)@.scrolled(delta as int),
    {
        let ghost before = self@;
        let total: usize = self.lines.len();
        let most: usize = if total < self.viewport {
            0
        } else {
            total - self.viewport
        };
        let there: i128 = self.scroll as i128 + delta;
        self.scroll = if there < 0 {
            0
        } else if there > most as i128 {
            most
        } else {
            there as usize
        };
        assert(self@ =~= before.scrolled(delta as int));
    }

    pub fn scroll_by(&mut self, delta: isize)
        ensures
            final(self)@ == old(self)@.scrolled(delta as int),
    {
        self.shift(delta as i128);
    }

    pub fn page(&mut self, direction: isize)
        ensures
            final(self)@ == old(self)@.scrolled(direction * old(self)@.page_rows()),
    {
        let rows: i128 = if self.viewport == 0 {
            0
        } else {
            self.viewport as i128 - 1
        };
        let d: i128 = direction as i128;
        assert(-0x8000_0000_0000_0000_0000_0000_0000_0000 <= d * rows
            <= 0x7fff_ffff_ffff_fffe_0000_0000_0000_0002) by (nonlinear_arith)
            requires
                -0x8000_0000_0000_0000 <= d <= 0x7fff_ffff_ffff_ffff,
                0 <= rows <= 0xffff_ffff_ffff_fffe,
        ;
        self.shift(d * rows);
    }

    pub fn half_page(&mut self, direction: isize)
        ensures
            final(self)@ == old(self)@.scrolled(direction * old(self)@.half_rows()),
    {
        let rows: i128 = if self.viewport < 2 {
            1
        } else {
            self.viewport as i128 / 2
        };
        let d: i128 = direction as i128;
        assert(-0x8000_0000_0000_0000_0000_0000_0000_0000 <= d * rows
            <= 0x7fff_ffff_ffff_fffe_0000_0000_0000_0002) by (nonlinear_arith)
            requires
                -0x8000_0000_0000_0000 <= d <= 0x7fff_ffff_ffff_ffff,
                0 <= rows <= 0xffff_ffff_ffff_fffe,
        ;
        self.shift(d * rows);
    }

    pub fn top(&mut self)
        ensures
            final(self)@ == (PreviewView { scroll: 0, ..old(self)@ }),
    {
        let ghost before = self@;
        self.scroll = 0;
        assert(self@ =~= (PreviewView { scroll: 0, ..before }));
    }

    pub fn bottom(&mut self)
        ensures
            final(self)@ == (PreviewView { scroll: old(self)@.limit() as usize, ..old(self)@ }),
    {
        let ghost before = self@;
        let total: usize = self.lines.len();
        self.scroll = if total < self.viewport {
            0
        } else {
            total - self.viewport
        };
        assert(self@ =~= (PreviewView { scroll: before.limit() as usize, ..before }));
    }

    /// Lays the preview out for an area and returns the visible rows.
    pub fn render(&mut self, inner: Rect) -> (r: Vec<String>)
        ensures
            final(self)@ == old(self)@.shown(inner),
            deep::deep(r@) == final(self)@.visible(inner.height),
    {
        let ghost before = self@;
        let w: usize = if inner.width == 0 {
            1
        } else {
            inner.width as usize
        };
        if w != self.line_width {
            self.lines = wrapped_lines(self.markdown.as_str(), w);
            self.line_width = w;
        }
        self.viewport = if inner.height == 0 {
            1
        } else {
            inner.height as usize
        };
        let total: usize = self.lines.len();
        let most: usize = if total < inner.height as usize {
            0
        } else {
            total - inner.height as usize
        };
        if self.scroll > most {
            self.scroll = most;
        }
        assert(self@ =~= before.shown(inner));
        let ghost goal = self@.visible(inner.height);
        let mut out: Vec<String> = Vec::new();
        let mut i: usize = self.scroll;
        while i < self.lines.len() && out.len() < inner.height as usize
            invariant
                goal == self@.visible(inner.height),
                i == self@.scroll + out@.len(),
                out@.len() <= goal.len(),
                i <= self.lines@.len() || out@.len() == 0,
                deep::deep(out@) =~= goal.take(out@.len() as int),
            decreases self.lines@.len() - i,
        {
            out.push(text::copy(self.lines[i].as_str()));
            i += 1;
        }
        assert(goal.take(out@.len() as int) =~= goal);
        out
    }
}

} // verus!
