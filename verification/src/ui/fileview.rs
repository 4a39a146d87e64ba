//! The read-only full-file pager.

use crate::deep;
use crate::markdown;
use crate::num;
use crate::text;
use crate::ui::highlight;
use crate::ui::highlight::Highlighter;
use crate::ui::review;
use crate::ui::style;
use crate::ui::style::{Color, LineView, Span, SpanView, Style, StyledLine};
use vstd::prelude::*;

verus! {

broadcast use crate::deep::group_deep;

/// Read-only full-file pager, overlaid on the review screen via `o`.
pub struct FileView {
    pub path: String,
    /// Where the content came from: "working tree", "index", a sha, …
    pub source: String,
    lines: Vec<String>,
    /// Syntax-colored lines, if the file has a grammar.
    colors: Option<Vec<Vec<Span>>>,
    pub scroll: usize,
    /// 0-based line the reader came from; kept highlighted.
    target: Option<usize>,
    viewport: usize,
}

/// What a pager holds.
#[verifier::ext_equal]
pub struct PagerView {
    pub path: Seq<char>,
    pub source: Seq<char>,
    pub lines: Seq<Seq<char>>,
    pub colors: Option<Seq<Seq<SpanView>>>,
    pub scroll: usize,
    pub target: Option<usize>,
    pub viewport: usize,
}

impl View for FileView {
    type V = PagerView;

    closed spec fn view(&self) -> PagerView {
        PagerView {
            path: self.path@,
            source: self.source@,
            lines: deep::deep(self.lines@),
            colors: highlight::lines_view(self.colors),
            scroll: self.scroll,
            target: self.target,
            viewport: self.viewport,
        }
    }
}

/// The first line that a pager shows: a little above the line it was opened at.
pub open spec fn first_line(lines: nat, target: Option<usize>) -> int {
    style::least(
        match target {
            Some(t) => style::at_least_zero(t - 3),
            None => 0,
        },
        style::at_least_zero(lines - 1),
    )
}

impl PagerView {
    /// The colored lines belong to the lines.
    pub open spec fn ok(self) -> bool {
        &&& self.lines.len() <= usize::MAX
        &&& self.scroll <= self.lines.len()
        &&& self.colors matches Some(c) ==> c.len() == self.lines.len()
    }

    /// The furthest that the view can be scrolled.
    pub open spec fn limit(self) -> int {
        style::at_least_zero(self.lines.len() - 1)
    }

    pub open spec fn scrolled(self, delta: int) -> PagerView {
        PagerView {
            scroll: review::clamped(self.scroll + delta, 0, self.limit()) as usize,
            ..self
        }
    }

    pub open spec fn page_rows(self) -> int {
        style::at_least_zero(self.viewport - 1)
    }

    pub open spec fn half_rows(self) -> int {
        if self.viewport < 2 {
            1
        } else {
            self.viewport as int / 2
        }
    }

    pub open spec fn at_bottom(self) -> PagerView {
        PagerView {
            scroll: style::at_least_zero(self.lines.len() - self.viewport) as usize,
            ..self
        }
    }

    /// Columns of the line numbers: as many as the last one needs, four at the least.
    pub open spec fn number_width(self) -> nat {
        let n = num::decimal(self.lines.len()).len();
        if n < 4 {
            4
        } else {
            n
        }
    }

    /// Line `i` as it is shown.
    pub open spec fn shown_line(self, i: int) -> LineView {
        let number = style::span(
            text::pad_left(num::decimal((i + 1) as nat), self.number_width()) + " "@,
            style::colored(Color::DarkGray),
        );
        let content = match self.colors {
            Some(c) => c[i],
            None => seq![style::span(self.lines[i], style::no_style())],
        };
        LineView {
            spans: seq![number] + content,
            style: if self.target == Some(i as usize) {
                Style { bg: Some(Color::DarkGray), bold: true, ..style::no_style() }
            } else {
                style::no_style()
            },
        }
    }

    /// Number of the first line shown, from one.
    pub open spec fn top_line(self) -> usize {
        style::least(self.scroll + 1, usize::MAX as int) as usize
    }

    /// How many lines an area of the given height shows.
    pub open spec fn shown_count(self, height: u16) -> nat {
        style::least(height as int, style::at_least_zero(self.lines.len() - self.scroll)) as nat
    }

    pub open spec fn title(self) -> Seq<char> {
        " "@ + self.path + "  full file · "@ + self.source + " · "@ + num::decimal(
            self.lines.len(),
        ) + " lines "@
    }
}

/// What the pager shows.
pub struct PagerScreen {
    pub title: String,
    pub lines: Vec<StyledLine>,
}

impl FileView {
    pub closed spec fn wf(&self) -> bool {
        self@.ok()
    }

    /// Opens a file at a line, with colored lines if there are any.
    pub fn with_colors(
        path: String,
        source: String,
        content: &str,
        target: Option<usize>,
        colors: Option<Vec<Vec<Span>>>,
    ) -> (r: Self)
        requires
            colors matches Some(c) ==> c@.len() == text::lines(content@).len(),
        ensures
            r.wf(),
            r@ == (PagerView {
                path: path@,
                source: source@,
                lines: text::lines(content@),
                colors: highlight::lines_view(colors),
                scroll: first_line(text::lines(content@).len(), target) as usize,
                target,
                viewport: 24,
            }),
    {
        let lines: Vec<String> = markdown::lines_of(content);
        let wanted: usize = match target {
            Some(t) => if t < 3 {
                0
            } else {
                t - 3
            },
            None => 0,
        };
        let most: usize = if lines.len() == 0 {
            0
        } else {
            lines.len() - 1
        };
        let scroll: usize = if wanted <= most {
            wanted
        } else {
            most
        };
        FileView { path, source, lines, colors, scroll, target, viewport: 24 }
    }

    /// Opens a file at a line.
    pub fn new(
        path: String,
        source: String,
        content: &str,
        target: Option<usize>,
        hl: &Highlighter,
    ) -> (r: Self)
        ensures
            r.wf(),
            r@ == (PagerView {
                path: path@,
                source: source@,
                lines: text::lines(content@),
                colors: hl@.colored_file(path@, content@),
                scroll: first_line(text::lines(content@).len(), target) as usize,
                target,
                viewport: 24,
            }),
            r@.colors matches Some(c) ==> forall|i: int|
                0 <= i < c.len() ==> highlight::colored_line(
                    #[trigger] c[i],
                    text::lines(content@)[i],
                ),
    {
        let colors: Option<Vec<Vec<Span>>> = hl.file_lines(path.as_str(), content);
        proof {
            if let Some(ref v) = colors {
                let c = highlight::lines_view(colors)->0;
                assert forall|i: int| 0 <= i < c.len() implies highlight::colored_line(
                    #[trigger] c[i],
                    text::lines(content@)[i],
                ) by {
                    assert(c[i] == deep::deep(v@[i]@));
                }
            }
        }
        FileView::with_colors(path, source, content, target, colors)
    }

    /// The path of the file.
    pub fn path(&self) -> (r: String)
        ensures
            r@ == self@.path,
    {
        text::copy(self.path.as_str())
    }

    /// 1-based line number at the top of the viewport (for $EDITOR handoff).
    pub fn top_line(&self) -> (r: usize)
        ensures
            r == self@.top_line(),
    {
        self.scroll.saturating_add(1)
    }

    fn shift(&mut self, delta: i128)
        requires
            old(self).wf(),
            old(self)@.scroll + delta <= i128::MAX,
        ensures
            final(self).wf(),
            final(self)@ == old(self)@.scrolled(delta as int),
    {
        let ghost before = self@;
        let total: usize = self.lines.len();
        let most: usize = if total == 0 {
            0
        } else {
            total - 1
        };
        let there: i128 = self.scroll as i128 + delta;
        self.scroll = if there < 0 {
            0
        } else if there > most as i128 {
            most
        } else {
            there as usize
        };
        assert(self@ =~= before.scrolled(delta as int));
    }

    pub fn scroll_by(&mut self, delta: isize)
        requires
            old(self).wf(),
        ensures
            final(self).wf(),
            final(self)@ == old(self)@.scrolled(delta as int),
    {
        self.shift(delta as i128);
    }

    pub fn page(&mut self, direction: isize)
        requires
            old(self).wf(),
        ensures
            final(self).wf(),
            final(self)@ == old(self)@.scrolled(direction * old(self)@.page_rows()),
    {
        let rows: i128 = if self.viewport == 0 {
            0
        } else {
            self.viewport as i128 - 1
        };
        let d: i128 = direction as i128;
        assert(-0x8000_0000_0000_0000_0000_0000_0000_0000 <= d * rows
            <= 0x7fff_ffff_ffff_fffe_0000_0000_0000_0002) by (nonlinear_arith)
            requires
                -0x8000_0000_0000_0000 <= d <= 0x7fff_ffff_ffff_ffff,
                0 <= rows <= 0xffff_ffff_ffff_fffe,
        ;
        self.shift(d * rows);
    }

    pub fn half_page(&mut self, direction: isize)
        requires
            old(self).wf(),
        ensures
            final(self).wf(),
            final(self)@ == old(self)@.scrolled(direction * old(self)@.half_rows()),
    {
        let rows: i128 = if self.viewport < 2 {
            1
        } else {
            self.viewport as i128 / 2
        };
        let d: i128 = direction as i128;
        assert(-0x8000_0000_0000_0000_0000_0000_0000_0000 <= d * rows
            <= 0x7fff_ffff_ffff_fffe_0000_0000_0000_0002) by (nonlinear_arith)
            requires
                -0x8000_0000_0000_0000 <= d <= 0x7fff_ffff_ffff_ffff,
                0 <= rows <= 0xffff_ffff_ffff_fffe,
        ;
        self.shift(d * rows);
    }

    pub fn scroll_to_top(&mut self)
        requires
            old(self).wf(),
        ensures
            final(self).wf(),
            final(self)@ == (PagerView { scroll: 0, ..old(self)@ }),
    {
        let ghost before = self@;
        self.scroll = 0;
        assert(self@ =~= (PagerView { scroll: 0, ..before }));
    }

    pub fn scroll_to_bottom(&mut self)
        requires
            old(self).wf(),
        ensures
            final(self).wf(),
            final(self)@ == old(self)@.at_bottom(),
    {
        let ghost before = self@;
        let total: usize = self.lines.len();
        self.scroll = if total < self.viewport {
            0
        } else {
            total - self.viewport
        };
        assert(self@ =~= before.at_bottom());
    }

    fn paint(&self, i: usize, digits: usize) -> (r: StyledLine)
        requires
            self.wf(),
            i < self@.lines.len(),
            digits == self@.number_width(),
        ensures
            r@ == self@.shown_line(i as int),
    {
        let mut line = StyledLine::new();
        let mut number: String = num::decimal_padded(i as u64 + 1, digits);
        text::put(&mut number, " ");
        line.put(number.as_str(), Style::fg(Color::DarkGray));
        match &self.colors {
            Some(c) => {
                assert(self@.colors->0[i as int] == deep::deep(c@[i as int]@));
                let mut spans: Vec<Span> = style::copy_spans(c[i].as_slice());
                line.spans.append(&mut spans);
            },
            None => {
                line.put(self.lines[i].as_str(), Style::plain());
            },
        }
        if self.target == Some(i) {
            line.style = Style {
                fg: None,
                bg: Some(Color::DarkGray),
                bold: true,
                italic: false,
                underlined: false,
            };
        }
        assert(line@ =~= self@.shown_line(i as int));
        line
    }

    /// Lays the pager out for an area of the given height.
    pub fn render(&mut self, height: u16) -> (r: PagerScreen)
        requires
            old(self).wf(),
        ensures
            final(self).wf(),
            final(self)@ == (PagerView { viewport: height as usize, ..old(self)@ }),
            r.title@ == final(self)@.title(),
            r.lines@.len() == final(self)@.shown_count(height),
            forall|k: int|
                0 <= k < r.lines@.len() ==> (#[trigger] r.lines@[k])@ == final(self)@.shown_line(
                    final(self)@.scroll + k,
                ),
    {
        let ghost before = self@;
        self.viewport = height as usize;
        assert(self@ =~= (PagerView { viewport: height as usize, ..before }));
        let mut title: String = text::copy(" ");
        text::put(&mut title, self.path.as_str());
        text::put(&mut title, "  full file · ");
        text::put(&mut title, self.source.as_str());
        text::put(&mut title, " · ");
        let total: String = num::decimal_text(self.lines.len() as u64);
        text::put(&mut title, total.as_str());
        text::put(&mut title, " lines ");
        let mut digits: usize = text::to_chars(total.as_str()).len();
        if digits < 4 {
            digits = 4;
        }
        let mut lines: Vec<StyledLine> = Vec::new();
        let mut i: usize = self.scroll;
        while i < self.lines.len() && lines.len() < height as usize
            invariant
                self.wf(),
                digits == self@.number_width(),
                self@.lines.len() == self.lines@.len(),
                i == self@.scroll + lines@.len(),
                i <= self.lines@.len(),
                lines@.len() <= height,
                forall|k: int|
                    0 <= k < lines@.len() ==> (#[trigger] lines@[k])@ == self@.shown_line(
                        self@.scroll + k,
                    ),
            decreases self.lines@.len() - i,
        {
            lines.push(self.paint(i, digits));
            i += 1;
        }
        PagerScreen { title, lines }
    }
}

} // verus!
