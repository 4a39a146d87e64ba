//! Styled text and screen areas, independent of the terminal that shows them.

use crate::deep;
use crate::text;
use vstd::prelude::*;

verus! {

broadcast use crate::deep::group_deep;

#[derive(Clone, Copy, Debug, PartialEq, Eq, Structural)]
pub enum Color {
    Black,
    Red,
    Green,
    Yellow,
    Cyan,
    DarkGray,
    Rgb(u8, u8, u8),
}

#[derive(Clone, Copy, Debug, PartialEq, Eq, Structural)]
pub struct Style {
    pub fg: Option<Color>,
    pub bg: Option<Color>,
    pub bold: bool,
    pub italic: bool,
    pub underlined: bool,
}

/// The default style.
pub open spec fn no_style() -> Style {
    Style { fg: None, bg: None, bold: false, italic: false, underlined: false }
}

/// A foreground color.
pub open spec fn colored(c: Color) -> Style {
    Style { fg: Some(c), ..no_style() }
}

/// A bold foreground color.
pub open spec fn bold_colored(c: Color) -> Style {
    Style { fg: Some(c), bold: true, ..no_style() }
}

/// Bold text.
pub open spec fn only_bold() -> Style {
    Style { bold: true, ..no_style() }
}

impl Style {
    /// The default style.
    pub fn plain() -> (r: Style)
        ensures
            r == no_style(),
    {
        Style { fg: None, bg: None, bold: false, italic: false, underlined: false }
    }

    /// A foreground color.
    pub fn fg(c: Color) -> (r: Style)
        ensures
            r == colored(c),
    {
        Style { fg: Some(c), bg: None, bold: false, italic: false, underlined: false }
    }

    /// A bold foreground color.
    pub fn bold_fg(c: Color) -> (r: Style)
        ensures
            r == bold_colored(c),
    {
        Style { fg: Some(c), bg: None, bold: true, italic: false, underlined: false }
    }

    /// Bold text.
    pub fn strong() -> (r: Style)
        ensures
            r == only_bold(),
    {
        Style { fg: None, bg: None, bold: true, italic: false, underlined: false }
    }
}

/// A piece of text in one style.
#[derive(Debug)]
pub struct Span {
    pub text: String,
    pub style: Style,
}

/// What a span shows.
#[verifier::ext_equal]
pub struct SpanView {
    pub text: Seq<char>,
    pub style: Style,
}

impl View for Span {
    type V = SpanView;

    open spec fn view(&self) -> SpanView {
        SpanView { text: self.text@, style: self.style }
    }
}

/// A span of the given text and style.
pub open spec fn span(text: Seq<char>, style: Style) -> SpanView {
    SpanView { text, style }
}

impl Span {
    /// A copy of the span.
    pub fn copy(&self) -> (r: Span)
        ensures
            r@ == self@,
    {
        Span { text: text::copy(self.text.as_str()), style: self.style }
    }
}

/// A copy of a list of spans.
pub fn copy_spans(spans: &[Span]) -> (r: Vec<Span>)
    ensures
        deep::deep(r@) == deep::deep(spans@),
{
    let mut out: Vec<Span> = Vec::new();
    let mut i: usize = 0;
    while i < spans.len()
        invariant
            i <= spans@.len(),
            deep::deep(out@) =~= deep::deep(spans@).take(i as int),
        decreases spans@.len() - i,
    {
        out.push(spans[i].copy());
        i += 1;
    }
    assert(deep::deep(spans@).take(i as int) =~= deep::deep(spans@));
    out
}

/// One line of styled text. The line's own style lies under those of its spans.
#[derive(Debug)]
pub struct StyledLine {
    pub spans: Vec<Span>,
    pub style: Style,
}

/// What a line shows.
#[verifier::ext_equal]
pub struct LineView {
    pub spans: Seq<SpanView>,
    pub style: Style,
}

impl View for StyledLine {
    type V = LineView;

    open spec fn view(&self) -> LineView {
        LineView { spans: deep::deep(self.spans@), style: self.style }
    }
}

/// A line of the given spans in the default style.
pub open spec fn line(spans: Seq<SpanView>) -> LineView {
    LineView { spans, style: no_style() }
}

/// The line of a single span.
pub open spec fn line_of(text: Seq<char>, style: Style) -> LineView {
    line(seq![span(text, style)])
}

/// The characters of all spans, one after the other.
pub open spec fn plain_text(spans: Seq<SpanView>) -> Seq<char>
    decreases spans.len(),
{
    if spans.len() == 0 {
        Seq::empty()
    } else {
        plain_text(spans.drop_last()) + spans.last().text
    }
}

impl StyledLine {
    /// The empty line.
    pub fn new() -> (r: StyledLine)
        ensures
            r@ == line(Seq::empty()),
    {
        let r = StyledLine { spans: Vec::new(), style: Style::plain() };
        assert(r@ =~= line(Seq::empty()));
        r
    }

    /// Appends a span.
    pub fn put(&mut self, s: &str, style: Style)
        ensures
            final(self)@ == (LineView { spans: old(self)@.spans.push(span(s@, style)), ..old(self)@ }),
    {
        let ghost before = self@;
        self.spans.push(Span { text: text::copy(s), style });
        assert(self@ =~= (LineView { spans: before.spans.push(span(s@, style)), ..before }));
    }

    /// The line of a single span.
    pub fn of(s: &str, style: Style) -> (r: StyledLine)
        ensures
            r@ == line_of(s@, style),
    {
        let mut r = StyledLine::new();
        r.put(s, style);
        assert(r@ =~= line_of(s@, style));
        r
    }
}

/// A position on the screen.
#[derive(Clone, Copy, Debug, PartialEq, Eq, Structural)]
pub struct Position {
    pub x: u16,
    pub y: u16,
}

/// An area of the screen.
#[derive(Clone, Copy, Debug, PartialEq, Eq, Structural)]
pub struct Rect {
    pub x: u16,
    pub y: u16,
    pub width: u16,
    pub height: u16,
}

/// `n`, or the largest coordinate if it is larger.
pub open spec fn at_most_u16(n: int) -> u16 {
    if n > u16::MAX {
        u16::MAX
    } else {
        n as u16
    }
}

/// `n`, or zero if it is negative.
pub open spec fn at_least_zero(n: int) -> int {
    if n < 0 {
        0
    } else {
        n
    }
}

/// The smaller of two numbers.
pub open spec fn least(a: int, b: int) -> int {
    if a <= b {
        a
    } else {
        b
    }
}

/// The larger of two numbers.
pub open spec fn most(a: int, b: int) -> int {
    if a >= b {
        a
    } else {
        b
    }
}

/// The empty area.
pub open spec fn no_area() -> Rect {
    Rect { x: 0, y: 0, width: 0, height: 0 }
}

impl Rect {
    /// The empty area.
    pub fn empty() -> (r: Rect)
        ensures
            r == no_area(),
    {
        Rect { x: 0, y: 0, width: 0, height: 0 }
    }

    /// The column right of the area.
    pub open spec fn right_edge(self) -> u16 {
        at_most_u16(self.x + self.width)
    }

    /// The row below the area.
    pub open spec fn bottom_edge(self) -> u16 {
        at_most_u16(self.y + self.height)
    }

    /// Is the position inside the area?
    pub open spec fn holds(self, column: u16, row: u16) -> bool {
        self.x <= column && column < self.right_edge() && self.y <= row && row < self.bottom_edge()
    }

    pub fn right(&self) -> (r: u16)
        ensures
            r == self.right_edge(),
    {
        self.x.saturating_add(self.width)
    }

    pub fn bottom(&self) -> (r: u16)
        ensures
            r == self.bottom_edge(),
    {
        self.y.saturating_add(self.height)
    }

    pub fn contains(&self, column: u16, row: u16) -> (r: bool)
        ensures
            r == self.holds(column, row),
    {
        self.x <= column && column < self.right() && self.y <= row && row < self.bottom()
    }
}

} // verus!
