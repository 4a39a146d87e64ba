//! Syntax highlighting.

use crate::deep;
use crate::text;
use crate::ui::style;
use crate::ui::style::{Color, Span, SpanView, Style};
use vstd::prelude::*;

verus! {

broadcast use crate::deep::group_deep;

// ---- the highlighting engine ------------------------------------------------------------

/// The grammars that `syntect` knows.
#[verifier::external_type_specification]
#[verifier::external_body]
pub struct ExSyntaxSet(syntect::parsing::SyntaxSet);

/// One grammar.
#[verifier::external_type_specification]
#[verifier::external_body]
pub struct ExSyntaxReference(syntect::parsing::SyntaxReference);

/// A color theme.
#[verifier::external_type_specification]
#[verifier::external_body]
pub struct ExTheme(syntect::highlighting::Theme);

/// Highlighting in progress.
#[verifier::external_type_specification]
#[verifier::external_body]
pub struct ExHighlightLines<'a>(syntect::easy::HighlightLines<'a>);

/// A piece of a line in one color.
#[derive(Debug)]
pub struct Region {
    pub r: u8,
    pub g: u8,
    pub b: u8,
    pub bold: bool,
    pub italic: bool,
    pub text: String,
}

/// What a region shows.
#[verifier::ext_equal]
pub struct RegionView {
    pub r: u8,
    pub g: u8,
    pub b: u8,
    pub bold: bool,
    pub italic: bool,
    pub text: Seq<char>,
}

impl View for Region {
    type V = RegionView;

    open spec fn view(&self) -> RegionView {
        RegionView {
            r: self.r,
            g: self.g,
            b: self.b,
            bold: self.bold,
            italic: self.italic,
            text: self.text@,
        }
    }
}

/// The characters of all regions, one after the other.
pub open spec fn region_text(regions: Seq<RegionView>) -> Seq<char>
    decreases regions.len(),
{
    if regions.len() == 0 {
        Seq::empty()
    } else {
        region_text(regions.drop_last()) + regions.last().text
    }
}

/// `SyntaxSet::load_defaults_newlines`: the grammars that come with the crate.
/// Left unsaid is which grammars these are.
#[verifier::external_body]
fn load_syntaxes() -> (r: syntect::parsing::SyntaxSet) {
    syntect::parsing::SyntaxSet::load_defaults_newlines()
}

/// The theme of a name.
pub uninterp spec fn theme_named(name: Seq<char>) -> Option<syntect::highlighting::Theme>;

/// `ThemeSet::load_defaults`: the theme of that name among those that come with
/// the crate, if there is one. It depends on the name alone, and
/// `base16-ocean.dark` is documented to be one of them.
#[verifier::external_body]
fn load_theme(name: &str) -> (r: Option<syntect::highlighting::Theme>)
    ensures
        r == theme_named(name@),
        name@ == "base16-ocean.dark"@ ==> r is Some,
{
    syntect::highlighting::ThemeSet::load_defaults().themes.remove(name)
}

/// The grammar for a file extension.
pub uninterp spec fn grammar_for(
    syntaxes: syntect::parsing::SyntaxSet,
    extension: Seq<char>,
) -> Option<syntect::parsing::SyntaxReference>;

/// `SyntaxSet::find_syntax_by_extension`: the grammar for a file extension, if
/// there is one. It depends on the set and the extension alone. Left unsaid is
/// which extensions have one.
#[verifier::external_body]
fn find_syntax<'a>(
    syntaxes: &'a syntect::parsing::SyntaxSet,
    extension: &str,
) -> (r: Option<&'a syntect::parsing::SyntaxReference>)
    ensures
        match r {
            Some(g) => grammar_for(*syntaxes, extension@) == Some(*g),
            None => grammar_for(*syntaxes, extension@) is None,
        },
{
    syntaxes.find_syntax_by_extension(extension)
}

/// Highlighting at the start of a text.
pub uninterp spec fn started(
    syntax: syntect::parsing::SyntaxReference,
    theme: syntect::highlighting::Theme,
) -> syntect::easy::HighlightLines<'static>;

/// `HighlightLines::new`: highlighting at the start of a text. It depends on
/// the grammar and the theme alone.
#[verifier::external_body]
fn start_highlighting<'a>(
    syntax: &syntect::parsing::SyntaxReference,
    theme: &'a syntect::highlighting::Theme,
) -> (r: syntect::easy::HighlightLines<'a>)
    ensures
        r == started(*syntax, *theme),
{
    syntect::easy::HighlightLines::new(syntax, theme)
}

/// The regions of the next line, `None` where the grammar fails on it, and the
/// highlighting after it.
pub uninterp spec fn advanced(
    lines: syntect::easy::HighlightLines<'static>,
    line: Seq<char>,
    syntaxes: syntect::parsing::SyntaxSet,
) -> (Option<Seq<RegionView>>, syntect::easy::HighlightLines<'static>);

/// Highlighting with the grammar of an extension, after the given lines.
pub open spec fn state_after(
    syntaxes: syntect::parsing::SyntaxSet,
    extension: Seq<char>,
    theme: syntect::highlighting::Theme,
    lines: Seq<Seq<char>>,
) -> syntect::easy::HighlightLines<'static>
    decreases lines.len(),
{
    if lines.len() == 0 {
        started(grammar_for(syntaxes, extension)->0, theme)
    } else {
        advanced(
            state_after(syntaxes, extension, theme, lines.drop_last()),
            lines.last(),
            syntaxes,
        ).1
    }
}

/// The highlighting was started with a grammar of this set.
pub open spec fn runs_on(
    lines: syntect::easy::HighlightLines<'static>,
    syntaxes: syntect::parsing::SyntaxSet,
) -> bool {
    exists|extension: Seq<char>, theme: syntect::highlighting::Theme, fed: Seq<Seq<char>>|
        grammar_for(syntaxes, extension) is Some && lines == #[trigger] state_after(
            syntaxes,
            extension,
            theme,
            fed,
        )
}

/// `HighlightLines::highlight_line`: the regions of the next line make up the
/// line, and what comes of it depends on the highlighting so far, the line and
/// the set alone. The set has to be the one that the grammar was found in.
/// Left unsaid are the number and colors of the regions, which the grammar and
/// the theme decide, and when a grammar fails on a line.
#[verifier::external_body]
fn highlight_next(
    lines: &mut syntect::easy::HighlightLines<'_>,
    line: &str,
    syntaxes: &syntect::parsing::SyntaxSet,
) -> (r: Option<Vec<Region>>)
    requires
        runs_on(*old(lines), *syntaxes),
    ensures
        (regions_view(r), *final(lines)) == advanced(*old(lines), line@, *syntaxes),
        r matches Some(v) ==> region_text(deep::deep(v@)) == line@,
{
    let found = lines.highlight_line(line, syntaxes).ok()?;
    let convert = |(s, t): (syntect::highlighting::Style, &str)| Region {
        r: s.foreground.r,
        g: s.foreground.g,
        b: s.foreground.b,
        bold: s.font_style.contains(syntect::highlighting::FontStyle::BOLD),
        italic: s.font_style.contains(syntect::highlighting::FontStyle::ITALIC),
        text: t.to_string(),
    };
    Some(found.into_iter().map(convert).collect())
}

/// What regions show.
pub open spec fn regions_view(regions: Option<Vec<Region>>) -> Option<Seq<RegionView>> {
    match regions {
        Some(v) => Some(deep::deep(v@)),
        None => None,
    }
}

// ---- regions as spans -------------------------------------------------------------------

/// A text without the line feeds at its end.
pub open spec fn trim_feeds(s: Seq<char>) -> Seq<char>
    decreases s.len(),
{
    if s.len() > 0 && s.last() == '\n' {
        trim_feeds(s.drop_last())
    } else {
        s
    }
}

/// A region as a span.
pub open spec fn region_span(r: RegionView) -> SpanView {
    style::span(
        trim_feeds(r.text),
        Style {
            bold: r.bold,
            italic: r.italic,
            ..style::colored(Color::Rgb(r.r, r.g, r.b))
        },
    )
}

/// Regions as spans.
pub open spec fn region_spans(regions: Seq<RegionView>) -> Seq<SpanView> {
    regions.map_values(|r: RegionView| region_span(r))
}

fn without_feeds(s: &str) -> (r: String)
    ensures
        r@ == trim_feeds(s@),
{
    let cs: Vec<char> = text::to_chars(s);
    let mut hi: usize = cs.len();
    assert(cs@.take(hi as int) =~= cs@);
    while hi > 0 && cs[hi - 1] == '\n'
        invariant
            hi <= cs@.len(),
            trim_feeds(cs@.take(hi as int)) == trim_feeds(cs@),
        decreases hi,
    {
        assert(cs@.take(hi as int).drop_last() =~= cs@.take(hi - 1));
        hi -= 1;
    }
    text::text_range(cs.as_slice(), 0, hi)
}

/// Regions as spans, without the line feed that ends the line.
pub fn regions_to_spans(regions: &[Region]) -> (r: Vec<Span>)
    ensures
        deep::deep(r@) == region_spans(deep::deep(regions@)),
{
    let ghost all = deep::deep(regions@);
    let mut out: Vec<Span> = Vec::new();
    let mut i: usize = 0;
    while i < regions.len()
        invariant
            i <= regions@.len(),
            all == deep::deep(regions@),
            deep::deep(out@) =~= region_spans(all).take(i as int),
        decreases regions@.len() - i,
    {
        let g: &Region = &regions[i];
        assert(all[i as int] == g@);
        let s = Span {
            text: without_feeds(g.text.as_str()),
            style: Style {
                fg: Some(Color::Rgb(g.r, g.g, g.b)),
                bg: None,
                bold: g.bold,
                italic: g.italic,
                underlined: false,
            },
        };
        assert(s@ =~= region_spans(all)[i as int]);
        out.push(s);
        i += 1;
    }
    assert(region_spans(all).take(i as int) =~= region_spans(all));
    out
}

proof fn lemma_trim_feeds_none(s: Seq<char>)
    requires
        forall|i: int| 0 <= i < s.len() ==> s[i] != '\n',
    ensures
        trim_feeds(s) == s,
{
}

proof fn lemma_trim_feeds_end(s: Seq<char>, n: int)
    requires
        0 <= n <= s.len(),
        forall|i: int| 0 <= i < n ==> s[i] != '\n',
        forall|i: int| n <= i < s.len() ==> s[i] == '\n',
    ensures
        trim_feeds(s) == s.take(n),
    decreases s.len(),
{
    if n < s.len() {
        lemma_trim_feeds_end(s.drop_last(), n);
        assert(s.drop_last().take(n) =~= s.take(n));
    } else {
        lemma_trim_feeds_none(s);
        assert(s.take(n) =~= s);
    }
}

proof fn lemma_spans_text(regions: Seq<RegionView>, content: Seq<char>, feeds: int)
    requires
        forall|i: int| 0 <= i < content.len() ==> content[i] != '\n',
        0 <= feeds,
        region_text(regions) == content + text::repeat('\n', feeds as nat),
    ensures
        style::plain_text(region_spans(regions)) == content,
    decreases regions.len(),
{
    let whole = region_text(regions);
    assert forall|i: int| content.len() <= i < whole.len() implies #[trigger] whole[i] == '\n' by {
        assert((content + text::repeat('\n', feeds as nat))[i] == '\n');
    }
    assert forall|i: int| 0 <= i < content.len() implies #[trigger] whole[i] == content[i] by {
        assert((content + text::repeat('\n', feeds as nat))[i] == content[i]);
    }
    if regions.len() == 0 {
        assert(content =~= Seq::empty());
        assert(region_spans(regions) =~= Seq::empty());
    } else {
        let t = regions.last().text;
        let front = regions.drop_last();
        let ft = region_text(front);
        assert(whole == ft + t);
        assert(whole.len() == (content + text::repeat('\n', feeds as nat)).len());
        assert(whole.len() == content.len() + feeds);
        let spans = region_spans(regions);
        assert(spans.drop_last() =~= region_spans(front));
        assert(spans.last() == region_span(regions.last()));
        if ft.len() >= content.len() {
            let k = ft.len() - content.len();
            assert forall|i: int| 0 <= i < t.len() implies t[i] == '\n' by {
                assert(t[i] == whole[ft.len() + i]);
            }
            assert(ft =~= content + text::repeat('\n', k as nat)) by {
                assert forall|i: int| 0 <= i < ft.len() implies ft[i] == (content + text::repeat(
                    '\n',
                    k as nat,
                ))[i] by {
                    assert(ft[i] == whole[i]);
                }
            }
            lemma_spans_text(front, content, k);
            lemma_trim_feeds_end(t, 0);
            assert(t.take(0) =~= Seq::empty());
            assert(style::plain_text(spans) =~= content);
        } else {
            let c0 = content.take(ft.len() as int);
            let n = content.len() - ft.len();
            assert(ft =~= c0 + text::repeat('\n', 0)) by {
                assert forall|i: int| 0 <= i < ft.len() implies ft[i] == c0[i] by {
                    assert(ft[i] == whole[i]);
                }
            }
            lemma_spans_text(front, c0, 0);
            assert forall|i: int| 0 <= i < t.len() implies (i < n ==> t[i] != '\n') && (i >= n
                ==> t[i] == '\n') by {
                assert(t[i] == whole[ft.len() + i]);
            }
            lemma_trim_feeds_end(t, n);
            assert(style::plain_text(spans) =~= content) by {
                assert forall|i: int| 0 <= i < n implies t[i] == content[ft.len() + i] by {
                    assert(t[i] == whole[ft.len() + i]);
                }
                assert(c0 + t.take(n) =~= content);
            }
        }
    }
}

/// Coloring a line changes nothing of its text: the spans of a line's regions
/// make up the line.
pub proof fn lemma_coloring_keeps_text(regions: Seq<RegionView>, content: Seq<char>)
    requires
        forall|i: int| 0 <= i < content.len() ==> content[i] != '\n',
        region_text(regions) == content.push('\n'),
    ensures
        style::plain_text(region_spans(regions)) == content,
{
    assert(content.push('\n') =~= content + text::repeat('\n', 1));
    lemma_spans_text(regions, content, 1);
}

// ---- file names -------------------------------------------------------------------------

/// The last component of a path that is not empty and not a single dot.
pub open spec fn last_component(parts: Seq<Seq<char>>) -> Option<Seq<char>>
    decreases parts.len(),
{
    if parts.len() == 0 {
        None
    } else if parts.last().len() == 0 || parts.last() == seq!['.'] {
        last_component(parts.drop_last())
    } else {
        Some(parts.last())
    }
}

/// Position of the last dot before `n`.
pub open spec fn last_dot(s: Seq<char>, n: int) -> Option<int>
    decreases n,
{
    if n <= 0 {
        None
    } else if s[n - 1] == '.' {
        Some(n - 1)
    } else {
        last_dot(s, n - 1)
    }
}

/// The extension of the file that a path names: what follows the last dot of
/// its name, unless that dot starts the name.
pub open spec fn extension(path: Seq<char>) -> Option<Seq<char>> {
    match last_component(text::split(path, '/')) {
        None => None,
        Some(name) => if name == seq!['.', '.'] {
            None
        } else {
            match last_dot(name, name.len() as int) {
                None => None,
                Some(k) => if k == 0 {
                    None
                } else {
                    Some(name.skip(k + 1))
                },
            }
        },
    }
}

fn extension_of(path: &str) -> (r: Option<String>)
    ensures
        deep::deep_opt(r) == extension(path@),
{
    let cs: Vec<char> = text::to_chars(path);
    let parts: Vec<Vec<char>> = text::split_chars(cs.as_slice(), '/');
    let ghost all = deep::deep(parts@);
    let mut n: usize = parts.len();
    assert(all.take(n as int) =~= all);
    while n > 0 && (parts[n - 1].len() == 0 || (parts[n - 1].len() == 1 && parts[n - 1][0] == '.'))
        invariant
            n <= parts@.len(),
            all == deep::deep(parts@),
            last_component(all.take(n as int)) == last_component(all),
        decreases n,
    {
        let ghost p = all[n - 1];
        assert(p == parts@[n - 1]@);
        assert(p.len() == 1 ==> p =~= seq!['.']);
        assert(all.take(n as int).drop_last() =~= all.take(n - 1));
        assert(all.take(n as int).last() == p);
        n -= 1;
    }
    if n == 0 {
        return None;
    }
    let name: &Vec<char> = &parts[n - 1];
    proof {
        assert(all[n - 1] == name@);
        assert(all.take(n as int).last() == name@);
        if name@ == seq!['.'] {
            assert(name@.len() == 1 && name@[0] == '.');
        }
    }
    if name.len() == 2 && name[0] == '.' && name[1] == '.' {
        assert(name@ =~= seq!['.', '.']);
        return None;
    }
    proof {
        if name@ == seq!['.', '.'] {
            assert(name@.len() == 2 && name@[0] == '.' && name@[1] == '.');
        }
    }
    let mut k: usize = name.len();
    while k > 0 && name[k - 1] != '.'
        invariant
            k <= name@.len(),
            last_dot(name@, k as int) == last_dot(name@, name@.len() as int),
        decreases k,
    {
        k -= 1;
    }
    if k <= 1 {
        None
    } else {
        let ext: String = text::text_range(name.as_slice(), k, name.len());
        assert(ext@ =~= name@.skip(k as int));
        Some(ext)
    }
}

// ---- the highlighter --------------------------------------------------------------------

/// Files above this many bytes skip highlighting (pager path).
pub const MAX_HIGHLIGHT_BYTES: usize = 512 * 1024;

/// Does the terminal advertise true color?
pub open spec fn is_truecolor(colorterm: Seq<char>) -> bool {
    text::find_from(colorterm, "truecolor"@, 0) is Some || text::find_from(
        colorterm,
        "24bit"@,
        0,
    ) is Some
}

/// Does the value of `COLORTERM` advertise true color?
pub fn truecolor(colorterm: &str) -> (r: bool)
    ensures
        r == is_truecolor(colorterm@),
{
    let cs: Vec<char> = text::to_chars(colorterm);
    let a: Vec<char> = text::to_chars("truecolor");
    let b: Vec<char> = text::to_chars("24bit");
    text::find(cs.as_slice(), a.as_slice(), 0).is_some() || text::find(
        cs.as_slice(),
        b.as_slice(),
        0,
    ).is_some()
}

/// Shared highlighting state. Highlighting needs a truecolor terminal; without
/// one `enabled` is false and callers fall back to the plain diff colors.
pub struct Highlighter {
    syntaxes: syntect::parsing::SyntaxSet,
    theme: syntect::highlighting::Theme,
    enabled: bool,
}

/// What a highlighter holds.
pub struct HighlighterView {
    pub syntaxes: syntect::parsing::SyntaxSet,
    pub theme: syntect::highlighting::Theme,
    pub enabled: bool,
}

impl View for Highlighter {
    type V = HighlighterView;

    closed spec fn view(&self) -> HighlighterView {
        HighlighterView { syntaxes: self.syntaxes, theme: self.theme, enabled: self.enabled }
    }
}

impl HighlighterView {
    /// Is there a grammar to highlight the file with?
    pub open spec fn knows(self, path: Seq<char>) -> bool {
        self.enabled && extension(path) is Some && grammar_for(
            self.syntaxes,
            extension(path)->0,
        ) is Some
    }

    /// The regions of a line of a file, after the given lines of it. Each line
    /// is highlighted with the line feed that ends it.
    pub open spec fn regions(
        self,
        path: Seq<char>,
        before: Seq<Seq<char>>,
        line: Seq<char>,
    ) -> Option<Seq<RegionView>> {
        advanced(
            state_after(self.syntaxes, extension(path)->0, self.theme, fed(before)),
            line.push('\n'),
            self.syntaxes,
        ).0
    }

    /// A line of a file in colors, after the given lines of it.
    pub open spec fn colored(
        self,
        path: Seq<char>,
        before: Seq<Seq<char>>,
        line: Seq<char>,
    ) -> Option<Seq<SpanView>> {
        match self.regions(path, before, line) {
            Some(regions) if self.knows(path) => Some(region_spans(regions)),
            _ => None,
        }
    }

    /// The lines of a file in colors; `None` if one of them has none, or if the
    /// file is too large.
    pub open spec fn colored_file(self, path: Seq<char>, content: Seq<char>) -> Option<
        Seq<Seq<SpanView>>,
    > {
        let lines = text::lines(content);
        if !self.knows(path) || vstd::utf8::encode_utf8(content).len() > MAX_HIGHLIGHT_BYTES {
            None
        } else if forall|i: int|
            0 <= i < lines.len() ==> self.regions(
                path,
                lines.take(i),
                #[trigger] lines[i],
            ) is Some {
            Some(
                Seq::new(
                    lines.len(),
                    |i: int| self.colored(path, lines.take(i), lines[i])->0,
                ),
            )
        } else {
            None
        }
    }
}

/// Lines with the line feeds that end them.
pub open spec fn fed(lines: Seq<Seq<char>>) -> Seq<Seq<char>> {
    lines.map_values(|l: Seq<char>| l.push('\n'))
}

/// What spans show.
pub open spec fn spans_view(spans: Option<Vec<Span>>) -> Option<Seq<SpanView>> {
    match spans {
        Some(v) => Some(deep::deep(v@)),
        None => None,
    }
}

/// What the spans of several lines show.
pub open spec fn lines_view(lines: Option<Vec<Vec<Span>>>) -> Option<Seq<Seq<SpanView>>> {
    match lines {
        Some(v) => Some(v@.map_values(|l: Vec<Span>| deep::deep(l@))),
        None => None,
    }
}

impl Highlighter {
    /// A highlighter for a terminal with this `COLORTERM`, if it has one.
    pub fn new(colorterm: Option<&str>) -> (r: Self)
        ensures
            r@.enabled == (colorterm matches Some(v) && is_truecolor(v@)),
            theme_named("base16-ocean.dark"@) == Some(r@.theme),
    {
        let enabled: bool = match colorterm {
            Some(v) => truecolor(v),
            None => false,
        };
        Highlighter {
            syntaxes: load_syntaxes(),
            theme: load_theme("base16-ocean.dark").unwrap(),
            enabled,
        }
    }

    fn syntax_for(&self, path: &str) -> (r: Option<&syntect::parsing::SyntaxReference>)
        ensures
            match r {
                Some(g) => self@.knows(path@) && grammar_for(
                    self@.syntaxes,
                    extension(path@)->0,
                ) == Some(*g),
                None => !self@.knows(path@),
            },
    {
        if !self.enabled {
            return None;
        }
        match extension_of(path) {
            None => None,
            Some(ext) => find_syntax(&self.syntaxes, ext.as_str()),
        }
    }

    /// Independent per-line highlighting for diff lines. Approximate —
    /// multi-line constructs lose state — but cheap and stable. Without a
    /// grammar for the file there is none; the colors are the grammar's.
    pub fn line_spans(&self, path: &str, content: &str) -> (r: Option<Vec<Span>>)
        ensures
            spans_view(r) == self@.colored(path@, Seq::empty(), content@),
            r matches Some(v) ==> colored_line(deep::deep(v@), content@),
    {
        match self.syntax_for(path) {
            None => None,
            Some(syntax) => {
                let mut lines = start_highlighting(syntax, &self.theme);
                let mut line: String = text::copy(content);
                line.push('\n');
                proof {
                    let none = Seq::<Seq<char>>::empty();
                    assert(fed(none) =~= none);
                    assert(lines == state_after(
                        self@.syntaxes,
                        extension(path@)->0,
                        self@.theme,
                        none,
                    ));
                }
                match highlight_next(&mut lines, line.as_str(), &self.syntaxes) {
                    None => None,
                    Some(regions) => {
                        let spans: Vec<Span> = regions_to_spans(regions.as_slice());
                        assert(deep::deep(spans@) == region_spans(deep::deep(regions@)));
                        Some(spans)
                    },
                }
            },
        }
    }

    /// Stateful whole-file highlighting for the full-file pager.
    pub fn file_lines(&self, path: &str, content: &str) -> (r: Option<Vec<Vec<Span>>>)
        ensures
            lines_view(r) == self@.colored_file(path@, content@),
            r matches Some(v) ==> v@.len() == text::lines(content@).len() && forall|i: int|
                0 <= i < v@.len() ==> colored_line(
                    deep::deep((#[trigger] v@[i])@),
                    text::lines(content@)[i],
                ),
    {
        if content.as_bytes().len() > MAX_HIGHLIGHT_BYTES {
            return None;
        }
        match self.syntax_for(path) {
            None => None,
            Some(syntax) => {
                let mut state = start_highlighting(syntax, &self.theme);
                let cs: Vec<char> = text::to_chars(content);
                let lines: Vec<Vec<char>> = text::line_chars(cs.as_slice());
                let ghost all = deep::deep(lines@);
                let ghost ext = extension(path@)->0;
                let mut out: Vec<Vec<Span>> = Vec::new();
                let mut i: usize = 0;
                assert(fed(all.take(0)) =~= Seq::empty());
                while i < lines.len()
                    invariant
                        i <= lines@.len(),
                        all == deep::deep(lines@),
                        all == text::lines(content@),
                        ext == extension(path@)->0,
                        self@.knows(path@),
                        state == state_after(
                            self@.syntaxes,
                            ext,
                            self@.theme,
                            fed(all.take(i as int)),
                        ),
                        out@.len() == i,
                        forall|j: int|
                            0 <= j < i ==> colored_line(
                                deep::deep((#[trigger] out@[j])@),
                                all[j],
                            ) && Some(deep::deep(out@[j]@)) == self@.colored(
                                path@,
                                all.take(j),
                                all[j],
                            ),
                        forall|j: int|
                            0 <= j < i ==> self@.regions(
                                path@,
                                all.take(j),
                                #[trigger] all[j],
                            ) is Some,
                    decreases lines@.len() - i,
                {
                    let mut line: String = text::to_text(lines[i].as_slice());
                    line.push('\n');
                    assert(all[i as int] == lines@[i as int]@);
                    let ghost before = fed(all.take(i as int));
                    proof {
                        let more = fed(all.take(i + 1));
                        assert(more.drop_last() =~= before);
                        assert(more.last() == line@);
                    }
                    match highlight_next(&mut state, line.as_str(), &self.syntaxes) {
                        None => {
                            assert(self@.regions(path@, all.take(i as int), all[i as int]) is None);
                            return None;
                        },
                        Some(regions) => {
                            let spans: Vec<Span> = regions_to_spans(regions.as_slice());
                            assert(colored_line(deep::deep(spans@), all[i as int])) by {
                                assert(deep::deep(spans@) == region_spans(
                                    deep::deep(regions@),
                                ));
                            }
                            out.push(spans);
                        },
                    }
                    i += 1;
                }
                let r: Option<Vec<Vec<Span>>> = Some(out);
                proof {
                    let shown = lines_view(r)->0;
                    let want = self@.colored_file(path@, content@);
                    assert(want is Some);
                    assert(shown =~= want->0);
                }
                r
            },
        }
    }
}

/// The spans are the regions of a line.
pub open spec fn colored_line(spans: Seq<SpanView>, line: Seq<char>) -> bool {
    exists|regions: Seq<RegionView>|
        #![trigger region_spans(regions)]
        region_text(regions) == line.push('\n') && spans == region_spans(regions)
}

} // verus!
