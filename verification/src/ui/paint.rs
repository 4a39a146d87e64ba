//! Painting rows of the diff stream as styled lines.

use crate::case;
use crate::comments::{Comment, CommentView};
use crate::deep;
use crate::git::diff::{DiffLine, DiffLineView, FileDiff, FileDiffView, FileStatus};
use crate::num;
use crate::text;
use crate::ui::highlight;
use crate::ui::review;
use crate::ui::rows;
use crate::ui::rows::Row;
use crate::ui::style;
use crate::ui::style::{Color, LineView, Span, SpanView, Style, StyledLine};
use vstd::prelude::*;

verus! {

broadcast use crate::deep::group_deep;

// ---- byte positions -------------------------------------------------------------------

/// Bytes that a character takes in UTF-8.
pub open spec fn utf8_len(c: char) -> int {
    let n = c as u32;
    if n < 0x80 {
        1
    } else if n < 0x800 {
        2
    } else if n < 0x1_0000 {
        3
    } else {
        4
    }
}

/// Bytes that the first `n` characters take.
pub open spec fn bytes_upto(s: Seq<char>, n: int) -> int
    decreases n,
{
    if n <= 0 {
        0
    } else {
        bytes_upto(s, n - 1) + utf8_len(s[n - 1])
    }
}

/// The character that starts at a byte, from character `i` on.
pub open spec fn char_at_byte(s: Seq<char>, byte: int, i: int) -> Option<int>
    decreases s.len() + 1 - i,
{
    if i < 0 || i > s.len() || bytes_upto(s, i) > byte {
        None
    } else if bytes_upto(s, i) == byte {
        Some(i)
    } else {
        char_at_byte(s, byte, i + 1)
    }
}

fn len_utf8(c: char) -> (r: u128)
    ensures
        r == utf8_len(c),
{
    let n: u32 = c as u32;
    if n < 0x80 {
        1
    } else if n < 0x800 {
        2
    } else if n < 0x1_0000 {
        3
    } else {
        4
    }
}

fn count_bytes(s: &[char], n: usize) -> (r: u128)
    requires
        n <= s@.len(),
    ensures
        r == bytes_upto(s@, n as int),
        r <= 4 * n,
{
    let mut total: u128 = 0;
    let mut i: usize = 0;
    while i < n
        invariant
            i <= n <= s@.len(),
            total == bytes_upto(s@, i as int),
            total <= 4 * i,
        decreases n - i,
    {
        total = total + len_utf8(s[i]);
        i += 1;
    }
    total
}

fn find_byte(s: &[char], byte: u128) -> (r: Option<usize>)
    ensures
        match r {
            Some(k) => char_at_byte(s@, byte as int, 0) == Some(k as int) && k <= s@.len(),
            None => char_at_byte(s@, byte as int, 0) is None,
        },
{
    let total: usize = s.len();
    let mut at: u128 = 0;
    let mut i: usize = 0;
    loop
        invariant
            i <= total,
            total == s@.len(),
            at == bytes_upto(s@, i as int),
            at <= 4 * i,
            char_at_byte(s@, byte as int, i as int) == char_at_byte(s@, byte as int, 0),
        decreases total - i,
    {
        if at > byte {
            return None;
        }
        if at == byte {
            return Some(i);
        }
        if i == total {
            assert(char_at_byte(s@, byte as int, i + 1) is None);
            return None;
        }
        at = at + len_utf8(s[i]);
        i += 1;
    }
}

// ---- search hits ----------------------------------------------------------------------

/// The style of a search hit.
pub open spec fn hit_style() -> Style {
    Style { fg: Some(Color::Black), bg: Some(Color::Yellow), ..style::no_style() }
}

/// A piece of the content in the base style, unless it is empty.
pub open spec fn base_piece(content: Seq<char>, lo: int, hi: int, base: Style) -> Seq<SpanView> {
    if lo < hi {
        seq![style::span(content.subrange(lo, hi), base)]
    } else {
        Seq::empty()
    }
}

/// The content from `cpos` on, the hits that `hay` has from `hpos` on marked.
/// `hay` is the content or its lower-case form; a hit lies in the content
/// where it lies in `hay`, byte for byte. `None` if a hit there would cut a
/// character in two.
pub open spec fn painted(
    content: Seq<char>,
    hay: Seq<char>,
    needle: Seq<char>,
    hpos: int,
    cpos: int,
    base: Style,
) -> Option<Seq<SpanView>>
    decreases hay.len() - hpos,
{
    match text::find_from(hay, needle, hpos) {
        None => Some(base_piece(content, cpos, content.len() as int, base)),
        Some(k) => if needle.len() == 0 || k < hpos || k + needle.len() > hay.len() || hpos < 0 {
            None
        } else {
            let e = k + needle.len();
            match (
                char_at_byte(content, bytes_upto(hay, k), 0),
                char_at_byte(content, bytes_upto(hay, e), 0),
            ) {
                (Some(a), Some(b)) => if cpos <= a <= b {
                    match painted(content, hay, needle, e, b, base) {
                        Some(rest) => Some(
                            base_piece(content, cpos, a, base).push(
                                style::span(content.subrange(a, b), hit_style()),
                            ) + rest,
                        ),
                        None => None,
                    }
                } else {
                    None
                },
                _ => None,
            }
        },
    }
}

/// A line's content split into spans, the hits of a search painted.
/// Lowercasing can change byte lengths, and positions would then be off: such
/// a line stays in one piece.
pub open spec fn content_spans(
    content: Seq<char>,
    base: Style,
    search: Option<(Seq<char>, bool)>,
) -> Seq<SpanView> {
    let whole = seq![style::span(content, base)];
    match search {
        None => whole,
        Some((query, case_sensitive)) => {
            let hay = if case_sensitive {
                content
            } else {
                case::lowercase(content)
            };
            let needle = if case_sensitive {
                query
            } else {
                case::lowercase(query)
            };
            if bytes_upto(hay, hay.len() as int) != bytes_upto(content, content.len() as int)
                || needle.len() == 0 {
                whole
            } else {
                match painted(content, hay, needle, 0, 0, base) {
                    Some(spans) => spans,
                    None => whole,
                }
            }
        },
    }
}

fn paint_hits(content: &[char], hay: &[char], needle: &[char], base: Style) -> (r: Option<
    Vec<Span>,
>)
    requires
        needle@.len() > 0,
    ensures
        match (r, painted(content@, hay@, needle@, 0, 0, base)) {
            (Some(v), Some(s)) => deep::deep(v@) == s,
            (None, None) => true,
            _ => false,
        },
{
    let mut out: Vec<Span> = Vec::new();
    let mut hpos: usize = 0;
    let mut cpos: usize = 0;
    let ghost goal = painted(content@, hay@, needle@, 0, 0, base);
    loop
        invariant
            needle@.len() > 0,
            hpos <= hay@.len(),
            cpos <= content@.len(),
            goal == painted(content@, hay@, needle@, 0, 0, base),
            match painted(content@, hay@, needle@, hpos as int, cpos as int, base) {
                Some(rest) => goal == Some(deep::deep(out@) + rest),
                None => goal is None,
            },
        decreases hay@.len() - hpos,
    {
        match text::find(hay, needle, hpos) {
            None => {
                let ghost before = deep::deep(out@);
                if cpos < content.len() {
                    let piece: String = text::text_range(content, cpos, content.len());
                    out.push(Span { text: piece, style: base });
                }
                assert(deep::deep(out@) =~= before + base_piece(
                    content@,
                    cpos as int,
                    content@.len() as int,
                    base,
                ));
                return Some(out);
            },
            Some(k) => {
                let total: usize = hay.len();
                let e: usize = k + needle.len();
                let a: Option<usize> = find_byte(content, count_bytes(hay, k));
                let b: Option<usize> = find_byte(content, count_bytes(hay, e));
                match (a, b) {
                    (Some(a), Some(b)) => {
                        if cpos > a || a > b {
                            return None;
                        }
                        let ghost before = deep::deep(out@);
                        if cpos < a {
                            let piece: String = text::text_range(content, cpos, a);
                            out.push(Span { text: piece, style: base });
                        }
                        let hit: String = text::text_range(content, a, b);
                        let marked = Style {
                            fg: Some(Color::Black),
                            bg: Some(Color::Yellow),
                            bold: false,
                            italic: false,
                            underlined: false,
                        };
                        out.push(Span { text: hit, style: marked });
                        assert(deep::deep(out@) =~= before + base_piece(
                            content@,
                            cpos as int,
                            a as int,
                            base,
                        ).push(style::span(content@.subrange(a as int, b as int), hit_style())));
                        proof {
                            let rest = painted(content@, hay@, needle@, e as int, b as int, base);
                            if rest is Some {
                                let head = base_piece(content@, cpos as int, a as int, base).push(
                                    style::span(
                                        content@.subrange(a as int, b as int),
                                        hit_style(),
                                    ),
                                );
                                assert(before + (head + rest->0) =~= deep::deep(out@) + rest->0);
                            }
                        }
                        hpos = e;
                        cpos = b;
                    },
                    _ => {
                        return None;
                    },
                }
            },
        }
    }
}

/// Split a line's content into spans, painting search matches yellow.
pub fn paint_content(content: &str, base: Style, search: &Option<(String, bool)>) -> (r: Vec<Span>)
    ensures
        deep::deep(r@) == content_spans(
            content@,
            base,
            match *search {
                Some((q, c)) => Some((q@, c)),
                None => None,
            },
        ),
{
    let cs: Vec<char> = text::to_chars(content);
    if let Some((query, case_sensitive)) = search {
        let hay: Vec<char> = if *case_sensitive {
            text::to_chars(content)
        } else {
            let low: String = case::lowercase_text(content);
            text::to_chars(low.as_str())
        };
        let needle: Vec<char> = if *case_sensitive {
            text::to_chars(query.as_str())
        } else {
            let low: String = case::lowercase_text(query.as_str());
            text::to_chars(low.as_str())
        };
        if needle.len() > 0 && count_bytes(hay.as_slice(), hay.len()) == count_bytes(
            cs.as_slice(),
            cs.len(),
        ) {
            if let Some(spans) = paint_hits(
                cs.as_slice(),
                hay.as_slice(),
                needle.as_slice(),
                base,
            ) {
                return spans;
            }
        }
    }
    let mut whole: Vec<Span> = Vec::new();
    whole.push(Span { text: text::copy(content), style: base });
    assert(deep::deep(whole@) =~= seq![style::span(content@, base)]);
    whole
}

// ---- slicing styled text ----------------------------------------------------------------

/// The characters `lo..hi` of spans, each in its style; empty pieces are left out.
pub open spec fn sliced(spans: Seq<SpanView>, lo: int, hi: int) -> Seq<SpanView>
    decreases spans.len(),
{
    if spans.len() == 0 {
        Seq::empty()
    } else {
        let before = sliced(spans.drop_last(), lo, hi);
        let start = style::plain_text(spans.drop_last()).len() as int;
        let t = spans.last().text;
        let a = review::clamped(lo - start, 0, t.len() as int);
        let b = review::clamped(hi - start, 0, t.len() as int);
        if a < b {
            before.push(style::span(t.subrange(a, b), spans.last().style))
        } else {
            before
        }
    }
}

/// Cuts the characters `lo..hi` out of styled text.
pub fn slice_spans(spans: &[Span], lo: usize, hi: usize) -> (r: Vec<Span>)
    ensures
        deep::deep(r@) == sliced(deep::deep(spans@), lo as int, hi as int),
{
    let ghost all = deep::deep(spans@);
    let mut out: Vec<Span> = Vec::new();
    let mut start: u128 = 0;
    let mut i: usize = 0;
    while i < spans.len()
        invariant
            i <= spans@.len(),
            all == deep::deep(spans@),
            start == style::plain_text(all.take(i as int)).len(),
            start <= i * 0x1_0000_0000_0000_0000,
            deep::deep(out@) == sliced(all.take(i as int), lo as int, hi as int),
        decreases spans@.len() - i,
    {
        assert(all.take(i + 1).drop_last() =~= all.take(i as int));
        assert(all.take(i + 1).last() == spans@[i as int]@);
        let cs: Vec<char> = text::to_chars(spans[i].text.as_str());
        let n: usize = cs.len();
        let a: usize = if lo as u128 <= start {
            0
        } else if lo as u128 - start >= n as u128 {
            n
        } else {
            (lo as u128 - start) as usize
        };
        let b: usize = if hi as u128 <= start {
            0
        } else if hi as u128 - start >= n as u128 {
            n
        } else {
            (hi as u128 - start) as usize
        };
        if a < b {
            let piece: String = text::text_range(cs.as_slice(), a, b);
            out.push(Span { text: piece, style: spans[i].style });
        }
        assert(i * 0x1_0000_0000_0000_0000 + n <= (i + 1) * 0x1_0000_0000_0000_0000) by (
            nonlinear_arith)
            requires
                n <= 0xffff_ffff_ffff_ffff,
        ;
        assert(i * 0x1_0000_0000_0000_0000 <= 0xffff_ffff_ffff_ffff * 0x1_0000_0000_0000_0000) by (
            nonlinear_arith)
            requires
                i <= 0xffff_ffff_ffff_ffff,
        ;
        start = start + n as u128;
        i += 1;
    }
    assert(all.take(i as int) =~= all);
    out
}

/// The spans of a line that a row shows: all of them if the line is not broken,
/// or else those of the row's piece.
pub open spec fn row_spans(
    spans: Seq<SpanView>,
    content: Seq<char>,
    start: usize,
    end: usize,
) -> Seq<SpanView> {
    if start == 0 && end == content.len() {
        spans
    } else {
        sliced(spans, start as int, end as int)
    }
}

// ---- sizes ------------------------------------------------------------------------------

/// `n / d` rounded to the nearest integer, a tie to the even one.
pub open spec fn rounded(n: nat, d: nat) -> nat {
    let q = n / d;
    let r = n % d;
    if r * 2 > d || (r * 2 == d && q % 2 == 1) {
        q + 1
    } else {
        q
    }
}

/// A file size for display: whole kilobytes, or megabytes with one decimal.
pub open spec fn size_label(bytes: u64) -> Seq<char> {
    if bytes >= 1024 * 1024 {
        let tenths = rounded(bytes as nat * 10, 1024 * 1024);
        num::decimal(tenths / 10) + "."@ + num::decimal(tenths % 10) + " MB"@
    } else {
        num::decimal((bytes / 1024) as nat) + " KB"@
    }
}

pub fn human_size(bytes: u64) -> (r: String)
    ensures
        r@ == size_label(bytes),
{
    if bytes >= 1024 * 1024 {
        let n: u128 = bytes as u128 * 10;
        let d: u128 = 1024 * 1024;
        let q: u128 = n / d;
        let rest: u128 = n % d;
        let tenths: u128 = if rest * 2 > d || (rest * 2 == d && q % 2 == 1) {
            q + 1
        } else {
            q
        };
        assert(tenths == rounded(bytes as nat * 10, 1024 * 1024));
        let mut s: String = num::decimal_text((tenths / 10) as u64);
        text::put(&mut s, ".");
        text::put(&mut s, num::decimal_text((tenths % 10) as u64).as_str());
        text::put(&mut s, " MB");
        s
    } else {
        let mut s: String = num::decimal_text(bytes / 1024);
        text::put(&mut s, " KB");
        s
    }
}

// ---- rows -------------------------------------------------------------------------------

/// The status of a file, with the color it is shown in.
pub open spec fn status_span(status: FileStatus) -> SpanView {
    match status {
        FileStatus::Added => style::span("A "@, style::bold_colored(Color::Green)),
        FileStatus::Deleted => style::span("D "@, style::bold_colored(Color::Red)),
        _ => style::span(
            seq![status.letter_of()] + " "@,
            style::bold_colored(Color::Yellow),
        ),
    }
}

/// The header of a file before padding.
pub open spec fn header_spans(f: FileDiffView) -> Seq<SpanView> {
    let start = seq![style::span(" "@, style::no_style()), status_span(f.status)];
    let renamed = match f.old_path {
        Some(old) => start.push(style::span(old + " → "@, style::no_style())),
        None => start,
    };
    renamed.push(style::span(f.path, style::only_bold())).push(
        style::span(
            "  +"@ + num::decimal(f.additions as nat) + " "@,
            style::colored(Color::Green),
        ),
    ).push(style::span("−"@ + num::decimal(f.deletions as nat), style::colored(Color::Red)))
}

/// The header row of a file, padded to the width.
pub open spec fn header_line(f: FileDiffView, width: u16) -> LineView {
    let spans = header_spans(f);
    let pad = style::at_least_zero(width - style::plain_text(spans).len());
    LineView {
        spans: spans.push(style::span(text::repeat(' ', pad as nat), style::no_style())),
        style: Style { bg: Some(Color::DarkGray), ..style::no_style() },
    }
}

/// The row of a file whose diff is not loaded.
pub open spec fn stub_line(f: FileDiffView) -> LineView {
    style::line(
        seq![
            style::span("   ▶ "@, style::colored(Color::Cyan)),
            style::span(
                if f.untracked_dir {
                    "untracked directory — contents not listed"@
                } else {
                    "large file ("@ + size_label(f.byte_size) + ") — diff not loaded"@
                },
                Style { italic: true, ..style::no_style() },
            ),
            style::span(
                if f.untracked_dir {
                    "  [⏎ list]"@
                } else {
                    "  [⏎ load]"@
                },
                style::bold_colored(Color::Cyan),
            ),
        ],
    )
}

/// The line range of a comment: `L3`, or `L3-L5`.
pub open spec fn comment_range(lines: (u32, u32)) -> Seq<char> {
    if lines.0 == lines.1 {
        "L"@ + num::decimal(lines.0 as nat)
    } else {
        "L"@ + num::decimal(lines.0 as nat) + "-L"@ + num::decimal(lines.1 as nat)
    }
}

/// The header row of a comment.
pub open spec fn comment_line(c: CommentView) -> LineView {
    let side = if c.new_side {
        ""@
    } else {
        " (old side)"@
    };
    if c.outdated {
        style::line(
            seq![
                style::span("▐ "@, style::colored(Color::Yellow)),
                style::span(
                    "⚠ #"@ + num::decimal(c.id as nat) + " · outdated (was "@ + comment_range(
                        c.lines,
                    ) + side + ")"@,
                    style::bold_colored(Color::Yellow),
                ),
            ],
        )
    } else {
        style::line(
            seq![
                style::span("▐ "@, style::colored(Color::Cyan)),
                style::span(
                    "✎ #"@ + num::decimal(c.id as nat) + " · "@ + comment_range(c.lines) + side,
                    style::bold_colored(Color::Cyan),
                ),
            ],
        )
    }
}

/// The characters `start..end` of a text; empty if it has no such characters.
pub open spec fn cut(s: Seq<char>, start: usize, end: usize) -> Seq<char> {
    if start <= end && end <= s.len() {
        s.subrange(start as int, end as int)
    } else {
        Seq::empty()
    }
}

/// A line number in the gutter.
pub open spec fn gutter_number(n: Option<u32>) -> Seq<char> {
    match n {
        Some(k) => text::pad_left(num::decimal(k as nat), 5),
        None => text::repeat(' ', 5),
    }
}

/// The style of a diff line by its origin.
pub open spec fn origin_style(origin: char) -> Style {
    if origin == '+' {
        style::colored(Color::Green)
    } else if origin == '-' {
        style::colored(Color::Red)
    } else {
        style::no_style()
    }
}

/// What stands before the content: line numbers and sign for the first piece
/// of a line, a continuation marker for the others.
pub open spec fn gutter(line: DiffLineView, start: usize) -> Seq<SpanView> {
    if start == 0 {
        seq![
            style::span(
                gutter_number(line.old_lineno) + " "@ + gutter_number(line.new_lineno) + " "@,
                style::colored(Color::DarkGray),
            ),
            style::span(seq![line.origin], origin_style(line.origin)),
        ]
    } else {
        seq![
            style::span(text::repeat(' ', 12), style::colored(Color::DarkGray)),
            style::span("↪"@, style::colored(Color::DarkGray)),
        ]
    }
}

/// The background that keeps the add/remove signal under syntax colors.
pub open spec fn tint(origin: char) -> Option<Color> {
    if origin == '+' {
        Some(Color::Rgb(16, 48, 16))
    } else if origin == '-' {
        Some(Color::Rgb(58, 20, 20))
    } else {
        None
    }
}

/// Syntax spans on the background of a diff line.
pub open spec fn tinted(spans: Seq<SpanView>, origin: char) -> Seq<SpanView> {
    match tint(origin) {
        Some(bg) => spans.map_values(
            |s: SpanView| SpanView { style: Style { bg: Some(bg), ..s.style }, ..s },
        ),
        None => spans,
    }
}

/// Is the search live on this content?
pub open spec fn searched(content: Seq<char>, search: Option<(Seq<char>, bool)>) -> bool {
    match search {
        None => false,
        Some((query, case_sensitive)) => review::hits(content, query, case_sensitive),
    }
}

/// The content of a diff line: search hits keep the plain rendering so that
/// their overlay stays visible; everything else gets syntax colors.
pub open spec fn line_content(
    line: DiffLineView,
    search: Option<(Seq<char>, bool)>,
    syntax: Option<Seq<SpanView>>,
) -> Seq<SpanView> {
    if !searched(line.content, search) && syntax is Some {
        tinted(syntax->0, line.origin)
    } else {
        content_spans(line.content, origin_style(line.origin), search)
    }
}

/// One row of the stream, before the cursor and the selection are shown.
pub open spec fn row_line(
    row: Row,
    files: Seq<FileDiffView>,
    comments: Seq<CommentView>,
    width: u16,
    search: Option<(Seq<char>, bool)>,
    syntax: Option<Seq<SpanView>>,
) -> LineView {
    match row {
        Row::Spacer => style::line(Seq::empty()),
        Row::FileHeader(fi) => header_line(files[fi as int], width),
        Row::Binary => style::line_of(
            "   (binary file changed)"@,
            Style { italic: true, ..style::colored(Color::DarkGray) },
        ),
        Row::LargeStub(fi) => stub_line(files[fi as int]),
        Row::CommentHeader(ci) => comment_line(comments[ci as int]),
        Row::CommentSnippet(ci, si) => style::line(
            seq![
                style::span("▐ "@, style::colored(Color::Yellow)),
                style::span(
                    if si < comments[ci as int].snippet.len() {
                        comments[ci as int].snippet[si as int]
                    } else {
                        Seq::empty()
                    },
                    Style { italic: true, ..style::colored(Color::DarkGray) },
                ),
            ],
        ),
        Row::CommentBody { comment, line, start, end } => style::line(
            seq![
                style::span("▐ "@, style::colored(Color::Cyan)),
                style::span(
                    cut(rows::body_line(comments[comment as int].body, line as int), start, end),
                    style::no_style(),
                ),
            ],
        ),
        Row::HunkHeader(fi, hi) => style::line_of(
            files[fi as int].hunks[hi as int].header,
            style::colored(Color::Cyan),
        ),
        Row::Line { start, end, .. } => {
            let line = review::line_at(files, row);
            style::line(
                gutter(line, start) + row_spans(
                    line_content(line, search, syntax),
                    line.content,
                    start,
                    end,
                ),
            )
        },
    }
}

/// A row with the selection and the cursor shown.
pub open spec fn marked_line(line: LineView, selected: bool, cursor: bool) -> LineView {
    LineView {
        style: Style {
            bg: if selected {
                Some(Color::DarkGray)
            } else {
                line.style.bg
            },
            bold: line.style.bold || cursor,
            underlined: line.style.underlined || cursor,
            ..line.style
        },
        ..line
    }
}

fn cut_text(cs: &[char], start: usize, end: usize) -> (r: String)
    ensures
        r@ == cut(cs@, start, end),
{
    if start <= end && end <= cs.len() {
        text::text_range(cs, start, end)
    } else {
        let s: String = String::new();
        assert(s@ =~= Seq::empty());
        s
    }
}

fn span_len(spans: &[Span]) -> (r: u128)
    ensures
        r == style::plain_text(deep::deep(spans@)).len(),
{
    let ghost all = deep::deep(spans@);
    let mut total: u128 = 0;
    let mut i: usize = 0;
    while i < spans.len()
        invariant
            i <= spans@.len(),
            all == deep::deep(spans@),
            total == style::plain_text(all.take(i as int)).len(),
            total <= i * 0x1_0000_0000_0000_0000,
        decreases spans@.len() - i,
    {
        assert(all.take(i + 1).drop_last() =~= all.take(i as int));
        assert(all.take(i + 1).last() == spans@[i as int]@);
        let n: usize = text::to_chars(spans[i].text.as_str()).len();
        assert(i * 0x1_0000_0000_0000_0000 + n <= (i + 1) * 0x1_0000_0000_0000_0000) by (
            nonlinear_arith)
            requires
                n <= 0xffff_ffff_ffff_ffff,
        ;
        assert(i * 0x1_0000_0000_0000_0000 <= 0xffff_ffff_ffff_ffff * 0x1_0000_0000_0000_0000) by (
            nonlinear_arith)
            requires
                i <= 0xffff_ffff_ffff_ffff,
        ;
        total = total + n as u128;
        i += 1;
    }
    assert(all.take(i as int) =~= all);
    total
}

fn paint_header(f: &FileDiff, width: u16) -> (r: StyledLine)
    ensures
        r@ == header_line(f@, width),
{
    let mut line = StyledLine::new();
    line.put(" ", Style::plain());
    match f.status {
        FileStatus::Added => {
            line.put("A ", Style::bold_fg(Color::Green));
        },
        FileStatus::Deleted => {
            line.put("D ", Style::bold_fg(Color::Red));
        },
        _ => {
            let mut s: String = String::new();
            s.push(f.status.letter());
            assert(s@ =~= seq![f.status.letter_of()]);
            text::put(&mut s, " ");
            line.put(s.as_str(), Style::bold_fg(Color::Yellow));
        },
    }
    assert(line@.spans =~= seq![style::span(" "@, style::no_style()), status_span(f.status)]);
    if let Some(old) = &f.old_path {
        let mut s: String = text::copy(old.as_str());
        text::put(&mut s, " → ");
        line.put(s.as_str(), Style::plain());
    }
    line.put(f.path.as_str(), Style::strong());
    let mut plus: String = text::copy("  +");
    text::put(&mut plus, num::decimal_text(f.additions as u64).as_str());
    text::put(&mut plus, " ");
    line.put(plus.as_str(), Style::fg(Color::Green));
    let mut minus: String = text::copy("−");
    text::put(&mut minus, num::decimal_text(f.deletions as u64).as_str());
    line.put(minus.as_str(), Style::fg(Color::Red));
    assert(line@.spans =~= header_spans(f@));
    let used: u128 = span_len(line.spans.as_slice());
    let pad: usize = if (width as u128) < used {
        0
    } else {
        (width as u128 - used) as usize
    };
    let mut blank: String = String::new();
    text::put_repeat(&mut blank, ' ', pad);
    assert(blank@ =~= text::repeat(' ', pad as nat));
    line.put(blank.as_str(), Style::plain());
    line.style = Style {
        fg: None,
        bg: Some(Color::DarkGray),
        bold: false,
        italic: false,
        underlined: false,
    };
    assert(line@ =~= header_line(f@, width));
    line
}

fn paint_stub(f: &FileDiff) -> (r: StyledLine)
    ensures
        r@ == stub_line(f@),
{
    let mut line = StyledLine::new();
    line.put("   ▶ ", Style::fg(Color::Cyan));
    let slanted = Style { fg: None, bg: None, bold: false, italic: true, underlined: false };
    if f.untracked_dir {
        line.put("untracked directory — contents not listed", slanted);
        line.put("  [⏎ list]", Style::bold_fg(Color::Cyan));
    } else {
        let mut label: String = text::copy("large file (");
        text::put(&mut label, human_size(f.byte_size).as_str());
        text::put(&mut label, ") — diff not loaded");
        line.put(label.as_str(), slanted);
        line.put("  [⏎ load]", Style::bold_fg(Color::Cyan));
    }
    assert(line@ =~= stub_line(f@));
    line
}

fn paint_comment(c: &Comment) -> (r: StyledLine)
    ensures
        r@ == comment_line(c@),
{
    let mut range: String = text::copy("L");
    text::put(&mut range, num::decimal_text(c.lines.0 as u64).as_str());
    if c.lines.0 != c.lines.1 {
        text::put(&mut range, "-L");
        text::put(&mut range, num::decimal_text(c.lines.1 as u64).as_str());
    }
    let side: &str = if c.new_side {
        ""
    } else {
        " (old side)"
    };
    let mut line = StyledLine::new();
    if c.outdated {
        let mut s: String = text::copy("⚠ #");
        text::put(&mut s, num::decimal_text(c.id).as_str());
        text::put(&mut s, " · outdated (was ");
        text::put(&mut s, range.as_str());
        text::put(&mut s, side);
        text::put(&mut s, ")");
        line.put("▐ ", Style::fg(Color::Yellow));
        line.put(s.as_str(), Style::bold_fg(Color::Yellow));
    } else {
        let mut s: String = text::copy("✎ #");
        text::put(&mut s, num::decimal_text(c.id).as_str());
        text::put(&mut s, " · ");
        text::put(&mut s, range.as_str());
        text::put(&mut s, side);
        line.put("▐ ", Style::fg(Color::Cyan));
        line.put(s.as_str(), Style::bold_fg(Color::Cyan));
    }
    assert(line@ =~= comment_line(c@));
    line
}

fn number_text(n: Option<u32>) -> (r: String)
    ensures
        r@ == gutter_number(n),
{
    match n {
        Some(k) => num::decimal_padded(k as u64, 5),
        None => {
            let mut s: String = String::new();
            text::put_repeat(&mut s, ' ', 5);
            assert(s@ =~= text::repeat(' ', 5));
            s
        },
    }
}

fn style_of(origin: char) -> (r: Style)
    ensures
        r == origin_style(origin),
{
    if origin == '+' {
        Style::fg(Color::Green)
    } else if origin == '-' {
        Style::fg(Color::Red)
    } else {
        Style::plain()
    }
}

fn paint_gutter(l: &DiffLine, start: usize) -> (r: StyledLine)
    ensures
        r@ == style::line(gutter(l@, start)),
{
    let mut line = StyledLine::new();
    if start == 0 {
        let mut s: String = number_text(l.old_lineno);
        text::put(&mut s, " ");
        text::put(&mut s, number_text(l.new_lineno).as_str());
        text::put(&mut s, " ");
        line.put(s.as_str(), Style::fg(Color::DarkGray));
        let mut sign: String = String::new();
        sign.push(l.origin);
        assert(sign@ =~= seq![l.origin]);
        line.put(sign.as_str(), style_of(l.origin));
    } else {
        let mut s: String = String::new();
        text::put_repeat(&mut s, ' ', 12);
        assert(s@ =~= text::repeat(' ', 12));
        line.put(s.as_str(), Style::fg(Color::DarkGray));
        line.put("↪", Style::fg(Color::DarkGray));
    }
    assert(line@ =~= style::line(gutter(l@, start)));
    line
}

fn tint_spans(spans: &[Span], origin: char) -> (r: Vec<Span>)
    ensures
        deep::deep(r@) == tinted(deep::deep(spans@), origin),
{
    let ghost all = deep::deep(spans@);
    let bg: Option<Color> = if origin == '+' {
        Some(Color::Rgb(16, 48, 16))
    } else if origin == '-' {
        Some(Color::Rgb(58, 20, 20))
    } else {
        None
    };
    let mut out: Vec<Span> = Vec::new();
    let mut i: usize = 0;
    assert(tinted(all, origin).len() == all.len());
    while i < spans.len()
        invariant
            i <= spans@.len(),
            all == deep::deep(spans@),
            bg == tint(origin),
            tinted(all, origin).len() == all.len(),
            deep::deep(out@) =~= tinted(all, origin).take(i as int),
        decreases spans@.len() - i,
    {
        let mut s: Span = spans[i].copy();
        assert(all[i as int] == s@);
        if bg.is_some() {
            let st: Style = s.style;
            s.style = Style {
                fg: st.fg,
                bg,
                bold: st.bold,
                italic: st.italic,
                underlined: st.underlined,
            };
        }
        assert(s@ =~= tinted(all, origin)[i as int]);
        out.push(s);
        i += 1;
    }
    assert(tinted(all, origin).take(i as int) =~= tinted(all, origin));
    out
}

/// The view of a live search.
pub open spec fn terms_view(search: Option<(String, bool)>) -> Option<(Seq<char>, bool)> {
    match search {
        Some((q, c)) => Some((q@, c)),
        None => None,
    }
}

fn line_matches_search(content: &str, search: &Option<(String, bool)>) -> (r: bool)
    ensures
        r == searched(content@, terms_view(*search)),
{
    match search {
        None => false,
        Some((query, case_sensitive)) => {
            let needle: Vec<char> = review::search_needle(query.as_str(), *case_sensitive);
            review::content_hits(content, needle.as_slice(), *case_sensitive)
        },
    }
}

fn paint_line(
    l: &DiffLine,
    start: usize,
    end: usize,
    search: &Option<(String, bool)>,
    syntax: &Option<Vec<Span>>,
) -> (r: StyledLine)
    ensures
        r@ == style::line(
            gutter(l@, start) + row_spans(
                line_content(l@, terms_view(*search), highlight::spans_view(*syntax)),
                l@.content,
                start,
                end,
            ),
        ),
{
    let mut line: StyledLine = paint_gutter(l, start);
    let searched_here: bool = line_matches_search(l.content.as_str(), search);
    let whole: Vec<Span> = match syntax {
        Some(v) if !searched_here => tint_spans(v.as_slice(), l.origin),
        _ => paint_content(l.content.as_str(), style_of(l.origin), search),
    };
    let ghost spans = deep::deep(whole@);
    let total: usize = text::to_chars(l.content.as_str()).len();
    let mut piece: Vec<Span> = if start == 0 && end == total {
        whole
    } else {
        slice_spans(whole.as_slice(), start, end)
    };
    assert(deep::deep(piece@) == row_spans(spans, l@.content, start, end));
    line.spans.append(&mut piece);
    assert(line@ =~= style::line(
        gutter(l@, start) + row_spans(spans, l@.content, start, end),
    ));
    line
}

/// Paints one row of the stream. `syntax` holds the syntax-colored content of
/// the diff line that the row shows a piece of, if there is any.
pub fn render_row(
    row: Row,
    files: &[FileDiff],
    comments: &[Comment],
    width: u16,
    search: &Option<(String, bool)>,
    syntax: &Option<Vec<Span>>,
) -> (r: StyledLine)
    requires
        rows::row_valid(row, deep::deep(files@), comments@.len()),
    ensures
        r@ == row_line(
            row,
            deep::deep(files@),
            deep::deep(comments@),
            width,
            terms_view(*search),
            highlight::spans_view(*syntax),
        ),
{
    let ghost fs = deep::deep(files@);
    let ghost cs = deep::deep(comments@);
    match row {
        Row::Spacer => StyledLine::new(),
        Row::FileHeader(fi) => {
            assert(fs[fi as int] == files@[fi as int]@);
            paint_header(&files[fi], width)
        },
        Row::Binary => StyledLine::of(
            "   (binary file changed)",
            Style {
                fg: Some(Color::DarkGray),
                bg: None,
                bold: false,
                italic: true,
                underlined: false,
            },
        ),
        Row::LargeStub(fi) => {
            assert(fs[fi as int] == files@[fi as int]@);
            paint_stub(&files[fi])
        },
        Row::CommentHeader(ci) => {
            assert(cs[ci as int] == comments@[ci as int]@);
            paint_comment(&comments[ci])
        },
        Row::CommentSnippet(ci, si) => {
            assert(cs[ci as int] == comments@[ci as int]@);
            let mut line = StyledLine::new();
            line.put("▐ ", Style::fg(Color::Yellow));
            let slanted = Style {
                fg: Some(Color::DarkGray),
                bg: None,
                bold: false,
                italic: true,
                underlined: false,
            };
            let c: &Comment = &comments[ci];
            if si < c.snippet.len() {
                assert(c@.snippet[si as int] == c.snippet@[si as int]@);
                line.put(c.snippet[si].as_str(), slanted);
            } else {
                let none: String = String::new();
                assert(none@ =~= Seq::empty());
                line.put(none.as_str(), slanted);
            }
            assert(line@ =~= row_line(
                row,
                fs,
                cs,
                width,
                terms_view(*search),
                highlight::spans_view(*syntax),
            ));
            line
        },
        Row::CommentBody { comment, line: bi, start, end } => {
            assert(cs[comment as int] == comments@[comment as int]@);
            let body: Vec<char> = rows::body_line_chars(comments[comment].body.as_str(), bi);
            let shown: String = cut_text(body.as_slice(), start, end);
            let mut line = StyledLine::new();
            line.put("▐ ", Style::fg(Color::Cyan));
            line.put(shown.as_str(), Style::plain());
            assert(line@ =~= row_line(
                row,
                fs,
                cs,
                width,
                terms_view(*search),
                highlight::spans_view(*syntax),
            ));
            line
        },
        Row::HunkHeader(fi, hi) => {
            assert(fs[fi as int] == files@[fi as int]@);
            StyledLine::of(files[fi].hunks[hi].header.as_str(), Style::fg(Color::Cyan))
        },
        Row::Line { start, end, .. } => {
            let l: &DiffLine = review::shown_line(files, row);
            paint_line(l, start, end, search, syntax)
        },
    }
}

/// Shows the selection and the cursor on a painted row.
pub fn mark_row(line: StyledLine, selected: bool, cursor: bool) -> (r: StyledLine)
    ensures
        r@ == marked_line(line@, selected, cursor),
{
    let st: Style = line.style;
    let style = Style {
        fg: st.fg,
        bg: if selected {
            Some(Color::DarkGray)
        } else {
            st.bg
        },
        bold: st.bold || cursor,
        italic: st.italic,
        underlined: st.underlined || cursor,
    };
    StyledLine { spans: line.spans, style }
}

// ---- laws -------------------------------------------------------------------------------

proof fn lemma_plain_add(a: Seq<SpanView>, b: Seq<SpanView>)
    ensures
        style::plain_text(a + b) == style::plain_text(a) + style::plain_text(b),
    decreases b.len(),
{
    if b.len() == 0 {
        assert(a + b =~= a);
        assert(style::plain_text(a) + style::plain_text(b) =~= style::plain_text(a));
    } else {
        assert((a + b).drop_last() =~= a + b.drop_last());
        lemma_plain_add(a, b.drop_last());
        assert(style::plain_text(a + b) =~= style::plain_text(a) + style::plain_text(b));
    }
}

proof fn lemma_plain_one(s: SpanView)
    ensures
        style::plain_text(seq![s]) == s.text,
{
    assert(seq![s].drop_last() =~= Seq::<SpanView>::empty());
    assert(style::plain_text(seq![s].drop_last()) =~= Seq::<char>::empty());
    assert(style::plain_text(seq![s]) =~= s.text);
}

proof fn lemma_char_at_byte(s: Seq<char>, byte: int, i: int)
    requires
        char_at_byte(s, byte, i) is Some,
    ensures
        0 <= char_at_byte(s, byte, i)->0 <= s.len(),
    decreases s.len() + 1 - i,
{
    if bytes_upto(s, i) != byte {
        lemma_char_at_byte(s, byte, i + 1);
    }
}

proof fn lemma_base_piece(content: Seq<char>, lo: int, hi: int, base: Style)
    requires
        0 <= lo <= hi <= content.len(),
    ensures
        style::plain_text(base_piece(content, lo, hi, base)) == content.subrange(lo, hi),
{
    if lo < hi {
        lemma_plain_one(style::span(content.subrange(lo, hi), base));
    } else {
        assert(content.subrange(lo, hi) =~= Seq::<char>::empty());
    }
}

proof fn lemma_painted_text(
    content: Seq<char>,
    hay: Seq<char>,
    needle: Seq<char>,
    hpos: int,
    cpos: int,
    base: Style,
)
    requires
        0 <= cpos <= content.len(),
        painted(content, hay, needle, hpos, cpos, base) is Some,
    ensures
        style::plain_text(painted(content, hay, needle, hpos, cpos, base)->0) == content.subrange(
            cpos,
            content.len() as int,
        ),
    decreases hay.len() - hpos,
{
    match text::find_from(hay, needle, hpos) {
        None => {
            lemma_base_piece(content, cpos, content.len() as int, base);
        },
        Some(k) => {
            let e = k + needle.len();
            let a = char_at_byte(content, bytes_upto(hay, k), 0)->0;
            let b = char_at_byte(content, bytes_upto(hay, e), 0)->0;
            lemma_char_at_byte(content, bytes_upto(hay, k), 0);
            lemma_char_at_byte(content, bytes_upto(hay, e), 0);
            lemma_painted_text(content, hay, needle, e, b, base);
            let piece = base_piece(content, cpos, a, base);
            let hit = style::span(content.subrange(a, b), hit_style());
            let rest = painted(content, hay, needle, e, b, base)->0;
            lemma_base_piece(content, cpos, a, base);
            lemma_plain_one(hit);
            assert(piece.push(hit) =~= piece + seq![hit]);
            lemma_plain_add(piece, seq![hit]);
            lemma_plain_add(piece.push(hit), rest);
            assert(content.subrange(cpos, a) + content.subrange(a, b) + content.subrange(
                b,
                content.len() as int,
            ) =~= content.subrange(cpos, content.len() as int));
        },
    }
}

/// Painting search hits changes nothing of a line's text.
pub proof fn lemma_painting_keeps_text(
    content: Seq<char>,
    base: Style,
    search: Option<(Seq<char>, bool)>,
)
    ensures
        style::plain_text(content_spans(content, base, search)) == content,
{
    lemma_plain_one(style::span(content, base));
    match search {
        None => {},
        Some((query, case_sensitive)) => {
            let hay = if case_sensitive {
                content
            } else {
                case::lowercase(content)
            };
            let needle = if case_sensitive {
                query
            } else {
                case::lowercase(query)
            };
            if painted(content, hay, needle, 0, 0, base) is Some {
                lemma_painted_text(content, hay, needle, 0, 0, base);
                assert(content.subrange(0, content.len() as int) =~= content);
            }
        },
    }
}

/// Cutting styled text cuts its characters: the piece has the text of the range.
pub proof fn lemma_slicing_cuts_text(spans: Seq<SpanView>, lo: int, hi: int)
    requires
        0 <= lo <= hi,
    ensures
        ({
            let all = style::plain_text(spans);
            let n = all.len() as int;
            style::plain_text(sliced(spans, lo, hi)) == all.subrange(
                review::clamped(lo, 0, n),
                review::clamped(hi, 0, n),
            )
        }),
    decreases spans.len(),
{
    let all = style::plain_text(spans);
    let n = all.len() as int;
    if spans.len() == 0 {
        assert(all.subrange(0, 0) =~= Seq::<char>::empty());
    } else {
        let front = spans.drop_last();
        lemma_slicing_cuts_text(front, lo, hi);
        let head = style::plain_text(front);
        let start = head.len() as int;
        let t = spans.last().text;
        let before = sliced(front, lo, hi);
        let a = review::clamped(lo - start, 0, t.len() as int);
        let b = review::clamped(hi - start, 0, t.len() as int);
        let from = review::clamped(lo, 0, n);
        let to = review::clamped(hi, 0, n);
        if a < b {
            let piece = style::span(t.subrange(a, b), spans.last().style);
            assert(before.push(piece).drop_last() =~= before);
            assert(style::plain_text(before.push(piece)) =~= all.subrange(from, to));
        } else {
            assert(style::plain_text(before) =~= all.subrange(from, to));
        }
    }
}

/// A row shows the characters of its piece, however they are styled.
pub proof fn lemma_row_shows_its_piece(
    spans: Seq<SpanView>,
    content: Seq<char>,
    start: usize,
    end: usize,
)
    requires
        style::plain_text(spans) == content,
        start <= end <= content.len(),
    ensures
        style::plain_text(row_spans(spans, content, start, end)) == content.subrange(
            start as int,
            end as int,
        ),
{
    lemma_slicing_cuts_text(spans, start as int, end as int);
    assert(content.subrange(0, content.len() as int) =~= content);
}

} // verus!
