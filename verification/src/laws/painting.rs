//! What the rows of a diff say on screen.

use crate::comments::CommentView;
use crate::git::diff::{DiffLineView, FileDiffView};
use crate::num;
use crate::text;
use crate::ui::paint;
use crate::ui::style;
use crate::ui::style::{Color, LineView, SpanView, Style};
use vstd::prelude::*;

verus! {

// ---- sizes --------------------------------------------------------------------------

/// From a mebibyte on a size is shown in mebibytes to the nearest tenth, the even
/// one of two as near; below that in whole kibibytes.
pub proof fn lemma_sizes(bytes: u64) -> (n: nat)
    ensures
        bytes < 1048576 ==> paint::size_label(bytes) == num::decimal(n) + " KB"@ && n * 1024
            <= bytes < (n + 1) * 1024,
        bytes >= 1048576 ==> ({
            let off = 10 * bytes - n * 1048576;
            &&& paint::size_label(bytes) == num::decimal(n / 10) + "."@ + num::decimal(n % 10)
                + " MB"@
            &&& -524288 <= off <= 524288
            &&& off == 524288 || off == -524288 ==> n % 2 == 0
        }),
{
    if bytes < 1048576 {
        (bytes / 1024) as nat
    } else {
        paint::rounded(bytes as nat * 10, 1024 * 1024)
    }
}

// ---- headers ------------------------------------------------------------------------

proof fn lemma_plain_push(spans: Seq<SpanView>, s: SpanView)
    ensures
        style::plain_text(spans.push(s)) == style::plain_text(spans) + s.text,
{
    assert(spans.push(s).drop_last() =~= spans);
}

/// What the header of a file says.
pub open spec fn header_text(f: FileDiffView) -> Seq<char> {
    let name = match f.old_path {
        Some(old) => old + " → "@ + f.path,
        None => f.path,
    };
    seq![' ', f.status.letter_of(), ' '] + name + "  +"@ + num::decimal(f.additions as nat)
        + " −"@ + num::decimal(f.deletions as nat)
}

/// The header of a file says how it changed, under which path, from which one if
/// it was renamed, and how many lines it adds and deletes; it fills the width.
pub proof fn lemma_header(f: FileDiffView, width: u16)
    ensures
        style::plain_text(paint::header_spans(f)) == header_text(f),
        ({
            let all = style::plain_text(paint::header_line(f, width).spans);
            &&& header_text(f).is_prefix_of(all)
            &&& all.len() >= width
            &&& all.len() == width || all == header_text(f)
            &&& forall|i: int| header_text(f).len() <= i < all.len() ==> #[trigger] all[i] == ' '
        }),
{
    reveal_strlit(" ");
    reveal_strlit("A ");
    reveal_strlit("D ");
    reveal_strlit(" −");
    reveal_strlit("−");
    let a = style::span(" "@, style::no_style());
    let b = paint::status_span(f.status);
    let none = Seq::<SpanView>::empty();
    let start = seq![a, b];
    assert(none.push(a).push(b) =~= start);
    lemma_plain_push(none, a);
    lemma_plain_push(none.push(a), b);
    assert(style::plain_text(start) =~= seq![' ', f.status.letter_of(), ' ']);
    let renamed = match f.old_path {
        Some(old) => {
            let s = style::span(old + " → "@, style::no_style());
            lemma_plain_push(start, s);
            start.push(s)
        },
        None => start,
    };
    let p = style::span(f.path, style::only_bold());
    let q = style::span(
        "  +"@ + num::decimal(f.additions as nat) + " "@,
        style::colored(Color::Green),
    );
    let r = style::span("−"@ + num::decimal(f.deletions as nat), style::colored(Color::Red));
    lemma_plain_push(renamed, p);
    lemma_plain_push(renamed.push(p), q);
    lemma_plain_push(renamed.push(p).push(q), r);
    let spans = paint::header_spans(f);
    assert(spans == renamed.push(p).push(q).push(r));
    assert(" −"@ =~= " "@ + "−"@);
    assert(style::plain_text(spans) =~= header_text(f));
    let pad = style::at_least_zero(width - style::plain_text(spans).len());
    let blank = style::span(text::repeat(' ', pad as nat), style::no_style());
    lemma_plain_push(spans, blank);
    let all = style::plain_text(paint::header_line(f, width).spans);
    assert(all == header_text(f) + blank.text);
    assert(all.take(header_text(f).len() as int) =~= header_text(f));
    if pad == 0 {
        assert(all =~= header_text(f));
    }
}

/// What the header of a comment says.
pub open spec fn comment_text(c: CommentView) -> Seq<char> {
    let id = num::decimal(c.id as nat);
    let from = num::decimal(c.lines.0 as nat);
    let at = if c.lines.0 == c.lines.1 {
        "L"@ + from
    } else {
        "L"@ + from + "-L"@ + num::decimal(c.lines.1 as nat)
    };
    let side = if c.new_side {
        at
    } else {
        at + " (old side)"@
    };
    if c.outdated {
        "▐ ⚠ #"@ + id + " · outdated (was "@ + side + ")"@
    } else {
        "▐ ✎ #"@ + id + " · "@ + side
    }
}

/// The header of a comment says its id, its lines, the side if it is the old
/// one, and that it is outdated if it is.
pub proof fn lemma_comment_header(c: CommentView)
    ensures
        style::plain_text(paint::comment_line(c).spans) == comment_text(c),
{
    reveal_strlit("");
    reveal_strlit("▐ ");
    reveal_strlit("⚠ #");
    reveal_strlit("✎ #");
    reveal_strlit("▐ ⚠ #");
    reveal_strlit("▐ ✎ #");
    let spans = paint::comment_line(c).spans;
    let none = Seq::<SpanView>::empty();
    assert(none.push(spans[0]).push(spans[1]) =~= spans);
    lemma_plain_push(none, spans[0]);
    lemma_plain_push(none.push(spans[0]), spans[1]);
    assert("▐ ⚠ #"@ =~= "▐ "@ + "⚠ #"@);
    assert("▐ ✎ #"@ =~= "▐ "@ + "✎ #"@);
    assert(style::plain_text(spans) =~= comment_text(c));
}

// ---- lines --------------------------------------------------------------------------

/// `s` ends with `t`, and all before it is blank.
pub open spec fn right_aligned(s: Seq<char>, t: Seq<char>) -> bool {
    &&& t.is_suffix_of(s)
    &&& forall|i: int| 0 <= i < s.len() - t.len() ==> #[trigger] s[i] == ' '
}

/// The gutter of a line has its number on the old side in the first five columns,
/// the one on the new side in the next, and then its sign; a column without a
/// number is blank. A piece that goes on with a line has a gutter as wide.
pub proof fn lemma_gutter(line: DiffLineView, start: usize)
    ensures
        ({
            let t = style::plain_text(paint::gutter(line, start));
            let old = paint::gutter_number(line.old_lineno);
            let new = paint::gutter_number(line.new_lineno);
            &&& start == 0 ==> t == old + seq![' '] + new + seq![' ', line.origin]
            &&& line.old_lineno matches Some(n) ==> right_aligned(old, num::decimal(n as nat))
            &&& line.new_lineno matches Some(n) ==> right_aligned(new, num::decimal(n as nat))
            &&& line.old_lineno is None ==> right_aligned(old, Seq::empty())
            &&& line.new_lineno is None ==> right_aligned(new, Seq::empty())
            &&& old.len() >= 5 && new.len() >= 5
            &&& (line.old_lineno matches Some(n) ==> num::decimal(n as nat).len() <= 5)
                ==> old.len() == 5
            &&& (line.new_lineno matches Some(n) ==> num::decimal(n as nat).len() <= 5)
                ==> new.len() == 5
            &&& start != 0 ==> t.len() == 13
        }),
{
    reveal_strlit(" ");
    reveal_strlit("↪");
    let spans = paint::gutter(line, start);
    let none = Seq::<SpanView>::empty();
    assert(none.push(spans[0]).push(spans[1]) =~= spans);
    lemma_plain_push(none, spans[0]);
    lemma_plain_push(none.push(spans[0]), spans[1]);
    let old = paint::gutter_number(line.old_lineno);
    let new = paint::gutter_number(line.new_lineno);
    if start == 0 {
        assert(style::plain_text(spans) =~= old + seq![' '] + new + seq![' ', line.origin]);
    }
    lemma_number(line.old_lineno);
    lemma_number(line.new_lineno);
}

proof fn lemma_number(n: Option<u32>)
    ensures
        ({
            let s = paint::gutter_number(n);
            &&& n matches Some(k) ==> right_aligned(s, num::decimal(k as nat))
            &&& n is None ==> right_aligned(s, Seq::empty())
        }),
{
    let s = paint::gutter_number(n);
    match n {
        Some(k) => {
            let d = num::decimal(k as nat);
            assert(s.skip(s.len() - d.len()) =~= d);
        },
        None => {
            assert(s.skip(s.len() as int) =~= Seq::empty());
        },
    }
}

/// Added lines are green and deleted ones red, with syntax colors as without;
/// unchanged ones are neither.
pub proof fn lemma_colors(origin: char, spans: Seq<SpanView>, i: int)
    requires
        0 <= i < spans.len(),
    ensures
        paint::origin_style(origin).fg == Some(Color::Green) <==> origin == '+',
        paint::origin_style(origin).fg == Some(Color::Red) <==> origin == '-',
        paint::tinted(spans, origin).len() == spans.len(),
        paint::tinted(spans, origin)[i].text == spans[i].text,
        paint::tinted(spans, origin)[i].style.fg == spans[i].style.fg,
        origin != '+' && origin != '-' ==> paint::tinted(spans, origin) == spans,
        origin == '+' || origin == '-' ==> paint::tinted(spans, origin)[i].style.bg is Some,
        paint::tint('+') != paint::tint('-'),
{
}

/// The cursor and the selection change how a row looks, not what it says: a
/// selected row has a background, and the cursor's is bold and underlined.
pub proof fn lemma_marking(line: LineView, selected: bool, cursor: bool)
    ensures
        ({
            let m = paint::marked_line(line, selected, cursor);
            &&& m.spans == line.spans
            &&& selected ==> m.style.bg == Some(Color::DarkGray)
            &&& !selected ==> m.style.bg == line.style.bg
            &&& cursor ==> m.style.bold && m.style.underlined
            &&& !cursor ==> m.style.bold == line.style.bold && m.style.underlined
                == line.style.underlined
            &&& m.style.fg == line.style.fg && m.style.italic == line.style.italic
        }),
{
}

// ---- hits ---------------------------------------------------------------------------

proof fn lemma_bytes_grow(s: Seq<char>, a: int, b: int)
    requires
        0 <= a < b <= s.len(),
    ensures
        paint::bytes_upto(s, a) < paint::bytes_upto(s, b),
    decreases b - a,
{
    if a + 1 < b {
        lemma_bytes_grow(s, a, b - 1);
    }
}

proof fn lemma_own_byte(s: Seq<char>, k: int, i: int)
    requires
        0 <= i <= k <= s.len(),
    ensures
        paint::char_at_byte(s, paint::bytes_upto(s, k), i) == Some(k),
    decreases k - i,
{
    if i < k {
        lemma_bytes_grow(s, i, k);
        lemma_own_byte(s, k, i + 1);
    }
}

/// The text holds the query nowhere.
pub open spec fn free_of(s: Seq<char>, query: Seq<char>) -> bool {
    forall|i: int| !#[trigger] text::occurs_at(s, query, i)
}

/// Every span is the query, marked as a hit, or in the base style and free of
/// the query.
pub open spec fn hits_marked(spans: Seq<SpanView>, query: Seq<char>, base: Style) -> bool {
    forall|i: int|
        0 <= i < spans.len() ==> {
            ||| (#[trigger] spans[i]).text == query && spans[i].style == paint::hit_style()
            ||| spans[i].style == base && free_of(spans[i].text, query)
        }
}

proof fn lemma_free(s: Seq<char>, query: Seq<char>, lo: int, hi: int)
    requires
        0 <= lo <= hi <= s.len(),
        query.len() > 0,
        forall|i: int| lo <= i && i + query.len() <= hi ==> !#[trigger] text::occurs_at(s, query, i),
    ensures
        free_of(s.subrange(lo, hi), query),
{
    let t = s.subrange(lo, hi);
    assert forall|i: int| !#[trigger] text::occurs_at(t, query, i) by {
        if text::occurs_at(t, query, i) {
            assert(t.subrange(i, i + query.len()) =~= s.subrange(lo + i, lo + i + query.len()));
            assert(text::occurs_at(s, query, lo + i));
        }
    }
}

proof fn lemma_painted(s: Seq<char>, query: Seq<char>, pos: int, base: Style)
    requires
        0 <= pos <= s.len(),
        query.len() > 0,
    ensures
        paint::painted(s, s, query, pos, pos, base) is Some,
        hits_marked(paint::painted(s, s, query, pos, pos, base)->0, query, base),
    decreases s.len() - pos,
{
    text::lemma_find_from(s, query, pos);
    match text::find_from(s, query, pos) {
        None => {
            assert forall|i: int|
                pos <= i && i + query.len() <= s.len() implies !#[trigger] text::occurs_at(
                s,
                query,
                i,
            ) by {}
            lemma_free(s, query, pos, s.len() as int);
        },
        Some(k) => {
            let e = k + query.len();
            lemma_own_byte(s, k, 0);
            lemma_own_byte(s, e, 0);
            lemma_painted(s, query, e, base);
            let rest = paint::painted(s, s, query, e, e, base)->0;
            let head = paint::base_piece(s, pos, k, base);
            let all = paint::painted(s, s, query, pos, pos, base)->0;
            let hit = style::span(s.subrange(k, e), paint::hit_style());
            assert(all == head.push(hit) + rest);
            lemma_free(s, query, pos, k);
            assert forall|i: int| 0 <= i < all.len() implies {
                ||| (#[trigger] all[i]).text == query && all[i].style == paint::hit_style()
                ||| all[i].style == base && free_of(all[i].text, query)
            } by {
                if i < head.len() {
                    assert(all[i] == head[i]);
                } else if i == head.len() {
                    assert(all[i] == hit);
                } else {
                    assert(all[i] == rest[i - head.len() - 1]);
                }
            }
        },
    }
}

/// Searching with case, exactly the occurrences of the query are marked, and the
/// line says what it said.
pub proof fn lemma_hits_are_marked(content: Seq<char>, query: Seq<char>, base: Style)
    requires
        query.len() > 0,
    ensures
        hits_marked(paint::content_spans(content, base, Some((query, true))), query, base),
        style::plain_text(paint::content_spans(content, base, Some((query, true)))) == content,
        paint::content_spans(content, base, None) == seq![style::span(content, base)],
{
    lemma_painted(content, query, 0, base);
    paint::lemma_painting_keeps_text(content, base, Some((query, true)));
}

} // verus!
