//! The help popup, the comment editor's window and the confirmation.

use crate::deep;
use crate::keymap;
use crate::keymap::{Action, HelpItem, HelpItemView, HelpSection, SectionView};
use crate::num;
use crate::text;
use crate::ui::editor::TextEditor;
use crate::ui::style;
use crate::ui::style::{Color, LineView, Position, Rect, Style, StyledLine};
use crate::ui::wrap;
use vstd::prelude::*;

verus! {

broadcast use crate::deep::group_deep;

// ---- help ----------------------------------------------------------------------
/// The keys of a help item.
pub open spec fn item_keys(item: HelpItemView) -> Seq<char> {
    match item {
        HelpItemView::Act(actions, _) => keymap::label_of(keymap::review_keys(), actions),
        HelpItemView::Raw(key, _) => key,
    }
}

/// What a help item does.
pub open spec fn item_desc(item: HelpItemView) -> Seq<char> {
    match item {
        HelpItemView::Act(_, desc) => desc,
        HelpItemView::Raw(_, desc) => desc,
    }
}

/// Length of the longest keys of the first `n` items, `least` at the least.
pub open spec fn items_width(items: Seq<HelpItemView>, n: int, least: nat) -> nat
    decreases n,
{
    if n <= 0 {
        least
    } else {
        let above = items_width(items, n - 1, least);
        let here = item_keys(items[n - 1]).len();
        if here > above {
            here
        } else {
            above
        }
    }
}

/// Length of the longest keys of the first `n` sections.
pub open spec fn keys_width(sections: Seq<SectionView>, n: int) -> nat
    decreases n,
{
    if n <= 0 {
        0
    } else {
        items_width(
            sections[n - 1].items,
            sections[n - 1].items.len() as int,
            keys_width(sections, n - 1),
        )
    }
}

/// The line of a help item.
pub open spec fn item_line(item: HelpItemView, w: nat) -> LineView {
    style::line(
        seq![
            style::span(
                "  "@ + text::pad_left(item_keys(item), w) + "  "@,
                style::bold_colored(Color::Cyan),
            ),
            style::span(item_desc(item), style::no_style()),
        ],
    )
}

/// The lines of the first `n` sections, an empty line between two.
pub open spec fn section_lines(sections: Seq<SectionView>, w: nat, n: int) -> Seq<LineView>
    decreases n,
{
    if n <= 0 {
        Seq::empty()
    } else {
        let section = sections[n - 1];
        section_lines(sections, w, n - 1) + (if n > 1 {
            seq![style::line(Seq::empty())]
        } else {
            Seq::empty()
        }) + seq![style::line_of(" "@ + section.title, style::only_bold())]
            + section.items.map_values(|i: HelpItemView| item_line(i, w))
    }
}

/// The lines of the help.
pub open spec fn help_text(sections: Seq<SectionView>) -> Seq<LineView> {
    section_lines(sections, keys_width(sections, sections.len() as int), sections.len() as int)
}

fn keys_of(item: &HelpItem, table: &[keymap::Binding]) -> (r: String)
    requires
        deep::deep(table@) == keymap::review_keys(),
    ensures
        r@ == item_keys(item@),
{
    match item {
        HelpItem::Act(actions, _) => keymap::keys_label(table, actions.as_slice()),
        HelpItem::Raw(key, _) => text::copy(key),
    }
}

fn longest_keys(sections: &[HelpSection], table: &[keymap::Binding]) -> (r: usize)
    requires
        deep::deep(table@) == keymap::review_keys(),
    ensures
        r == keys_width(deep::deep(sections@), sections@.len() as int),
{
    let ghost all = deep::deep(sections@);
    let mut w: usize = 0;
    let mut i: usize = 0;
    while i < sections.len()
        invariant
            i <= sections@.len(),
            all == deep::deep(sections@),
            deep::deep(table@) == keymap::review_keys(),
            w == keys_width(all, i as int),
        decreases sections@.len() - i,
    {
        let items: &Vec<HelpItem> = &sections[i].items;
        let ghost before = keys_width(all, i as int);
        let ghost listed = all[i as int].items;
        assert(listed == deep::deep(items@));
        let mut k: usize = 0;
        while k < items.len()
            invariant
                k <= items@.len(),
                listed == deep::deep(items@),
                deep::deep(table@) == keymap::review_keys(),
                w == items_width(listed, k as int, before),
            decreases items@.len() - k,
        {
            assert(listed[k as int] == items@[k as int]@);
            let here: usize = text::to_chars(keys_of(&items[k], table).as_str()).len();
            if here > w {
                w = here;
            }
            k += 1;
        }
        i += 1;
    }
    w
}

fn paint_item(item: &HelpItem, table: &[keymap::Binding], w: usize) -> (r: StyledLine)
    requires
        deep::deep(table@) == keymap::review_keys(),
    ensures
        r@ == item_line(item@, w as nat),
{
    let mut keys: String = text::copy("  ");
    text::put(&mut keys, text::padded_left(keys_of(item, table).as_str(), w).as_str());
    text::put(&mut keys, "  ");
    let desc: &str = match item {
        HelpItem::Act(_, desc) => desc,
        HelpItem::Raw(_, desc) => desc,
    };
    let mut line = StyledLine::new();
    line.put(keys.as_str(), Style::bold_fg(Color::Cyan));
    line.put(desc, Style::plain());
    assert(line@ =~= item_line(item@, w as nat));
    line
}

fn put_section(
    out: &mut Vec<StyledLine>,
    section: &HelpSection,
    table: &[keymap::Binding],
    w: usize,
    first: bool,
)
    requires
        deep::deep(table@) == keymap::review_keys(),
    ensures
        deep::deep(final(out)@) == deep::deep(old(out)@) + (if !first {
            seq![style::line(Seq::empty())]
        } else {
            Seq::empty()
        }) + seq![style::line_of(" "@ + section@.title, style::only_bold())]
            + section@.items.map_values(|i: HelpItemView| item_line(i, w as nat)),
{
    let ghost lead = if !first {
        seq![style::line(Seq::empty())]
    } else {
        Seq::<LineView>::empty()
    };
    let ghost before = deep::deep(out@);
    if !first {
        out.push(StyledLine::new());
    }
    assert(deep::deep(out@) =~= before + lead);
    let mut title: String = text::copy(" ");
    text::put(&mut title, section.title);
    out.push(StyledLine::of(title.as_str(), Style::strong()));
    let ghost head = before + lead + seq![
        style::line_of(" "@ + section@.title, style::only_bold()),
    ];
    assert(deep::deep(out@) =~= head);
    let ghost items = section@.items;
    let ghost goal = items.map_values(|i: HelpItemView| item_line(i, w as nat));
    let mut k: usize = 0;
    assert(head + goal.take(0) =~= head);
    while k < section.items.len()
        invariant
            k <= section.items@.len(),
            items == deep::deep(section.items@),
            goal == items.map_values(|i: HelpItemView| item_line(i, w as nat)),
            deep::deep(table@) == keymap::review_keys(),
            deep::deep(out@) =~= head + goal.take(k as int),
        decreases section.items@.len() - k,
    {
        assert(items[k as int] == section.items@[k as int]@);
        out.push(paint_item(&section.items[k], table, w));
        k += 1;
    }
    assert(goal.take(k as int) =~= goal);
}

/// The lines of the help: sections and descriptions come from the help table,
/// the keys from the binding tables, so they never drift.
pub fn help_lines() -> (r: Vec<StyledLine>)
    ensures
        deep::deep(r@) == help_text(keymap::help_sections()),
{
    let sections: Vec<HelpSection> = keymap::help();
    let table: Vec<keymap::Binding> = keymap::review();
    let w: usize = longest_keys(sections.as_slice(), table.as_slice());
    let ghost all = deep::deep(sections@);
    let mut out: Vec<StyledLine> = Vec::new();
    let mut i: usize = 0;
    while i < sections.len()
        invariant
            i <= sections@.len(),
            all == deep::deep(sections@),
            deep::deep(table@) == keymap::review_keys(),
            deep::deep(out@) == section_lines(all, w as nat, i as int),
        decreases sections@.len() - i,
    {
        assert(all[i as int] == sections@[i as int]@);
        put_section(&mut out, &sections[i], table.as_slice(), w, i == 0);
        i += 1;
    }
    out
}

/// Where the help pops up, given how many lines it has.
pub open spec fn help_area(area: Rect, lines: nat) -> Rect {
    let w = style::least(72, style::at_least_zero(area.width - 4));
    let h = style::least(lines as int + 2, style::at_least_zero(area.height - 2));
    Rect {
        x: style::at_most_u16(area.x + style::at_least_zero(area.width - w) / 2),
        y: style::at_most_u16(area.y + style::at_least_zero(area.height - h) / 2),
        width: w as u16,
        height: h as u16,
    }
}

/// The furthest that the help can be scrolled.
pub open spec fn help_limit(area: Rect, lines: nat) -> u16 {
    style::at_least_zero(
        style::at_most_u16(lines as int) - style::at_least_zero(help_area(area, lines).height - 2),
    ) as u16
}

/// The footer of a help that does not fit.
pub open spec fn help_footer(scroll: u16, limit: u16) -> Seq<char> {
    " "@ + keymap::label_of(keymap::help_view_keys(), seq![Action::Down, Action::Up])
        + " scroll ("@ + num::decimal(scroll as nat) + "/"@ + num::decimal(limit as nat) + ") "@
}

/// The help as it is shown.
pub struct HelpScreen {
    pub popup: Rect,
    pub lines: Vec<StyledLine>,
    /// First line shown.
    pub scroll: u16,
    pub footer: Option<String>,
}

/// The `?` popup. Scrolls when it doesn't fit; the scroll position is clamped
/// here, where the height is known.
pub fn render_help(area: Rect, scroll: u16) -> (r: HelpScreen)
    ensures
        ({
            let lines = help_text(keymap::help_sections());
            let limit = help_limit(area, lines.len());
            &&& deep::deep(r.lines@) == lines
            &&& r.popup == help_area(area, lines.len())
            &&& r.scroll == (if scroll > limit {
                limit
            } else {
                scroll
            })
            &&& deep::deep_opt(r.footer) == (if limit > 0 {
                Some(help_footer(r.scroll, limit))
            } else {
                None
            })
        }),
{
    let lines: Vec<StyledLine> = help_lines();
    let count: u16 = if lines.len() > 65535 {
        65535
    } else {
        lines.len() as u16
    };
    let mut w: u16 = area.width.saturating_sub(4);
    if w > 72 {
        w = 72;
    }
    let mut h: u16 = area.height.saturating_sub(2);
    if h > count.saturating_add(2) {
        h = count.saturating_add(2);
    }
    let popup = Rect {
        x: area.x.saturating_add(area.width.saturating_sub(w) / 2),
        y: area.y.saturating_add(area.height.saturating_sub(h) / 2),
        width: w,
        height: h,
    };
    assert(popup == help_area(area, lines@.len()));
    let limit: u16 = count.saturating_sub(h.saturating_sub(2));
    let at: u16 = if scroll > limit {
        limit
    } else {
        scroll
    };
    let footer: Option<String> = if limit > 0 {
        let table: Vec<keymap::Binding> = keymap::help_view();
        let actions: Vec<Action> = keymap::two(Action::Down, Action::Up);
        let mut s: String = text::copy(" ");
        text::put(&mut s, keymap::keys_label(table.as_slice(), actions.as_slice()).as_str());
        text::put(&mut s, " scroll (");
        text::put(&mut s, num::decimal_text(at as u64).as_str());
        text::put(&mut s, "/");
        text::put(&mut s, num::decimal_text(limit as u64).as_str());
        text::put(&mut s, ") ");
        Some(s)
    } else {
        None
    };
    HelpScreen { popup, lines, scroll: at, footer }
}

// ---- comment editor -------------------------------------------------------------
/// `n`, no more than `hi` and no less than `lo`.
pub open spec fn within(n: int, lo: int, hi: int) -> int {
    style::most(lo, style::least(n, hi))
}

/// Columns of the comment editor's window.
pub open spec fn editor_width(bounds: Rect) -> u16 {
    within(style::at_least_zero(bounds.width - 4), 3, 96) as u16
}

/// Columns of its text.
pub open spec fn editor_columns(bounds: Rect) -> u16 {
    (editor_width(bounds) - 2) as u16
}

/// Rows of the window for a text of so many rows: it grows with its text, up to
/// half of the bounds.
pub open spec fn editor_height(bounds: Rect, rows: nat) -> u16 {
    let limit = style::least(
        style::most(bounds.height as int / 2, 5),
        style::at_least_zero(bounds.height - 1),
    );
    within(rows as int + 2, style::least(5, limit), limit) as u16
}

/// Where the window of a comment editor stands: near the row it belongs to,
/// below it if there is room, else above it, else in the middle.
pub open spec fn editor_area(bounds: Rect, anchor: Option<Position>, rows: nat) -> Rect {
    let w = editor_width(bounds);
    let h = editor_height(bounds, rows);
    let middle = style::at_most_u16(bounds.y + style::at_least_zero(bounds.height - h) / 2);
    let (x, y) = match anchor {
        Some(p) => (
            p.x,
            if p.y + 1 + h <= bounds.bottom_edge() {
                (p.y + 1) as u16
            } else if p.y >= bounds.y + h {
                (p.y - h) as u16
            } else {
                middle
            },
        ),
        None => (
            style::at_most_u16(bounds.x + style::at_least_zero(bounds.width - w) / 2),
            middle,
        ),
    };
    Rect {
        x: within(x as int, bounds.x as int, style::at_least_zero(bounds.right_edge() - w)) as u16,
        y: within(y as int, bounds.y as int, style::at_least_zero(bounds.bottom_edge() - h)) as u16,
        width: w,
        height: h,
    }
}

fn keep(n: u16, lo: u16, hi: u16) -> (r: u16)
    ensures
        r == within(n as int, lo as int, hi as int),
{
    let m: u16 = if n < hi {
        n
    } else {
        hi
    };
    if m > lo {
        m
    } else {
        lo
    }
}

/// The window of a comment editor.
pub struct EditorWindow {
    pub popup: Rect,
    pub title: String,
}

/// The window of the modal editor, positioned near the diff row it belongs to.
/// It grows with wrapped content, then becomes a scrolling viewport.
pub fn render_comment_editor(
    bounds: Rect,
    anchor: Option<Position>,
    label: &str,
    editor: &TextEditor,
) -> (r: EditorWindow)
    ensures
        r.popup == editor_area(
            bounds,
            anchor,
            wrap::laid_out(editor@.text, editor_columns(bounds) as usize).len(),
        ),
        r.title@ == " ✎ "@ + label@ + " "@,
{
    let columns: u16 = keep(bounds.width.saturating_sub(4), 3, 96) - 2;
    let rows: usize = editor.visual_line_count(columns);
    let mut title: String = text::copy(" ✎ ");
    text::put(&mut title, label);
    text::put(&mut title, " ");
    EditorWindow { popup: place_editor(bounds, anchor, rows), title }
}

fn place_editor(bounds: Rect, anchor: Option<Position>, rows: usize) -> (r: Rect)
    ensures
        r == editor_area(bounds, anchor, rows as nat),
{
    let w: u16 = keep(bounds.width.saturating_sub(4), 3, 96);
    let wanted: u16 = if rows > 65533 {
        65535
    } else {
        rows as u16 + 2
    };
    let half: u16 = if bounds.height / 2 > 5 {
        bounds.height / 2
    } else {
        5
    };
    let limit: u16 = if half < bounds.height.saturating_sub(1) {
        half
    } else {
        bounds.height.saturating_sub(1)
    };
    let h: u16 = keep(
        wanted,
        if limit < 5 {
            limit
        } else {
            5
        },
        limit,
    );
    assert(h == editor_height(bounds, rows as nat));
    let middle: u16 = bounds.y.saturating_add(bounds.height.saturating_sub(h) / 2);
    let x: u16;
    let y: u16;
    match anchor {
        Some(p) => {
            x = p.x;
            if p.y as u32 + 1 + h as u32 <= bounds.bottom() as u32 {
                y = p.y + 1;
            } else if p.y as u32 >= bounds.y as u32 + h as u32 {
                y = p.y - h;
            } else {
                y = middle;
            }
        },
        None => {
            x = bounds.x.saturating_add(bounds.width.saturating_sub(w) / 2);
            y = middle;
        },
    }
    Rect {
        x: keep(x, bounds.x, bounds.right().saturating_sub(w)),
        y: keep(y, bounds.y, bounds.bottom().saturating_sub(h)),
        width: w,
        height: h,
    }
}

/// Inside the bounds, the window never covers the row it belongs to unless no
/// side has room for it.
pub proof fn lemma_editor_leaves_its_row(bounds: Rect, p: Position, rows: nat)
    requires
        bounds.x + bounds.width <= u16::MAX,
        bounds.y + bounds.height <= u16::MAX,
        bounds.width >= 3,
        bounds.holds(p.x, p.y),
        ({
            let h = editor_height(bounds, rows);
            p.y + 1 + h <= bounds.y + bounds.height || p.y >= bounds.y + h
        }),
    ensures
        ({
            let a = editor_area(bounds, Some(p), rows);
            &&& p.y < a.y || a.y + a.height <= p.y
            &&& bounds.x <= a.x && a.x + a.width <= bounds.x + bounds.width
            &&& bounds.y <= a.y && a.y + a.height <= bounds.y + bounds.height
        }),
{
}

// ---- confirmation ---------------------------------------------------------------
/// The question before all comments are deleted.
pub open spec fn clear_question(comments: nat) -> Seq<char> {
    if comments == 1 {
        "delete the 1 comment? [y/n]"@
    } else {
        "delete all "@ + num::decimal(comments) + " comments? [y/n]"@
    }
}

/// The question before all comments are deleted.
pub fn clear_message(comments: usize) -> (r: String)
    ensures
        r@ == clear_question(comments as nat),
{
    if comments == 1 {
        text::copy("delete the 1 comment? [y/n]")
    } else {
        let mut s: String = text::copy("delete all ");
        text::put(&mut s, num::decimal_text(comments as u64).as_str());
        text::put(&mut s, " comments? [y/n]");
        s
    }
}

/// Where a confirmation of so many characters pops up.
pub open spec fn confirm_area(area: Rect, chars: nat) -> Rect {
    let w = style::least(chars as int + 6, style::at_least_zero(area.width - 4));
    Rect {
        x: style::at_most_u16(area.x + style::at_least_zero(area.width - w) / 2),
        y: style::at_most_u16(area.y + style::at_least_zero(area.height - 3) / 2),
        width: w as u16,
        height: 3,
    }
}

/// Where a small yes/no confirmation pops up.
pub fn render_confirm(area: Rect, message: &str) -> (r: Rect)
    ensures
        r == confirm_area(area, message@.len()),
{
    let n: usize = text::to_chars(message).len();
    let wanted: u16 = if n > 65529 {
        65535
    } else {
        n as u16 + 6
    };
    let mut w: u16 = area.width.saturating_sub(4);
    if w > wanted {
        w = wanted;
    }
    Rect {
        x: area.x.saturating_add(area.width.saturating_sub(w) / 2),
        y: area.y.saturating_add(area.height.saturating_sub(3) / 2),
        width: w,
        height: 3,
    }
}

} // verus!
