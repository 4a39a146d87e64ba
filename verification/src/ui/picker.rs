//! The launch menu and the lists of branches and commits.

use crate::deep;
use crate::git::log::{LogEntry, LogEntryView};
use crate::git::scope::{Oid, Scope, ScopeView};
use crate::num;
use crate::text;
use crate::ui::review;
use crate::ui::style;
use crate::ui::style::{Color, LineView, Rect, Style, StyledLine};
use vstd::prelude::*;

verus! {

broadcast use crate::deep::group_deep;

/// What activating a scope-picker entry does.
#[derive(Debug)]
pub enum ScopeAction {
    Open(Scope),
    PickCommit,
    /// Choose an explicit base from the branch list (merge-base semantics).
    PickBase,
}

/// What an action says.
#[verifier::ext_equal]
pub enum ScopeActionView {
    Open(ScopeView),
    PickCommit,
    PickBase,
}

impl View for ScopeAction {
    type V = ScopeActionView;

    open spec fn view(&self) -> ScopeActionView {
        match self {
            ScopeAction::Open(s) => ScopeActionView::Open(s@),
            ScopeAction::PickCommit => ScopeActionView::PickCommit,
            ScopeAction::PickBase => ScopeActionView::PickBase,
        }
    }
}

impl ScopeAction {
    /// A copy of the action.
    pub fn copy(&self) -> (r: ScopeAction)
        ensures
            r@ == self@,
    {
        match self {
            ScopeAction::Open(s) => ScopeAction::Open(s.copy()),
            ScopeAction::PickCommit => ScopeAction::PickCommit,
            ScopeAction::PickBase => ScopeAction::PickBase,
        }
    }
}

/// One entry of the menu.
#[derive(Debug)]
pub struct ScopeItem {
    pub title: String,
    /// e.g. "12 files"; empty for the commit entry.
    pub detail: String,
    pub action: ScopeAction,
}

/// What an entry shows.
#[verifier::ext_equal]
pub struct ItemView {
    pub title: Seq<char>,
    pub detail: Seq<char>,
    pub action: ScopeActionView,
}

impl View for ScopeItem {
    type V = ItemView;

    open spec fn view(&self) -> ItemView {
        ItemView { title: self.title@, detail: self.detail@, action: self.action@ }
    }
}

/// A number of files, in words.
pub open spec fn counted(n: nat) -> Seq<char> {
    if n == 1 {
        "1 file"@
    } else {
        num::decimal(n) + " files"@
    }
}

/// A number of files, in words.
pub fn count_label(n: usize) -> (r: String)
    ensures
        r@ == counted(n as nat),
{
    if n == 1 {
        text::copy("1 file")
    } else {
        let mut s: String = num::decimal_text(n as u64);
        text::put(&mut s, " files");
        s
    }
}

/// The launch menu: "review what?"
#[derive(Debug)]
pub struct ScopePicker {
    pub items: Vec<ScopeItem>,
    pub selected: usize,
    /// Where the entries were last shown.
    inner: Rect,
}

/// What the menu holds.
#[verifier::ext_equal]
pub struct PickerView {
    pub items: Seq<ItemView>,
    pub selected: usize,
    pub inner: Rect,
}

impl View for ScopePicker {
    type V = PickerView;

    closed spec fn view(&self) -> PickerView {
        PickerView { items: deep::deep(self.items@), selected: self.selected, inner: self.inner }
    }
}

/// The entry of a list after a move; an empty list stays where it is.
pub open spec fn stepped(selected: usize, delta: int, len: nat) -> usize {
    if len == 0 {
        selected
    } else {
        review::clamped(selected + delta, 0, len - 1) as usize
    }
}

pub fn step(selected: usize, delta: isize, len: usize) -> (r: usize)
    ensures
        r == stepped(selected, delta as int, len as nat),
{
    if len == 0 {
        return selected;
    }
    let there: i128 = selected as i128 + delta as i128;
    if there < 0 {
        0
    } else if there > len as i128 - 1 {
        len - 1
    } else {
        there as usize
    }
}

/// The entry of a list at a screen position.
pub open spec fn entry_at(
    inner: Rect,
    offset: usize,
    len: nat,
    column: u16,
    row: u16,
) -> Option<usize> {
    if inner.holds(column, row) && offset + (row - inner.y) < len {
        Some((offset + (row - inner.y)) as usize)
    } else {
        None
    }
}

/// The entry of a list at a screen position.
pub fn list_hit(inner: Rect, offset: usize, len: usize, column: u16, row: u16) -> (r: Option<usize>)
    ensures
        r == entry_at(inner, offset, len as nat, column, row),
{
    if !inner.contains(column, row) {
        return None;
    }
    let below: usize = (row - inner.y) as usize;
    if offset < len && below < len - offset {
        Some(offset + below)
    } else {
        None
    }
}

/// The detail of an entry once the counts are known.
pub open spec fn detailed(
    item: ItemView,
    uncommitted: nat,
    staged: nat,
    branch: Option<usize>,
) -> ItemView {
    let detail = match item.action {
        ScopeActionView::Open(ScopeView::Uncommitted) => counted(uncommitted),
        ScopeActionView::Open(ScopeView::Staged) => counted(staged),
        ScopeActionView::Open(ScopeView::BranchFork { .. }) => match branch {
            Some(n) => counted(n as nat),
            None => item.detail,
        },
        _ => item.detail,
    };
    ItemView { detail, ..item }
}

impl PickerView {
    pub open spec fn with_counts(
        self,
        uncommitted: nat,
        staged: nat,
        branch: Option<usize>,
    ) -> PickerView {
        PickerView {
            items: self.items.map_values(
                |i: ItemView| detailed(i, uncommitted, staged, branch),
            ),
            ..self
        }
    }

    pub open spec fn moved(self, delta: int) -> PickerView {
        PickerView { selected: stepped(self.selected, delta, self.items.len()), ..self }
    }

    /// What the selected entry does.
    pub open spec fn chosen(self) -> Option<ScopeActionView> {
        if self.selected < self.items.len() {
            Some(self.items[self.selected as int].action)
        } else {
            None
        }
    }

    pub open spec fn width(area: Rect) -> u16 {
        style::least(60, style::at_least_zero(area.width - 2)) as u16
    }

    /// Where the menu pops up.
    pub open spec fn popup(self, area: Rect) -> Rect {
        let width = PickerView::width(area);
        let height = style::least(self.items.len() as int + 2, area.height as int) as u16;
        Rect {
            x: style::at_most_u16(area.x + style::at_least_zero(area.width - width) / 2),
            y: style::at_most_u16(area.y + style::at_least_zero(area.height - height) / 2),
            width,
            height,
        }
    }

    /// Blanks between title and detail.
    pub open spec fn gap(item: ItemView, width: u16) -> nat {
        style::most(
            style::at_least_zero(width - (9 + item.title.len() + item.detail.len())),
            1,
        ) as nat
    }

    /// Entry `i` as it is shown.
    pub open spec fn shown(self, i: int, width: u16) -> LineView {
        let item = self.items[i];
        style::line(
            seq![
                style::span(
                    " "@ + num::decimal((i + 1) as nat) + "  "@,
                    style::bold_colored(Color::Cyan),
                ),
                style::span(item.title, style::no_style()),
                style::span(text::repeat(' ', PickerView::gap(item, width)), style::no_style()),
                style::span(item.detail, style::colored(Color::DarkGray)),
            ],
        )
    }
}

fn cap_len(len: usize) -> (r: u16)
    ensures
        r == style::at_most_u16(len as int),
{
    if len > 65535 {
        65535
    } else {
        len as u16
    }
}

impl ScopePicker {
    pub fn new(items: Vec<ScopeItem>) -> (r: Self)
        ensures
            r@ == (PickerView { items: deep::deep(items@), selected: 0, inner: style::no_area() }),
    {
        ScopePicker { items, selected: 0, inner: Rect::empty() }
    }

    /// Fill in asynchronously computed file counts.
    pub fn set_counts(&mut self, uncommitted: usize, staged: usize, branch: Option<usize>)
        ensures
            final(self)@ == old(self)@.with_counts(uncommitted as nat, staged as nat, branch),
    {
        let ghost before = self@;
        let mut i: usize = 0;
        while i < self.items.len()
            invariant
                i <= self.items@.len(),
                self.items@.len() == before.items.len(),
                self.selected == before.selected,
                self.inner == before.inner,
                forall|k: int|
                    i <= k < before.items.len() ==> (#[trigger] self.items@[k])@ == before.items[k],
                forall|k: int|
                    0 <= k < i ==> (#[trigger] self.items@[k])@ == detailed(
                        before.items[k],
                        uncommitted as nat,
                        staged as nat,
                        branch,
                    ),
            decreases self.items@.len() - i,
        {
            let label: Option<String> = match &self.items[i].action {
                ScopeAction::Open(Scope::Uncommitted) => Some(count_label(uncommitted)),
                ScopeAction::Open(Scope::Staged) => Some(count_label(staged)),
                ScopeAction::Open(Scope::BranchFork { .. }) => match branch {
                    Some(n) => Some(count_label(n)),
                    None => None,
                },
                _ => None,
            };
            if let Some(l) = label {
                self.items[i].detail = l;
            }
            i += 1;
        }
        assert(self@ =~= before.with_counts(uncommitted as nat, staged as nat, branch));
    }

    /// How many entries there are.
    pub fn len(&self) -> (r: usize)
        ensures
            r == self@.items.len(),
    {
        self.items.len()
    }

    /// What the selected entry does.
    pub fn chosen(&self) -> (r: Option<ScopeAction>)
        ensures
            deep::deep_opt(r) == self@.chosen(),
    {
        if self.selected >= self.items.len() {
            return None;
        }
        assert(self@.items[self.selected as int] == self.items@[self.selected as int]@);
        Some(self.items[self.selected].action.copy())
    }

    /// Screen position -> item index (the menu never scrolls).
    pub fn hit(&self, column: u16, row: u16) -> (r: Option<usize>)
        ensures
            r == entry_at(self@.inner, 0, self@.items.len(), column, row),
    {
        list_hit(self.inner, 0, self.items.len(), column, row)
    }

    pub fn move_selection(&mut self, delta: isize)
        ensures
            final(self)@ == old(self)@.moved(delta as int),
    {
        let ghost before = self@;
        self.selected = step(self.selected, delta, self.items.len());
        assert(self@ =~= before.moved(delta as int));
    }

    /// Selects an entry.
    pub fn select(&mut self, idx: usize)
        ensures
            final(self)@ == (PickerView { selected: idx, ..old(self)@ }),
    {
        let ghost before = self@;
        self.selected = idx;
        assert(self@ =~= (PickerView { selected: idx, ..before }));
    }

    /// Where the menu pops up.
    pub fn popup(&self, area: Rect) -> (r: Rect)
        ensures
            r == self@.popup(area),
    {
        let mut width: u16 = area.width.saturating_sub(2);
        if width > 60 {
            width = 60;
        }
        let wanted: u16 = cap_len(self.items.len()).saturating_add(2);
        let height: u16 = if wanted < area.height {
            wanted
        } else {
            area.height
        };
        Rect {
            x: area.x.saturating_add(area.width.saturating_sub(width) / 2),
            y: area.y.saturating_add(area.height.saturating_sub(height) / 2),
            width,
            height,
        }
    }

    fn paint(&self, i: usize, width: u16) -> (r: StyledLine)
        requires
            i < self@.items.len(),
        ensures
            r@ == self@.shown(i as int, width),
    {
        let item: &ScopeItem = &self.items[i];
        assert(self@.items[i as int] == item@);
        let total: usize = self.items.len();
        assert(i < total);
        let mut number: String = text::copy(" ");
        text::put(&mut number, num::decimal_text(i as u64 + 1).as_str());
        text::put(&mut number, "  ");
        let used: usize = 9usize.saturating_add(
            text::to_chars(item.title.as_str()).len(),
        ).saturating_add(text::to_chars(item.detail.as_str()).len());
        let mut gap: usize = (width as usize).saturating_sub(used);
        if gap < 1 {
            gap = 1;
        }
        let mut blanks: String = String::new();
        text::put_repeat(&mut blanks, ' ', gap);
        assert(blanks@ =~= text::repeat(' ', gap as nat));
        let mut line = StyledLine::new();
        line.put(number.as_str(), Style::bold_fg(Color::Cyan));
        line.put(item.title.as_str(), Style::plain());
        line.put(blanks.as_str(), Style::plain());
        line.put(item.detail.as_str(), Style::fg(Color::DarkGray));
        assert(line@ =~= self@.shown(i as int, width));
        line
    }

    /// The entries as they are shown in a menu of the given width, of which the
    /// border leaves `inner` for them.
    pub fn render(&mut self, width: u16, inner: Rect) -> (r: Vec<StyledLine>)
        ensures
            final(self)@ == (PickerView { inner, ..old(self)@ }),
            r@.len() == final(self)@.items.len(),
            forall|k: int|
                0 <= k < r@.len() ==> (#[trigger] r@[k])@ == final(self)@.shown(k, width),
    {
        let ghost before = self@;
        self.inner = inner;
        assert(self@ =~= (PickerView { inner, ..before }));
        let mut out: Vec<StyledLine> = Vec::new();
        while out.len() < self.items.len()
            invariant
                out@.len() <= self.items@.len(),
                self@.items.len() == self.items@.len(),
                forall|k: int|
                    0 <= k < out@.len() ==> (#[trigger] out@[k])@ == self@.shown(k, width),
            decreases self.items@.len() - out@.len(),
        {
            out.push(self.paint(out.len(), width));
        }
        out
    }
}

/// Branch list: pick a base to diff the current branch against.
#[derive(Debug)]
pub struct BasePicker {
    pub names: Vec<String>,
    pub selected: usize,
    /// First entry shown, and where the entries were last shown.
    offset: usize,
    inner: Rect,
}

/// What the list holds.
#[verifier::ext_equal]
pub struct BaseView {
    pub names: Seq<Seq<char>>,
    pub selected: usize,
    pub offset: usize,
    pub inner: Rect,
}

impl View for BasePicker {
    type V = BaseView;

    closed spec fn view(&self) -> BaseView {
        BaseView {
            names: deep::deep(self.names@),
            selected: self.selected,
            offset: self.offset,
            inner: self.inner,
        }
    }
}

impl BaseView {
    pub open spec fn moved(self, delta: int) -> BaseView {
        BaseView { selected: stepped(self.selected, delta, self.names.len()), ..self }
    }

    /// The last entry, or the first of an empty list.
    pub open spec fn last(self) -> usize {
        style::at_least_zero(self.names.len() - 1) as usize
    }

    /// The selected branch.
    pub open spec fn chosen(self) -> Option<Seq<char>> {
        if self.selected < self.names.len() {
            Some(self.names[self.selected as int])
        } else {
            None
        }
    }
}

impl BasePicker {
    pub fn new(names: Vec<String>) -> (r: Self)
        ensures
            r@ == (BaseView {
                names: deep::deep(names@),
                selected: 0,
                offset: 0,
                inner: style::no_area(),
            }),
    {
        BasePicker { names, selected: 0, offset: 0, inner: Rect::empty() }
    }

    pub fn hit(&self, column: u16, row: u16) -> (r: Option<usize>)
        ensures
            r == entry_at(self@.inner, self@.offset, self@.names.len(), column, row),
    {
        list_hit(self.inner, self.offset, self.names.len(), column, row)
    }

    pub fn move_selection(&mut self, delta: isize)
        ensures
            final(self)@ == old(self)@.moved(delta as int),
    {
        let ghost before = self@;
        self.selected = step(self.selected, delta, self.names.len());
        assert(self@ =~= before.moved(delta as int));
    }

    /// The selected branch.
    pub fn chosen(&self) -> (r: Option<String>)
        ensures
            deep::deep_opt(r) == self@.chosen(),
    {
        if self.selected >= self.names.len() {
            return None;
        }
        assert(self@.names[self.selected as int] == self.names@[self.selected as int]@);
        Some(text::copy(self.names[self.selected].as_str()))
    }

    /// The selected entry.
    pub fn selection(&self) -> (r: usize)
        ensures
            r == self@.selected,
    {
        self.selected
    }

    /// Selects an entry.
    pub fn select(&mut self, idx: usize)
        ensures
            final(self)@ == (BaseView { selected: idx, ..old(self)@ }),
    {
        let ghost before = self@;
        self.selected = idx;
        assert(self@ =~= (BaseView { selected: idx, ..before }));
    }

    /// Selects the last entry.
    pub fn select_last(&mut self)
        ensures
            final(self)@ == (BaseView { selected: old(self)@.last(), ..old(self)@ }),
    {
        self.select(
            if self.names.len() == 0 {
                0
            } else {
                self.names.len() - 1
            },
        );
    }

    /// The first entry that was last shown.
    pub fn offset(&self) -> (r: usize)
        ensures
            r == self@.offset,
    {
        self.offset
    }

    /// Takes over where the entries were shown, and which came first.
    pub fn placed(&mut self, inner: Rect, offset: usize)
        ensures
            final(self)@ == (BaseView { inner, offset, ..old(self)@ }),
    {
        let ghost before = self@;
        self.inner = inner;
        self.offset = offset;
        assert(self@ =~= (BaseView { inner, offset, ..before }));
    }

    /// The entries as they are shown.
    pub fn render(&self) -> (r: Vec<String>)
        ensures
            r@.len() == self@.names.len(),
            forall|k: int|
                0 <= k < r@.len() ==> (#[trigger] r@[k])@ == " "@ + self@.names[k],
    {
        let mut out: Vec<String> = Vec::new();
        while out.len() < self.names.len()
            invariant
                out@.len() <= self.names@.len(),
                self@.names == deep::deep(self.names@),
                forall|k: int|
                    0 <= k < out@.len() ==> (#[trigger] out@[k])@ == " "@ + self@.names[k],
            decreases self.names@.len() - out@.len(),
        {
            let mut line: String = text::copy(" ");
            text::put(&mut line, self.names[out.len()].as_str());
            out.push(line);
        }
        out
    }
}

/// The commit list: pick one commit to review.
#[derive(Debug)]
pub struct LogPicker {
    pub entries: Vec<LogEntry>,
    pub selected: usize,
    /// Range base marked with Space; Enter then reviews marked..selected.
    pub marked: Option<Oid>,
    offset: usize,
    inner: Rect,
}

/// What the list holds.
#[verifier::ext_equal]
pub struct LogView {
    pub entries: Seq<LogEntryView>,
    pub selected: usize,
    pub marked: Option<Seq<char>>,
    pub offset: usize,
    pub inner: Rect,
}

impl View for LogPicker {
    type V = LogView;

    closed spec fn view(&self) -> LogView {
        LogView {
            entries: deep::deep(self.entries@),
            selected: self.selected,
            marked: deep::deep_opt(self.marked),
            offset: self.offset,
            inner: self.inner,
        }
    }
}

/// An author cut or padded to twelve columns.
pub open spec fn author_column(author: Seq<char>) -> Seq<char> {
    if author.len() > 12 {
        author.take(12)
    } else {
        text::pad_right(author, 12)
    }
}

impl LogView {
    pub open spec fn moved(self, delta: int) -> LogView {
        LogView { selected: stepped(self.selected, delta, self.entries.len()), ..self }
    }

    /// The last entry, or the first of an empty list.
    pub open spec fn last(self) -> usize {
        style::at_least_zero(self.entries.len() - 1) as usize
    }

    /// The list after the selected commit was marked, or unmarked.
    pub open spec fn toggled(self) -> LogView {
        if self.selected < self.entries.len() {
            let id = self.entries[self.selected as int].id;
            LogView {
                marked: if self.marked == Some(id) {
                    None
                } else {
                    Some(id)
                },
                ..self
            }
        } else {
            self
        }
    }

    /// What activating the selected commit opens: the range from the mark, if
    /// another commit is marked, else the commit itself.
    pub open spec fn opens(self) -> Option<ScopeView> {
        if self.selected < self.entries.len() {
            let e = self.entries[self.selected as int];
            match self.marked {
                Some(from) if from != e.id => Some(ScopeView::Range { from, to: e.id }),
                _ => Some(ScopeView::Commit { id: e.id, summary: e.summary }),
            }
        } else {
            None
        }
    }

    /// Entry `i` as it is shown.
    pub open spec fn shown(self, i: int) -> LineView {
        let e = self.entries[i];
        style::line(
            seq![
                if self.marked == Some(e.id) {
                    style::span("●"@, style::bold_colored(Color::Cyan))
                } else {
                    style::span(" "@, style::no_style())
                },
                style::span(e.short + " "@, style::colored(Color::Yellow)),
                style::span(text::pad_left(e.age, 3) + " "@, style::colored(Color::DarkGray)),
                style::span(author_column(e.author) + " "@, style::colored(Color::Cyan)),
                style::span(e.summary, style::no_style()),
            ],
        )
    }
}

fn author_text(author: &str) -> (r: String)
    ensures
        r@ == author_column(author@),
{
    let cs: Vec<char> = text::to_chars(author);
    if cs.len() > 12 {
        let r: String = text::text_range(cs.as_slice(), 0, 12);
        assert(r@ =~= author@.take(12));
        r
    } else {
        text::padded_right(author, 12)
    }
}

impl LogPicker {
    pub fn new(entries: Vec<LogEntry>) -> (r: Self)
        ensures
            r@ == (LogView {
                entries: deep::deep(entries@),
                selected: 0,
                marked: None,
                offset: 0,
                inner: style::no_area(),
            }),
    {
        LogPicker { entries, selected: 0, marked: None, offset: 0, inner: Rect::empty() }
    }

    /// Is a commit marked?
    pub fn has_mark(&self) -> (r: bool)
        ensures
            r == (self@.marked is Some),
    {
        self.marked.is_some()
    }

    fn is_marked(&self, id: &Oid) -> (r: bool)
        ensures
            r == (self@.marked == Some(id@)),
    {
        match &self.marked {
            Some(m) => m.same(id),
            None => false,
        }
    }

    /// Space: mark the selected commit as range base (again to unmark).
    pub fn toggle_mark(&mut self)
        ensures
            final(self)@ == old(self)@.toggled(),
    {
        let ghost before = self@;
        if self.selected < self.entries.len() {
            let id: Oid = self.entries[self.selected].id.copy();
            assert(before.entries[self.selected as int].id == id@);
            self.marked = if self.is_marked(&id) {
                None
            } else {
                Some(id)
            };
        }
        assert(self@ =~= before.toggled());
    }

    pub fn hit(&self, column: u16, row: u16) -> (r: Option<usize>)
        ensures
            r == entry_at(self@.inner, self@.offset, self@.entries.len(), column, row),
    {
        list_hit(self.inner, self.offset, self.entries.len(), column, row)
    }

    pub fn move_selection(&mut self, delta: isize)
        ensures
            final(self)@ == old(self)@.moved(delta as int),
    {
        let ghost before = self@;
        self.selected = step(self.selected, delta, self.entries.len());
        assert(self@ =~= before.moved(delta as int));
    }

    /// The selected entry.
    pub fn selection(&self) -> (r: usize)
        ensures
            r == self@.selected,
    {
        self.selected
    }

    /// Selects an entry.
    pub fn select(&mut self, idx: usize)
        ensures
            final(self)@ == (LogView { selected: idx, ..old(self)@ }),
    {
        let ghost before = self@;
        self.selected = idx;
        assert(self@ =~= (LogView { selected: idx, ..before }));
    }

    /// Selects the last entry.
    pub fn select_last(&mut self)
        ensures
            final(self)@ == (LogView { selected: old(self)@.last(), ..old(self)@ }),
    {
        self.select(
            if self.entries.len() == 0 {
                0
            } else {
                self.entries.len() - 1
            },
        );
    }

    /// What activating the selected commit opens.
    pub fn chosen(&self) -> (r: Option<Scope>)
        ensures
            deep::deep_opt(r) == self@.opens(),
    {
        if self.selected >= self.entries.len() {
            return None;
        }
        let e: &LogEntry = &self.entries[self.selected];
        assert(self@.entries[self.selected as int] == e@);
        match &self.marked {
            Some(from) => if !from.same(&e.id) {
                return Some(Scope::Range { from: from.copy(), to: e.id.copy() });
            },
            None => {},
        }
        Some(Scope::Commit { id: e.id.copy(), summary: text::copy(e.summary.as_str()) })
    }

    /// The first entry that was last shown.
    pub fn offset(&self) -> (r: usize)
        ensures
            r == self@.offset,
    {
        self.offset
    }

    /// Takes over where the entries were shown, and which came first.
    pub fn placed(&mut self, inner: Rect, offset: usize)
        ensures
            final(self)@ == (LogView { inner, offset, ..old(self)@ }),
    {
        let ghost before = self@;
        self.inner = inner;
        self.offset = offset;
        assert(self@ =~= (LogView { inner, offset, ..before }));
    }

    fn paint(&self, i: usize) -> (r: StyledLine)
        requires
            i < self@.entries.len(),
        ensures
            r@ == self@.shown(i as int),
    {
        let e: &LogEntry = &self.entries[i];
        assert(self@.entries[i as int] == e@);
        let mut line = StyledLine::new();
        if self.is_marked(&e.id) {
            line.put("●", Style::bold_fg(Color::Cyan));
        } else {
            line.put(" ", Style::plain());
        }
        let mut short: String = text::copy(e.short.as_str());
        text::put(&mut short, " ");
        line.put(short.as_str(), Style::fg(Color::Yellow));
        let mut age: String = text::padded_left(e.age.as_str(), 3);
        text::put(&mut age, " ");
        line.put(age.as_str(), Style::fg(Color::DarkGray));
        let mut author: String = author_text(e.author.as_str());
        text::put(&mut author, " ");
        line.put(author.as_str(), Style::fg(Color::Cyan));
        line.put(e.summary.as_str(), Style::plain());
        assert(line@ =~= self@.shown(i as int));
        line
    }

    /// The entries as they are shown.
    pub fn render(&self) -> (r: Vec<StyledLine>)
        ensures
            r@.len() == self@.entries.len(),
            forall|k: int| 0 <= k < r@.len() ==> (#[trigger] r@[k])@ == self@.shown(k),
    {
        let mut out: Vec<StyledLine> = Vec::new();
        while out.len() < self.entries.len()
            invariant
                out@.len() <= self.entries@.len(),
                self@.entries.len() == self.entries@.len(),
                forall|k: int| 0 <= k < out@.len() ==> (#[trigger] out@[k])@ == self@.shown(k),
            decreases self.entries@.len() - out@.len(),
        {
            out.push(self.paint(out.len()));
        }
        out
    }
}

} // verus!
