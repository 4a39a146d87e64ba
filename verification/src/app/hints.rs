//! The command bar's hints and the title bar.

use crate::app::review::{Focus, ReviewState, ReviewView};
use crate::app::state::{App, AppView, Overlay, OverlayView, Screen, ScreenView};
use crate::deep;
use crate::keymap;
use crate::keymap::{Action, Binding, BindingView, Hint, HintView};
use crate::num;
use crate::text;
use crate::ui::picker;
use crate::ui::style;
use crate::ui::style::{Color, LineView, SpanView, Style, StyledLine};
use vstd::prelude::*;

verus! {

broadcast use crate::deep::group_deep;

/// Below this width the bar keeps to what cannot be missed.
pub const COMPACT_WIDTH: u16 = 70;

/// A hint whose keys come from a table.
pub open spec fn bound(table: Seq<BindingView>, actions: Seq<Action>, desc: Seq<char>) -> HintView {
    HintView { key: keymap::label_of(table, actions), desc }
}

/// A hint whose keys live outside the tables.
pub open spec fn raw(key: Seq<char>, desc: Seq<char>) -> HintView {
    HintView { key, desc }
}

fn put_bound(out: &mut Vec<Hint>, table: &[Binding], actions: Vec<Action>, desc: &'static str)
    ensures
        deep::deep(final(out)@) == deep::deep(old(out)@).push(
            bound(deep::deep(table@), actions@, desc@),
        ),
{
    let h = Hint { key: keymap::keys_label(table, actions.as_slice()), desc };
    assert(h@ =~= bound(deep::deep(table@), actions@, desc@));
    out.push(h);
}

fn put_raw(out: &mut Vec<Hint>, key: &str, desc: &'static str)
    ensures
        deep::deep(final(out)@) == deep::deep(old(out)@).push(raw(key@, desc@)),
{
    let h = Hint { key: text::copy(key), desc };
    assert(h@ =~= raw(key@, desc@));
    out.push(h);
}

// ---- overlays ------------------------------------------------------------------------
/// The hints of an overlay.
pub open spec fn overlay_hints(o: OverlayView) -> Seq<HintView> {
    match o {
        OverlayView::Help { .. } => seq![
            bound(keymap::help_view_keys(), seq![Action::Down, Action::Up], "scroll"@),
            raw("q/Esc/?"@, "close help"@),
        ],
        OverlayView::Comment(_) => seq![
            raw("←↑↓→"@, "move"@),
            raw("⏎"@, "save"@),
            raw("Alt+⏎"@, "newline"@),
            raw("Esc"@, "cancel"@),
        ],
        OverlayView::ConfirmClear => seq![
            raw("y"@, "delete all comments"@),
            raw("any key"@, "cancel"@),
        ],
        OverlayView::Search(_) => seq![raw("⏎"@, "search"@), raw("Esc"@, "cancel"@)],
        OverlayView::ExportPath { .. } => seq![
            raw("⏎"@, "write file"@),
            raw("Esc"@, "cancel"@),
        ],
        OverlayView::ExportPreview(_) => {
            let t = keymap::export_preview_keys();
            seq![
                bound(t, seq![Action::Down, Action::Up], "scroll"@),
                bound(t, seq![Action::GotoTop, Action::GotoBottom], "top/bottom"@),
                bound(t, seq![Action::CopyMarkdown], "copy markdown"@),
                bound(t, seq![Action::WriteFile], "write file"@),
                raw("Esc"@, "close"@),
            ]
        },
    }
}

fn hints_of_overlay(o: &Overlay) -> (r: Vec<Hint>)
    ensures
        deep::deep(r@) == overlay_hints(o@),
{
    let mut h: Vec<Hint> = Vec::new();
    match o {
        Overlay::Help { .. } => {
            let t: Vec<Binding> = keymap::help_view();
            put_bound(&mut h, t.as_slice(), keymap::two(Action::Down, Action::Up), "scroll");
            put_raw(&mut h, "q/Esc/?", "close help");
        },
        Overlay::Comment(_) => {
            put_raw(&mut h, "←↑↓→", "move");
            put_raw(&mut h, "⏎", "save");
            put_raw(&mut h, "Alt+⏎", "newline");
            put_raw(&mut h, "Esc", "cancel");
        },
        Overlay::ConfirmClear => {
            put_raw(&mut h, "y", "delete all comments");
            put_raw(&mut h, "any key", "cancel");
        },
        Overlay::Search(_) => {
            put_raw(&mut h, "⏎", "search");
            put_raw(&mut h, "Esc", "cancel");
        },
        Overlay::ExportPath { .. } => {
            put_raw(&mut h, "⏎", "write file");
            put_raw(&mut h, "Esc", "cancel");
        },
        Overlay::ExportPreview(_) => {
            let t: Vec<Binding> = keymap::export_preview();
            put_bound(&mut h, t.as_slice(), keymap::two(Action::Down, Action::Up), "scroll");
            put_bound(
                &mut h,
                t.as_slice(),
                keymap::two(Action::GotoTop, Action::GotoBottom),
                "top/bottom",
            );
            put_bound(&mut h, t.as_slice(), keymap::one(Action::CopyMarkdown), "copy markdown");
            put_bound(&mut h, t.as_slice(), keymap::one(Action::WriteFile), "write file");
            put_raw(&mut h, "Esc", "close");
        },
    }
    assert(deep::deep(h@) =~= overlay_hints(o@));
    h
}

// ---- lists ---------------------------------------------------------------------------
/// The hints of the menu.
pub open spec fn menu_hints(entries: nat) -> Seq<HintView> {
    let t = keymap::picker_keys();
    let all = seq![
        raw("1-9"@, "open"@),
        bound(t, seq![Action::Down, Action::Up], "select"@),
        bound(t, seq![Action::Activate], "open"@),
        raw("?"@, "help"@),
        bound(t, seq![Action::Quit], "quit"@),
    ];
    if entries == 0 {
        all.take(2)
    } else {
        all
    }
}

/// The hints of the commit list.
pub open spec fn log_hints(marked: bool) -> Seq<HintView> {
    let t = keymap::log_keys();
    if marked {
        seq![
            bound(t, seq![Action::Down, Action::Up], "select"@),
            bound(t, seq![Action::Activate], "review marked ⇢ selected"@),
            bound(t, seq![Action::MarkRange], "unmark"@),
            bound(t, seq![Action::Back], "back"@),
        ]
    } else {
        seq![
            bound(t, seq![Action::Down, Action::Up], "select"@),
            bound(t, seq![Action::Activate], "review commit"@),
            bound(t, seq![Action::MarkRange], "mark range start"@),
            bound(t, seq![Action::Back], "back"@),
            raw("?"@, "help"@),
        ]
    }
}

/// The hints of the branch list.
pub open spec fn base_hints() -> Seq<HintView> {
    let t = keymap::base_keys();
    seq![
        bound(t, seq![Action::Down, Action::Up], "select"@),
        bound(t, seq![Action::Activate], "compare against"@),
        bound(t, seq![Action::Back], "back"@),
        raw("?"@, "help"@),
    ]
}

fn hints_of_menu(entries: usize) -> (r: Vec<Hint>)
    ensures
        deep::deep(r@) == menu_hints(entries as nat),
{
    let t: Vec<Binding> = keymap::picker();
    let mut h: Vec<Hint> = Vec::new();
    put_raw(&mut h, "1-9", "open");
    put_bound(&mut h, t.as_slice(), keymap::two(Action::Down, Action::Up), "select");
    if entries > 0 {
        put_bound(&mut h, t.as_slice(), keymap::one(Action::Activate), "open");
        put_raw(&mut h, "?", "help");
        put_bound(&mut h, t.as_slice(), keymap::one(Action::Quit), "quit");
    }
    assert(deep::deep(h@) =~= menu_hints(entries as nat));
    h
}

fn hints_of_log(marked: bool) -> (r: Vec<Hint>)
    ensures
        deep::deep(r@) == log_hints(marked),
{
    let t: Vec<Binding> = keymap::log();
    let mut h: Vec<Hint> = Vec::new();
    put_bound(&mut h, t.as_slice(), keymap::two(Action::Down, Action::Up), "select");
    if marked {
        put_bound(
            &mut h,
            t.as_slice(),
            keymap::one(Action::Activate),
            "review marked ⇢ selected",
        );
        put_bound(&mut h, t.as_slice(), keymap::one(Action::MarkRange), "unmark");
        put_bound(&mut h, t.as_slice(), keymap::one(Action::Back), "back");
    } else {
        put_bound(&mut h, t.as_slice(), keymap::one(Action::Activate), "review commit");
        put_bound(&mut h, t.as_slice(), keymap::one(Action::MarkRange), "mark range start");
        put_bound(&mut h, t.as_slice(), keymap::one(Action::Back), "back");
        put_raw(&mut h, "?", "help");
    }
    assert(deep::deep(h@) =~= log_hints(marked));
    h
}

fn hints_of_bases() -> (r: Vec<Hint>)
    ensures
        deep::deep(r@) == base_hints(),
{
    let t: Vec<Binding> = keymap::base();
    let mut h: Vec<Hint> = Vec::new();
    put_bound(&mut h, t.as_slice(), keymap::two(Action::Down, Action::Up), "select");
    put_bound(&mut h, t.as_slice(), keymap::one(Action::Activate), "compare against");
    put_bound(&mut h, t.as_slice(), keymap::one(Action::Back), "back");
    put_raw(&mut h, "?", "help");
    assert(deep::deep(h@) =~= base_hints());
    h
}

// ---- the review ----------------------------------------------------------------------
/// The hint for the current file's full diff.
pub open spec fn full_hint(status: Option<(bool, bool)>) -> Seq<HintView> {
    match status {
        None => Seq::empty(),
        Some((expanded, loading)) => seq![
            bound(
                keymap::review_keys(),
                seq![Action::Activate],
                if loading {
                    "cancel full diff"@
                } else if expanded {
                    "collapse full diff"@
                } else {
                    "show full diff"@
                },
            ),
        ],
    }
}

/// The hints of a live search.
pub open spec fn search_hints(searching: bool) -> Seq<HintView> {
    if searching {
        seq![
            bound(keymap::review_keys(), seq![Action::NextMatch, Action::PrevMatch], "match"@),
            raw("Esc"@, "clear search"@),
        ]
    } else {
        Seq::empty()
    }
}

/// The hints of the tree pane; they yield on a narrow screen.
pub open spec fn tree_hints(width: u16, show_tree: bool) -> Seq<HintView> {
    let t = keymap::review_keys();
    if width < COMPACT_WIDTH {
        Seq::empty()
    } else {
        seq![
            bound(t, seq![Action::FocusTree], "pick file"@),
            bound(
                t,
                seq![Action::ToggleTree],
                if show_tree {
                    "hide tree"@
                } else {
                    "show tree"@
                },
            ),
        ]
    }
}

/// The hints for plain reading: the primary actions. Hunk and comment
/// navigation and the tree's width are left to the help.
pub open spec fn reading_hints(
    status: Option<(bool, bool)>,
    searching: bool,
    width: u16,
    show_tree: bool,
) -> Seq<HintView> {
    let t = keymap::review_keys();
    seq![
        bound(t, seq![Action::Down, Action::Up], "scroll"@),
        bound(t, seq![Action::NextFile, Action::PrevFile], "file"@),
    ] + full_hint(status) + search_hints(searching) + seq![
        bound(t, seq![Action::Search], "search"@),
        bound(t, seq![Action::Reload], "reload"@),
        bound(t, seq![Action::Comment], "comment"@),
    ] + tree_hints(width, show_tree) + seq![
        bound(t, seq![Action::SwitchScope], "scope"@),
        raw("?"@, "help"@),
    ]
}

/// The hints of an empty review.
pub open spec fn empty_hints() -> Seq<HintView> {
    let t = keymap::review_keys();
    seq![
        bound(t, seq![Action::Reload], "reload"@),
        bound(t, seq![Action::SwitchScope], "switch scope"@),
        raw("?"@, "help"@),
    ]
}

/// The hints of the pager.
pub open spec fn pager_hints() -> Seq<HintView> {
    let t = keymap::file_view_keys();
    seq![
        bound(t, seq![Action::Down, Action::Up], "scroll"@),
        bound(t, seq![Action::GotoTop, Action::GotoBottom], "top/bottom"@),
        bound(t, seq![Action::OpenEditor], "open in $EDITOR"@),
        bound(t, seq![Action::Back], "back to diff"@),
    ]
}

/// The hints on a stub.
pub open spec fn stub_hints() -> Seq<HintView> {
    let t = keymap::review_keys();
    seq![
        bound(t, seq![Action::Activate], "expand"@),
        bound(t, seq![Action::Down, Action::Up], "scroll"@),
        bound(t, seq![Action::NextFile, Action::PrevFile], "file"@),
        bound(t, seq![Action::SwitchScope], "scope"@),
        raw("?"@, "help"@),
    ]
}

/// The hints of a selection.
pub open spec fn selection_hints() -> Seq<HintView> {
    let t = keymap::review_keys();
    seq![
        bound(t, seq![Action::Down, Action::Up], "extend"@),
        bound(t, seq![Action::Comment], "comment"@),
        bound(t, seq![Action::CopyCode], "copy code"@),
        bound(t, seq![Action::CopyPatch], "copy patch"@),
        raw("Esc/v"@, "cancel"@),
    ]
}

/// The hints of an active tree.
pub open spec fn picking_hints() -> Seq<HintView> {
    let t = keymap::review_keys();
    seq![
        bound(t, seq![Action::Down, Action::Up], "select"@),
        bound(t, seq![Action::Activate], "open"@),
        raw("Esc/Tab"@, "back to diff"@),
        bound(
            t,
            seq![Action::NarrowTree, Action::WidenTree, Action::AutoTreeWidth],
            "tree width"@,
        ),
        bound(t, seq![Action::SwitchScope], "scope"@),
        raw("?"@, "help"@),
    ]
}

/// The hints of a review.
pub open spec fn review_hints(r: ReviewView, width: u16) -> Seq<HintView> {
    if r.diff.files.len() == 0 {
        empty_hints()
    } else if r.file_view is Some {
        pager_hints()
    } else if r.stream.stub_at_cursor() is Some {
        stub_hints()
    } else if r.stream.selection is Some {
        selection_hints()
    } else if r.focus == Focus::Tree {
        picking_hints()
    } else {
        reading_hints(r.full_status(), r.stream.search is Some, width, r.show_tree)
    }
}

fn hints_of_empty(t: &[Binding]) -> (r: Vec<Hint>)
    requires
        deep::deep(t@) == keymap::review_keys(),
    ensures
        deep::deep(r@) == empty_hints(),
{
    let mut h: Vec<Hint> = Vec::new();
    put_bound(&mut h, t, keymap::one(Action::Reload), "reload");
    put_bound(&mut h, t, keymap::one(Action::SwitchScope), "switch scope");
    put_raw(&mut h, "?", "help");
    assert(deep::deep(h@) =~= empty_hints());
    h
}

fn hints_of_pager() -> (r: Vec<Hint>)
    ensures
        deep::deep(r@) == pager_hints(),
{
    let t: Vec<Binding> = keymap::file_view();
    let mut h: Vec<Hint> = Vec::new();
    put_bound(&mut h, t.as_slice(), keymap::two(Action::Down, Action::Up), "scroll");
    put_bound(
        &mut h,
        t.as_slice(),
        keymap::two(Action::GotoTop, Action::GotoBottom),
        "top/bottom",
    );
    put_bound(&mut h, t.as_slice(), keymap::one(Action::OpenEditor), "open in $EDITOR");
    put_bound(&mut h, t.as_slice(), keymap::one(Action::Back), "back to diff");
    assert(deep::deep(h@) =~= pager_hints());
    h
}

fn hints_of_stub(t: &[Binding]) -> (r: Vec<Hint>)
    requires
        deep::deep(t@) == keymap::review_keys(),
    ensures
        deep::deep(r@) == stub_hints(),
{
    let mut h: Vec<Hint> = Vec::new();
    put_bound(&mut h, t, keymap::one(Action::Activate), "expand");
    put_bound(&mut h, t, keymap::two(Action::Down, Action::Up), "scroll");
    put_bound(&mut h, t, keymap::two(Action::NextFile, Action::PrevFile), "file");
    put_bound(&mut h, t, keymap::one(Action::SwitchScope), "scope");
    put_raw(&mut h, "?", "help");
    assert(deep::deep(h@) =~= stub_hints());
    h
}

fn hints_of_selection(t: &[Binding]) -> (r: Vec<Hint>)
    requires
        deep::deep(t@) == keymap::review_keys(),
    ensures
        deep::deep(r@) == selection_hints(),
{
    let mut h: Vec<Hint> = Vec::new();
    put_bound(&mut h, t, keymap::two(Action::Down, Action::Up), "extend");
    put_bound(&mut h, t, keymap::one(Action::Comment), "comment");
    put_bound(&mut h, t, keymap::one(Action::CopyCode), "copy code");
    put_bound(&mut h, t, keymap::one(Action::CopyPatch), "copy patch");
    put_raw(&mut h, "Esc/v", "cancel");
    assert(deep::deep(h@) =~= selection_hints());
    h
}

fn hints_of_picking(t: &[Binding]) -> (r: Vec<Hint>)
    requires
        deep::deep(t@) == keymap::review_keys(),
    ensures
        deep::deep(r@) == picking_hints(),
{
    let mut h: Vec<Hint> = Vec::new();
    put_bound(&mut h, t, keymap::two(Action::Down, Action::Up), "select");
    put_bound(&mut h, t, keymap::one(Action::Activate), "open");
    put_raw(&mut h, "Esc/Tab", "back to diff");
    put_bound(
        &mut h,
        t,
        keymap::three(Action::NarrowTree, Action::WidenTree, Action::AutoTreeWidth),
        "tree width",
    );
    put_bound(&mut h, t, keymap::one(Action::SwitchScope), "scope");
    put_raw(&mut h, "?", "help");
    assert(deep::deep(h@) =~= picking_hints());
    h
}

fn hints_of_reading(
    t: &[Binding],
    status: Option<(bool, bool)>,
    searching: bool,
    width: u16,
    show_tree: bool,
) -> (r: Vec<Hint>)
    requires
        deep::deep(t@) == keymap::review_keys(),
    ensures
        deep::deep(r@) == reading_hints(status, searching, width, show_tree),
{
    let mut h: Vec<Hint> = Vec::new();
    put_bound(&mut h, t, keymap::two(Action::Down, Action::Up), "scroll");
    put_bound(&mut h, t, keymap::two(Action::NextFile, Action::PrevFile), "file");
    let ghost head = deep::deep(h@);
    match status {
        Some((expanded, loading)) => {
            put_bound(
                &mut h,
                t,
                keymap::one(Action::Activate),
                if loading {
                    "cancel full diff"
                } else if expanded {
                    "collapse full diff"
                } else {
                    "show full diff"
                },
            );
        },
        None => {},
    }
    assert(deep::deep(h@) =~= head + full_hint(status));
    let ghost head = deep::deep(h@);
    if searching {
        put_bound(&mut h, t, keymap::two(Action::NextMatch, Action::PrevMatch), "match");
        put_raw(&mut h, "Esc", "clear search");
    }
    assert(deep::deep(h@) =~= head + search_hints(searching));
    put_bound(&mut h, t, keymap::one(Action::Search), "search");
    put_bound(&mut h, t, keymap::one(Action::Reload), "reload");
    put_bound(&mut h, t, keymap::one(Action::Comment), "comment");
    let ghost head = deep::deep(h@);
    if width >= COMPACT_WIDTH {
        put_bound(&mut h, t, keymap::one(Action::FocusTree), "pick file");
        put_bound(
            &mut h,
            t,
            keymap::one(Action::ToggleTree),
            if show_tree {
                "hide tree"
            } else {
                "show tree"
            },
        );
    }
    assert(deep::deep(h@) =~= head + tree_hints(width, show_tree));
    put_bound(&mut h, t, keymap::one(Action::SwitchScope), "scope");
    put_raw(&mut h, "?", "help");
    assert(deep::deep(h@) =~= reading_hints(status, searching, width, show_tree));
    h
}

fn hints_of_review(r: &ReviewState, width: u16) -> (h: Vec<Hint>)
    requires
        r.wf(),
    ensures
        deep::deep(h@) == review_hints(r@, width),
{
    let table: Vec<Binding> = keymap::review();
    let t: &[Binding] = table.as_slice();
    if r.diff.files.len() == 0 {
        hints_of_empty(t)
    } else if r.file_view.is_some() {
        hints_of_pager()
    } else if r.stream.large_stub_at_cursor().is_some() {
        hints_of_stub(t)
    } else if r.stream.has_selection() {
        hints_of_selection(t)
    } else if r.focus == Focus::Tree {
        hints_of_picking(t)
    } else {
        hints_of_reading(
            t,
            r.full_context_status(),
            r.stream.has_search(),
            width,
            r.show_tree,
        )
    }
}

// ---- the bar -------------------------------------------------------------------------
impl AppView {
    /// The table whose bindings apply to the next key press.
    pub open spec fn active_keys(self) -> Seq<BindingView> {
        match self.overlay {
            Some(OverlayView::Help { .. }) => keymap::help_view_keys(),
            Some(OverlayView::ExportPreview(_)) => keymap::export_preview_keys(),
            _ => match self.screen {
                ScreenView::Picker(_) => keymap::picker_keys(),
                ScreenView::Log(_) => keymap::log_keys(),
                ScreenView::Base(_) => keymap::base_keys(),
                ScreenView::Review(r) => if r.file_view is Some {
                    keymap::file_view_keys()
                } else {
                    keymap::review_keys()
                },
            },
        }
    }

    /// The hints valid right now. While a chord prefix is held they list what it
    /// can still complete.
    pub open spec fn hints(self, width: u16) -> Seq<HintView> {
        match (self.pending_key, self.overlay) {
            (Some(prefix), _) => keymap::completions(self.active_keys(), prefix).push(
                raw("other"@, "cancel"@),
            ),
            (None, Some(o)) => overlay_hints(o),
            (None, None) => match self.screen {
                ScreenView::Picker(p) => menu_hints(p.items.len()),
                ScreenView::Log(l) => log_hints(l.marked is Some),
                ScreenView::Base(_) => base_hints(),
                ScreenView::Review(r) => review_hints(r, width),
            },
        }
    }
}

impl App {
    /// The table whose bindings apply to the next key press.
    pub fn active_table(&self) -> (r: Vec<Binding>)
        ensures
            deep::deep(r@) == self@.active_keys(),
    {
        match &self.overlay {
            Some(Overlay::Help { .. }) => {
                return keymap::help_view();
            },
            Some(Overlay::ExportPreview(_)) => {
                return keymap::export_preview();
            },
            _ => {},
        }
        match &self.screen {
            Screen::Picker(_) => keymap::picker(),
            Screen::Log(_) => keymap::log(),
            Screen::Base(_) => keymap::base(),
            Screen::Review(r) => if r.file_view.is_some() {
                keymap::file_view()
            } else {
                keymap::review()
            },
        }
    }

    /// The hints for a bar of the given width. Key labels come from the binding
    /// tables; only descriptions live here.
    pub fn hints(&self, width: u16) -> (r: Vec<Hint>)
        requires
            self.wf(),
        ensures
            deep::deep(r@) == self@.hints(width),
    {
        if let Some(prefix) = self.pending_key {
            let table: Vec<Binding> = self.active_table();
            let mut h: Vec<Hint> = keymap::chords_from(table.as_slice(), prefix);
            put_raw(&mut h, "other", "cancel");
            return h;
        }
        match &self.overlay {
            Some(o) => {
                return hints_of_overlay(o);
            },
            None => {},
        }
        match &self.screen {
            Screen::Picker(p) => hints_of_menu(p.len()),
            Screen::Log(l) => hints_of_log(l.has_mark()),
            Screen::Base(_) => hints_of_bases(),
            Screen::Review(r) => hints_of_review(r, width),
        }
    }
}

// ---- the title bar -------------------------------------------------------------------
/// The name of the program.
pub open spec fn name_span() -> SpanView {
    style::span(
        " gittre "@,
        Style { fg: Some(Color::Black), bg: Some(Color::Cyan), bold: true, ..style::no_style() },
    )
}

/// How long "reloaded" stays in the title bar, in milliseconds.
pub const RELOADED_FOR: u64 = 1500;

impl AppView {
    /// Has a reload arrived just before `now`?
    pub open spec fn just_reloaded(self, now: u64) -> bool {
        self.reloaded_at matches Some(t) && now - t < RELOADED_FOR
    }

    /// What the title bar says of a review at the time `now`.
    pub open spec fn review_title(self, r: ReviewView, now: u64) -> Seq<SpanView> {
        seq![
            style::span(" "@ + r.scope.label(), style::only_bold()),
            style::span("  "@ + picker::counted(r.diff.files.len()) + " "@, style::no_style()),
            style::span(
                "+"@ + num::decimal(r.diff.additions as nat) + " "@,
                style::colored(Color::Green),
            ),
            style::span("−"@ + num::decimal(r.diff.deletions as nat), style::colored(Color::Red)),
        ] + (if self.store.comments.len() > 0 {
            seq![
                style::span(
                    "  ✎ "@ + num::decimal(self.store.comments.len()),
                    style::colored(Color::Cyan),
                ),
            ]
        } else {
            Seq::empty()
        }) + (match self.comment_warning {
            Some(w) => seq![style::span("  ⚠ "@ + w, style::bold_colored(Color::Yellow))],
            None => if self.reloading {
                seq![style::span("  ↻ reloading…"@, style::colored(Color::DarkGray))]
            } else if self.just_reloaded(now) {
                seq![style::span("  ↻ reloaded"@, style::colored(Color::DarkGray))]
            } else {
                Seq::empty()
            },
        })
    }

    /// The title bar at the time `now`, in milliseconds: an error, else a notice,
    /// else what is on screen.
    pub open spec fn title_line(self, now: u64) -> LineView {
        let quiet = style::colored(Color::DarkGray);
        style::line(
            seq![name_span()] + (match (self.error, self.notice) {
                (Some(e), _) => seq![style::span(" "@ + e, style::bold_colored(Color::Red))],
                (None, Some(n)) => seq![style::span(" ✔ "@ + n, style::colored(Color::Green))],
                (None, None) => match self.screen {
                    ScreenView::Picker(_) => if self.reloading {
                        seq![
                            style::span(
                                " loading diff…"@,
                                Style { italic: true, ..style::colored(Color::DarkGray) },
                            ),
                        ]
                    } else {
                        seq![style::span(" select what to review"@, quiet)]
                    },
                    ScreenView::Log(_) => seq![style::span(" pick a commit to review"@, quiet)],
                    ScreenView::Base(_) => seq![style::span(" pick a base branch"@, quiet)],
                    ScreenView::Review(r) => self.review_title(r, now),
                },
            }),
        )
    }
}

fn put_joined(line: &mut StyledLine, before: &str, s: &str, after: &str, style: Style)
    ensures
        final(line)@ == (LineView {
            spans: old(line)@.spans.push(style::span(before@ + s@ + after@, style)),
            ..old(line)@
        }),
{
    let mut t: String = text::copy(before);
    text::put(&mut t, s);
    text::put(&mut t, after);
    line.put(t.as_str(), style);
}

fn put_after(line: &mut StyledLine, before: &str, s: &str, style: Style)
    ensures
        final(line)@ == (LineView {
            spans: old(line)@.spans.push(style::span(before@ + s@, style)),
            ..old(line)@
        }),
{
    let mut t: String = text::copy(before);
    text::put(&mut t, s);
    line.put(t.as_str(), style);
}

impl App {
    fn put_review_title(&self, line: &mut StyledLine, r: &ReviewState, now: u64)
        ensures
            final(line)@ == (LineView {
                spans: old(line)@.spans + self@.review_title(r@, now),
                ..old(line)@
            }),
    {
        let ghost start = line@;
        put_after(line, " ", r.scope.label().as_str(), Style::strong());
        put_joined(
            line,
            "  ",
            picker::count_label(r.diff.files.len()).as_str(),
            " ",
            Style::plain(),
        );
        put_joined(
            line,
            "+",
            num::decimal_text(r.diff.additions as u64).as_str(),
            " ",
            Style::fg(Color::Green),
        );
        put_after(
            line,
            "−",
            num::decimal_text(r.diff.deletions as u64).as_str(),
            Style::fg(Color::Red),
        );
        let comments: usize = self.store.comments().len();
        if comments > 0 {
            put_after(
                line,
                "  ✎ ",
                num::decimal_text(comments as u64).as_str(),
                Style::fg(Color::Cyan),
            );
        }
        match &self.comment_warning {
            Some(w) => {
                put_after(line, "  ⚠ ", w.as_str(), Style::bold_fg(Color::Yellow));
            },
            None => {
                if self.reloading {
                    line.put("  ↻ reloading…", Style::fg(Color::DarkGray));
                } else {
                    let recent: bool = match self.reloaded_at {
                        Some(t) => now.saturating_sub(t) < RELOADED_FOR,
                        None => false,
                    };
                    if recent {
                        line.put("  ↻ reloaded", Style::fg(Color::DarkGray));
                    }
                }
            },
        }
        assert(line@ =~= (LineView {
            spans: start.spans + self@.review_title(r@, now),
            ..start
        }));
    }

    /// The title bar at the time `now`, in milliseconds.
    pub fn draw_title(&self, now: u64) -> (r: StyledLine)
        ensures
            r@ == self@.title_line(now),
    {
        let mut line = StyledLine::new();
        line.put(
            " gittre ",
            Style {
                fg: Some(Color::Black),
                bg: Some(Color::Cyan),
                bold: true,
                italic: false,
                underlined: false,
            },
        );
        assert(line@ =~= style::line(seq![name_span()]));
        match (&self.error, &self.notice) {
            (Some(e), _) => {
                put_after(&mut line, " ", e.as_str(), Style::bold_fg(Color::Red));
            },
            (None, Some(n)) => {
                put_after(&mut line, " ✔ ", n.as_str(), Style::fg(Color::Green));
            },
            (None, None) => match &self.screen {
                Screen::Picker(_) => {
                    if self.reloading {
                        line.put(
                            " loading diff…",
                            Style {
                                fg: Some(Color::DarkGray),
                                bg: None,
                                bold: false,
                                italic: true,
                                underlined: false,
                            },
                        );
                    } else {
                        line.put(" select what to review", Style::fg(Color::DarkGray));
                    }
                },
                Screen::Log(_) => {
                    line.put(" pick a commit to review", Style::fg(Color::DarkGray));
                },
                Screen::Base(_) => {
                    line.put(" pick a base branch", Style::fg(Color::DarkGray));
                },
                Screen::Review(r) => {
                    self.put_review_title(&mut line, r, now);
                },
            },
        }
        assert(line@ =~= self@.title_line(now));
        line
    }
}

} // verus!
