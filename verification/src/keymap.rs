//! Every keybinding lives here. Each screen/overlay has a table mapping key
//! sequences to [`Action`]s; the dispatchers, the command-bar hints, and the
//! `?` help popup all read the same tables, so a binding is changed in exactly
//! one place. Two-key chords (`gg`/`ge`) are first-class: a chord's first key
//! reports [`Lookup::Pending`] and the application holds it until the next key.

use crate::deep;
use crate::num;
use crate::text;
use vstd::prelude::*;

verus! {

broadcast use crate::deep::group_deep;

/// Everything a key can do, across all screens and overlays. A table decides
/// which subset applies where; the same action may have different keys in
/// different contexts.
#[derive(Clone, Copy, PartialEq, Eq, Debug, Structural)]
pub enum Action {
    // navigation, shared by every scrollable context
    Down,
    Up,
    PageDown,
    PageUp,
    HalfPageDown,
    HalfPageUp,
    GotoTop,
    GotoBottom,
    // review stream
    NextFile,
    PrevFile,
    NextHunk,
    PrevHunk,
    NextMatch,
    PrevMatch,
    Search,
    ToggleSelection,
    SelectLine,
    CopyCode,
    CopyPatch,
    Comment,
    DeleteComment,
    RestoreComments,
    DeleteAllComments,
    NextComment,
    PrevComment,
    ExportPreview,
    FileView,
    OpenEditor,
    Reload,
    ToggleTree,
    FocusTree,
    NarrowTree,
    WidenTree,
    AutoTreeWidth,
    Activate,
    Back,
    SwitchScope,
    Quit,
    // commit log
    MarkRange,
    // export preview
    CopyMarkdown,
    WriteFile,
}

/// A media key.
#[derive(Clone, Copy, PartialEq, Eq, Debug, Structural)]
pub enum MediaKeyCode {
    Play,
    Pause,
    PlayPause,
    Reverse,
    Stop,
    FastForward,
    Rewind,
    TrackNext,
    TrackPrevious,
    Record,
    LowerVolume,
    RaiseVolume,
    MuteVolume,
}

/// A modifier key, pressed by itself.
#[derive(Clone, Copy, PartialEq, Eq, Debug, Structural)]
pub enum ModifierKeyCode {
    LeftShift,
    LeftControl,
    LeftAlt,
    LeftSuper,
    LeftHyper,
    LeftMeta,
    RightShift,
    RightControl,
    RightAlt,
    RightSuper,
    RightHyper,
    RightMeta,
    IsoLevel3Shift,
    IsoLevel5Shift,
}

/// A key as the terminal reports it.
#[derive(Clone, Copy, PartialEq, Eq, Debug, Structural)]
pub enum KeyCode {
    Backspace,
    Enter,
    Left,
    Right,
    Up,
    Down,
    Home,
    End,
    PageUp,
    PageDown,
    Tab,
    BackTab,
    Delete,
    Insert,
    F(u8),
    Char(char),
    Null,
    Esc,
    CapsLock,
    ScrollLock,
    NumLock,
    PrintScreen,
    Pause,
    Menu,
    KeypadBegin,
    Media(MediaKeyCode),
    Modifier(ModifierKeyCode),
}

/// The modifiers that are held with a key.
#[derive(Clone, Copy, PartialEq, Eq, Debug, Structural)]
pub struct KeyModifiers {
    pub shift: bool,
    pub control: bool,
    pub alt: bool,
}

/// No modifier.
pub open spec fn no_modifiers() -> KeyModifiers {
    KeyModifiers { shift: false, control: false, alt: false }
}

impl KeyModifiers {
    /// No modifier.
    pub fn none() -> (r: Self)
        ensures
            r == no_modifiers(),
    {
        KeyModifiers { shift: false, control: false, alt: false }
    }

    /// Is no modifier held?
    pub fn is_empty(&self) -> (r: bool)
        ensures
            r == (*self == no_modifiers()),
    {
        !self.shift && !self.control && !self.alt
    }
}

/// A key with the modifiers that distinguish bindings. Shift never does:
/// it is already encoded in the char (`G` vs `g`) and terminals disagree
/// about reporting it on other keys.
#[derive(Clone, Copy, PartialEq, Eq, Debug, Structural)]
pub struct KeyPress {
    pub code: KeyCode,
    pub mods: KeyModifiers,
}

impl KeyPress {
    /// The key with shift dropped.
    pub open spec fn of(code: KeyCode, mods: KeyModifiers) -> KeyPress {
        KeyPress { code, mods: KeyModifiers { shift: false, ..mods } }
    }

    pub fn new(code: KeyCode, mods: KeyModifiers) -> (r: Self)
        ensures
            r == KeyPress::of(code, mods),
    {
        KeyPress {
            code,
            mods: KeyModifiers { shift: false, control: mods.control, alt: mods.alt },
        }
    }
}

/// A key without modifiers.
pub open spec fn plain(code: KeyCode) -> KeyPress {
    KeyPress { code, mods: no_modifiers() }
}

/// A character with control.
pub open spec fn ctrl(ch: char) -> KeyPress {
    KeyPress {
        code: KeyCode::Char(ch),
        mods: KeyModifiers { shift: false, control: true, alt: false },
    }
}

fn press(code: KeyCode) -> (r: KeyPress)
    ensures
        r == plain(code),
{
    KeyPress { code, mods: KeyModifiers::none() }
}

fn press_ctrl(ch: char) -> (r: KeyPress)
    ensures
        r == ctrl(ch),
{
    KeyPress {
        code: KeyCode::Char(ch),
        mods: KeyModifiers { shift: false, control: true, alt: false },
    }
}

/// When a binding applies. Keys may be overloaded across guards (`n` is
/// next-match during a live search, next-hunk otherwise).
#[derive(Clone, Copy, PartialEq, Eq, Debug, Structural)]
pub enum Guard {
    Always,
    SearchActive,
    NoSearch,
}

#[derive(Debug)]
pub struct Binding {
    /// One key, or a two-key chord (`gg`).
    pub seq: Vec<KeyPress>,
    pub guard: Guard,
    pub action: Action,
}

/// What a binding says.
#[verifier::ext_equal]
pub struct BindingView {
    pub seq: Seq<KeyPress>,
    pub guard: Guard,
    pub action: Action,
}

impl View for Binding {
    type V = BindingView;

    open spec fn view(&self) -> BindingView {
        BindingView { seq: self.seq@, guard: self.guard, action: self.action }
    }
}

/// A binding of one key.
pub open spec fn single(key: KeyPress, action: Action) -> BindingView {
    BindingView { seq: seq![key], guard: Guard::Always, action }
}

/// A binding of one key that applies only sometimes.
pub open spec fn guarded(guard: Guard, key: KeyPress, action: Action) -> BindingView {
    BindingView { seq: seq![key], guard, action }
}

/// A binding of a two-key chord.
pub open spec fn chord(first: KeyPress, second: KeyPress, action: Action) -> BindingView {
    BindingView { seq: seq![first, second], guard: Guard::Always, action }
}

fn bind_if(t: &mut Vec<Binding>, guard: Guard, key: KeyPress, action: Action)
    ensures
        deep::deep(final(t)@) == deep::deep(old(t)@).push(guarded(guard, key, action)),
{
    let mut seq: Vec<KeyPress> = Vec::new();
    seq.push(key);
    let b = Binding { seq, guard, action };
    assert(b@ =~= guarded(guard, key, action));
    t.push(b);
}

fn bind(t: &mut Vec<Binding>, key: KeyPress, action: Action)
    ensures
        deep::deep(final(t)@) == deep::deep(old(t)@).push(single(key, action)),
{
    bind_if(t, Guard::Always, key, action);
}

fn bind_chord(t: &mut Vec<Binding>, first: KeyPress, second: KeyPress, action: Action)
    ensures
        deep::deep(final(t)@) == deep::deep(old(t)@).push(chord(first, second, action)),
{
    let mut seq: Vec<KeyPress> = Vec::new();
    seq.push(first);
    seq.push(second);
    let b = Binding { seq, guard: Guard::Always, action };
    assert(b@ =~= chord(first, second, action));
    t.push(b);
}

// ---- the tables ---------------------------------------------------------------------

/// Moving by line, half page and page.
pub open spec fn paging_keys() -> Seq<BindingView> {
    seq![
        single(plain(KeyCode::Char('j')), Action::Down),
        single(plain(KeyCode::Down), Action::Down),
        single(plain(KeyCode::Char('k')), Action::Up),
        single(plain(KeyCode::Up), Action::Up),
        single(ctrl('d'), Action::HalfPageDown),
        single(ctrl('u'), Action::HalfPageUp),
        single(ctrl('f'), Action::PageDown),
        single(plain(KeyCode::PageDown), Action::PageDown),
        single(ctrl('b'), Action::PageUp),
        single(plain(KeyCode::PageUp), Action::PageUp),
    ]
}

/// Moving by line, half page and page, and to either end.
pub open spec fn moving_keys() -> Seq<BindingView> {
    paging_keys()
        .push(chord(plain(KeyCode::Char('g')), plain(KeyCode::Char('g')), Action::GotoTop))
        .push(single(plain(KeyCode::Home), Action::GotoTop))
        .push(chord(plain(KeyCode::Char('g')), plain(KeyCode::Char('e')), Action::GotoBottom))
        .push(single(plain(KeyCode::Char('G')), Action::GotoBottom))
        .push(single(plain(KeyCode::End), Action::GotoBottom))
}

fn paging() -> (t: Vec<Binding>)
    ensures
        deep::deep(t@) == paging_keys(),
{
    let mut t: Vec<Binding> = Vec::new();
    bind(&mut t, press(KeyCode::Char('j')), Action::Down);
    bind(&mut t, press(KeyCode::Down), Action::Down);
    bind(&mut t, press(KeyCode::Char('k')), Action::Up);
    bind(&mut t, press(KeyCode::Up), Action::Up);
    bind(&mut t, press_ctrl('d'), Action::HalfPageDown);
    bind(&mut t, press_ctrl('u'), Action::HalfPageUp);
    bind(&mut t, press_ctrl('f'), Action::PageDown);
    bind(&mut t, press(KeyCode::PageDown), Action::PageDown);
    bind(&mut t, press_ctrl('b'), Action::PageUp);
    bind(&mut t, press(KeyCode::PageUp), Action::PageUp);
    t
}

fn moving() -> (t: Vec<Binding>)
    ensures
        deep::deep(t@) == moving_keys(),
{
    let mut t: Vec<Binding> = paging();
    bind_chord(&mut t, press(KeyCode::Char('g')), press(KeyCode::Char('g')), Action::GotoTop);
    bind(&mut t, press(KeyCode::Home), Action::GotoTop);
    bind_chord(&mut t, press(KeyCode::Char('g')), press(KeyCode::Char('e')), Action::GotoBottom);
    bind(&mut t, press(KeyCode::Char('G')), Action::GotoBottom);
    bind(&mut t, press(KeyCode::End), Action::GotoBottom);
    t
}

/// The main diff stream. The first binding listed for an action is the one
/// hints and help display, so letter keys go before their arrow/function-key
/// aliases.
pub open spec fn review_keys() -> Seq<BindingView> {
    moving_keys()
        .push(single(plain(KeyCode::Char(']')), Action::NextFile))
        .push(single(plain(KeyCode::Char('[')), Action::PrevFile))
        .push(guarded(Guard::NoSearch, plain(KeyCode::Char('n')), Action::NextHunk))
        .push(single(plain(KeyCode::Char('p')), Action::PrevHunk))
        .push(guarded(Guard::SearchActive, plain(KeyCode::Char('n')), Action::NextMatch))
        .push(guarded(Guard::SearchActive, plain(KeyCode::Char('N')), Action::PrevMatch))
        .push(single(plain(KeyCode::Char('/')), Action::Search))
        .push(single(plain(KeyCode::Char('v')), Action::ToggleSelection))
        .push(single(plain(KeyCode::Char('x')), Action::SelectLine))
        .push(single(plain(KeyCode::Char('y')), Action::CopyCode))
        .push(single(plain(KeyCode::Char('Y')), Action::CopyPatch))
        .push(single(plain(KeyCode::Char('c')), Action::Comment))
        .push(single(plain(KeyCode::Char('d')), Action::DeleteComment))
        .push(single(plain(KeyCode::Char('u')), Action::RestoreComments))
        .push(single(plain(KeyCode::Char('D')), Action::DeleteAllComments))
        .push(single(plain(KeyCode::Char('}')), Action::NextComment))
        .push(single(plain(KeyCode::Char('{')), Action::PrevComment))
        .push(single(plain(KeyCode::Char('e')), Action::ExportPreview))
        .push(single(plain(KeyCode::Char('o')), Action::FileView))
        .push(single(plain(KeyCode::Char('E')), Action::OpenEditor))
        .push(single(plain(KeyCode::Char('r')), Action::Reload))
        .push(single(plain(KeyCode::Char('t')), Action::ToggleTree))
        .push(single(plain(KeyCode::Char('<')), Action::NarrowTree))
        .push(single(plain(KeyCode::Char('>')), Action::WidenTree))
        .push(single(plain(KeyCode::Char('=')), Action::AutoTreeWidth))
        .push(single(plain(KeyCode::Tab), Action::FocusTree))
        .push(single(plain(KeyCode::BackTab), Action::FocusTree))
        .push(single(plain(KeyCode::Enter), Action::Activate))
        .push(single(plain(KeyCode::Esc), Action::Back))
        .push(single(plain(KeyCode::Char('q')), Action::SwitchScope))
}

/// The main diff stream. The first binding listed for an action is the one
/// hints and help display, so letter keys go before their arrow/function-key
/// aliases.
pub fn review() -> (t: Vec<Binding>)
    ensures
        deep::deep(t@) == review_keys(),
{
    let mut t: Vec<Binding> = moving();
    bind(&mut t, press(KeyCode::Char(']')), Action::NextFile);
    bind(&mut t, press(KeyCode::Char('[')), Action::PrevFile);
    bind_if(&mut t, Guard::NoSearch, press(KeyCode::Char('n')), Action::NextHunk);
    bind(&mut t, press(KeyCode::Char('p')), Action::PrevHunk);
    bind_if(&mut t, Guard::SearchActive, press(KeyCode::Char('n')), Action::NextMatch);
    bind_if(&mut t, Guard::SearchActive, press(KeyCode::Char('N')), Action::PrevMatch);
    bind(&mut t, press(KeyCode::Char('/')), Action::Search);
    bind(&mut t, press(KeyCode::Char('v')), Action::ToggleSelection);
    bind(&mut t, press(KeyCode::Char('x')), Action::SelectLine);
    bind(&mut t, press(KeyCode::Char('y')), Action::CopyCode);
    bind(&mut t, press(KeyCode::Char('Y')), Action::CopyPatch);
    bind(&mut t, press(KeyCode::Char('c')), Action::Comment);
    bind(&mut t, press(KeyCode::Char('d')), Action::DeleteComment);
    bind(&mut t, press(KeyCode::Char('u')), Action::RestoreComments);
    bind(&mut t, press(KeyCode::Char('D')), Action::DeleteAllComments);
    bind(&mut t, press(KeyCode::Char('}')), Action::NextComment);
    bind(&mut t, press(KeyCode::Char('{')), Action::PrevComment);
    bind(&mut t, press(KeyCode::Char('e')), Action::ExportPreview);
    bind(&mut t, press(KeyCode::Char('o')), Action::FileView);
    bind(&mut t, press(KeyCode::Char('E')), Action::OpenEditor);
    bind(&mut t, press(KeyCode::Char('r')), Action::Reload);
    bind(&mut t, press(KeyCode::Char('t')), Action::ToggleTree);
    bind(&mut t, press(KeyCode::Char('<')), Action::NarrowTree);
    bind(&mut t, press(KeyCode::Char('>')), Action::WidenTree);
    bind(&mut t, press(KeyCode::Char('=')), Action::AutoTreeWidth);
    bind(&mut t, press(KeyCode::Tab), Action::FocusTree);
    bind(&mut t, press(KeyCode::BackTab), Action::FocusTree);
    bind(&mut t, press(KeyCode::Enter), Action::Activate);
    bind(&mut t, press(KeyCode::Esc), Action::Back);
    bind(&mut t, press(KeyCode::Char('q')), Action::SwitchScope);
    t
}

/// The scope picker (digits 1-9 open an entry directly).
pub open spec fn picker_keys() -> Seq<BindingView> {
    seq![
        single(plain(KeyCode::Char('j')), Action::Down),
        single(plain(KeyCode::Down), Action::Down),
        single(plain(KeyCode::Char('k')), Action::Up),
        single(plain(KeyCode::Up), Action::Up),
        single(plain(KeyCode::Enter), Action::Activate),
        single(plain(KeyCode::Char('q')), Action::Quit),
        single(plain(KeyCode::Esc), Action::Quit),
    ]
}

/// The scope picker (digits 1-9 open an entry directly).
pub fn picker() -> (t: Vec<Binding>)
    ensures
        deep::deep(t@) == picker_keys(),
{
    let mut t: Vec<Binding> = Vec::new();
    bind(&mut t, press(KeyCode::Char('j')), Action::Down);
    bind(&mut t, press(KeyCode::Down), Action::Down);
    bind(&mut t, press(KeyCode::Char('k')), Action::Up);
    bind(&mut t, press(KeyCode::Up), Action::Up);
    bind(&mut t, press(KeyCode::Enter), Action::Activate);
    bind(&mut t, press(KeyCode::Char('q')), Action::Quit);
    bind(&mut t, press(KeyCode::Esc), Action::Quit);
    t
}

/// The commit log list.
pub open spec fn log_keys() -> Seq<BindingView> {
    moving_keys()
        .push(single(plain(KeyCode::Char(' ')), Action::MarkRange))
        .push(single(plain(KeyCode::Enter), Action::Activate))
        .push(single(plain(KeyCode::Char('q')), Action::Back))
        .push(single(plain(KeyCode::Esc), Action::Back))
}

/// The commit log list.
pub fn log() -> (t: Vec<Binding>)
    ensures
        deep::deep(t@) == log_keys(),
{
    let mut t: Vec<Binding> = moving();
    bind(&mut t, press(KeyCode::Char(' ')), Action::MarkRange);
    bind(&mut t, press(KeyCode::Enter), Action::Activate);
    bind(&mut t, press(KeyCode::Char('q')), Action::Back);
    bind(&mut t, press(KeyCode::Esc), Action::Back);
    t
}

/// The base-branch list.
pub open spec fn base_keys() -> Seq<BindingView> {
    moving_keys()
        .push(single(plain(KeyCode::Enter), Action::Activate))
        .push(single(plain(KeyCode::Char('q')), Action::Back))
        .push(single(plain(KeyCode::Esc), Action::Back))
}

/// The base-branch list.
pub fn base() -> (t: Vec<Binding>)
    ensures
        deep::deep(t@) == base_keys(),
{
    let mut t: Vec<Binding> = moving();
    bind(&mut t, press(KeyCode::Enter), Action::Activate);
    bind(&mut t, press(KeyCode::Char('q')), Action::Back);
    bind(&mut t, press(KeyCode::Esc), Action::Back);
    t
}

/// The full-file pager (`o`).
pub open spec fn file_view_keys() -> Seq<BindingView> {
    moving_keys()
        .push(single(plain(KeyCode::Char('E')), Action::OpenEditor))
        .push(single(plain(KeyCode::Char('q')), Action::Back))
        .push(single(plain(KeyCode::Esc), Action::Back))
        .push(single(plain(KeyCode::Char('o')), Action::Back))
}

/// The full-file pager (`o`).
pub fn file_view() -> (t: Vec<Binding>)
    ensures
        deep::deep(t@) == file_view_keys(),
{
    let mut t: Vec<Binding> = moving();
    bind(&mut t, press(KeyCode::Char('E')), Action::OpenEditor);
    bind(&mut t, press(KeyCode::Char('q')), Action::Back);
    bind(&mut t, press(KeyCode::Esc), Action::Back);
    bind(&mut t, press(KeyCode::Char('o')), Action::Back);
    t
}

/// The comment-export markdown preview (`e`).
pub open spec fn export_preview_keys() -> Seq<BindingView> {
    moving_keys()
        .push(single(plain(KeyCode::Char('y')), Action::CopyMarkdown))
        .push(single(plain(KeyCode::Char('w')), Action::WriteFile))
        .push(single(plain(KeyCode::Enter), Action::WriteFile))
        .push(single(plain(KeyCode::Char('q')), Action::Back))
        .push(single(plain(KeyCode::Esc), Action::Back))
        .push(single(plain(KeyCode::Char('e')), Action::Back))
}

/// The comment-export markdown preview (`e`).
pub fn export_preview() -> (t: Vec<Binding>)
    ensures
        deep::deep(t@) == export_preview_keys(),
{
    let mut t: Vec<Binding> = moving();
    bind(&mut t, press(KeyCode::Char('y')), Action::CopyMarkdown);
    bind(&mut t, press(KeyCode::Char('w')), Action::WriteFile);
    bind(&mut t, press(KeyCode::Enter), Action::WriteFile);
    bind(&mut t, press(KeyCode::Char('q')), Action::Back);
    bind(&mut t, press(KeyCode::Esc), Action::Back);
    bind(&mut t, press(KeyCode::Char('e')), Action::Back);
    t
}

/// The `?` help popup (scrollable).
pub open spec fn help_view_keys() -> Seq<BindingView> {
    paging_keys()
        .push(single(plain(KeyCode::Char('q')), Action::Back))
        .push(single(plain(KeyCode::Esc), Action::Back))
        .push(single(plain(KeyCode::Char('?')), Action::Back))
}

/// The `?` help popup (scrollable).
pub fn help_view() -> (t: Vec<Binding>)
    ensures
        deep::deep(t@) == help_view_keys(),
{
    let mut t: Vec<Binding> = paging();
    bind(&mut t, press(KeyCode::Char('q')), Action::Back);
    bind(&mut t, press(KeyCode::Esc), Action::Back);
    bind(&mut t, press(KeyCode::Char('?')), Action::Back);
    t
}

// ---- resolving keys -----------------------------------------------------------------

/// What a binding table resolves against.
#[derive(Clone, Copy, Debug, PartialEq, Eq, Structural)]
pub struct Ctx {
    pub search_active: bool,
}

impl Default for Ctx {
    fn default() -> (r: Self)
        ensures
            !r.search_active,
    {
        Ctx { search_active: false }
    }
}

#[derive(Clone, Copy, PartialEq, Eq, Debug, Structural)]
pub enum Lookup {
    Act(Action),
    /// The key starts a chord; hold it and resolve on the next key.
    Pending,
    /// The key means nothing here.
    Nothing,
}

/// Does the binding apply?
pub open spec fn live(b: BindingView, ctx: Ctx) -> bool {
    match b.guard {
        Guard::Always => true,
        Guard::SearchActive => ctx.search_active,
        Guard::NoSearch => !ctx.search_active,
    }
}

/// Index of the first live binding of the sequence at or after `i`; the length if there is none.
pub open spec fn first_bound(
    table: Seq<BindingView>,
    ctx: Ctx,
    keys: Seq<KeyPress>,
    i: int,
) -> int
    decreases table.len() - i,
{
    if i < 0 || i >= table.len() {
        table.len() as int
    } else if live(table[i], ctx) && table[i].seq == keys {
        i
    } else {
        first_bound(table, ctx, keys, i + 1)
    }
}

/// What a whole key sequence is bound to.
pub open spec fn bound(table: Seq<BindingView>, ctx: Ctx, keys: Seq<KeyPress>) -> Lookup {
    let k = first_bound(table, ctx, keys, 0);
    if k < table.len() {
        Lookup::Act(table[k].action)
    } else {
        Lookup::Nothing
    }
}

/// Does a live chord start with the key?
pub open spec fn starts_chord(table: Seq<BindingView>, ctx: Ctx, key: KeyPress) -> bool {
    exists|i: int|
        0 <= i < table.len() && live(#[trigger] table[i], ctx) && table[i].seq.len() == 2
            && table[i].seq[0] == key
}

/// What a key press means. After a held prefix only a chord counts: a broken
/// chord swallows the key. A chord prefix shadows any single binding on the
/// same key.
pub open spec fn resolved(
    table: Seq<BindingView>,
    ctx: Ctx,
    pending: Option<KeyPress>,
    key: KeyPress,
) -> Lookup {
    match pending {
        Some(first) => bound(table, ctx, seq![first, key]),
        None => if starts_chord(table, ctx, key) {
            Lookup::Pending
        } else {
            bound(table, ctx, seq![key])
        },
    }
}

fn applies(b: &Binding, ctx: Ctx) -> (r: bool)
    ensures
        r == live(b@, ctx),
{
    match b.guard {
        Guard::Always => true,
        Guard::SearchActive => ctx.search_active,
        Guard::NoSearch => !ctx.search_active,
    }
}

pub fn lookup(table: &[Binding], ctx: Ctx, pending: Option<KeyPress>, key: KeyPress) -> (r: Lookup)
    ensures
        r == resolved(deep::deep(table@), ctx, pending, key),
{
    let ghost all = deep::deep(table@);
    if let Some(first) = pending {
        let mut i: usize = 0;
        while i < table.len()
            invariant
                i <= table@.len(),
                all == deep::deep(table@),
                pending == Some(first),
                first_bound(all, ctx, seq![first, key], i as int) == first_bound(
                    all,
                    ctx,
                    seq![first, key],
                    0,
                ),
            decreases table@.len() - i,
        {
            let b: &Binding = &table[i];
            assert(all[i as int] == b@);
            if applies(b, ctx) && b.seq.len() == 2 && b.seq[0] == first && b.seq[1] == key {
                assert(b@.seq =~= seq![first, key]);
                return Lookup::Act(b.action);
            }
            i += 1;
        }
        return Lookup::Nothing;
    }
    let mut i: usize = 0;
    while i < table.len()
        invariant
            i <= table@.len(),
            all == deep::deep(table@),
            pending is None,
            forall|j: int|
                0 <= j < i ==> !(live(#[trigger] all[j], ctx) && all[j].seq.len() == 2
                    && all[j].seq[0] == key),
        decreases table@.len() - i,
    {
        let b: &Binding = &table[i];
        assert(all[i as int] == b@);
        if applies(b, ctx) && b.seq.len() == 2 && b.seq[0] == key {
            return Lookup::Pending;
        }
        i += 1;
    }
    i = 0;
    while i < table.len()
        invariant
            i <= table@.len(),
            all == deep::deep(table@),
            pending is None,
            !starts_chord(all, ctx, key),
            first_bound(all, ctx, seq![key], i as int) == first_bound(all, ctx, seq![key], 0),
        decreases table@.len() - i,
    {
        let b: &Binding = &table[i];
        assert(all[i as int] == b@);
        if applies(b, ctx) && b.seq.len() == 1 && b.seq[0] == key {
            assert(b@.seq =~= seq![key]);
            return Lookup::Act(b.action);
        }
        i += 1;
    }
    Lookup::Nothing
}

/// A chord is two steps: its first key is held, and the second one acts.
pub proof fn lemma_chord_in_two_steps(table: Seq<BindingView>, ctx: Ctx, i: int)
    requires
        0 <= i < table.len(),
        live(table[i], ctx),
        table[i].seq.len() == 2,
        forall|j: int| 0 <= j < i ==> (#[trigger] table[j]).seq != table[i].seq || !live(table[j], ctx),
    ensures
        resolved(table, ctx, None, table[i].seq[0]) == Lookup::Pending,
        resolved(table, ctx, Some(table[i].seq[0]), table[i].seq[1]) == Lookup::Act(
            table[i].action,
        ),
{
    let keys = table[i].seq;
    assert(keys =~= seq![keys[0], keys[1]]);
    lemma_first_bound(table, ctx, keys, 0, i);
}

proof fn lemma_first_bound(
    table: Seq<BindingView>,
    ctx: Ctx,
    keys: Seq<KeyPress>,
    from: int,
    i: int,
)
    requires
        0 <= from <= i < table.len(),
        live(table[i], ctx),
        table[i].seq == keys,
        forall|j: int| from <= j < i ==> (#[trigger] table[j]).seq != keys || !live(table[j], ctx),
    ensures
        first_bound(table, ctx, keys, from) == i,
    decreases i - from,
{
    if from < i {
        assert(table[from].seq != keys || !live(table[from], ctx));
        lemma_first_bound(table, ctx, keys, from + 1, i);
    }
}

/// Can two bindings apply at the same time?
pub open spec fn overlap(a: Guard, b: Guard) -> bool {
    a == Guard::Always || b == Guard::Always || a == b
}

/// Do two bindings get in each other's way: the same keys, or a single key that
/// starts a chord?
pub open spec fn conflict(a: BindingView, b: BindingView) -> bool {
    overlap(a.guard, b.guard) && (a.seq == b.seq || (a.seq.len() != b.seq.len() && a.seq[0]
        == b.seq[0]))
}

/// No two bindings of the table get in each other's way, and each has one key
/// or two.
#[verifier::opaque]
pub open spec fn unambiguous(table: Seq<BindingView>) -> bool {
    &&& forall|i: int, j: int|
        0 <= i < j < table.len() ==> !conflict(#[trigger] table[i], #[trigger] table[j])
    &&& forall|i: int| 0 <= i < table.len() ==> 1 <= (#[trigger] table[i]).seq.len() <= 2
}

/// The keys that bindings start with.
spec fn firsts(table: Seq<BindingView>) -> Set<KeyPress> {
    Set::new(|k: KeyPress| exists|i: int| 0 <= i < table.len() && (#[trigger] table[i]).seq[0] == k)
}

proof fn lemma_firsts(table: Seq<BindingView>, b: BindingView)
    ensures
        firsts(table.push(b)) == firsts(table).insert(b.seq[0]),
{
    let all = table.push(b);
    assert forall|k: KeyPress| firsts(all).contains(k) == firsts(table).insert(
        b.seq[0],
    ).contains(k) by {
        if firsts(table).contains(k) {
            let i = choose|i: int| 0 <= i < table.len() && (#[trigger] table[i]).seq[0] == k;
            assert(all[i] == table[i]);
        }
        if k == b.seq[0] {
            assert(all[table.len() as int].seq[0] == k);
        }
        if firsts(all).contains(k) {
            let i = choose|i: int| 0 <= i < all.len() && (#[trigger] all[i]).seq[0] == k;
            if i < table.len() {
                assert(table[i] == all[i]);
            }
        }
    }
    assert(firsts(all) =~= firsts(table).insert(b.seq[0]));
}

/// A binding that gets in no other one's way can be added.
proof fn lemma_added(table: Seq<BindingView>, b: BindingView)
    requires
        unambiguous(table),
        1 <= b.seq.len() <= 2,
        forall|i: int| 0 <= i < table.len() ==> !conflict(#[trigger] table[i], b),
    ensures
        unambiguous(table.push(b)),
        firsts(table.push(b)) == firsts(table).insert(b.seq[0]),
{
    reveal(unambiguous);
    lemma_firsts(table, b);
}

/// A binding of a key that nothing starts with can be added.
proof fn lemma_key_added(table: Seq<BindingView>, b: BindingView)
    requires
        unambiguous(table),
        1 <= b.seq.len() <= 2,
        !firsts(table).contains(b.seq[0]),
    ensures
        unambiguous(table.push(b)),
        firsts(table.push(b)) == firsts(table).insert(b.seq[0]),
{
    assert forall|i: int| 0 <= i < table.len() implies !conflict(#[trigger] table[i], b) by {
        assert(table[i].seq[0] != b.seq[0]);
    }
    lemma_added(table, b);
}

proof fn lemma_paging_keys()
    ensures
        unambiguous(paging_keys()),
        firsts(paging_keys()) == set![
            plain(KeyCode::Char('j')),
            plain(KeyCode::Down),
            plain(KeyCode::Char('k')),
            plain(KeyCode::Up),
            ctrl('d'),
            ctrl('u'),
            ctrl('f'),
            plain(KeyCode::PageDown),
            ctrl('b'),
            plain(KeyCode::PageUp),
        ],
{
    let t = Seq::<BindingView>::empty();
    reveal(unambiguous);
    assert(unambiguous(t));
    assert(firsts(t) =~= Set::empty());
    lemma_key_added(t, single(plain(KeyCode::Char('j')), Action::Down));
    let t = t.push(single(plain(KeyCode::Char('j')), Action::Down));
    lemma_key_added(t, single(plain(KeyCode::Down), Action::Down));
    let t = t.push(single(plain(KeyCode::Down), Action::Down));
    lemma_key_added(t, single(plain(KeyCode::Char('k')), Action::Up));
    let t = t.push(single(plain(KeyCode::Char('k')), Action::Up));
    lemma_key_added(t, single(plain(KeyCode::Up), Action::Up));
    let t = t.push(single(plain(KeyCode::Up), Action::Up));
    lemma_key_added(t, single(ctrl('d'), Action::HalfPageDown));
    let t = t.push(single(ctrl('d'), Action::HalfPageDown));
    lemma_key_added(t, single(ctrl('u'), Action::HalfPageUp));
    let t = t.push(single(ctrl('u'), Action::HalfPageUp));
    lemma_key_added(t, single(ctrl('f'), Action::PageDown));
    let t = t.push(single(ctrl('f'), Action::PageDown));
    lemma_key_added(t, single(plain(KeyCode::PageDown), Action::PageDown));
    let t = t.push(single(plain(KeyCode::PageDown), Action::PageDown));
    lemma_key_added(t, single(ctrl('b'), Action::PageUp));
    let t = t.push(single(ctrl('b'), Action::PageUp));
    lemma_key_added(t, single(plain(KeyCode::PageUp), Action::PageUp));
    let t = t.push(single(plain(KeyCode::PageUp), Action::PageUp));
    assert(t =~= paging_keys());
    assert(firsts(t) =~= set![
        plain(KeyCode::Char('j')),
        plain(KeyCode::Down),
        plain(KeyCode::Char('k')),
        plain(KeyCode::Up),
        ctrl('d'),
        ctrl('u'),
        ctrl('f'),
        plain(KeyCode::PageDown),
        ctrl('b'),
        plain(KeyCode::PageUp),
    ]);
}

proof fn lemma_moving_keys()
    ensures
        unambiguous(moving_keys()),
        firsts(moving_keys()) == set![
            plain(KeyCode::Char('j')),
            plain(KeyCode::Down),
            plain(KeyCode::Char('k')),
            plain(KeyCode::Up),
            ctrl('d'),
            ctrl('u'),
            ctrl('f'),
            plain(KeyCode::PageDown),
            ctrl('b'),
            plain(KeyCode::PageUp),
            plain(KeyCode::Char('g')),
            plain(KeyCode::Home),
            plain(KeyCode::Char('G')),
            plain(KeyCode::End),
        ],
{
    lemma_paging_keys();
    let t = paging_keys();
    lemma_key_added(t, chord(plain(KeyCode::Char('g')), plain(KeyCode::Char('g')), Action::GotoTop));
    let t = t.push(chord(plain(KeyCode::Char('g')), plain(KeyCode::Char('g')), Action::GotoTop));
    lemma_key_added(t, single(plain(KeyCode::Home), Action::GotoTop));
    let t = t.push(single(plain(KeyCode::Home), Action::GotoTop));
    lemma_added(t, chord(plain(KeyCode::Char('g')), plain(KeyCode::Char('e')), Action::GotoBottom));
    let t = t.push(chord(plain(KeyCode::Char('g')), plain(KeyCode::Char('e')), Action::GotoBottom));
    lemma_key_added(t, single(plain(KeyCode::Char('G')), Action::GotoBottom));
    let t = t.push(single(plain(KeyCode::Char('G')), Action::GotoBottom));
    lemma_key_added(t, single(plain(KeyCode::End), Action::GotoBottom));
    let t = t.push(single(plain(KeyCode::End), Action::GotoBottom));
    assert(t =~= moving_keys());
    assert(firsts(t) =~= set![
        plain(KeyCode::Char('j')),
        plain(KeyCode::Down),
        plain(KeyCode::Char('k')),
        plain(KeyCode::Up),
        ctrl('d'),
        ctrl('u'),
        ctrl('f'),
        plain(KeyCode::PageDown),
        ctrl('b'),
        plain(KeyCode::PageUp),
        plain(KeyCode::Char('g')),
        plain(KeyCode::Home),
        plain(KeyCode::Char('G')),
        plain(KeyCode::End),
    ]);
}

proof fn lemma_review_keys()
    ensures
        unambiguous(review_keys()),
{
    lemma_moving_keys();
    let t = moving_keys();
    lemma_key_added(t, single(plain(KeyCode::Char(']')), Action::NextFile));
    let t = t.push(single(plain(KeyCode::Char(']')), Action::NextFile));
    lemma_key_added(t, single(plain(KeyCode::Char('[')), Action::PrevFile));
    let t = t.push(single(plain(KeyCode::Char('[')), Action::PrevFile));
    lemma_key_added(t, guarded(Guard::NoSearch, plain(KeyCode::Char('n')), Action::NextHunk));
    let t = t.push(guarded(Guard::NoSearch, plain(KeyCode::Char('n')), Action::NextHunk));
    lemma_key_added(t, single(plain(KeyCode::Char('p')), Action::PrevHunk));
    let t = t.push(single(plain(KeyCode::Char('p')), Action::PrevHunk));
    lemma_added(t, guarded(Guard::SearchActive, plain(KeyCode::Char('n')), Action::NextMatch));
    let t = t.push(guarded(Guard::SearchActive, plain(KeyCode::Char('n')), Action::NextMatch));
    lemma_key_added(t, guarded(Guard::SearchActive, plain(KeyCode::Char('N')), Action::PrevMatch));
    let t = t.push(guarded(Guard::SearchActive, plain(KeyCode::Char('N')), Action::PrevMatch));
    lemma_key_added(t, single(plain(KeyCode::Char('/')), Action::Search));
    let t = t.push(single(plain(KeyCode::Char('/')), Action::Search));
    lemma_key_added(t, single(plain(KeyCode::Char('v')), Action::ToggleSelection));
    let t = t.push(single(plain(KeyCode::Char('v')), Action::ToggleSelection));
    lemma_key_added(t, single(plain(KeyCode::Char('x')), Action::SelectLine));
    let t = t.push(single(plain(KeyCode::Char('x')), Action::SelectLine));
    lemma_key_added(t, single(plain(KeyCode::Char('y')), Action::CopyCode));
    let t = t.push(single(plain(KeyCode::Char('y')), Action::CopyCode));
    lemma_key_added(t, single(plain(KeyCode::Char('Y')), Action::CopyPatch));
    let t = t.push(single(plain(KeyCode::Char('Y')), Action::CopyPatch));
    lemma_key_added(t, single(plain(KeyCode::Char('c')), Action::Comment));
    let t = t.push(single(plain(KeyCode::Char('c')), Action::Comment));
    lemma_key_added(t, single(plain(KeyCode::Char('d')), Action::DeleteComment));
    let t = t.push(single(plain(KeyCode::Char('d')), Action::DeleteComment));
    lemma_key_added(t, single(plain(KeyCode::Char('u')), Action::RestoreComments));
    let t = t.push(single(plain(KeyCode::Char('u')), Action::RestoreComments));
    lemma_key_added(t, single(plain(KeyCode::Char('D')), Action::DeleteAllComments));
    let t = t.push(single(plain(KeyCode::Char('D')), Action::DeleteAllComments));
    lemma_key_added(t, single(plain(KeyCode::Char('}')), Action::NextComment));
    let t = t.push(single(plain(KeyCode::Char('}')), Action::NextComment));
    lemma_key_added(t, single(plain(KeyCode::Char('{')), Action::PrevComment));
    let t = t.push(single(plain(KeyCode::Char('{')), Action::PrevComment));
    lemma_key_added(t, single(plain(KeyCode::Char('e')), Action::ExportPreview));
    let t = t.push(single(plain(KeyCode::Char('e')), Action::ExportPreview));
    lemma_key_added(t, single(plain(KeyCode::Char('o')), Action::FileView));
    let t = t.push(single(plain(KeyCode::Char('o')), Action::FileView));
    lemma_key_added(t, single(plain(KeyCode::Char('E')), Action::OpenEditor));
    let t = t.push(single(plain(KeyCode::Char('E')), Action::OpenEditor));
    lemma_key_added(t, single(plain(KeyCode::Char('r')), Action::Reload));
    let t = t.push(single(plain(KeyCode::Char('r')), Action::Reload));
    lemma_key_added(t, single(plain(KeyCode::Char('t')), Action::ToggleTree));
    let t = t.push(single(plain(KeyCode::Char('t')), Action::ToggleTree));
    lemma_key_added(t, single(plain(KeyCode::Char('<')), Action::NarrowTree));
    let t = t.push(single(plain(KeyCode::Char('<')), Action::NarrowTree));
    lemma_key_added(t, single(plain(KeyCode::Char('>')), Action::WidenTree));
    let t = t.push(single(plain(KeyCode::Char('>')), Action::WidenTree));
    lemma_key_added(t, single(plain(KeyCode::Char('=')), Action::AutoTreeWidth));
    let t = t.push(single(plain(KeyCode::Char('=')), Action::AutoTreeWidth));
    lemma_key_added(t, single(plain(KeyCode::Tab), Action::FocusTree));
    let t = t.push(single(plain(KeyCode::Tab), Action::FocusTree));
    lemma_key_added(t, single(plain(KeyCode::BackTab), Action::FocusTree));
    let t = t.push(single(plain(KeyCode::BackTab), Action::FocusTree));
    lemma_key_added(t, single(plain(KeyCode::Enter), Action::Activate));
    let t = t.push(single(plain(KeyCode::Enter), Action::Activate));
    lemma_key_added(t, single(plain(KeyCode::Esc), Action::Back));
    let t = t.push(single(plain(KeyCode::Esc), Action::Back));
    lemma_key_added(t, single(plain(KeyCode::Char('q')), Action::SwitchScope));
    let t = t.push(single(plain(KeyCode::Char('q')), Action::SwitchScope));
    assert(t =~= review_keys());
}

proof fn lemma_picker_keys()
    ensures
        unambiguous(picker_keys()),
{
    let t = Seq::<BindingView>::empty();
    reveal(unambiguous);
    assert(unambiguous(t));
    assert(firsts(t) =~= Set::empty());
    lemma_key_added(t, single(plain(KeyCode::Char('j')), Action::Down));
    let t = t.push(single(plain(KeyCode::Char('j')), Action::Down));
    lemma_key_added(t, single(plain(KeyCode::Down), Action::Down));
    let t = t.push(single(plain(KeyCode::Down), Action::Down));
    lemma_key_added(t, single(plain(KeyCode::Char('k')), Action::Up));
    let t = t.push(single(plain(KeyCode::Char('k')), Action::Up));
    lemma_key_added(t, single(plain(KeyCode::Up), Action::Up));
    let t = t.push(single(plain(KeyCode::Up), Action::Up));
    lemma_key_added(t, single(plain(KeyCode::Enter), Action::Activate));
    let t = t.push(single(plain(KeyCode::Enter), Action::Activate));
    lemma_key_added(t, single(plain(KeyCode::Char('q')), Action::Quit));
    let t = t.push(single(plain(KeyCode::Char('q')), Action::Quit));
    lemma_key_added(t, single(plain(KeyCode::Esc), Action::Quit));
    let t = t.push(single(plain(KeyCode::Esc), Action::Quit));
    assert(t =~= picker_keys());
}

proof fn lemma_log_keys()
    ensures
        unambiguous(log_keys()),
{
    lemma_moving_keys();
    let t = moving_keys();
    lemma_key_added(t, single(plain(KeyCode::Char(' ')), Action::MarkRange));
    let t = t.push(single(plain(KeyCode::Char(' ')), Action::MarkRange));
    lemma_key_added(t, single(plain(KeyCode::Enter), Action::Activate));
    let t = t.push(single(plain(KeyCode::Enter), Action::Activate));
    lemma_key_added(t, single(plain(KeyCode::Char('q')), Action::Back));
    let t = t.push(single(plain(KeyCode::Char('q')), Action::Back));
    lemma_key_added(t, single(plain(KeyCode::Esc), Action::Back));
    let t = t.push(single(plain(KeyCode::Esc), Action::Back));
    assert(t =~= log_keys());
}

proof fn lemma_base_keys()
    ensures
        unambiguous(base_keys()),
{
    lemma_moving_keys();
    let t = moving_keys();
    lemma_key_added(t, single(plain(KeyCode::Enter), Action::Activate));
    let t = t.push(single(plain(KeyCode::Enter), Action::Activate));
    lemma_key_added(t, single(plain(KeyCode::Char('q')), Action::Back));
    let t = t.push(single(plain(KeyCode::Char('q')), Action::Back));
    lemma_key_added(t, single(plain(KeyCode::Esc), Action::Back));
    let t = t.push(single(plain(KeyCode::Esc), Action::Back));
    assert(t =~= base_keys());
}

proof fn lemma_file_view_keys()
    ensures
        unambiguous(file_view_keys()),
{
    lemma_moving_keys();
    let t = moving_keys();
    lemma_key_added(t, single(plain(KeyCode::Char('E')), Action::OpenEditor));
    let t = t.push(single(plain(KeyCode::Char('E')), Action::OpenEditor));
    lemma_key_added(t, single(plain(KeyCode::Char('q')), Action::Back));
    let t = t.push(single(plain(KeyCode::Char('q')), Action::Back));
    lemma_key_added(t, single(plain(KeyCode::Esc), Action::Back));
    let t = t.push(single(plain(KeyCode::Esc), Action::Back));
    lemma_key_added(t, single(plain(KeyCode::Char('o')), Action::Back));
    let t = t.push(single(plain(KeyCode::Char('o')), Action::Back));
    assert(t =~= file_view_keys());
}

proof fn lemma_export_preview_keys()
    ensures
        unambiguous(export_preview_keys()),
{
    lemma_moving_keys();
    let t = moving_keys();
    lemma_key_added(t, single(plain(KeyCode::Char('y')), Action::CopyMarkdown));
    let t = t.push(single(plain(KeyCode::Char('y')), Action::CopyMarkdown));
    lemma_key_added(t, single(plain(KeyCode::Char('w')), Action::WriteFile));
    let t = t.push(single(plain(KeyCode::Char('w')), Action::WriteFile));
    lemma_key_added(t, single(plain(KeyCode::Enter), Action::WriteFile));
    let t = t.push(single(plain(KeyCode::Enter), Action::WriteFile));
    lemma_key_added(t, single(plain(KeyCode::Char('q')), Action::Back));
    let t = t.push(single(plain(KeyCode::Char('q')), Action::Back));
    lemma_key_added(t, single(plain(KeyCode::Esc), Action::Back));
    let t = t.push(single(plain(KeyCode::Esc), Action::Back));
    lemma_key_added(t, single(plain(KeyCode::Char('e')), Action::Back));
    let t = t.push(single(plain(KeyCode::Char('e')), Action::Back));
    assert(t =~= export_preview_keys());
}

proof fn lemma_help_view_keys()
    ensures
        unambiguous(help_view_keys()),
{
    lemma_paging_keys();
    let t = paging_keys();
    lemma_key_added(t, single(plain(KeyCode::Char('q')), Action::Back));
    let t = t.push(single(plain(KeyCode::Char('q')), Action::Back));
    lemma_key_added(t, single(plain(KeyCode::Esc), Action::Back));
    let t = t.push(single(plain(KeyCode::Esc), Action::Back));
    lemma_key_added(t, single(plain(KeyCode::Char('?')), Action::Back));
    let t = t.push(single(plain(KeyCode::Char('?')), Action::Back));
    assert(t =~= help_view_keys());
}

/// No table binds the same keys twice, or a single key that starts a chord.
pub proof fn lemma_tables_are_unambiguous()
    ensures
        unambiguous(review_keys()),
        unambiguous(picker_keys()),
        unambiguous(log_keys()),
        unambiguous(base_keys()),
        unambiguous(file_view_keys()),
        unambiguous(export_preview_keys()),
        unambiguous(help_view_keys()),
{
    lemma_review_keys();
    lemma_picker_keys();
    lemma_log_keys();
    lemma_base_keys();
    lemma_file_view_keys();
    lemma_export_preview_keys();
    lemma_help_view_keys();
}

/// In such a table every binding that applies is reached by its keys.
pub proof fn lemma_every_binding_is_reached(table: Seq<BindingView>, ctx: Ctx, i: int)
    requires
        unambiguous(table),
        0 <= i < table.len(),
        live(table[i], ctx),
    ensures
        table[i].seq.len() == 1 ==> resolved(table, ctx, None, table[i].seq[0]) == Lookup::Act(
            table[i].action,
        ),
        table[i].seq.len() == 2 ==> resolved(table, ctx, None, table[i].seq[0])
            == Lookup::Pending && resolved(table, ctx, Some(table[i].seq[0]), table[i].seq[1])
            == Lookup::Act(table[i].action),
{
    reveal(unambiguous);
    let b = table[i];
    assert forall|j: int| 0 <= j < i implies (#[trigger] table[j]).seq != b.seq || !live(
        table[j],
        ctx,
    ) by {
        assert(!conflict(table[j], table[i]));
    }
    if b.seq.len() == 2 {
        lemma_chord_in_two_steps(table, ctx, i);
    } else {
        assert(b.seq =~= seq![b.seq[0]]);
        lemma_first_bound(table, ctx, b.seq, 0, i);
        assert forall|j: int|
            0 <= j < table.len() && live(#[trigger] table[j], ctx) && table[j].seq.len()
                == 2 implies table[j].seq[0] != b.seq[0] by {
            if j < i {
                assert(!conflict(table[j], table[i]));
            } else {
                assert(!conflict(table[i], table[j]));
            }
        }
    }
}

// ---- display ---------------------------------------------------------

/// The name of a media key.
pub open spec fn media_name(code: MediaKeyCode) -> Seq<char> {
    match code {
        MediaKeyCode::Play => "Play"@,
        MediaKeyCode::Pause => "Pause"@,
        MediaKeyCode::PlayPause => "PlayPause"@,
        MediaKeyCode::Reverse => "Reverse"@,
        MediaKeyCode::Stop => "Stop"@,
        MediaKeyCode::FastForward => "FastForward"@,
        MediaKeyCode::Rewind => "Rewind"@,
        MediaKeyCode::TrackNext => "TrackNext"@,
        MediaKeyCode::TrackPrevious => "TrackPrevious"@,
        MediaKeyCode::Record => "Record"@,
        MediaKeyCode::LowerVolume => "LowerVolume"@,
        MediaKeyCode::RaiseVolume => "RaiseVolume"@,
        MediaKeyCode::MuteVolume => "MuteVolume"@,
    }
}

fn media_text(code: MediaKeyCode) -> (r: &'static str)
    ensures
        r@ == media_name(code),
{
    match code {
        MediaKeyCode::Play => "Play",
        MediaKeyCode::Pause => "Pause",
        MediaKeyCode::PlayPause => "PlayPause",
        MediaKeyCode::Reverse => "Reverse",
        MediaKeyCode::Stop => "Stop",
        MediaKeyCode::FastForward => "FastForward",
        MediaKeyCode::Rewind => "Rewind",
        MediaKeyCode::TrackNext => "TrackNext",
        MediaKeyCode::TrackPrevious => "TrackPrevious",
        MediaKeyCode::Record => "Record",
        MediaKeyCode::LowerVolume => "LowerVolume",
        MediaKeyCode::RaiseVolume => "RaiseVolume",
        MediaKeyCode::MuteVolume => "MuteVolume",
    }
}

/// The name of a modifier key.
pub open spec fn modifier_name(code: ModifierKeyCode) -> Seq<char> {
    match code {
        ModifierKeyCode::LeftShift => "LeftShift"@,
        ModifierKeyCode::LeftControl => "LeftControl"@,
        ModifierKeyCode::LeftAlt => "LeftAlt"@,
        ModifierKeyCode::LeftSuper => "LeftSuper"@,
        ModifierKeyCode::LeftHyper => "LeftHyper"@,
        ModifierKeyCode::LeftMeta => "LeftMeta"@,
        ModifierKeyCode::RightShift => "RightShift"@,
        ModifierKeyCode::RightControl => "RightControl"@,
        ModifierKeyCode::RightAlt => "RightAlt"@,
        ModifierKeyCode::RightSuper => "RightSuper"@,
        ModifierKeyCode::RightHyper => "RightHyper"@,
        ModifierKeyCode::RightMeta => "RightMeta"@,
        ModifierKeyCode::IsoLevel3Shift => "IsoLevel3Shift"@,
        ModifierKeyCode::IsoLevel5Shift => "IsoLevel5Shift"@,
    }
}

fn modifier_text(code: ModifierKeyCode) -> (r: &'static str)
    ensures
        r@ == modifier_name(code),
{
    match code {
        ModifierKeyCode::LeftShift => "LeftShift",
        ModifierKeyCode::LeftControl => "LeftControl",
        ModifierKeyCode::LeftAlt => "LeftAlt",
        ModifierKeyCode::LeftSuper => "LeftSuper",
        ModifierKeyCode::LeftHyper => "LeftHyper",
        ModifierKeyCode::LeftMeta => "LeftMeta",
        ModifierKeyCode::RightShift => "RightShift",
        ModifierKeyCode::RightControl => "RightControl",
        ModifierKeyCode::RightAlt => "RightAlt",
        ModifierKeyCode::RightSuper => "RightSuper",
        ModifierKeyCode::RightHyper => "RightHyper",
        ModifierKeyCode::RightMeta => "RightMeta",
        ModifierKeyCode::IsoLevel3Shift => "IsoLevel3Shift",
        ModifierKeyCode::IsoLevel5Shift => "IsoLevel5Shift",
    }
}

/// The name of a key.
pub open spec fn code_name(code: KeyCode) -> Seq<char> {
    match code {
        KeyCode::Char(ch) => if ch == ' ' {
            "Space"@
        } else {
            seq![ch]
        },
        KeyCode::Enter => "⏎"@,
        KeyCode::Esc => "Esc"@,
        KeyCode::Tab => "Tab"@,
        KeyCode::BackTab => "Shift+Tab"@,
        KeyCode::Up => "↑"@,
        KeyCode::Down => "↓"@,
        KeyCode::Left => "←"@,
        KeyCode::Right => "→"@,
        KeyCode::PageUp => "PgUp"@,
        KeyCode::PageDown => "PgDn"@,
        KeyCode::Home => "Home"@,
        KeyCode::End => "End"@,
        KeyCode::Backspace => "Backspace"@,
        KeyCode::Delete => "Delete"@,
        KeyCode::Insert => "Insert"@,
        KeyCode::F(n) => "F("@ + num::decimal(n as nat) + ")"@,
        KeyCode::Null => "Null"@,
        KeyCode::CapsLock => "CapsLock"@,
        KeyCode::ScrollLock => "ScrollLock"@,
        KeyCode::NumLock => "NumLock"@,
        KeyCode::PrintScreen => "PrintScreen"@,
        KeyCode::Pause => "Pause"@,
        KeyCode::Menu => "Menu"@,
        KeyCode::KeypadBegin => "KeypadBegin"@,
        KeyCode::Media(m) => "Media("@ + media_name(m) + ")"@,
        KeyCode::Modifier(m) => "Modifier("@ + modifier_name(m) + ")"@,
    }
}

/// A key with its modifier, as hints and help show it.
pub open spec fn key_name(key: KeyPress) -> Seq<char> {
    if key.mods.control {
        "⌃"@ + code_name(key.code)
    } else if key.mods.alt {
        "Alt+"@ + code_name(key.code)
    } else {
        code_name(key.code)
    }
}

fn code_text(code: KeyCode) -> (r: String)
    ensures
        r@ == code_name(code),
{
    match code {
        KeyCode::Char(ch) => {
            if ch == ' ' {
                text::copy("Space")
            } else {
                let mut s: String = String::new();
                s.push(ch);
                assert(s@ =~= seq![ch]);
                s
            }
        },
        KeyCode::Enter => text::copy("⏎"),
        KeyCode::Esc => text::copy("Esc"),
        KeyCode::Tab => text::copy("Tab"),
        KeyCode::BackTab => text::copy("Shift+Tab"),
        KeyCode::Up => text::copy("↑"),
        KeyCode::Down => text::copy("↓"),
        KeyCode::Left => text::copy("←"),
        KeyCode::Right => text::copy("→"),
        KeyCode::PageUp => text::copy("PgUp"),
        KeyCode::PageDown => text::copy("PgDn"),
        KeyCode::Home => text::copy("Home"),
        KeyCode::End => text::copy("End"),
        KeyCode::Backspace => text::copy("Backspace"),
        KeyCode::Delete => text::copy("Delete"),
        KeyCode::Insert => text::copy("Insert"),
        KeyCode::F(n) => {
            let mut s: String = text::copy("F(");
            text::put(&mut s, num::decimal_text(n as u64).as_str());
            text::put(&mut s, ")");
            s
        },
        KeyCode::Null => text::copy("Null"),
        KeyCode::CapsLock => text::copy("CapsLock"),
        KeyCode::ScrollLock => text::copy("ScrollLock"),
        KeyCode::NumLock => text::copy("NumLock"),
        KeyCode::PrintScreen => text::copy("PrintScreen"),
        KeyCode::Pause => text::copy("Pause"),
        KeyCode::Menu => text::copy("Menu"),
        KeyCode::KeypadBegin => text::copy("KeypadBegin"),
        KeyCode::Media(m) => {
            let mut s: String = text::copy("Media(");
            text::put(&mut s, media_text(m));
            text::put(&mut s, ")");
            s
        },
        KeyCode::Modifier(m) => {
            let mut s: String = text::copy("Modifier(");
            text::put(&mut s, modifier_text(m));
            text::put(&mut s, ")");
            s
        },
    }
}

pub fn key_display(key: KeyPress) -> (r: String)
    ensures
        r@ == key_name(key),
{
    let base: String = code_text(key.code);
    if key.mods.control {
        let mut s: String = text::copy("⌃");
        text::put(&mut s, base.as_str());
        s
    } else if key.mods.alt {
        let mut s: String = text::copy("Alt+");
        text::put(&mut s, base.as_str());
        s
    } else {
        base
    }
}

/// A key sequence, its keys one after the other.
pub open spec fn seq_name(keys: Seq<KeyPress>) -> Seq<char>
    decreases keys.len(),
{
    if keys.len() == 0 {
        Seq::empty()
    } else {
        seq_name(keys.drop_last()) + key_name(keys.last())
    }
}

pub fn seq_display(keys: &[KeyPress]) -> (r: String)
    ensures
        r@ == seq_name(keys@),
{
    let mut s: String = String::new();
    let mut i: usize = 0;
    while i < keys.len()
        invariant
            i <= keys@.len(),
            s@ == seq_name(keys@.take(i as int)),
        decreases keys@.len() - i,
    {
        assert(keys@.take(i + 1).drop_last() =~= keys@.take(i as int));
        text::put(&mut s, key_display(keys[i]).as_str());
        i += 1;
    }
    assert(keys@.take(i as int) =~= keys@);
    s
}

/// Index of the first binding of an action at or after `i`; the length if there is none.
pub open spec fn action_index(table: Seq<BindingView>, action: Action, i: int) -> int
    decreases table.len() - i,
{
    if i < 0 || i >= table.len() {
        table.len() as int
    } else if table[i].action == action {
        i
    } else {
        action_index(table, action, i + 1)
    }
}

/// The primary key of an action: its first-listed binding, empty if it has none.
pub open spec fn primary_key(table: Seq<BindingView>, action: Action) -> Seq<char> {
    let k = action_index(table, action, 0);
    if k < table.len() {
        seq_name(table[k].seq)
    } else {
        Seq::empty()
    }
}

/// Display of the primary (first-listed) binding for an action.
pub fn key_for(table: &[Binding], action: Action) -> (r: String)
    ensures
        r@ == primary_key(deep::deep(table@), action),
{
    let ghost all = deep::deep(table@);
    let mut i: usize = 0;
    while i < table.len()
        invariant
            i <= table@.len(),
            all == deep::deep(table@),
            action_index(all, action, i as int) == action_index(all, action, 0),
        decreases table@.len() - i,
    {
        assert(all[i as int] == table@[i as int]@);
        if table[i].action == action {
            return seq_display(table[i].seq.as_slice());
        }
        i += 1;
    }
    let s: String = String::new();
    assert(s@ =~= Seq::empty());
    s
}

/// "j/k"-style label built from the primary keys of several actions.
pub open spec fn label_of(table: Seq<BindingView>, actions: Seq<Action>) -> Seq<char> {
    text::join(actions.map_values(|a: Action| primary_key(table, a)), "/"@)
}

/// "j/k"-style label built from the primary keys of several actions.
pub fn keys_label(table: &[Binding], actions: &[Action]) -> (r: String)
    ensures
        r@ == label_of(deep::deep(table@), actions@),
{
    let ghost all = deep::deep(table@);
    let mut keys: Vec<String> = Vec::new();
    let mut i: usize = 0;
    while i < actions.len()
        invariant
            i <= actions@.len(),
            all == deep::deep(table@),
            deep::deep(keys@) =~= actions@.take(i as int).map_values(
                |a: Action| primary_key(all, a),
            ),
        decreases actions@.len() - i,
    {
        keys.push(key_for(table, actions[i]));
        i += 1;
    }
    assert(actions@.take(i as int) =~= actions@);
    text::join_all(keys.as_slice(), "/")
}

/// A key label with what it does.
#[derive(Debug)]
pub struct Hint {
    pub key: String,
    pub desc: &'static str,
}

/// What a hint says.
#[verifier::ext_equal]
pub struct HintView {
    pub key: Seq<char>,
    pub desc: Seq<char>,
}

impl View for Hint {
    type V = HintView;

    open spec fn view(&self) -> HintView {
        HintView { key: self.key@, desc: self.desc@ }
    }
}

/// Terse action names for the hint bar.
pub open spec fn terse(action: Action) -> Seq<char> {
    match action {
        Action::GotoTop => "top"@,
        Action::GotoBottom => "bottom"@,
        _ => ""@,
    }
}

/// Terse action names for the hint bar.
pub fn hint_desc(action: Action) -> (r: &'static str)
    ensures
        r@ == terse(action),
{
    match action {
        Action::GotoTop => "top",
        Action::GotoBottom => "bottom",
        _ => "",
    }
}

/// The chords that start with the prefix, in table order.
pub open spec fn completions(table: Seq<BindingView>, prefix: KeyPress) -> Seq<HintView>
    decreases table.len(),
{
    if table.len() == 0 {
        Seq::empty()
    } else {
        let before = completions(table.drop_last(), prefix);
        let b = table.last();
        if b.seq.len() == 2 && b.seq[0] == prefix {
            before.push(HintView { key: seq_name(b.seq), desc: terse(b.action) })
        } else {
            before
        }
    }
}

/// The chords a held prefix key could still complete, for the hint bar.
pub fn chords_from(table: &[Binding], prefix: KeyPress) -> (r: Vec<Hint>)
    ensures
        deep::deep(r@) == completions(deep::deep(table@), prefix),
{
    let ghost all = deep::deep(table@);
    let mut hints: Vec<Hint> = Vec::new();
    let mut i: usize = 0;
    while i < table.len()
        invariant
            i <= table@.len(),
            all == deep::deep(table@),
            deep::deep(hints@) == completions(all.take(i as int), prefix),
        decreases table@.len() - i,
    {
        let b: &Binding = &table[i];
        assert(all.take(i + 1).drop_last() =~= all.take(i as int));
        assert(all.take(i + 1).last() == b@);
        if b.seq.len() == 2 && b.seq[0] == prefix {
            hints.push(Hint { key: seq_display(b.seq.as_slice()), desc: hint_desc(b.action) });
        }
        i += 1;
    }
    assert(all.take(i as int) =~= all);
    hints
}

// ---- help popup content ------------------------------------------------

#[derive(Debug)]
pub enum HelpItem {
    /// Keys derived from the review table so they can never drift.
    Act(Vec<Action>, &'static str),
    /// Keys that live outside the tables (digits, editor keys, mouse).
    Raw(&'static str, &'static str),
}

/// What a help item says.
#[verifier::ext_equal]
pub enum HelpItemView {
    Act(Seq<Action>, Seq<char>),
    Raw(Seq<char>, Seq<char>),
}

impl View for HelpItem {
    type V = HelpItemView;

    open spec fn view(&self) -> HelpItemView {
        match self {
            HelpItem::Act(actions, desc) => HelpItemView::Act(actions@, desc@),
            HelpItem::Raw(key, desc) => HelpItemView::Raw(key@, desc@),
        }
    }
}

#[derive(Debug)]
pub struct HelpSection {
    pub title: &'static str,
    pub items: Vec<HelpItem>,
}

/// What a help section says.
#[verifier::ext_equal]
pub struct SectionView {
    pub title: Seq<char>,
    pub items: Seq<HelpItemView>,
}

impl View for HelpSection {
    type V = SectionView;

    open spec fn view(&self) -> SectionView {
        SectionView { title: self.title@, items: deep::deep(self.items@) }
    }
}

/// A list of one action.
pub fn one(a: Action) -> (r: Vec<Action>)
    ensures
        r@ == seq![a],
{
    let mut v: Vec<Action> = Vec::new();
    v.push(a);
    v
}

/// A list of two actions.
pub fn two(a: Action, b: Action) -> (r: Vec<Action>)
    ensures
        r@ == seq![a, b],
{
    let mut v: Vec<Action> = Vec::new();
    v.push(a);
    v.push(b);
    v
}

/// A list of three actions.
pub fn three(a: Action, b: Action, c: Action) -> (r: Vec<Action>)
    ensures
        r@ == seq![a, b, c],
{
    let mut v: Vec<Action> = Vec::new();
    v.push(a);
    v.push(b);
    v.push(c);
    v
}

fn help_act(items: &mut Vec<HelpItem>, actions: Vec<Action>, desc: &'static str)
    ensures
        deep::deep(final(items)@) == deep::deep(old(items)@).push(
            HelpItemView::Act(actions@, desc@),
        ),
{
    items.push(HelpItem::Act(actions, desc));
}

fn help_raw(items: &mut Vec<HelpItem>, key: &'static str, desc: &'static str)
    ensures
        deep::deep(final(items)@) == deep::deep(old(items)@).push(HelpItemView::Raw(key@, desc@)),
{
    items.push(HelpItem::Raw(key, desc));
}

/// The help section "Navigate".
pub open spec fn help_navigate() -> SectionView {
    SectionView {
        title: "Navigate"@,
        items: seq![
                HelpItemView::Act(seq![Action::Down, Action::Up], "move the cursor (or move in a list)"@),
                HelpItemView::Act(seq![Action::HalfPageDown, Action::HalfPageUp], "half page down / up"@),
                HelpItemView::Act(seq![Action::PageDown, Action::PageUp], "page down / up"@),
                HelpItemView::Act(seq![Action::GotoTop, Action::GotoBottom], "jump to top / bottom"@),
                HelpItemView::Act(seq![Action::NextFile, Action::PrevFile], "next / previous file"@),
                HelpItemView::Act(seq![Action::NextHunk, Action::PrevHunk], "next / previous hunk"@),
                HelpItemView::Raw("↑↓ PgUp PgDn"@, "arrows and paging keys work too"@),
        ],
    }
}

fn navigate_section() -> (r: HelpSection)
    ensures
        r@ == help_navigate(),
{
    let mut items: Vec<HelpItem> = Vec::new();
    help_act(&mut items, two(Action::Down, Action::Up), "move the cursor (or move in a list)");
    help_act(&mut items, two(Action::HalfPageDown, Action::HalfPageUp), "half page down / up");
    help_act(&mut items, two(Action::PageDown, Action::PageUp), "page down / up");
    help_act(&mut items, two(Action::GotoTop, Action::GotoBottom), "jump to top / bottom");
    help_act(&mut items, two(Action::NextFile, Action::PrevFile), "next / previous file");
    help_act(&mut items, two(Action::NextHunk, Action::PrevHunk), "next / previous hunk");
    help_raw(&mut items, "↑↓ PgUp PgDn", "arrows and paging keys work too");
    HelpSection { title: "Navigate", items }
}

/// The help section "Search".
pub open spec fn help_search() -> SectionView {
    SectionView {
        title: "Search"@,
        items: seq![
                HelpItemView::Act(seq![Action::Search], "search the diff"@),
                HelpItemView::Act(seq![Action::NextMatch, Action::PrevMatch], "next / previous match while a search is live"@),
        ],
    }
}

fn search_section() -> (r: HelpSection)
    ensures
        r@ == help_search(),
{
    let mut items: Vec<HelpItem> = Vec::new();
    help_act(&mut items, one(Action::Search), "search the diff");
    help_act(&mut items, two(Action::NextMatch, Action::PrevMatch), "next / previous match while a search is live");
    HelpSection { title: "Search", items }
}

/// The help section "Select & copy".
pub open spec fn help_select_copy() -> SectionView {
    SectionView {
        title: "Select & copy"@,
        items: seq![
                HelpItemView::Act(seq![Action::ToggleSelection], "select lines (again or Esc cancels)"@),
                HelpItemView::Act(seq![Action::SelectLine], "select the current line; extends line-wise"@),
                HelpItemView::Act(seq![Action::CopyCode, Action::CopyPatch], "copy selection as code / as patch"@),
        ],
    }
}

fn select_copy_section() -> (r: HelpSection)
    ensures
        r@ == help_select_copy(),
{
    let mut items: Vec<HelpItem> = Vec::new();
    help_act(&mut items, one(Action::ToggleSelection), "select lines (again or Esc cancels)");
    help_act(&mut items, one(Action::SelectLine), "select the current line; extends line-wise");
    help_act(&mut items, two(Action::CopyCode, Action::CopyPatch), "copy selection as code / as patch");
    HelpSection { title: "Select & copy", items }
}

/// The help section "Comments".
pub open spec fn help_comments() -> SectionView {
    SectionView {
        title: "Comments"@,
        items: seq![
                HelpItemView::Act(seq![Action::Comment], "comment on the current line (or selection / edit)"@),
                HelpItemView::Act(seq![Action::NextComment, Action::PrevComment], "next / previous comment"@),
                HelpItemView::Act(seq![Action::DeleteComment], "delete the comment at the cursor"@),
                HelpItemView::Act(seq![Action::RestoreComments], "restore what the last delete removed"@),
                HelpItemView::Act(seq![Action::DeleteAllComments], "delete ALL comments (asks first)"@),
                HelpItemView::Act(seq![Action::ExportPreview], "preview comment export (then copy or write markdown)"@),
                HelpItemView::Raw("⏎ / Alt+⏎"@, "in the comment editor: save / newline"@),
                HelpItemView::Raw("←↑↓→ Home End"@, "move the caret while editing a comment"@),
        ],
    }
}

fn comments_section() -> (r: HelpSection)
    ensures
        r@ == help_comments(),
{
    let mut items: Vec<HelpItem> = Vec::new();
    help_act(&mut items, one(Action::Comment), "comment on the current line (or selection / edit)");
    help_act(&mut items, two(Action::NextComment, Action::PrevComment), "next / previous comment");
    help_act(&mut items, one(Action::DeleteComment), "delete the comment at the cursor");
    help_act(&mut items, one(Action::RestoreComments), "restore what the last delete removed");
    help_act(&mut items, one(Action::DeleteAllComments), "delete ALL comments (asks first)");
    help_act(&mut items, one(Action::ExportPreview), "preview comment export (then copy or write markdown)");
    help_raw(&mut items, "⏎ / Alt+⏎", "in the comment editor: save / newline");
    help_raw(&mut items, "←↑↓→ Home End", "move the caret while editing a comment");
    HelpSection { title: "Comments", items }
}

/// The help section "Views & scope".
pub open spec fn help_views_scope() -> SectionView {
    SectionView {
        title: "Views & scope"@,
        items: seq![
                HelpItemView::Act(seq![Action::Activate], "show / collapse the full file inline (or load a stub)"@),
                HelpItemView::Act(seq![Action::FileView], "view the full file (read-only, at the current line)"@),
                HelpItemView::Act(seq![Action::OpenEditor], "open the file in $EDITOR at the current line"@),
                HelpItemView::Act(seq![Action::FocusTree], "pick a file from the tree (Esc cancels)"@),
                HelpItemView::Act(seq![Action::ToggleTree], "show / hide the file tree"@),
                HelpItemView::Act(seq![Action::NarrowTree, Action::WidenTree, Action::AutoTreeWidth], "narrow / widen / auto-size the file tree"@),
                HelpItemView::Act(seq![Action::Reload], "reload the diff from the repository"@),
                HelpItemView::Act(seq![Action::SwitchScope], "switch scope (back to the picker)"@),
        ],
    }
}

fn views_scope_section() -> (r: HelpSection)
    ensures
        r@ == help_views_scope(),
{
    let mut items: Vec<HelpItem> = Vec::new();
    help_act(&mut items, one(Action::Activate), "show / collapse the full file inline (or load a stub)");
    help_act(&mut items, one(Action::FileView), "view the full file (read-only, at the current line)");
    help_act(&mut items, one(Action::OpenEditor), "open the file in $EDITOR at the current line");
    help_act(&mut items, one(Action::FocusTree), "pick a file from the tree (Esc cancels)");
    help_act(&mut items, one(Action::ToggleTree), "show / hide the file tree");
    help_act(&mut items, three(Action::NarrowTree, Action::WidenTree, Action::AutoTreeWidth), "narrow / widen / auto-size the file tree");
    help_act(&mut items, one(Action::Reload), "reload the diff from the repository");
    help_act(&mut items, one(Action::SwitchScope), "switch scope (back to the picker)");
    HelpSection { title: "Views & scope", items }
}

/// The help section "General".
pub open spec fn help_general() -> SectionView {
    SectionView {
        title: "General"@,
        items: seq![
                HelpItemView::Raw("1-9"@, "picker: open that entry"@),
                HelpItemView::Raw("Space"@, "commit log: mark an inclusive range start"@),
                HelpItemView::Raw("?"@, "toggle this help"@),
                HelpItemView::Raw("q / Esc"@, "back; quits from the picker"@),
                HelpItemView::Raw("⌃c"@, "quit from anywhere"@),
                HelpItemView::Raw("mouse"@, "wheel scrolls; click picks (shift+drag selects text)"@),
        ],
    }
}

fn general_section() -> (r: HelpSection)
    ensures
        r@ == help_general(),
{
    let mut items: Vec<HelpItem> = Vec::new();
    help_raw(&mut items, "1-9", "picker: open that entry");
    help_raw(&mut items, "Space", "commit log: mark an inclusive range start");
    help_raw(&mut items, "?", "toggle this help");
    help_raw(&mut items, "q / Esc", "back; quits from the picker");
    help_raw(&mut items, "⌃c", "quit from anywhere");
    help_raw(&mut items, "mouse", "wheel scrolls; click picks (shift+drag selects text)");
    HelpSection { title: "General", items }
}

/// What the help popup lists.
pub open spec fn help_sections() -> Seq<SectionView> {
    seq![help_navigate(), help_search(), help_select_copy(), help_comments(), help_views_scope(), help_general()]
}

/// What the help popup lists. Sections and descriptions stand here; the keys
/// of actions are derived from the review table so they can never drift.
pub fn help() -> (r: Vec<HelpSection>)
    ensures
        deep::deep(r@) == help_sections(),
{
    let mut r: Vec<HelpSection> = Vec::new();
    r.push(navigate_section());
    r.push(search_section());
    r.push(select_copy_section());
    r.push(comments_section());
    r.push(views_scope_section());
    r.push(general_section());
    r
}

} // verus!
