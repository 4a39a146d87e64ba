//! What each key does on each screen.

use crate::keymap;
use crate::keymap::{Action, BindingView, Ctx, Guard, KeyCode, KeyPress, Lookup};
use vstd::prelude::*;

verus! {

/// The key does this, pressed by itself.
pub open spec fn pressed(
    table: Seq<BindingView>,
    searching: bool,
    key: KeyPress,
    action: Action,
) -> bool {
    keymap::resolved(table, Ctx { search_active: searching }, None, key) == Lookup::Act(action)
}

/// The two keys do this, pressed one after the other.
pub open spec fn pressed_twice(
    table: Seq<BindingView>,
    searching: bool,
    first: char,
    second: char,
    action: Action,
) -> bool {
    let a = keymap::plain(KeyCode::Char(first));
    let b = keymap::plain(KeyCode::Char(second));
    let ctx = Ctx { search_active: searching };
    &&& keymap::resolved(table, ctx, None, a) == Lookup::Pending
    &&& keymap::resolved(table, ctx, Some(a), b) == Lookup::Act(action)
}

/// The keys of a review; `n` goes to the next match while a search is live, and to
/// the next hunk otherwise.
pub proof fn lemma_keys_of_a_review(searching: bool)
    ensures
        pressed(keymap::review_keys(), searching, keymap::plain(KeyCode::Char('j')), Action::Down),
        pressed(keymap::review_keys(), searching, keymap::plain(KeyCode::Down), Action::Down),
        pressed(keymap::review_keys(), searching, keymap::plain(KeyCode::Char('k')), Action::Up),
        pressed(keymap::review_keys(), searching, keymap::plain(KeyCode::Up), Action::Up),
        pressed(keymap::review_keys(), searching, keymap::ctrl('d'), Action::HalfPageDown),
        pressed(keymap::review_keys(), searching, keymap::ctrl('u'), Action::HalfPageUp),
        pressed(keymap::review_keys(), searching, keymap::ctrl('f'), Action::PageDown),
        pressed(keymap::review_keys(), searching, keymap::plain(KeyCode::PageDown), Action::PageDown),
        pressed(keymap::review_keys(), searching, keymap::ctrl('b'), Action::PageUp),
        pressed(keymap::review_keys(), searching, keymap::plain(KeyCode::PageUp), Action::PageUp),
        pressed_twice(keymap::review_keys(), searching, 'g', 'g', Action::GotoTop),
        pressed(keymap::review_keys(), searching, keymap::plain(KeyCode::Home), Action::GotoTop),
        pressed_twice(keymap::review_keys(), searching, 'g', 'e', Action::GotoBottom),
        pressed(keymap::review_keys(), searching, keymap::plain(KeyCode::Char('G')), Action::GotoBottom),
        pressed(keymap::review_keys(), searching, keymap::plain(KeyCode::End), Action::GotoBottom),
        pressed(keymap::review_keys(), searching, keymap::plain(KeyCode::Char(']')), Action::NextFile),
        pressed(keymap::review_keys(), searching, keymap::plain(KeyCode::Char('[')), Action::PrevFile),
        !searching ==> pressed(keymap::review_keys(), searching, keymap::plain(KeyCode::Char('n')), Action::NextHunk),
        pressed(keymap::review_keys(), searching, keymap::plain(KeyCode::Char('p')), Action::PrevHunk),
        searching ==> pressed(keymap::review_keys(), searching, keymap::plain(KeyCode::Char('n')), Action::NextMatch),
        searching ==> pressed(keymap::review_keys(), searching, keymap::plain(KeyCode::Char('N')), Action::PrevMatch),
        pressed(keymap::review_keys(), searching, keymap::plain(KeyCode::Char('/')), Action::Search),
        pressed(keymap::review_keys(), searching, keymap::plain(KeyCode::Char('v')), Action::ToggleSelection),
        pressed(keymap::review_keys(), searching, keymap::plain(KeyCode::Char('x')), Action::SelectLine),
        pressed(keymap::review_keys(), searching, keymap::plain(KeyCode::Char('y')), Action::CopyCode),
        pressed(keymap::review_keys(), searching, keymap::plain(KeyCode::Char('Y')), Action::CopyPatch),
        pressed(keymap::review_keys(), searching, keymap::plain(KeyCode::Char('c')), Action::Comment),
        pressed(keymap::review_keys(), searching, keymap::plain(KeyCode::Char('d')), Action::DeleteComment),
        pressed(keymap::review_keys(), searching, keymap::plain(KeyCode::Char('u')), Action::RestoreComments),
        pressed(keymap::review_keys(), searching, keymap::plain(KeyCode::Char('D')), Action::DeleteAllComments),
        pressed(keymap::review_keys(), searching, keymap::plain(KeyCode::Char('}')), Action::NextComment),
        pressed(keymap::review_keys(), searching, keymap::plain(KeyCode::Char('{')), Action::PrevComment),
        pressed(keymap::review_keys(), searching, keymap::plain(KeyCode::Char('e')), Action::ExportPreview),
        pressed(keymap::review_keys(), searching, keymap::plain(KeyCode::Char('o')), Action::FileView),
        pressed(keymap::review_keys(), searching, keymap::plain(KeyCode::Char('E')), Action::OpenEditor),
        pressed(keymap::review_keys(), searching, keymap::plain(KeyCode::Char('r')), Action::Reload),
        pressed(keymap::review_keys(), searching, keymap::plain(KeyCode::Char('t')), Action::ToggleTree),
        pressed(keymap::review_keys(), searching, keymap::plain(KeyCode::Char('<')), Action::NarrowTree),
        pressed(keymap::review_keys(), searching, keymap::plain(KeyCode::Char('>')), Action::WidenTree),
        pressed(keymap::review_keys(), searching, keymap::plain(KeyCode::Char('=')), Action::AutoTreeWidth),
        pressed(keymap::review_keys(), searching, keymap::plain(KeyCode::Tab), Action::FocusTree),
        pressed(keymap::review_keys(), searching, keymap::plain(KeyCode::BackTab), Action::FocusTree),
        pressed(keymap::review_keys(), searching, keymap::plain(KeyCode::Enter), Action::Activate),
        pressed(keymap::review_keys(), searching, keymap::plain(KeyCode::Esc), Action::Back),
        pressed(keymap::review_keys(), searching, keymap::plain(KeyCode::Char('q')), Action::SwitchScope),
{
    keymap::lemma_tables_are_unambiguous();
    let t = keymap::review_keys();
    let ctx = Ctx { search_active: searching };
    assert(t[0] == keymap::single(keymap::plain(KeyCode::Char('j')), Action::Down));
    keymap::lemma_every_binding_is_reached(t, ctx, 0);
    assert(t[1] == keymap::single(keymap::plain(KeyCode::Down), Action::Down));
    keymap::lemma_every_binding_is_reached(t, ctx, 1);
    assert(t[2] == keymap::single(keymap::plain(KeyCode::Char('k')), Action::Up));
    keymap::lemma_every_binding_is_reached(t, ctx, 2);
    assert(t[3] == keymap::single(keymap::plain(KeyCode::Up), Action::Up));
    keymap::lemma_every_binding_is_reached(t, ctx, 3);
    assert(t[4] == keymap::single(keymap::ctrl('d'), Action::HalfPageDown));
    keymap::lemma_every_binding_is_reached(t, ctx, 4);
    assert(t[5] == keymap::single(keymap::ctrl('u'), Action::HalfPageUp));
    keymap::lemma_every_binding_is_reached(t, ctx, 5);
    assert(t[6] == keymap::single(keymap::ctrl('f'), Action::PageDown));
    keymap::lemma_every_binding_is_reached(t, ctx, 6);
    assert(t[7] == keymap::single(keymap::plain(KeyCode::PageDown), Action::PageDown));
    keymap::lemma_every_binding_is_reached(t, ctx, 7);
    assert(t[8] == keymap::single(keymap::ctrl('b'), Action::PageUp));
    keymap::lemma_every_binding_is_reached(t, ctx, 8);
    assert(t[9] == keymap::single(keymap::plain(KeyCode::PageUp), Action::PageUp));
    keymap::lemma_every_binding_is_reached(t, ctx, 9);
    assert(t[10] == keymap::chord(keymap::plain(KeyCode::Char('g')), keymap::plain(KeyCode::Char('g')), Action::GotoTop));
    keymap::lemma_every_binding_is_reached(t, ctx, 10);
    assert(t[11] == keymap::single(keymap::plain(KeyCode::Home), Action::GotoTop));
    keymap::lemma_every_binding_is_reached(t, ctx, 11);
    assert(t[12] == keymap::chord(keymap::plain(KeyCode::Char('g')), keymap::plain(KeyCode::Char('e')), Action::GotoBottom));
    keymap::lemma_every_binding_is_reached(t, ctx, 12);
    assert(t[13] == keymap::single(keymap::plain(KeyCode::Char('G')), Action::GotoBottom));
    keymap::lemma_every_binding_is_reached(t, ctx, 13);
    assert(t[14] == keymap::single(keymap::plain(KeyCode::End), Action::GotoBottom));
    keymap::lemma_every_binding_is_reached(t, ctx, 14);
    assert(t[15] == keymap::single(keymap::plain(KeyCode::Char(']')), Action::NextFile));
    keymap::lemma_every_binding_is_reached(t, ctx, 15);
    assert(t[16] == keymap::single(keymap::plain(KeyCode::Char('[')), Action::PrevFile));
    keymap::lemma_every_binding_is_reached(t, ctx, 16);
    assert(t[17] == keymap::guarded(Guard::NoSearch, keymap::plain(KeyCode::Char('n')), Action::NextHunk));
    if !searching {
        keymap::lemma_every_binding_is_reached(t, ctx, 17);
    }
    assert(t[18] == keymap::single(keymap::plain(KeyCode::Char('p')), Action::PrevHunk));
    keymap::lemma_every_binding_is_reached(t, ctx, 18);
    assert(t[19] == keymap::guarded(Guard::SearchActive, keymap::plain(KeyCode::Char('n')), Action::NextMatch));
    if searching {
        keymap::lemma_every_binding_is_reached(t, ctx, 19);
    }
    assert(t[20] == keymap::guarded(Guard::SearchActive, keymap::plain(KeyCode::Char('N')), Action::PrevMatch));
    if searching {
        keymap::lemma_every_binding_is_reached(t, ctx, 20);
    }
    assert(t[21] == keymap::single(keymap::plain(KeyCode::Char('/')), Action::Search));
    keymap::lemma_every_binding_is_reached(t, ctx, 21);
    assert(t[22] == keymap::single(keymap::plain(KeyCode::Char('v')), Action::ToggleSelection));
    keymap::lemma_every_binding_is_reached(t, ctx, 22);
    assert(t[23] == keymap::single(keymap::plain(KeyCode::Char('x')), Action::SelectLine));
    keymap::lemma_every_binding_is_reached(t, ctx, 23);
    assert(t[24] == keymap::single(keymap::plain(KeyCode::Char('y')), Action::CopyCode));
    keymap::lemma_every_binding_is_reached(t, ctx, 24);
    assert(t[25] == keymap::single(keymap::plain(KeyCode::Char('Y')), Action::CopyPatch));
    keymap::lemma_every_binding_is_reached(t, ctx, 25);
    assert(t[26] == keymap::single(keymap::plain(KeyCode::Char('c')), Action::Comment));
    keymap::lemma_every_binding_is_reached(t, ctx, 26);
    assert(t[27] == keymap::single(keymap::plain(KeyCode::Char('d')), Action::DeleteComment));
    keymap::lemma_every_binding_is_reached(t, ctx, 27);
    assert(t[28] == keymap::single(keymap::plain(KeyCode::Char('u')), Action::RestoreComments));
    keymap::lemma_every_binding_is_reached(t, ctx, 28);
    assert(t[29] == keymap::single(keymap::plain(KeyCode::Char('D')), Action::DeleteAllComments));
    keymap::lemma_every_binding_is_reached(t, ctx, 29);
    assert(t[30] == keymap::single(keymap::plain(KeyCode::Char('}')), Action::NextComment));
    keymap::lemma_every_binding_is_reached(t, ctx, 30);
    assert(t[31] == keymap::single(keymap::plain(KeyCode::Char('{')), Action::PrevComment));
    keymap::lemma_every_binding_is_reached(t, ctx, 31);
    assert(t[32] == keymap::single(keymap::plain(KeyCode::Char('e')), Action::ExportPreview));
    keymap::lemma_every_binding_is_reached(t, ctx, 32);
    assert(t[33] == keymap::single(keymap::plain(KeyCode::Char('o')), Action::FileView));
    keymap::lemma_every_binding_is_reached(t, ctx, 33);
    assert(t[34] == keymap::single(keymap::plain(KeyCode::Char('E')), Action::OpenEditor));
    keymap::lemma_every_binding_is_reached(t, ctx, 34);
    assert(t[35] == keymap::single(keymap::plain(KeyCode::Char('r')), Action::Reload));
    keymap::lemma_every_binding_is_reached(t, ctx, 35);
    assert(t[36] == keymap::single(keymap::plain(KeyCode::Char('t')), Action::ToggleTree));
    keymap::lemma_every_binding_is_reached(t, ctx, 36);
    assert(t[37] == keymap::single(keymap::plain(KeyCode::Char('<')), Action::NarrowTree));
    keymap::lemma_every_binding_is_reached(t, ctx, 37);
    assert(t[38] == keymap::single(keymap::plain(KeyCode::Char('>')), Action::WidenTree));
    keymap::lemma_every_binding_is_reached(t, ctx, 38);
    assert(t[39] == keymap::single(keymap::plain(KeyCode::Char('=')), Action::AutoTreeWidth));
    keymap::lemma_every_binding_is_reached(t, ctx, 39);
    assert(t[40] == keymap::single(keymap::plain(KeyCode::Tab), Action::FocusTree));
    keymap::lemma_every_binding_is_reached(t, ctx, 40);
    assert(t[41] == keymap::single(keymap::plain(KeyCode::BackTab), Action::FocusTree));
    keymap::lemma_every_binding_is_reached(t, ctx, 41);
    assert(t[42] == keymap::single(keymap::plain(KeyCode::Enter), Action::Activate));
    keymap::lemma_every_binding_is_reached(t, ctx, 42);
    assert(t[43] == keymap::single(keymap::plain(KeyCode::Esc), Action::Back));
    keymap::lemma_every_binding_is_reached(t, ctx, 43);
    assert(t[44] == keymap::single(keymap::plain(KeyCode::Char('q')), Action::SwitchScope));
    keymap::lemma_every_binding_is_reached(t, ctx, 44);
}

/// The keys of the menu.
pub proof fn lemma_keys_of_the_menu(searching: bool)
    ensures
        pressed(keymap::picker_keys(), searching, keymap::plain(KeyCode::Char('j')), Action::Down),
        pressed(keymap::picker_keys(), searching, keymap::plain(KeyCode::Down), Action::Down),
        pressed(keymap::picker_keys(), searching, keymap::plain(KeyCode::Char('k')), Action::Up),
        pressed(keymap::picker_keys(), searching, keymap::plain(KeyCode::Up), Action::Up),
        pressed(keymap::picker_keys(), searching, keymap::plain(KeyCode::Enter), Action::Activate),
        pressed(keymap::picker_keys(), searching, keymap::plain(KeyCode::Char('q')), Action::Quit),
        pressed(keymap::picker_keys(), searching, keymap::plain(KeyCode::Esc), Action::Quit),
{
    keymap::lemma_tables_are_unambiguous();
    let t = keymap::picker_keys();
    let ctx = Ctx { search_active: searching };
    assert(t[0] == keymap::single(keymap::plain(KeyCode::Char('j')), Action::Down));
    keymap::lemma_every_binding_is_reached(t, ctx, 0);
    assert(t[1] == keymap::single(keymap::plain(KeyCode::Down), Action::Down));
    keymap::lemma_every_binding_is_reached(t, ctx, 1);
    assert(t[2] == keymap::single(keymap::plain(KeyCode::Char('k')), Action::Up));
    keymap::lemma_every_binding_is_reached(t, ctx, 2);
    assert(t[3] == keymap::single(keymap::plain(KeyCode::Up), Action::Up));
    keymap::lemma_every_binding_is_reached(t, ctx, 3);
    assert(t[4] == keymap::single(keymap::plain(KeyCode::Enter), Action::Activate));
    keymap::lemma_every_binding_is_reached(t, ctx, 4);
    assert(t[5] == keymap::single(keymap::plain(KeyCode::Char('q')), Action::Quit));
    keymap::lemma_every_binding_is_reached(t, ctx, 5);
    assert(t[6] == keymap::single(keymap::plain(KeyCode::Esc), Action::Quit));
    keymap::lemma_every_binding_is_reached(t, ctx, 6);
}

/// The keys of the commit list.
pub proof fn lemma_keys_of_the_commit_list(searching: bool)
    ensures
        pressed(keymap::log_keys(), searching, keymap::plain(KeyCode::Char('j')), Action::Down),
        pressed(keymap::log_keys(), searching, keymap::plain(KeyCode::Down), Action::Down),
        pressed(keymap::log_keys(), searching, keymap::plain(KeyCode::Char('k')), Action::Up),
        pressed(keymap::log_keys(), searching, keymap::plain(KeyCode::Up), Action::Up),
        pressed(keymap::log_keys(), searching, keymap::ctrl('d'), Action::HalfPageDown),
        pressed(keymap::log_keys(), searching, keymap::ctrl('u'), Action::HalfPageUp),
        pressed(keymap::log_keys(), searching, keymap::ctrl('f'), Action::PageDown),
        pressed(keymap::log_keys(), searching, keymap::plain(KeyCode::PageDown), Action::PageDown),
        pressed(keymap::log_keys(), searching, keymap::ctrl('b'), Action::PageUp),
        pressed(keymap::log_keys(), searching, keymap::plain(KeyCode::PageUp), Action::PageUp),
        pressed_twice(keymap::log_keys(), searching, 'g', 'g', Action::GotoTop),
        pressed(keymap::log_keys(), searching, keymap::plain(KeyCode::Home), Action::GotoTop),
        pressed_twice(keymap::log_keys(), searching, 'g', 'e', Action::GotoBottom),
        pressed(keymap::log_keys(), searching, keymap::plain(KeyCode::Char('G')), Action::GotoBottom),
        pressed(keymap::log_keys(), searching, keymap::plain(KeyCode::End), Action::GotoBottom),
        pressed(keymap::log_keys(), searching, keymap::plain(KeyCode::Char(' ')), Action::MarkRange),
        pressed(keymap::log_keys(), searching, keymap::plain(KeyCode::Enter), Action::Activate),
        pressed(keymap::log_keys(), searching, keymap::plain(KeyCode::Char('q')), Action::Back),
        pressed(keymap::log_keys(), searching, keymap::plain(KeyCode::Esc), Action::Back),
{
    keymap::lemma_tables_are_unambiguous();
    let t = keymap::log_keys();
    let ctx = Ctx { search_active: searching };
    assert(t[0] == keymap::single(keymap::plain(KeyCode::Char('j')), Action::Down));
    keymap::lemma_every_binding_is_reached(t, ctx, 0);
    assert(t[1] == keymap::single(keymap::plain(KeyCode::Down), Action::Down));
    keymap::lemma_every_binding_is_reached(t, ctx, 1);
    assert(t[2] == keymap::single(keymap::plain(KeyCode::Char('k')), Action::Up));
    keymap::lemma_every_binding_is_reached(t, ctx, 2);
    assert(t[3] == keymap::single(keymap::plain(KeyCode::Up), Action::Up));
    keymap::lemma_every_binding_is_reached(t, ctx, 3);
    assert(t[4] == keymap::single(keymap::ctrl('d'), Action::HalfPageDown));
    keymap::lemma_every_binding_is_reached(t, ctx, 4);
    assert(t[5] == keymap::single(keymap::ctrl('u'), Action::HalfPageUp));
    keymap::lemma_every_binding_is_reached(t, ctx, 5);
    assert(t[6] == keymap::single(keymap::ctrl('f'), Action::PageDown));
    keymap::lemma_every_binding_is_reached(t, ctx, 6);
    assert(t[7] == keymap::single(keymap::plain(KeyCode::PageDown), Action::PageDown));
    keymap::lemma_every_binding_is_reached(t, ctx, 7);
    assert(t[8] == keymap::single(keymap::ctrl('b'), Action::PageUp));
    keymap::lemma_every_binding_is_reached(t, ctx, 8);
    assert(t[9] == keymap::single(keymap::plain(KeyCode::PageUp), Action::PageUp));
    keymap::lemma_every_binding_is_reached(t, ctx, 9);
    assert(t[10] == keymap::chord(keymap::plain(KeyCode::Char('g')), keymap::plain(KeyCode::Char('g')), Action::GotoTop));
    keymap::lemma_every_binding_is_reached(t, ctx, 10);
    assert(t[11] == keymap::single(keymap::plain(KeyCode::Home), Action::GotoTop));
    keymap::lemma_every_binding_is_reached(t, ctx, 11);
    assert(t[12] == keymap::chord(keymap::plain(KeyCode::Char('g')), keymap::plain(KeyCode::Char('e')), Action::GotoBottom));
    keymap::lemma_every_binding_is_reached(t, ctx, 12);
    assert(t[13] == keymap::single(keymap::plain(KeyCode::Char('G')), Action::GotoBottom));
    keymap::lemma_every_binding_is_reached(t, ctx, 13);
    assert(t[14] == keymap::single(keymap::plain(KeyCode::End), Action::GotoBottom));
    keymap::lemma_every_binding_is_reached(t, ctx, 14);
    assert(t[15] == keymap::single(keymap::plain(KeyCode::Char(' ')), Action::MarkRange));
    keymap::lemma_every_binding_is_reached(t, ctx, 15);
    assert(t[16] == keymap::single(keymap::plain(KeyCode::Enter), Action::Activate));
    keymap::lemma_every_binding_is_reached(t, ctx, 16);
    assert(t[17] == keymap::single(keymap::plain(KeyCode::Char('q')), Action::Back));
    keymap::lemma_every_binding_is_reached(t, ctx, 17);
    assert(t[18] == keymap::single(keymap::plain(KeyCode::Esc), Action::Back));
    keymap::lemma_every_binding_is_reached(t, ctx, 18);
}

/// The keys of the branch list.
pub proof fn lemma_keys_of_the_branch_list(searching: bool)
    ensures
        pressed(keymap::base_keys(), searching, keymap::plain(KeyCode::Char('j')), Action::Down),
        pressed(keymap::base_keys(), searching, keymap::plain(KeyCode::Down), Action::Down),
        pressed(keymap::base_keys(), searching, keymap::plain(KeyCode::Char('k')), Action::Up),
        pressed(keymap::base_keys(), searching, keymap::plain(KeyCode::Up), Action::Up),
        pressed(keymap::base_keys(), searching, keymap::ctrl('d'), Action::HalfPageDown),
        pressed(keymap::base_keys(), searching, keymap::ctrl('u'), Action::HalfPageUp),
        pressed(keymap::base_keys(), searching, keymap::ctrl('f'), Action::PageDown),
        pressed(keymap::base_keys(), searching, keymap::plain(KeyCode::PageDown), Action::PageDown),
        pressed(keymap::base_keys(), searching, keymap::ctrl('b'), Action::PageUp),
        pressed(keymap::base_keys(), searching, keymap::plain(KeyCode::PageUp), Action::PageUp),
        pressed_twice(keymap::base_keys(), searching, 'g', 'g', Action::GotoTop),
        pressed(keymap::base_keys(), searching, keymap::plain(KeyCode::Home), Action::GotoTop),
        pressed_twice(keymap::base_keys(), searching, 'g', 'e', Action::GotoBottom),
        pressed(keymap::base_keys(), searching, keymap::plain(KeyCode::Char('G')), Action::GotoBottom),
        pressed(keymap::base_keys(), searching, keymap::plain(KeyCode::End), Action::GotoBottom),
        pressed(keymap::base_keys(), searching, keymap::plain(KeyCode::Enter), Action::Activate),
        pressed(keymap::base_keys(), searching, keymap::plain(KeyCode::Char('q')), Action::Back),
        pressed(keymap::base_keys(), searching, keymap::plain(KeyCode::Esc), Action::Back),
{
    keymap::lemma_tables_are_unambiguous();
    let t = keymap::base_keys();
    let ctx = Ctx { search_active: searching };
    assert(t[0] == keymap::single(keymap::plain(KeyCode::Char('j')), Action::Down));
    keymap::lemma_every_binding_is_reached(t, ctx, 0);
    assert(t[1] == keymap::single(keymap::plain(KeyCode::Down), Action::Down));
    keymap::lemma_every_binding_is_reached(t, ctx, 1);
    assert(t[2] == keymap::single(keymap::plain(KeyCode::Char('k')), Action::Up));
    keymap::lemma_every_binding_is_reached(t, ctx, 2);
    assert(t[3] == keymap::single(keymap::plain(KeyCode::Up), Action::Up));
    keymap::lemma_every_binding_is_reached(t, ctx, 3);
    assert(t[4] == keymap::single(keymap::ctrl('d'), Action::HalfPageDown));
    keymap::lemma_every_binding_is_reached(t, ctx, 4);
    assert(t[5] == keymap::single(keymap::ctrl('u'), Action::HalfPageUp));
    keymap::lemma_every_binding_is_reached(t, ctx, 5);
    assert(t[6] == keymap::single(keymap::ctrl('f'), Action::PageDown));
    keymap::lemma_every_binding_is_reached(t, ctx, 6);
    assert(t[7] == keymap::single(keymap::plain(KeyCode::PageDown), Action::PageDown));
    keymap::lemma_every_binding_is_reached(t, ctx, 7);
    assert(t[8] == keymap::single(keymap::ctrl('b'), Action::PageUp));
    keymap::lemma_every_binding_is_reached(t, ctx, 8);
    assert(t[9] == keymap::single(keymap::plain(KeyCode::PageUp), Action::PageUp));
    keymap::lemma_every_binding_is_reached(t, ctx, 9);
    assert(t[10] == keymap::chord(keymap::plain(KeyCode::Char('g')), keymap::plain(KeyCode::Char('g')), Action::GotoTop));
    keymap::lemma_every_binding_is_reached(t, ctx, 10);
    assert(t[11] == keymap::single(keymap::plain(KeyCode::Home), Action::GotoTop));
    keymap::lemma_every_binding_is_reached(t, ctx, 11);
    assert(t[12] == keymap::chord(keymap::plain(KeyCode::Char('g')), keymap::plain(KeyCode::Char('e')), Action::GotoBottom));
    keymap::lemma_every_binding_is_reached(t, ctx, 12);
    assert(t[13] == keymap::single(keymap::plain(KeyCode::Char('G')), Action::GotoBottom));
    keymap::lemma_every_binding_is_reached(t, ctx, 13);
    assert(t[14] == keymap::single(keymap::plain(KeyCode::End), Action::GotoBottom));
    keymap::lemma_every_binding_is_reached(t, ctx, 14);
    assert(t[15] == keymap::single(keymap::plain(KeyCode::Enter), Action::Activate));
    keymap::lemma_every_binding_is_reached(t, ctx, 15);
    assert(t[16] == keymap::single(keymap::plain(KeyCode::Char('q')), Action::Back));
    keymap::lemma_every_binding_is_reached(t, ctx, 16);
    assert(t[17] == keymap::single(keymap::plain(KeyCode::Esc), Action::Back));
    keymap::lemma_every_binding_is_reached(t, ctx, 17);
}

/// The keys of the pager.
pub proof fn lemma_keys_of_the_pager(searching: bool)
    ensures
        pressed(keymap::file_view_keys(), searching, keymap::plain(KeyCode::Char('j')), Action::Down),
        pressed(keymap::file_view_keys(), searching, keymap::plain(KeyCode::Down), Action::Down),
        pressed(keymap::file_view_keys(), searching, keymap::plain(KeyCode::Char('k')), Action::Up),
        pressed(keymap::file_view_keys(), searching, keymap::plain(KeyCode::Up), Action::Up),
        pressed(keymap::file_view_keys(), searching, keymap::ctrl('d'), Action::HalfPageDown),
        pressed(keymap::file_view_keys(), searching, keymap::ctrl('u'), Action::HalfPageUp),
        pressed(keymap::file_view_keys(), searching, keymap::ctrl('f'), Action::PageDown),
        pressed(keymap::file_view_keys(), searching, keymap::plain(KeyCode::PageDown), Action::PageDown),
        pressed(keymap::file_view_keys(), searching, keymap::ctrl('b'), Action::PageUp),
        pressed(keymap::file_view_keys(), searching, keymap::plain(KeyCode::PageUp), Action::PageUp),
        pressed_twice(keymap::file_view_keys(), searching, 'g', 'g', Action::GotoTop),
        pressed(keymap::file_view_keys(), searching, keymap::plain(KeyCode::Home), Action::GotoTop),
        pressed_twice(keymap::file_view_keys(), searching, 'g', 'e', Action::GotoBottom),
        pressed(keymap::file_view_keys(), searching, keymap::plain(KeyCode::Char('G')), Action::GotoBottom),
        pressed(keymap::file_view_keys(), searching, keymap::plain(KeyCode::End), Action::GotoBottom),
        pressed(keymap::file_view_keys(), searching, keymap::plain(KeyCode::Char('E')), Action::OpenEditor),
        pressed(keymap::file_view_keys(), searching, keymap::plain(KeyCode::Char('q')), Action::Back),
        pressed(keymap::file_view_keys(), searching, keymap::plain(KeyCode::Esc), Action::Back),
        pressed(keymap::file_view_keys(), searching, keymap::plain(KeyCode::Char('o')), Action::Back),
{
    keymap::lemma_tables_are_unambiguous();
    let t = keymap::file_view_keys();
    let ctx = Ctx { search_active: searching };
    assert(t[0] == keymap::single(keymap::plain(KeyCode::Char('j')), Action::Down));
    keymap::lemma_every_binding_is_reached(t, ctx, 0);
    assert(t[1] == keymap::single(keymap::plain(KeyCode::Down), Action::Down));
    keymap::lemma_every_binding_is_reached(t, ctx, 1);
    assert(t[2] == keymap::single(keymap::plain(KeyCode::Char('k')), Action::Up));
    keymap::lemma_every_binding_is_reached(t, ctx, 2);
    assert(t[3] == keymap::single(keymap::plain(KeyCode::Up), Action::Up));
    keymap::lemma_every_binding_is_reached(t, ctx, 3);
    assert(t[4] == keymap::single(keymap::ctrl('d'), Action::HalfPageDown));
    keymap::lemma_every_binding_is_reached(t, ctx, 4);
    assert(t[5] == keymap::single(keymap::ctrl('u'), Action::HalfPageUp));
    keymap::lemma_every_binding_is_reached(t, ctx, 5);
    assert(t[6] == keymap::single(keymap::ctrl('f'), Action::PageDown));
    keymap::lemma_every_binding_is_reached(t, ctx, 6);
    assert(t[7] == keymap::single(keymap::plain(KeyCode::PageDown), Action::PageDown));
    keymap::lemma_every_binding_is_reached(t, ctx, 7);
    assert(t[8] == keymap::single(keymap::ctrl('b'), Action::PageUp));
    keymap::lemma_every_binding_is_reached(t, ctx, 8);
    assert(t[9] == keymap::single(keymap::plain(KeyCode::PageUp), Action::PageUp));
    keymap::lemma_every_binding_is_reached(t, ctx, 9);
    assert(t[10] == keymap::chord(keymap::plain(KeyCode::Char('g')), keymap::plain(KeyCode::Char('g')), Action::GotoTop));
    keymap::lemma_every_binding_is_reached(t, ctx, 10);
    assert(t[11] == keymap::single(keymap::plain(KeyCode::Home), Action::GotoTop));
    keymap::lemma_every_binding_is_reached(t, ctx, 11);
    assert(t[12] == keymap::chord(keymap::plain(KeyCode::Char('g')), keymap::plain(KeyCode::Char('e')), Action::GotoBottom));
    keymap::lemma_every_binding_is_reached(t, ctx, 12);
    assert(t[13] == keymap::single(keymap::plain(KeyCode::Char('G')), Action::GotoBottom));
    keymap::lemma_every_binding_is_reached(t, ctx, 13);
    assert(t[14] == keymap::single(keymap::plain(KeyCode::End), Action::GotoBottom));
    keymap::lemma_every_binding_is_reached(t, ctx, 14);
    assert(t[15] == keymap::single(keymap::plain(KeyCode::Char('E')), Action::OpenEditor));
    keymap::lemma_every_binding_is_reached(t, ctx, 15);
    assert(t[16] == keymap::single(keymap::plain(KeyCode::Char('q')), Action::Back));
    keymap::lemma_every_binding_is_reached(t, ctx, 16);
    assert(t[17] == keymap::single(keymap::plain(KeyCode::Esc), Action::Back));
    keymap::lemma_every_binding_is_reached(t, ctx, 17);
    assert(t[18] == keymap::single(keymap::plain(KeyCode::Char('o')), Action::Back));
    keymap::lemma_every_binding_is_reached(t, ctx, 18);
}

/// The keys of the export preview.
pub proof fn lemma_keys_of_the_preview(searching: bool)
    ensures
        pressed(keymap::export_preview_keys(), searching, keymap::plain(KeyCode::Char('j')), Action::Down),
        pressed(keymap::export_preview_keys(), searching, keymap::plain(KeyCode::Down), Action::Down),
        pressed(keymap::export_preview_keys(), searching, keymap::plain(KeyCode::Char('k')), Action::Up),
        pressed(keymap::export_preview_keys(), searching, keymap::plain(KeyCode::Up), Action::Up),
        pressed(keymap::export_preview_keys(), searching, keymap::ctrl('d'), Action::HalfPageDown),
        pressed(keymap::export_preview_keys(), searching, keymap::ctrl('u'), Action::HalfPageUp),
        pressed(keymap::export_preview_keys(), searching, keymap::ctrl('f'), Action::PageDown),
        pressed(keymap::export_preview_keys(), searching, keymap::plain(KeyCode::PageDown), Action::PageDown),
        pressed(keymap::export_preview_keys(), searching, keymap::ctrl('b'), Action::PageUp),
        pressed(keymap::export_preview_keys(), searching, keymap::plain(KeyCode::PageUp), Action::PageUp),
        pressed_twice(keymap::export_preview_keys(), searching, 'g', 'g', Action::GotoTop),
        pressed(keymap::export_preview_keys(), searching, keymap::plain(KeyCode::Home), Action::GotoTop),
        pressed_twice(keymap::export_preview_keys(), searching, 'g', 'e', Action::GotoBottom),
        pressed(keymap::export_preview_keys(), searching, keymap::plain(KeyCode::Char('G')), Action::GotoBottom),
        pressed(keymap::export_preview_keys(), searching, keymap::plain(KeyCode::End), Action::GotoBottom),
        pressed(keymap::export_preview_keys(), searching, keymap::plain(KeyCode::Char('y')), Action::CopyMarkdown),
        pressed(keymap::export_preview_keys(), searching, keymap::plain(KeyCode::Char('w')), Action::WriteFile),
        pressed(keymap::export_preview_keys(), searching, keymap::plain(KeyCode::Enter), Action::WriteFile),
        pressed(keymap::export_preview_keys(), searching, keymap::plain(KeyCode::Char('q')), Action::Back),
        pressed(keymap::export_preview_keys(), searching, keymap::plain(KeyCode::Esc), Action::Back),
        pressed(keymap::export_preview_keys(), searching, keymap::plain(KeyCode::Char('e')), Action::Back),
{
    keymap::lemma_tables_are_unambiguous();
    let t = keymap::export_preview_keys();
    let ctx = Ctx { search_active: searching };
    assert(t[0] == keymap::single(keymap::plain(KeyCode::Char('j')), Action::Down));
    keymap::lemma_every_binding_is_reached(t, ctx, 0);
    assert(t[1] == keymap::single(keymap::plain(KeyCode::Down), Action::Down));
    keymap::lemma_every_binding_is_reached(t, ctx, 1);
    assert(t[2] == keymap::single(keymap::plain(KeyCode::Char('k')), Action::Up));
    keymap::lemma_every_binding_is_reached(t, ctx, 2);
    assert(t[3] == keymap::single(keymap::plain(KeyCode::Up), Action::Up));
    keymap::lemma_every_binding_is_reached(t, ctx, 3);
    assert(t[4] == keymap::single(keymap::ctrl('d'), Action::HalfPageDown));
    keymap::lemma_every_binding_is_reached(t, ctx, 4);
    assert(t[5] == keymap::single(keymap::ctrl('u'), Action::HalfPageUp));
    keymap::lemma_every_binding_is_reached(t, ctx, 5);
    assert(t[6] == keymap::single(keymap::ctrl('f'), Action::PageDown));
    keymap::lemma_every_binding_is_reached(t, ctx, 6);
    assert(t[7] == keymap::single(keymap::plain(KeyCode::PageDown), Action::PageDown));
    keymap::lemma_every_binding_is_reached(t, ctx, 7);
    assert(t[8] == keymap::single(keymap::ctrl('b'), Action::PageUp));
    keymap::lemma_every_binding_is_reached(t, ctx, 8);
    assert(t[9] == keymap::single(keymap::plain(KeyCode::PageUp), Action::PageUp));
    keymap::lemma_every_binding_is_reached(t, ctx, 9);
    assert(t[10] == keymap::chord(keymap::plain(KeyCode::Char('g')), keymap::plain(KeyCode::Char('g')), Action::GotoTop));
    keymap::lemma_every_binding_is_reached(t, ctx, 10);
    assert(t[11] == keymap::single(keymap::plain(KeyCode::Home), Action::GotoTop));
    keymap::lemma_every_binding_is_reached(t, ctx, 11);
    assert(t[12] == keymap::chord(keymap::plain(KeyCode::Char('g')), keymap::plain(KeyCode::Char('e')), Action::GotoBottom));
    keymap::lemma_every_binding_is_reached(t, ctx, 12);
    assert(t[13] == keymap::single(keymap::plain(KeyCode::Char('G')), Action::GotoBottom));
    keymap::lemma_every_binding_is_reached(t, ctx, 13);
    assert(t[14] == keymap::single(keymap::plain(KeyCode::End), Action::GotoBottom));
    keymap::lemma_every_binding_is_reached(t, ctx, 14);
    assert(t[15] == keymap::single(keymap::plain(KeyCode::Char('y')), Action::CopyMarkdown));
    keymap::lemma_every_binding_is_reached(t, ctx, 15);
    assert(t[16] == keymap::single(keymap::plain(KeyCode::Char('w')), Action::WriteFile));
    keymap::lemma_every_binding_is_reached(t, ctx, 16);
    assert(t[17] == keymap::single(keymap::plain(KeyCode::Enter), Action::WriteFile));
    keymap::lemma_every_binding_is_reached(t, ctx, 17);
    assert(t[18] == keymap::single(keymap::plain(KeyCode::Char('q')), Action::Back));
    keymap::lemma_every_binding_is_reached(t, ctx, 18);
    assert(t[19] == keymap::single(keymap::plain(KeyCode::Esc), Action::Back));
    keymap::lemma_every_binding_is_reached(t, ctx, 19);
    assert(t[20] == keymap::single(keymap::plain(KeyCode::Char('e')), Action::Back));
    keymap::lemma_every_binding_is_reached(t, ctx, 20);
}

/// The keys of the help.
pub proof fn lemma_keys_of_the_help(searching: bool)
    ensures
        pressed(keymap::help_view_keys(), searching, keymap::plain(KeyCode::Char('j')), Action::Down),
        pressed(keymap::help_view_keys(), searching, keymap::plain(KeyCode::Down), Action::Down),
        pressed(keymap::help_view_keys(), searching, keymap::plain(KeyCode::Char('k')), Action::Up),
        pressed(keymap::help_view_keys(), searching, keymap::plain(KeyCode::Up), Action::Up),
        pressed(keymap::help_view_keys(), searching, keymap::ctrl('d'), Action::HalfPageDown),
        pressed(keymap::help_view_keys(), searching, keymap::ctrl('u'), Action::HalfPageUp),
        pressed(keymap::help_view_keys(), searching, keymap::ctrl('f'), Action::PageDown),
        pressed(keymap::help_view_keys(), searching, keymap::plain(KeyCode::PageDown), Action::PageDown),
        pressed(keymap::help_view_keys(), searching, keymap::ctrl('b'), Action::PageUp),
        pressed(keymap::help_view_keys(), searching, keymap::plain(KeyCode::PageUp), Action::PageUp),
        pressed(keymap::help_view_keys(), searching, keymap::plain(KeyCode::Char('q')), Action::Back),
        pressed(keymap::help_view_keys(), searching, keymap::plain(KeyCode::Esc), Action::Back),
        pressed(keymap::help_view_keys(), searching, keymap::plain(KeyCode::Char('?')), Action::Back),
{
    keymap::lemma_tables_are_unambiguous();
    let t = keymap::help_view_keys();
    let ctx = Ctx { search_active: searching };
    assert(t[0] == keymap::single(keymap::plain(KeyCode::Char('j')), Action::Down));
    keymap::lemma_every_binding_is_reached(t, ctx, 0);
    assert(t[1] == keymap::single(keymap::plain(KeyCode::Down), Action::Down));
    keymap::lemma_every_binding_is_reached(t, ctx, 1);
    assert(t[2] == keymap::single(keymap::plain(KeyCode::Char('k')), Action::Up));
    keymap::lemma_every_binding_is_reached(t, ctx, 2);
    assert(t[3] == keymap::single(keymap::plain(KeyCode::Up), Action::Up));
    keymap::lemma_every_binding_is_reached(t, ctx, 3);
    assert(t[4] == keymap::single(keymap::ctrl('d'), Action::HalfPageDown));
    keymap::lemma_every_binding_is_reached(t, ctx, 4);
    assert(t[5] == keymap::single(keymap::ctrl('u'), Action::HalfPageUp));
    keymap::lemma_every_binding_is_reached(t, ctx, 5);
    assert(t[6] == keymap::single(keymap::ctrl('f'), Action::PageDown));
    keymap::lemma_every_binding_is_reached(t, ctx, 6);
    assert(t[7] == keymap::single(keymap::plain(KeyCode::PageDown), Action::PageDown));
    keymap::lemma_every_binding_is_reached(t, ctx, 7);
    assert(t[8] == keymap::single(keymap::ctrl('b'), Action::PageUp));
    keymap::lemma_every_binding_is_reached(t, ctx, 8);
    assert(t[9] == keymap::single(keymap::plain(KeyCode::PageUp), Action::PageUp));
    keymap::lemma_every_binding_is_reached(t, ctx, 9);
    assert(t[10] == keymap::single(keymap::plain(KeyCode::Char('q')), Action::Back));
    keymap::lemma_every_binding_is_reached(t, ctx, 10);
    assert(t[11] == keymap::single(keymap::plain(KeyCode::Esc), Action::Back));
    keymap::lemma_every_binding_is_reached(t, ctx, 11);
    assert(t[12] == keymap::single(keymap::plain(KeyCode::Char('?')), Action::Back));
    keymap::lemma_every_binding_is_reached(t, ctx, 12);
}

} // verus!
