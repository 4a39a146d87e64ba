//! What hints and help say of the keys.

use crate::git::cli;
use crate::git::diff;
use crate::git::diff::FileDiffView;
use crate::git::worktree;
use crate::keymap;
use crate::keymap::{
    Action, BindingView, Ctx, HelpItemView, HintView, KeyCode, KeyPress, Lookup, SectionView,
};
use crate::text;
use crate::ui::popups;
use vstd::prelude::*;

verus! {

proof fn lemma_action_index(table: Seq<BindingView>, action: Action, i: int)
    requires
        0 <= i <= table.len(),
    ensures
        ({
            let k = keymap::action_index(table, action, i);
            &&& i <= k <= table.len()
            &&& k < table.len() ==> table[k].action == action
            &&& forall|j: int| i <= j < k ==> (#[trigger] table[j]).action != action
        }),
    decreases table.len() - i,
{
    if i < table.len() && table[i].action != action {
        lemma_action_index(table, action, i + 1);
    }
}

/// The key that hints and help show for an action is the first one bound to it,
/// and pressing it does the action. An action that is not bound shows no key.
pub proof fn lemma_shown_keys_work(table: Seq<BindingView>, ctx: Ctx, action: Action) -> (i: int)
    requires
        keymap::unambiguous(table),
    ensures
        (forall|j: int| 0 <= j < table.len() ==> (#[trigger] table[j]).action != action)
            ==> keymap::primary_key(table, action).len() == 0,
        (exists|j: int| 0 <= j < table.len() && (#[trigger] table[j]).action == action) ==> {
            &&& 0 <= i < table.len()
            &&& table[i].action == action
            &&& forall|j: int| 0 <= j < i ==> (#[trigger] table[j]).action != action
            &&& table[i].seq.len() == 1 ==> keymap::primary_key(table, action)
                == keymap::key_name(table[i].seq[0])
            &&& table[i].seq.len() == 2 ==> keymap::primary_key(table, action)
                == keymap::key_name(table[i].seq[0]) + keymap::key_name(table[i].seq[1])
            &&& keymap::live(table[i], ctx) && table[i].seq.len() == 1 ==> keymap::resolved(
                table,
                ctx,
                None,
                table[i].seq[0],
            ) == Lookup::Act(action)
            &&& keymap::live(table[i], ctx) && table[i].seq.len() == 2 ==> keymap::resolved(
                table,
                ctx,
                Some(table[i].seq[0]),
                table[i].seq[1],
            ) == Lookup::Act(action)
        },
{
    lemma_action_index(table, action, 0);
    let k = keymap::action_index(table, action, 0);
    if k < table.len() {
        assert(table[k].action == action);
        let keys = table[k].seq;
        reveal_with_fuel(keymap::seq_name, 3);
        if keys.len() == 1 {
            assert(keys.drop_last() =~= Seq::empty());
            assert(Seq::<char>::empty() + keymap::key_name(keys[0]) =~= keymap::key_name(keys[0]));
        } else if keys.len() == 2 {
            assert(keys.drop_last().drop_last() =~= Seq::empty());
            assert(keys.drop_last().last() == keys[0]);
            assert(keymap::seq_name(keys) =~= keymap::key_name(keys[0]) + keymap::key_name(
                keys[1],
            ));
        }
        if keymap::live(table[k], ctx) {
            keymap::lemma_every_binding_is_reached(table, ctx, k);
        }
    }
    k
}

/// A character is shown as itself, the space by name; Ctrl and Alt are shown in
/// front.
pub proof fn lemma_key_names(c: char, code: KeyCode)
    requires
        c != ' ',
    ensures
        keymap::key_name(keymap::plain(KeyCode::Char(c))) == seq![c],
        keymap::key_name(keymap::plain(KeyCode::Char(' '))) == "Space"@,
        keymap::key_name(keymap::ctrl(c)) == "⌃"@ + seq![c],
        keymap::key_name(
            KeyPress {
                code,
                mods: keymap::KeyModifiers { shift: false, control: false, alt: true },
            },
        ) == "Alt+"@ + keymap::key_name(keymap::plain(code)),
{
}

/// The keys of two actions are shown with a slash between them.
pub proof fn lemma_labels(table: Seq<BindingView>, a: Action, b: Action)
    ensures
        keymap::label_of(table, seq![a]) == keymap::primary_key(table, a),
        keymap::label_of(table, seq![a, b]) == keymap::primary_key(table, a) + "/"@
            + keymap::primary_key(table, b),
{
    let f = |x: Action| keymap::primary_key(table, x);
    let one = seq![a].map_values(f);
    let two = seq![a, b].map_values(f);
    reveal_with_fuel(text::join, 3);
    assert(one.len() == 1 && one[0] == f(a));
    assert(two.len() == 2 && two[0] == f(a) && two[1] == f(b));
    assert(one.drop_last() =~= Seq::empty());
    assert(two.drop_last() =~= one);
    assert(keymap::label_of(table, seq![a]) =~= f(a));
    assert(keymap::label_of(table, seq![a, b]) =~= f(a) + "/"@ + f(b));
}

proof fn lemma_first_bound(table: Seq<BindingView>, ctx: Ctx, keys: Seq<KeyPress>, i: int)
    requires
        0 <= i <= table.len(),
    ensures
        ({
            let k = keymap::first_bound(table, ctx, keys, i);
            &&& i <= k <= table.len()
            &&& k < table.len() ==> keymap::live(table[k], ctx) && table[k].seq == keys
            &&& forall|j: int|
                i <= j < k ==> !(keymap::live(#[trigger] table[j], ctx) && table[j].seq == keys)
        }),
    decreases table.len() - i,
{
    if i < table.len() && !(keymap::live(table[i], ctx) && table[i].seq == keys) {
        lemma_first_bound(table, ctx, keys, i + 1);
    }
}

/// A key that nothing is bound to does nothing, and neither does one that breaks
/// off a chord, whatever it does by itself; and an action comes only from a
/// binding of it.
pub proof fn lemma_other_keys_do_nothing(
    table: Seq<BindingView>,
    ctx: Ctx,
    first: KeyPress,
    key: KeyPress,
    action: Action,
)
    ensures
        (forall|i: int|
            0 <= i < table.len() ==> !(keymap::live(#[trigger] table[i], ctx) && table[i].seq
                == seq![first, key])) ==> keymap::resolved(table, ctx, Some(first), key)
            == Lookup::Nothing,
        (forall|i: int|
            0 <= i < table.len() && keymap::live(#[trigger] table[i], ctx) && table[i].seq.len() > 0
                ==> table[i].seq[0] != key) ==> keymap::resolved(table, ctx, None, key)
            == Lookup::Nothing,
        keymap::resolved(table, ctx, None, key) == Lookup::Act(action) ==> exists|i: int|
            0 <= i < table.len() && (#[trigger] table[i]).action == action && table[i].seq
                == seq![key] && keymap::live(table[i], ctx),
        keymap::resolved(table, ctx, Some(first), key) == Lookup::Act(action) ==> exists|i: int|
            0 <= i < table.len() && (#[trigger] table[i]).action == action && table[i].seq
                == seq![first, key] && keymap::live(table[i], ctx),
{
    lemma_first_bound(table, ctx, seq![first, key], 0);
    lemma_first_bound(table, ctx, seq![key], 0);
    let k = keymap::first_bound(table, ctx, seq![key], 0);
    if k < table.len() {
        assert(table[k].seq[0] == key);
    }
}

/// While a chord is held the bar shows the chords that go on from it, in order.
pub proof fn lemma_completions(table: Seq<BindingView>, prefix: KeyPress)
    ensures
        keymap::completions(table, prefix) == table.filter(
            |b: BindingView| b.seq.len() == 2 && b.seq[0] == prefix,
        ).map_values(
            |b: BindingView|
                HintView { key: keymap::seq_name(b.seq), desc: keymap::terse(b.action) },
        ),
    decreases table.len(),
{
    reveal(Seq::filter);
    if table.len() > 0 {
        lemma_completions(table.drop_last(), prefix);
    }
    assert(keymap::completions(table, prefix) =~= table.filter(
        |b: BindingView| b.seq.len() == 2 && b.seq[0] == prefix,
    ).map_values(
        |b: BindingView| HintView { key: keymap::seq_name(b.seq), desc: keymap::terse(b.action) },
    ));
}

// ---- the help -----------------------------------------------------------------------

proof fn lemma_items_width(items: Seq<HelpItemView>, n: int, least: nat)
    requires
        0 <= n <= items.len(),
    ensures
        popups::items_width(items, n, least) >= least,
        forall|i: int|
            0 <= i < n ==> popups::item_keys(#[trigger] items[i]).len() <= popups::items_width(
                items,
                n,
                least,
            ),
    decreases n,
{
    if n > 0 {
        lemma_items_width(items, n - 1, least);
    }
}

proof fn lemma_keys_width(sections: Seq<SectionView>, n: int, s: int, i: int)
    requires
        0 <= s < n <= sections.len(),
        0 <= i < sections[s].items.len(),
    ensures
        popups::item_keys(sections[s].items[i]).len() <= popups::keys_width(sections, n),
    decreases n,
{
    let items = sections[n - 1].items;
    lemma_items_width(items, items.len() as int, popups::keys_width(sections, n - 1));
    if s < n - 1 {
        lemma_keys_width(sections, n - 1, s, i);
    }
}

/// Every item of the help has a line: its keys, right-aligned to one column for
/// all, and then what they do.
pub proof fn lemma_help_lists_every_item(sections: Seq<SectionView>, s: int, i: int) -> (at: int)
    requires
        0 <= s < sections.len(),
        0 <= i < sections[s].items.len(),
    ensures
        ({
            let w = popups::keys_width(sections, sections.len() as int);
            let lines = popups::help_text(sections);
            let item = sections[s].items[i];
            let keys = popups::item_keys(item);
            &&& 0 <= at < lines.len()
            &&& lines[at].spans.len() == 2
            &&& lines[at].spans[0].text.len() == w + 4
            &&& ("  "@ + text::repeat(' ', (w - keys.len()) as nat) + keys + "  "@)
                == lines[at].spans[0].text
            &&& keys.len() <= w
            &&& lines[at].spans[1].text == popups::item_desc(item)
        }),
{
    let n = sections.len() as int;
    let w = popups::keys_width(sections, n);
    lemma_keys_width(sections, n, s, i);
    let at = lemma_item_line(sections, w, n, s, i);
    let keys = popups::item_keys(sections[s].items[i]);
    reveal_strlit("  ");
    if keys.len() == w {
        assert(text::repeat(' ', 0) + keys =~= keys);
    }
    assert("  "@ + text::repeat(' ', (w - keys.len()) as nat) + keys + "  "@ =~= "  "@
        + text::pad_left(keys, w) + "  "@);
    at
}

proof fn lemma_item_line(sections: Seq<SectionView>, w: nat, n: int, s: int, i: int) -> (at: int)
    requires
        0 <= s < n <= sections.len(),
        0 <= i < sections[s].items.len(),
    ensures
        0 <= at < popups::section_lines(sections, w, n).len(),
        popups::section_lines(sections, w, n)[at] == popups::item_line(sections[s].items[i], w),
    decreases n,
{
    let all = popups::section_lines(sections, w, n);
    let before = popups::section_lines(sections, w, n - 1);
    let items = sections[n - 1].items;
    if s < n - 1 {
        let at = lemma_item_line(sections, w, n - 1, s, i);
        assert(all[at] == before[at]);
        at
    } else {
        let at = all.len() - items.len() + i;
        assert(all[at] == popups::item_line(items[i], w));
        at
    }
}

// ---- the whole diff -----------------------------------------------------------------

/// The diff of a working tree has every file of the patch, oversized ones as
/// stubs, and every untracked one, and no other.
pub proof fn lemma_worktree_diff(patch: Seq<char>, extra: Seq<FileDiffView>)
    ensures
        worktree::worktree_diff(patch, extra).files.to_multiset() == cli::patch_files(
            patch,
        ).map_values(|f: FileDiffView| worktree::stubbed(f)).to_multiset().add(
            extra.to_multiset(),
        ),
        diff::in_order(worktree::worktree_diff(patch, extra).files),
{
    let a = cli::patch_files(patch).map_values(|f: FileDiffView| worktree::stubbed(f));
    diff::lemma_sort_files(a + extra);
    vstd::seq_lib::lemma_multiset_commutative(a, extra);
}

} // verus!
