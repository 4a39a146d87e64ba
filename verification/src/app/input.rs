//! One-line prompts and other small pieces of input handling.

use crate::deep;
use crate::keymap::KeyCode;
use crate::num;
use crate::text;
use crate::ui::review::{CommentTarget, TargetView};
use vstd::prelude::*;

verus! {

broadcast use crate::deep::group_deep;

/// What a key did to a one-line prompt.
#[derive(Clone, Copy, Debug, PartialEq, Eq, Structural)]
pub enum SingleLineInput {
    Continue,
    Submit,
    Cancel,
}

/// What a key does to a one-line prompt.
pub open spec fn prompted(input: Seq<char>, code: KeyCode) -> (Seq<char>, SingleLineInput) {
    match code {
        KeyCode::Esc => (input, SingleLineInput::Cancel),
        KeyCode::Enter => (input, SingleLineInput::Submit),
        KeyCode::Backspace => (
            if input.len() == 0 {
                input
            } else {
                input.drop_last()
            },
            SingleLineInput::Continue,
        ),
        KeyCode::Char(c) => (input.push(c), SingleLineInput::Continue),
        _ => (input, SingleLineInput::Continue),
    }
}

fn without_last(s: &str) -> (r: String)
    ensures
        r@ == (if s@.len() == 0 {
            s@
        } else {
            s@.drop_last()
        }),
{
    let cs: Vec<char> = text::to_chars(s);
    if cs.len() == 0 {
        return String::new();
    }
    let r: String = text::text_range(cs.as_slice(), 0, cs.len() - 1);
    assert(r@ =~= s@.drop_last());
    r
}

pub fn edit_single_line(input: &mut String, code: KeyCode) -> (r: SingleLineInput)
    ensures
        (final(input)@, r) == prompted(old(input)@, code),
{
    match code {
        KeyCode::Esc => SingleLineInput::Cancel,
        KeyCode::Enter => SingleLineInput::Submit,
        KeyCode::Backspace => {
            let shorter: String = without_last(input.as_str());
            *input = shorter;
            SingleLineInput::Continue
        },
        KeyCode::Char(c) => {
            input.push(c);
            SingleLineInput::Continue
        },
        _ => SingleLineInput::Continue,
    }
}

/// A text without its line breaks.
pub open spec fn one_line(s: Seq<char>) -> Seq<char>
    decreases s.len(),
{
    if s.len() == 0 {
        Seq::empty()
    } else if s.last() == '\r' || s.last() == '\n' {
        one_line(s.drop_last())
    } else {
        one_line(s.drop_last()).push(s.last())
    }
}

/// Pastes into a one-line prompt; line breaks are left out.
pub fn paste_line(input: &mut String, pasted: &str)
    ensures
        final(input)@ == old(input)@ + one_line(pasted@),
{
    let ghost before = input@;
    let cs: Vec<char> = text::to_chars(pasted);
    let mut i: usize = 0;
    while i < cs.len()
        invariant
            i <= cs@.len(),
            cs@ == pasted@,
            input@ =~= before + one_line(cs@.take(i as int)),
        decreases cs@.len() - i,
    {
        assert(cs@.take(i + 1).drop_last() =~= cs@.take(i as int));
        assert(cs@.take(i + 1).last() == cs@[i as int]);
        if cs[i] != '\r' && cs[i] != '\n' {
            input.push(cs[i]);
        }
        i += 1;
    }
    assert(cs@.take(i as int) =~= cs@);
}

/// The label of a comment's target: path and lines.
pub open spec fn label_of(t: TargetView) -> Seq<char> {
    if t.lines.0 == t.lines.1 {
        t.path + ":"@ + num::decimal(t.lines.0 as nat)
    } else {
        t.path + ":"@ + num::decimal(t.lines.0 as nat) + "-"@ + num::decimal(t.lines.1 as nat)
    }
}

pub fn target_label(t: &CommentTarget) -> (r: String)
    ensures
        r@ == label_of(t@),
{
    let mut s: String = text::copy(t.path.as_str());
    text::put(&mut s, ":");
    text::put(&mut s, num::decimal_text(t.lines.0 as u64).as_str());
    if t.lines.0 != t.lines.1 {
        text::put(&mut s, "-");
        text::put(&mut s, num::decimal_text(t.lines.1 as u64).as_str());
    }
    s
}

/// The words of a text, from position `i` on: the longest pieces without white
/// space.
pub open spec fn words_from(s: Seq<char>, start: int, i: int) -> Seq<Seq<char>>
    decreases s.len() - i,
{
    if i >= s.len() {
        if start < i {
            seq![s.subrange(start, i)]
        } else {
            Seq::empty()
        }
    } else if text::white(s[i]) {
        (if start < i {
            seq![s.subrange(start, i)]
        } else {
            Seq::empty()
        }) + words_from(s, i + 1, i + 1)
    } else {
        words_from(s, start, i + 1)
    }
}

/// The words of a text.
pub open spec fn words(s: Seq<char>) -> Seq<Seq<char>> {
    words_from(s, 0, 0)
}

/// The editor to run: `VISUAL`, else `EDITOR`, else vi; an empty setting counts
/// as none.
pub open spec fn editor_setting(visual: Option<Seq<char>>, editor: Option<Seq<char>>) -> Seq<char> {
    match (visual, editor) {
        (Some(v), _) if v.len() > 0 => v,
        (_, Some(e)) if e.len() > 0 => e,
        _ => "vi"@,
    }
}

/// Picks the editor setting.
pub fn choose_editor(visual: Option<&str>, editor: Option<&str>) -> (r: String)
    ensures
        r@ == editor_setting(
            (match visual { Some(v) => Some(v@), None => None }),
            (match editor { Some(e) => Some(e@), None => None }),
        ),
{
    match visual {
        Some(v) => if !v.is_empty() {
            return text::copy(v);
        },
        None => {},
    }
    match editor {
        Some(e) => if !e.is_empty() {
            return text::copy(e);
        },
        None => {},
    }
    text::copy("vi")
}

/// Splits a setting into a program and its arguments.
pub fn split_words(s: &str) -> (r: Vec<String>)
    ensures
        deep::deep(r@) == words(s@),
{
    let cs: Vec<char> = text::to_chars(s);
    let total: usize = cs.len();
    let mut out: Vec<String> = Vec::new();
    let mut start: usize = 0;
    let mut i: usize = 0;
    assert(deep::deep(out@) + words_from(cs@, 0, 0) =~= words(cs@));
    while i < total
        invariant
            start <= i <= total,
            total == cs@.len(),
            deep::deep(out@) + words_from(cs@, start as int, i as int) =~= words(cs@),
        decreases total - i,
    {
        if text::is_white(cs[i]) {
            let ghost before = deep::deep(out@);
            if start < i {
                out.push(text::text_range(cs.as_slice(), start, i));
            }
            assert(deep::deep(out@) + words_from(cs@, i + 1, i + 1) =~= before + words_from(
                cs@,
                start as int,
                i as int,
            ));
            start = i + 1;
        }
        i += 1;
    }
    if start < i {
        out.push(text::text_range(cs.as_slice(), start, i));
    }
    assert(deep::deep(out@) =~= words(cs@));
    out
}

} // verus!
