//! What is typed and pasted into a prompt, and how words are told apart.

use crate::app::input;
use crate::app::input::SingleLineInput;
use crate::keymap::KeyCode;
use crate::text;
use vstd::prelude::*;

verus! {

/// Typing a character puts it at the end, backspace takes the last one away, and
/// so undoes it; Enter and Esc leave the text as it is and end the prompt.
pub proof fn lemma_typing(s: Seq<char>, c: char)
    ensures
        input::prompted(s, KeyCode::Char(c)) == (s.push(c), SingleLineInput::Continue),
        input::prompted(s.push(c), KeyCode::Backspace) == (s, SingleLineInput::Continue),
        input::prompted(Seq::empty(), KeyCode::Backspace).0.len() == 0,
        input::prompted(s, KeyCode::Enter) == (s, SingleLineInput::Submit),
        input::prompted(s, KeyCode::Esc) == (s, SingleLineInput::Cancel),
        input::prompted(s, KeyCode::Left).0 == s,
{
    assert(s.push(c).drop_last() =~= s);
}

/// Pasting into a prompt leaves out the line ends and nothing else.
pub proof fn lemma_pasting(s: Seq<char>)
    ensures
        input::one_line(s) == s.filter(|c: char| c != '\r' && c != '\n'),
    decreases s.len(),
{
    reveal(Seq::filter);
    if s.len() > 0 {
        lemma_pasting(s.drop_last());
    }
}

/// A word: no white space in it, and not empty.
pub open spec fn is_word(s: Seq<char>) -> bool {
    s.len() > 0 && forall|i: int| 0 <= i < s.len() ==> !text::white(#[trigger] s[i])
}

/// Words with a space between each two.
pub open spec fn spaced(words: Seq<Seq<char>>) -> Seq<char>
    decreases words.len(),
{
    if words.len() == 0 {
        Seq::empty()
    } else if words.len() == 1 {
        words[0]
    } else {
        words[0].push(' ') + spaced(words.skip(1))
    }
}

proof fn lemma_words_past(p: Seq<char>, q: Seq<char>, start: int, i: int)
    requires
        0 <= start <= i,
        i <= q.len(),
    ensures
        input::words_from(p + q, p.len() + start, p.len() + i) == input::words_from(q, start, i),
    decreases q.len() - i,
{
    assert((p + q).subrange(p.len() + start, p.len() + i) =~= q.subrange(start, i));
    if i < q.len() {
        assert((p + q)[p.len() + i] == q[i]);
        lemma_words_past(p, q, i + 1, i + 1);
        lemma_words_past(p, q, start, i + 1);
    }
}

proof fn lemma_through_word(w: Seq<char>, rest: Seq<char>, i: int)
    requires
        is_word(w),
        0 <= i <= w.len(),
    ensures
        input::words_from(w + rest, 0, i) == input::words_from(w + rest, 0, w.len() as int),
    decreases w.len() - i,
{
    if i < w.len() {
        assert((w + rest)[i] == w[i]);
        lemma_through_word(w, rest, i + 1);
    }
}

/// A setting falls apart into the words it was made of.
pub proof fn lemma_words(words: Seq<Seq<char>>)
    requires
        forall|i: int| 0 <= i < words.len() ==> is_word(#[trigger] words[i]),
    ensures
        input::words(spaced(words)) == words,
    decreases words.len(),
{
    let s = spaced(words);
    if words.len() == 0 {
        assert(input::words(s) =~= words);
    } else {
        let w = words[0];
        let n = w.len() as int;
        if words.len() == 1 {
            lemma_through_word(w, Seq::empty(), 0);
            assert(w + Seq::<char>::empty() =~= w);
            assert(w.subrange(0, n) =~= w);
            assert(words =~= seq![w]);
        } else {
            let rest = words.skip(1);
            assert forall|i: int| 0 <= i < rest.len() implies is_word(#[trigger] rest[i]) by {
                assert(rest[i] == words[i + 1]);
            }
            lemma_words(rest);
            let tail = spaced(rest);
            assert(s =~= w + (seq![' '] + tail));
            lemma_through_word(w, seq![' '] + tail, 0);
            assert(s[n] == ' ');
            assert(text::white(' '));
            assert(s.subrange(0, n) =~= w);
            lemma_words_past(w.push(' '), tail, 0, 0);
            assert(words =~= seq![w] + rest);
        }
    }
}

/// The editor is the first of the two settings that says something, else vi.
pub proof fn lemma_editor(visual: Option<Seq<char>>, editor: Option<Seq<char>>, v: Seq<char>)
    requires
        v.len() > 0,
    ensures
        input::editor_setting(Some(v), editor) == v,
        input::editor_setting(None, Some(v)) == v,
        input::editor_setting(Some(Seq::empty()), editor) == input::editor_setting(None, editor),
        input::editor_setting(None, None) == "vi"@,
        input::editor_setting(visual, Some(Seq::empty())) == input::editor_setting(visual, None),
{
}

// ---- trimming -----------------------------------------------------------------------

proof fn lemma_trim_start(s: Seq<char>) -> (n: int)
    ensures
        0 <= n <= s.len(),
        text::trim_start(s) == s.skip(n),
        forall|i: int| 0 <= i < n ==> text::white(#[trigger] s[i]),
        n < s.len() ==> !text::white(s[n]),
    decreases s.len(),
{
    if s.len() > 0 && text::white(s[0]) {
        let rest = s.skip(1);
        assert(s.drop_first() =~= rest);
        let n = lemma_trim_start(rest);
        assert(rest.skip(n) =~= s.skip(n + 1));
        assert forall|i: int| 0 <= i < n + 1 implies text::white(#[trigger] s[i]) by {
            if i > 0 {
                assert(rest[i - 1] == s[i]);
            }
        }
        if n < rest.len() {
            assert(rest[n] == s[n + 1]);
        }
        n + 1
    } else {
        assert(s.skip(0) =~= s);
        0
    }
}

proof fn lemma_trim_end(s: Seq<char>) -> (n: int)
    ensures
        0 <= n <= s.len(),
        text::trim_end(s) == s.take(n),
        forall|i: int| n <= i < s.len() ==> text::white(#[trigger] s[i]),
        n > 0 ==> !text::white(s[n - 1]),
    decreases s.len(),
{
    if s.len() > 0 && text::white(s.last()) {
        let front = s.drop_last();
        let n = lemma_trim_end(front);
        assert(front.take(n) =~= s.take(n));
        assert forall|i: int| n <= i < s.len() implies text::white(#[trigger] s[i]) by {
            if i < front.len() {
                assert(front[i] == s[i]);
            }
        }
        n
    } else {
        assert(s.take(s.len() as int) =~= s);
        s.len() as int
    }
}

/// Trimming takes the white space at both ends away and nothing else.
pub proof fn lemma_trimming(s: Seq<char>) -> (ends: (int, int))
    ensures
        ({
            let (a, b) = ends;
            let t = text::trim(s);
            &&& 0 <= a <= b <= s.len()
            &&& t == s.subrange(a, b)
            &&& forall|i: int| 0 <= i < a ==> text::white(#[trigger] s[i])
            &&& forall|i: int| b <= i < s.len() ==> text::white(#[trigger] s[i])
            &&& t.len() > 0 ==> !text::white(t[0]) && !text::white(t.last())
        }),
{
    let a = lemma_trim_start(s);
    let u = text::trim_start(s);
    let b = lemma_trim_end(u);
    assert(text::trim(s) =~= s.subrange(a, a + b));
    assert forall|i: int| a + b <= i < s.len() implies text::white(#[trigger] s[i]) by {
        assert(u[i - a] == s[i]);
    }
    (a, a + b)
}

} // verus!
