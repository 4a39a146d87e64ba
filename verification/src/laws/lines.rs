//! Lines and the texts they make up.

use crate::git::patch_laws;
use crate::num;
use crate::text;
use vstd::prelude::*;

verus! {

/// The text of several lines, each ended by a line feed.
pub open spec fn joined(lines: Seq<Seq<char>>) -> Seq<char>
    decreases lines.len(),
{
    if lines.len() == 0 {
        Seq::empty()
    } else {
        joined(lines.drop_last()) + lines.last().push('\n')
    }
}

/// A text that is one line: it holds no line feed, and no carriage return at
/// its end.
pub open spec fn one_line(s: Seq<char>) -> bool {
    !s.contains('\n') && (s.len() > 0 ==> s.last() != '\r')
}

proof fn lemma_no_index(s: Seq<char>, c: char, from: int)
    requires
        0 <= from <= s.len(),
        forall|i: int| from <= i < s.len() - 1 ==> s[i] != c,
        s.len() > 0,
        s.last() == c,
    ensures
        from < s.len() ==> text::next_index(s, c, from) == s.len() - 1,
    decreases s.len() - from,
{
    if from < s.len() && s[from] != c {
        lemma_no_index(s, c, from + 1);
    }
}

/// A line with its line feed is one line.
pub proof fn lemma_lines_of_one(s: Seq<char>)
    requires
        one_line(s),
    ensures
        text::lines(s.push('\n')) == seq![s],
{
    let t = s.push('\n');
    assert forall|i: int| 0 <= i < t.len() - 1 implies t[i] != '\n' by {
        assert(s.contains(s[i]));
    }
    lemma_no_index(t, '\n', 0);
    assert(t.subrange(0, s.len() as int) =~= s);
    assert(text::lines_from(t, t.len() as int) =~= Seq::empty());
    assert(text::lines(t) =~= seq![s]);
}

pub proof fn lemma_joined_ends(lines: Seq<Seq<char>>)
    ensures
        joined(lines).len() == 0 || joined(lines).last() == '\n',
{
}

/// Splitting a text into lines gives back the lines it was made of.
pub proof fn lemma_lines_of_joined(lines: Seq<Seq<char>>)
    requires
        forall|i: int| 0 <= i < lines.len() ==> one_line(#[trigger] lines[i]),
    ensures
        text::lines(joined(lines)) == lines,
    decreases lines.len(),
{
    if lines.len() > 0 {
        let front = lines.drop_last();
        assert forall|i: int| 0 <= i < front.len() implies one_line(#[trigger] front[i]) by {
            assert(front[i] == lines[i]);
        }
        lemma_lines_of_joined(front);
        lemma_joined_ends(front);
        assert(one_line(lines[lines.len() - 1]));
        lemma_lines_of_one(lines.last());
        patch_laws::lemma_lines_add(joined(front), lines.last().push('\n'), 0);
        assert(text::lines(joined(lines)) =~= lines);
    }
}

pub proof fn lemma_joined_add(a: Seq<Seq<char>>, b: Seq<Seq<char>>)
    ensures
        joined(a + b) == joined(a) + joined(b),
    decreases b.len(),
{
    if b.len() == 0 {
        assert(a + b =~= a);
        assert(joined(a) + joined(b) =~= joined(a));
    } else {
        assert((a + b).drop_last() =~= a + b.drop_last());
        lemma_joined_add(a, b.drop_last());
        assert(joined(a + b) =~= joined(a) + joined(b));
    }
}

// ---- numbers ----------------------------------------------------------------------------

/// A decimal number is made of digits, and reading it gives the number back.
pub proof fn lemma_decimal(n: nat)
    ensures
        num::decimal(n).len() > 0,
        forall|i: int| 0 <= i < num::decimal(n).len() ==> '0' <= #[trigger] num::decimal(n)[i] <= '9',
        num::digits_value(num::decimal(n)) == n,
    decreases n,
{
    let s = num::decimal(n);
    if n >= 10 {
        lemma_decimal(n / 10);
        let front = num::decimal(n / 10);
        assert(s.drop_last() =~= front);
        assert forall|i: int| 0 <= i < s.len() implies '0' <= #[trigger] s[i] <= '9' by {
            if i < front.len() {
                assert(s[i] == front[i]);
            }
        }
    } else {
        assert(s.drop_last() =~= Seq::empty());
        assert(num::digits_value(s.drop_last()) == 0);
    }
}

pub proof fn lemma_parse_decimal(n: nat, max: nat)
    requires
        n <= max,
    ensures
        num::parsed(num::decimal(n), max) == Some(n),
{
    lemma_decimal(n);
    let s = num::decimal(n);
    assert('0' <= s[0] <= '9');
    assert(num::digits_of(s) == s);
}

/// Numbers are written in tens, the last digit last.
pub proof fn lemma_decimal_digits(n: nat, d: nat)
    requires
        n > 0,
        d < 10,
    ensures
        num::decimal(10 * n + d) == num::decimal(n).push((48 + d) as char),
        num::decimal(d) == seq![(48 + d) as char],
{
    assert((10 * n + d) / 10 == n && (10 * n + d) % 10 == d);
    assert(num::decimal(d) =~= seq![(48 + d) as char]);
}

/// Numbers have one way to be written.
pub proof fn lemma_decimal_is_injective(a: nat, b: nat)
    requires
        num::decimal(a) == num::decimal(b),
    ensures
        a == b,
{
    lemma_decimal(a);
    lemma_decimal(b);
}

} // verus!
