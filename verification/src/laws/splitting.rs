//! How texts fall apart at a separator.

use crate::text;
use vstd::prelude::*;

verus! {

proof fn lemma_next_index_past(p: Seq<char>, q: Seq<char>, c: char, i: int)
    requires
        0 <= i <= q.len(),
    ensures
        text::next_index(p + q, c, p.len() + i) == p.len() + text::next_index(q, c, i),
    decreases q.len() - i,
{
    if i < q.len() && q[i] != c {
        lemma_next_index_past(p, q, c, i + 1);
    }
}

proof fn lemma_split_past(p: Seq<char>, q: Seq<char>, c: char, i: int)
    requires
        0 <= i <= q.len(),
    ensures
        text::split_from(p + q, c, p.len() + i) == text::split_from(q, c, i),
    decreases q.len() - i,
{
    lemma_next_index_past(p, q, c, i);
    text::lemma_next_index(q, c, i);
    let k = text::next_index(q, c, i);
    if k < q.len() {
        lemma_split_past(p, q, c, k + 1);
        assert((p + q).subrange(p.len() + i, p.len() + k) =~= q.subrange(i, k));
    } else {
        assert((p + q).subrange(p.len() + i, (p + q).len() as int) =~= q.subrange(
            i,
            q.len() as int,
        ));
    }
}

proof fn lemma_no_separator(s: Seq<char>, t: Seq<char>, c: char, i: int)
    requires
        0 <= i <= s.len(),
        !s.contains(c),
    ensures
        text::next_index(s.push(c) + t, c, i) == s.len(),
        text::next_index(s, c, i) == s.len(),
    decreases s.len() - i,
{
    let all = s.push(c) + t;
    if i < s.len() {
        assert(s.contains(s[i]));
        assert(all[i] == s[i]);
        lemma_no_separator(s, t, c, i + 1);
    } else {
        assert(all[i] == c);
    }
}

/// A piece without the separator comes first, and the rest falls apart by
/// itself.
pub proof fn lemma_split_first(s: Seq<char>, rest: Seq<char>, c: char)
    requires
        !s.contains(c),
    ensures
        text::split(s.push(c) + rest, c) == seq![s] + text::split(rest, c),
{
    let p = s.push(c);
    let all = p + rest;
    lemma_no_separator(s, rest, c, 0);
    lemma_split_past(p, rest, c, 0);
    assert(all.subrange(0, s.len() as int) =~= s);
}

/// A text without the separator is one piece.
pub proof fn lemma_split_one(s: Seq<char>, c: char)
    requires
        !s.contains(c),
    ensures
        text::split(s, c) == seq![s],
{
    lemma_no_separator(s, Seq::empty(), c, 0);
    assert(s.subrange(0, s.len() as int) =~= s);
}

/// Pieces joined by a separator fall apart into the same pieces.
pub proof fn lemma_split_undoes_join(pieces: Seq<Seq<char>>, c: char)
    requires
        pieces.len() > 0,
        forall|i: int| 0 <= i < pieces.len() ==> !(#[trigger] pieces[i]).contains(c),
    ensures
        text::split(separated(pieces, c), c) == pieces,
    decreases pieces.len(),
{
    let first = pieces[0];
    if pieces.len() == 1 {
        lemma_split_one(first, c);
        assert(pieces =~= seq![first]);
    } else {
        let rest = pieces.skip(1);
        assert forall|i: int| 0 <= i < rest.len() implies !(#[trigger] rest[i]).contains(c) by {
            assert(rest[i] == pieces[i + 1]);
        }
        lemma_split_undoes_join(rest, c);
        lemma_split_first(first, separated(rest, c), c);
        assert(pieces =~= seq![first] + rest);
    }
}

/// Pieces with a separator between each two.
pub open spec fn separated(pieces: Seq<Seq<char>>, c: char) -> Seq<char>
    decreases pieces.len(),
{
    if pieces.len() == 0 {
        Seq::empty()
    } else if pieces.len() == 1 {
        pieces[0]
    } else {
        pieces[0].push(c) + separated(pieces.skip(1), c)
    }
}

} // verus!
