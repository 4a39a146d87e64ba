//! Text as sequences of characters: the specification vocabulary the rest of
//! the crate speaks, and the executable routines that meet it.

use crate::deep;
use vstd::prelude::*;

verus! {

broadcast use crate::deep::group_deep;

// ---- strings and characters ---------------------------------------------------

/// `String::push` appends the character to the end of the string.
pub assume_specification[ String::push ](s: &mut String, ch: char)
    ensures
        final(s)@ == old(s)@.push(ch),
;

/// The characters of a string.
pub fn to_chars(s: &str) -> (r: Vec<char>)
    ensures
        r@ == s@,
{
    let mut out: Vec<char> = Vec::new();
    for c in it: s.chars()
        invariant
            out@ == it.seq().take(it.index() as int),
            it.seq() == s@,
    {
        out.push(c);
    }
    assert(out@ =~= s@);
    out
}

/// The string made of the given characters.
pub fn to_text(cs: &[char]) -> (r: String)
    ensures
        r@ == cs@,
{
    let mut out: String = String::new();
    let mut i: usize = 0;
    while i < cs.len()
        invariant
            i <= cs@.len(),
            out@ == cs@.take(i as int),
        decreases cs@.len() - i,
    {
        out.push(cs[i]);
        i += 1;
        assert(cs@.take(i as int) =~= cs@.take(i - 1).push(cs@[i - 1]));
    }
    assert(cs@.take(i as int) =~= cs@);
    out
}

/// Appends characters `lo..hi` of `cs` to `out`.
pub fn push_range(out: &mut String, cs: &[char], lo: usize, hi: usize)
    requires
        lo <= hi <= cs@.len(),
    ensures
        final(out)@ == old(out)@ + cs@.subrange(lo as int, hi as int),
{
    let ghost start = out@;
    let mut i: usize = lo;
    assert(out@ =~= start + cs@.subrange(lo as int, i as int));
    while i < hi
        invariant
            lo <= i <= hi <= cs@.len(),
            out@ == start + cs@.subrange(lo as int, i as int),
        decreases hi - i,
    {
        out.push(cs[i]);
        i += 1;
        assert(cs@.subrange(lo as int, i as int) =~= cs@.subrange(lo as int, i - 1).push(
            cs@[i - 1],
        ));
        assert(out@ =~= start + cs@.subrange(lo as int, i as int));
    }
}

/// The string of characters `lo..hi` of `cs`.
pub fn text_range(cs: &[char], lo: usize, hi: usize) -> (r: String)
    requires
        lo <= hi <= cs@.len(),
    ensures
        r@ == cs@.subrange(lo as int, hi as int),
{
    let mut out: String = String::new();
    push_range(&mut out, cs, lo, hi);
    assert(out@ =~= cs@.subrange(lo as int, hi as int));
    out
}

// ---- searching ----------------------------------------------------------------

/// Index of the first `c` in `s` at or after `from`; the length of `s` if there is none.
pub open spec fn next_index(s: Seq<char>, c: char, from: int) -> int
    decreases s.len() - from,
{
    if from >= s.len() {
        s.len() as int
    } else if s[from] == c {
        from
    } else {
        next_index(s, c, from + 1)
    }
}

pub proof fn lemma_next_index(s: Seq<char>, c: char, from: int)
    requires
        0 <= from <= s.len(),
    ensures
        from <= next_index(s, c, from) <= s.len(),
        next_index(s, c, from) < s.len() ==> s[next_index(s, c, from)] == c,
        forall|i: int| from <= i < next_index(s, c, from) ==> s[i] != c,
    decreases s.len() - from,
{
    if from < s.len() && s[from] != c {
        lemma_next_index(s, c, from + 1);
    }
}

/// Position of the first `c` at or after `from`, or the length.
pub fn find_char(s: &[char], c: char, from: usize) -> (r: usize)
    requires
        from <= s@.len(),
    ensures
        r == next_index(s@, c, from as int),
        from <= r <= s@.len(),
        r < s@.len() ==> s@[r as int] == c,
{
    let mut i: usize = from;
    while i < s.len() && s[i] != c
        invariant
            from <= i <= s@.len(),
            next_index(s@, c, i as int) == next_index(s@, c, from as int),
        decreases s@.len() - i,
    {
        i += 1;
    }
    i
}

/// `p` occurs in `s` at position `at`.
pub open spec fn occurs_at(s: Seq<char>, p: Seq<char>, at: int) -> bool {
    0 <= at && at + p.len() <= s.len() && s.subrange(at, at + p.len()) == p
}

/// `s` begins with `p`.
pub open spec fn starts_with(s: Seq<char>, p: Seq<char>) -> bool {
    occurs_at(s, p, 0)
}

/// `s` ends with `p`.
pub open spec fn ends_with(s: Seq<char>, p: Seq<char>) -> bool {
    occurs_at(s, p, s.len() - p.len())
}

/// Position of the first occurrence of `p` in `s` at or after `from`.
pub open spec fn find_from(s: Seq<char>, p: Seq<char>, from: int) -> Option<int>
    decreases s.len() + 1 - from,
{
    if from < 0 || from + p.len() > s.len() {
        None
    } else if occurs_at(s, p, from) {
        Some(from)
    } else {
        find_from(s, p, from + 1)
    }
}

/// Position of the last occurrence of `p` in `s` at or before `from`.
pub open spec fn rfind_from(s: Seq<char>, p: Seq<char>, from: int) -> Option<int>
    decreases from + 1,
{
    if from < 0 {
        None
    } else if occurs_at(s, p, from) {
        Some(from)
    } else {
        rfind_from(s, p, from - 1)
    }
}

/// Position of the last occurrence of `p` in `s`.
pub open spec fn rfind(s: Seq<char>, p: Seq<char>) -> Option<int> {
    rfind_from(s, p, s.len() - p.len())
}

/// The first occurrence is an occurrence, and nothing before it is one.
pub proof fn lemma_find_from(s: Seq<char>, p: Seq<char>, from: int)
    requires
        0 <= from,
    ensures
        match find_from(s, p, from) {
            Some(k) => {
                &&& from <= k
                &&& occurs_at(s, p, k)
                &&& forall|i: int| from <= i < k ==> !#[trigger] occurs_at(s, p, i)
            },
            None => forall|i: int| from <= i ==> !#[trigger] occurs_at(s, p, i),
        },
    decreases s.len() + 1 - from,
{
    if from + p.len() <= s.len() && !occurs_at(s, p, from) {
        lemma_find_from(s, p, from + 1);
    }
}

/// Does `p` occur in `s` at `at`?
pub fn matches_at(s: &[char], p: &[char], at: usize) -> (r: bool)
    ensures
        r == occurs_at(s@, p@, at as int),
{
    if at > s.len() || p.len() > s.len() - at {
        return false;
    }
    let mut i: usize = 0;
    while i < p.len()
        invariant
            i <= p@.len(),
            at + p.len() <= s.len(),
            forall|j: int| 0 <= j < i ==> s@[at + j] == p@[j],
        decreases p@.len() - i,
    {
        if s[at + i] != p[i] {
            assert(s@.subrange(at as int, at + p@.len())[i as int] != p@[i as int]);
            return false;
        }
        i += 1;
    }
    assert(s@.subrange(at as int, at + p@.len()) =~= p@);
    true
}

/// Does `s` begin with the text `p`?
pub fn begins(s: &[char], p: &str) -> (r: bool)
    ensures
        r == starts_with(s@, p@),
{
    let pc: Vec<char> = to_chars(p);
    matches_at(s, pc.as_slice(), 0)
}

/// Does `s` end with the text `p`?
pub fn ends(s: &[char], p: &str) -> (r: bool)
    ensures
        r == ends_with(s@, p@),
{
    let pc: Vec<char> = to_chars(p);
    if pc.len() > s.len() {
        return false;
    }
    matches_at(s, pc.as_slice(), s.len() - pc.len())
}

/// The first occurrence of `p` in `s` at or after `from`.
pub fn find(s: &[char], p: &[char], from: usize) -> (r: Option<usize>)
    requires
        from <= s@.len(),
    ensures
        match r {
            Some(k) => find_from(s@, p@, from as int) == Some(k as int),
            None => find_from(s@, p@, from as int) is None,
        },
        r matches Some(k) ==> from <= k && k + p@.len() <= s@.len() && occurs_at(s@, p@, k as int),
{
    if p.len() > s.len() {
        return None;
    }
    let last: usize = s.len() - p.len();
    let mut i: usize = from;
    while i <= last
        invariant
            from <= i <= s@.len(),
            last == s@.len() - p@.len(),
            find_from(s@, p@, i as int) == find_from(s@, p@, from as int),
        decreases s@.len() + 1 - i,
    {
        if matches_at(s, p, i) {
            return Some(i);
        }
        if i == last {
            assert(find_from(s@, p@, i + 1) is None);
            return None;
        }
        i += 1;
    }
    None
}

/// The last occurrence of `p` in `s`.
pub fn rfind_text(s: &[char], p: &[char]) -> (r: Option<usize>)
    ensures
        match r {
            Some(k) => rfind(s@, p@) == Some(k as int) && occurs_at(s@, p@, k as int),
            None => rfind(s@, p@) is None,
        },
{
    if p.len() > s.len() {
        return None;
    }
    let mut i: usize = s.len() - p.len();
    loop
        invariant
            i + p@.len() <= s@.len(),
            rfind_from(s@, p@, i as int) == rfind(s@, p@),
        decreases i,
    {
        if matches_at(s, p, i) {
            return Some(i);
        }
        if i == 0 {
            assert(rfind_from(s@, p@, -1) is None);
            return None;
        }
        i -= 1;
    }
}

// ---- splitting ----------------------------------------------------------------

/// The pieces of `s` from `from` on, separated by `c` (as `str::split` gives them).
pub open spec fn split_from(s: Seq<char>, c: char, from: int) -> Seq<Seq<char>>
    decreases s.len() - from,
{
    let k = next_index(s, c, from);
    if from < 0 || k < from || k >= s.len() {
        seq![s.subrange(from, s.len() as int)]
    } else {
        seq![s.subrange(from, k)] + split_from(s, c, k + 1)
    }
}

/// The pieces of `s` separated by `c`.
pub open spec fn split(s: Seq<char>, c: char) -> Seq<Seq<char>> {
    split_from(s, c, 0)
}

/// One trailing carriage return is dropped.
pub open spec fn drop_cr(s: Seq<char>) -> Seq<char> {
    if s.len() > 0 && s.last() == '\r' {
        s.drop_last()
    } else {
        s
    }
}

/// The lines of `s` from `from` on (as `str::lines` gives them): each line ends
/// at a line feed or at the end of the text, without its line terminator.
pub open spec fn lines_from(s: Seq<char>, from: int) -> Seq<Seq<char>>
    decreases s.len() - from,
{
    let k = next_index(s, '\n', from);
    if from < 0 || from >= s.len() || k < from {
        Seq::empty()
    } else if k >= s.len() {
        seq![s.subrange(from, s.len() as int)]
    } else {
        seq![drop_cr(s.subrange(from, k))] + lines_from(s, k + 1)
    }
}

/// The lines of `s`.
pub open spec fn lines(s: Seq<char>) -> Seq<Seq<char>> {
    lines_from(s, 0)
}

/// The pieces of `s` separated by `c`, in order.
pub fn split_chars(s: &[char], c: char) -> (r: Vec<Vec<char>>)
    ensures
        deep::deep(r@) == split(s@, c),
{
    let mut out: Vec<Vec<char>> = Vec::new();
    let mut from: usize = 0;
    loop
        invariant
            from <= s@.len(),
            deep::deep(out@) + split_from(s@, c, from as int) == split(s@, c),
        decreases s@.len() - from,
    {
        let k: usize = find_char(s, c, from);
        let piece: Vec<char> = copy_range(s, from, k);
        let ghost before = deep::deep(out@);
        out.push(piece);
        if k == s.len() {
            assert(deep::deep(out@) =~= before + split_from(s@, c, from as int));
            return out;
        }
        assert(deep::deep(out@) + split_from(s@, c, k + 1) =~= before + split_from(
            s@,
            c,
            from as int,
        ));
        from = k + 1;
    }
}

/// Characters `lo..hi` of `s`.
pub fn copy_range(s: &[char], lo: usize, hi: usize) -> (r: Vec<char>)
    requires
        lo <= hi <= s@.len(),
    ensures
        r@ == s@.subrange(lo as int, hi as int),
{
    let mut out: Vec<char> = Vec::new();
    let mut i: usize = lo;
    while i < hi
        invariant
            lo <= i <= hi <= s@.len(),
            out@ == s@.subrange(lo as int, i as int),
        decreases hi - i,
    {
        out.push(s[i]);
        i += 1;
        assert(s@.subrange(lo as int, i as int) =~= s@.subrange(lo as int, i - 1).push(
            s@[i - 1],
        ));
    }
    out
}

/// The lines of `s`, in order.
pub fn line_chars(s: &[char]) -> (r: Vec<Vec<char>>)
    ensures
        deep::deep(r@) == lines(s@),
{
    let mut out: Vec<Vec<char>> = Vec::new();
    let mut from: usize = 0;
    while from < s.len()
        invariant
            from <= s@.len(),
            deep::deep(out@) + lines_from(s@, from as int) == lines(s@),
        decreases s@.len() - from,
    {
        let k: usize = find_char(s, '\n', from);
        let ghost before = deep::deep(out@);
        if k == s.len() {
            let piece: Vec<char> = copy_range(s, from, k);
            out.push(piece);
            assert(deep::deep(out@) =~= before + lines_from(s@, from as int));
            return out;
        }
        let mut end: usize = k;
        if k > from && s[k - 1] == '\r' {
            end = k - 1;
        }
        let piece: Vec<char> = copy_range(s, from, end);
        assert(piece@ =~= drop_cr(s@.subrange(from as int, k as int)));
        out.push(piece);
        assert(deep::deep(out@) + lines_from(s@, k + 1) =~= before + lines_from(s@, from as int));
        from = k + 1;
    }
    assert(lines_from(s@, from as int) =~= Seq::empty());
    out
}

// ---- trimming -----------------------------------------------------------------

/// The characters with Unicode's `White_Space` property.
pub open spec fn white(c: char) -> bool {
    ||| '\u{9}' <= c <= '\u{d}'
    ||| c == ' '
    ||| c == '\u{85}'
    ||| c == '\u{a0}'
    ||| c == '\u{1680}'
    ||| '\u{2000}' <= c <= '\u{200a}'
    ||| c == '\u{2028}'
    ||| c == '\u{2029}'
    ||| c == '\u{202f}'
    ||| c == '\u{205f}'
    ||| c == '\u{3000}'
}

/// Is `c` white space?
pub fn is_white(c: char) -> (r: bool)
    ensures
        r == white(c),
{
    ('\u{9}' <= c && c <= '\u{d}') || c == ' ' || c == '\u{85}' || c == '\u{a0}' || c == '\u{1680}'
        || ('\u{2000}' <= c && c <= '\u{200a}') || c == '\u{2028}' || c == '\u{2029}' || c
        == '\u{202f}' || c == '\u{205f}' || c == '\u{3000}'
}

/// `s` without leading white space.
pub open spec fn trim_start(s: Seq<char>) -> Seq<char>
    decreases s.len(),
{
    if s.len() > 0 && white(s[0]) {
        trim_start(s.drop_first())
    } else {
        s
    }
}

/// `s` without trailing white space.
pub open spec fn trim_end(s: Seq<char>) -> Seq<char>
    decreases s.len(),
{
    if s.len() > 0 && white(s.last()) {
        trim_end(s.drop_last())
    } else {
        s
    }
}

/// `s` without leading and trailing white space.
pub open spec fn trim(s: Seq<char>) -> Seq<char> {
    trim_end(trim_start(s))
}

/// `s` without trailing white space.
pub fn trim_end_chars(s: &[char]) -> (r: Vec<char>)
    ensures
        r@ == trim_end(s@),
{
    let mut hi: usize = s.len();
    assert(s@.take(hi as int) =~= s@);
    while hi > 0 && is_white(s[hi - 1])
        invariant
            hi <= s@.len(),
            trim_end(s@.take(hi as int)) == trim_end(s@),
        decreases hi,
    {
        assert(s@.take(hi as int).drop_last() =~= s@.take(hi - 1));
        hi -= 1;
    }
    copy_range(s, 0, hi)
}

/// `s` without leading white space.
pub fn trim_start_chars(s: &[char]) -> (r: Vec<char>)
    ensures
        r@ == trim_start(s@),
{
    let mut lo: usize = 0;
    assert(s@.skip(0) =~= s@);
    while lo < s.len() && is_white(s[lo])
        invariant
            lo <= s@.len(),
            trim_start(s@.skip(lo as int)) == trim_start(s@),
        decreases s@.len() - lo,
    {
        assert(s@.skip(lo as int).drop_first() =~= s@.skip(lo + 1));
        lo += 1;
    }
    copy_range(s, lo, s.len())
}

/// `s` without surrounding white space.
pub fn trim_chars(s: &[char]) -> (r: Vec<char>)
    ensures
        r@ == trim(s@),
{
    let front: Vec<char> = trim_start_chars(s);
    trim_end_chars(front.as_slice())
}

// ---- order and equality ---------------------------------------------------------

/// Lexicographic order of the characters from `i` on: negative, zero or positive.
pub open spec fn order_from(a: Seq<char>, b: Seq<char>, i: int) -> int
    decreases a.len() - i,
{
    if i >= a.len() {
        if i >= b.len() {
            0
        } else {
            -1
        }
    } else if i >= b.len() {
        1
    } else if a[i] < b[i] {
        -1
    } else if a[i] > b[i] {
        1
    } else {
        order_from(a, b, i + 1)
    }
}

/// Lexicographic order of two texts.
pub open spec fn order(a: Seq<char>, b: Seq<char>) -> int {
    order_from(a, b, 0)
}

proof fn lemma_order_from_swap(a: Seq<char>, b: Seq<char>, i: int)
    requires
        0 <= i,
    ensures
        order_from(a, b, i) == -order_from(b, a, i),
        -1 <= order_from(a, b, i) <= 1,
    decreases a.len() - i,
{
    if i < a.len() && i < b.len() && a[i] == b[i] {
        lemma_order_from_swap(a, b, i + 1);
    }
}

/// Swapping the arguments negates the order.
pub proof fn lemma_order_swap(a: Seq<char>, b: Seq<char>)
    ensures
        order(a, b) == -order(b, a),
        -1 <= order(a, b) <= 1,
{
    lemma_order_from_swap(a, b, 0);
}

proof fn lemma_order_from_equal(a: Seq<char>, b: Seq<char>, i: int)
    requires
        0 <= i,
        i <= a.len(),
        i <= b.len(),
        forall|j: int| 0 <= j < i ==> a[j] == b[j],
    ensures
        order_from(a, b, i) == 0 <==> a == b,
    decreases a.len() - i,
{
    if i < a.len() && i < b.len() {
        if a[i] == b[i] {
            lemma_order_from_equal(a, b, i + 1);
        }
    } else if i == a.len() && i == b.len() {
        assert(a =~= b);
    }
}

/// Two texts are ordered the same exactly when they are equal.
pub proof fn lemma_order_equal(a: Seq<char>, b: Seq<char>)
    ensures
        order(a, b) == 0 <==> a == b,
{
    lemma_order_from_equal(a, b, 0);
}

proof fn lemma_order_from_transitive(a: Seq<char>, b: Seq<char>, c: Seq<char>, i: int)
    requires
        0 <= i,
        order_from(a, b, i) <= 0,
        order_from(b, c, i) <= 0,
    ensures
        order_from(a, c, i) <= 0,
    decreases a.len() - i,
{
    if i < a.len() && i < b.len() && i < c.len() && a[i] == b[i] && b[i] == c[i] {
        lemma_order_from_transitive(a, b, c, i + 1);
    }
}

/// The order is transitive.
pub proof fn lemma_order_transitive(a: Seq<char>, b: Seq<char>, c: Seq<char>)
    requires
        order(a, b) <= 0,
        order(b, c) <= 0,
    ensures
        order(a, c) <= 0,
{
    lemma_order_from_transitive(a, b, c, 0);
}

/// Lexicographic order of two texts.
pub fn order_chars(a: &[char], b: &[char]) -> (r: i8)
    ensures
        r == order(a@, b@),
{
    let mut i: usize = 0;
    while i < a.len() && i < b.len()
        invariant
            i <= a@.len(),
            i <= b@.len(),
            order_from(a@, b@, i as int) == order(a@, b@),
        decreases a@.len() - i,
    {
        if a[i] < b[i] {
            return -1;
        }
        if a[i] > b[i] {
            return 1;
        }
        i += 1;
    }
    if i < a.len() {
        1
    } else if i < b.len() {
        -1
    } else {
        0
    }
}

/// Are two texts equal?
pub fn same(a: &str, b: &str) -> (r: bool)
    ensures
        r == (a@ == b@),
{
    let ac: Vec<char> = to_chars(a);
    let bc: Vec<char> = to_chars(b);
    let o: i8 = order_chars(ac.as_slice(), bc.as_slice());
    proof {
        lemma_order_equal(a@, b@);
    }
    o == 0
}

/// Are two texts equal?
pub fn same_chars(a: &[char], b: &[char]) -> (r: bool)
    ensures
        r == (a@ == b@),
{
    let o: i8 = order_chars(a, b);
    proof {
        lemma_order_equal(a@, b@);
    }
    o == 0
}

/// Is the text one of the listed ones?
pub fn contains_text(list: &[String], s: &str) -> (r: bool)
    ensures
        r == deep::deep(list@).contains(s@),
{
    let mut i: usize = 0;
    while i < list.len()
        invariant
            i <= list@.len(),
            forall|j: int| 0 <= j < i ==> #[trigger] list@[j]@ != s@,
        decreases list@.len() - i,
    {
        if same(list[i].as_str(), s) {
            assert(deep::deep(list@)[i as int] == s@);
            return true;
        }
        i += 1;
    }
    assert forall|j: int| 0 <= j < deep::deep(list@).len() implies deep::deep(list@)[j] != s@ by {
        assert(list@[j]@ != s@);
    }
    false
}

// ---- building -------------------------------------------------------------------

/// Appends a text.
pub fn put(out: &mut String, s: &str)
    ensures
        final(out)@ == old(out)@ + s@,
{
    let cs: Vec<char> = to_chars(s);
    push_range(out, cs.as_slice(), 0, cs.len());
    assert(cs@.subrange(0, cs@.len() as int) =~= s@);
}

/// Appends characters.
pub fn put_chars(out: &mut String, s: &[char])
    ensures
        final(out)@ == old(out)@ + s@,
{
    push_range(out, s, 0, s.len());
    assert(s@.subrange(0, s@.len() as int) =~= s@);
}

/// A copy of a text.
pub fn copy(s: &str) -> (r: String)
    ensures
        r@ == s@,
{
    let cs: Vec<char> = to_chars(s);
    to_text(cs.as_slice())
}

/// A copy of a list of texts.
pub fn copy_all(list: &[String]) -> (r: Vec<String>)
    ensures
        deep::deep(r@) == deep::deep(list@),
{
    let mut out: Vec<String> = Vec::new();
    let mut i: usize = 0;
    while i < list.len()
        invariant
            i <= list@.len(),
            deep::deep(out@) == deep::deep(list@).take(i as int),
        decreases list@.len() - i,
    {
        out.push(copy(list[i].as_str()));
        i += 1;
        assert(deep::deep(list@).take(i as int) =~= deep::deep(list@).take(i - 1).push(
            list@[i - 1]@,
        ));
    }
    assert(deep::deep(list@).take(i as int) =~= deep::deep(list@));
    out
}

/// Texts joined with a separator between neighbours.
pub open spec fn join(list: Seq<Seq<char>>, sep: Seq<char>) -> Seq<char>
    decreases list.len(),
{
    if list.len() == 0 {
        Seq::empty()
    } else if list.len() == 1 {
        list[0]
    } else {
        join(list.drop_last(), sep) + sep + list.last()
    }
}

/// Joins texts with a separator.
pub fn join_all(list: &[String], sep: &str) -> (r: String)
    ensures
        r@ == join(deep::deep(list@), sep@),
{
    let mut out: String = String::new();
    let mut i: usize = 0;
    while i < list.len()
        invariant
            i <= list@.len(),
            out@ == join(deep::deep(list@).take(i as int), sep@),
        decreases list@.len() - i,
    {
        let ghost grown = deep::deep(list@).take(i + 1);
        assert(grown.drop_last() =~= deep::deep(list@).take(i as int));
        assert(grown.last() == list@[i as int]@);
        if i > 0 {
            put(&mut out, sep);
        }
        put(&mut out, list[i].as_str());
        assert(out@ =~= join(grown, sep@));
        i += 1;
    }
    assert(deep::deep(list@).take(i as int) =~= deep::deep(list@));
    out
}

/// The character `c`, `n` times.
pub open spec fn repeat(c: char, n: nat) -> Seq<char> {
    Seq::new(n, |i: int| c)
}

/// Appends `c` `n` times.
pub fn put_repeat(out: &mut String, c: char, n: usize)
    ensures
        final(out)@ == old(out)@ + repeat(c, n as nat),
{
    let ghost start = out@;
    let mut i: usize = 0;
    while i < n
        invariant
            i <= n,
            out@ =~= start + repeat(c, i as nat),
        decreases n - i,
    {
        out.push(c);
        i += 1;
    }
}

/// `s` with spaces in front up to the width `w` (counted in characters).
pub open spec fn pad_left(s: Seq<char>, w: nat) -> Seq<char> {
    if s.len() < w {
        repeat(' ', (w - s.len()) as nat) + s
    } else {
        s
    }
}

/// `s` with spaces behind up to the width `w` (counted in characters).
pub open spec fn pad_right(s: Seq<char>, w: nat) -> Seq<char> {
    if s.len() < w {
        s + repeat(' ', (w - s.len()) as nat)
    } else {
        s
    }
}

/// Pads with spaces in front.
pub fn padded_left(s: &str, w: usize) -> (r: String)
    ensures
        r@ == pad_left(s@, w as nat),
{
    let cs: Vec<char> = to_chars(s);
    let mut out: String = String::new();
    if cs.len() < w {
        put_repeat(&mut out, ' ', w - cs.len());
    }
    put_chars(&mut out, cs.as_slice());
    assert(out@ =~= pad_left(s@, w as nat));
    out
}

/// Pads with spaces behind.
pub fn padded_right(s: &str, w: usize) -> (r: String)
    ensures
        r@ == pad_right(s@, w as nat),
{
    let cs: Vec<char> = to_chars(s);
    let mut out: String = String::new();
    put_chars(&mut out, cs.as_slice());
    if cs.len() < w {
        put_repeat(&mut out, ' ', w - cs.len());
    }
    assert(out@ =~= pad_right(s@, w as nat));
    out
}

} // verus!
