//! The order files are read in: at each directory level subdirectories come
//! before files, and siblings are alphabetical.

use crate::deep;
use crate::text;
use vstd::prelude::*;

verus! {

broadcast use crate::deep::group_deep;

/// Order of two component lists from component `i` on: negative, zero or positive.
pub open spec fn rank_from(a: Seq<Seq<char>>, b: Seq<Seq<char>>, i: int) -> int
    decreases a.len() - i,
{
    if i >= a.len() {
        if i >= b.len() {
            0
        } else {
            -1
        }
    } else if i >= b.len() {
        1
    } else {
        let a_dir = i + 1 < a.len();
        let b_dir = i + 1 < b.len();
        if a_dir && !b_dir {
            -1
        } else if !a_dir && b_dir {
            1
        } else if text::order(a[i], b[i]) != 0 {
            text::order(a[i], b[i])
        } else {
            rank_from(a, b, i + 1)
        }
    }
}

/// Order of two slash-separated paths: negative, zero or positive.
pub open spec fn rank(a: Seq<char>, b: Seq<char>) -> int {
    rank_from(text::split(a, '/'), text::split(b, '/'), 0)
}

proof fn lemma_rank_from_swap(a: Seq<Seq<char>>, b: Seq<Seq<char>>, i: int)
    requires
        0 <= i,
    ensures
        rank_from(a, b, i) == -rank_from(b, a, i),
        -1 <= rank_from(a, b, i) <= 1,
    decreases a.len() - i,
{
    if i < a.len() && i < b.len() {
        text::lemma_order_swap(a[i], b[i]);
        lemma_rank_from_swap(a, b, i + 1);
    }
}

/// Swapping two paths negates their order.
pub proof fn lemma_rank_swap(a: Seq<char>, b: Seq<char>)
    ensures
        rank(a, b) == -rank(b, a),
        -1 <= rank(a, b) <= 1,
{
    lemma_rank_from_swap(text::split(a, '/'), text::split(b, '/'), 0);
}

proof fn lemma_rank_from_transitive(
    a: Seq<Seq<char>>,
    b: Seq<Seq<char>>,
    c: Seq<Seq<char>>,
    i: int,
)
    requires
        0 <= i,
        rank_from(a, b, i) <= 0,
        rank_from(b, c, i) <= 0,
    ensures
        rank_from(a, c, i) <= 0,
    decreases a.len() - i,
{
    if i < a.len() && i < b.len() && i < c.len() {
        text::lemma_order_swap(a[i], b[i]);
        text::lemma_order_swap(b[i], c[i]);
        text::lemma_order_swap(a[i], c[i]);
        text::lemma_order_equal(a[i], b[i]);
        text::lemma_order_equal(b[i], c[i]);
        text::lemma_order_equal(a[i], c[i]);
        if text::order(a[i], b[i]) <= 0 && text::order(b[i], c[i]) <= 0 {
            text::lemma_order_transitive(a[i], b[i], c[i]);
        }
        if rank_from(a, b, i + 1) <= 0 && rank_from(b, c, i + 1) <= 0 {
            lemma_rank_from_transitive(a, b, c, i + 1);
        }
    }
}

/// The order of paths is transitive.
pub proof fn lemma_rank_transitive(a: Seq<char>, b: Seq<char>, c: Seq<char>)
    requires
        rank(a, b) <= 0,
        rank(b, c) <= 0,
    ensures
        rank(a, c) <= 0,
{
    lemma_rank_from_transitive(text::split(a, '/'), text::split(b, '/'), text::split(c, '/'), 0);
}

/// The components of a path.
pub fn components(path: &str) -> (r: Vec<Vec<char>>)
    ensures
        deep::deep(r@) == text::split(path@, '/'),
{
    let cs: Vec<char> = text::to_chars(path);
    text::split_chars(cs.as_slice(), '/')
}

/// Order of two component lists.
pub fn rank_components(ac: &[Vec<char>], bc: &[Vec<char>]) -> (r: i8)
    ensures
        r == rank_from(deep::deep(ac@), deep::deep(bc@), 0),
{
    let ghost a = deep::deep(ac@);
    let ghost b = deep::deep(bc@);
    let mut i: usize = 0;
    while i < ac.len() && i < bc.len()
        invariant
            a == deep::deep(ac@),
            b == deep::deep(bc@),
            i <= ac@.len(),
            i <= bc@.len(),
            rank_from(a, b, i as int) == rank_from(a, b, 0),
        decreases ac@.len() - i,
    {
        let a_dir: bool = i < ac.len() - 1;
        let b_dir: bool = i < bc.len() - 1;
        if a_dir && !b_dir {
            return -1;
        }
        if !a_dir && b_dir {
            return 1;
        }
        let o: i8 = text::order_chars(ac[i].as_slice(), bc[i].as_slice());
        assert(o == text::order(a[i as int], b[i as int]));
        if o != 0 {
            return o;
        }
        i += 1;
    }
    if i < ac.len() {
        1
    } else if i < bc.len() {
        -1
    } else {
        0
    }
}

/// Order of two slash-separated paths.
pub fn rank_paths(a: &str, b: &str) -> (r: i8)
    ensures
        r == rank(a@, b@),
{
    let ac: Vec<Vec<char>> = components(a);
    let bc: Vec<Vec<char>> = components(b);
    rank_components(ac.as_slice(), bc.as_slice())
}

} // verus!
