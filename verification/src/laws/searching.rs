//! What a search finds, and how its matches are walked.

use crate::case;
use crate::git::diff::{DiffLineView, FileDiffView};
use crate::text;
use crate::ui::review;
use crate::ui::review::StreamView;
use crate::ui::rows::Row;
use vstd::prelude::*;

verus! {

/// The text holds `part` somewhere.
pub open spec fn has_part(s: Seq<char>, part: Seq<char>) -> bool {
    exists|at: int|
        0 <= at && at + part.len() <= s.len() && #[trigger] s.subrange(at, at + part.len()) == part
}

/// A line is found by a query: letter case counts exactly if the query has an
/// upper-case letter.
pub open spec fn found_by(content: Seq<char>, query: Seq<char>) -> bool {
    if exists|i: int| 0 <= i < query.len() && case::is_upper(#[trigger] query[i]) {
        has_part(content, query)
    } else {
        has_part(case::lowercase(content), case::lowercase(query))
    }
}

/// The row begins the diff line `l` of its hunk, whatever the line's origin.
pub open spec fn begins_line(row: Row, files: Seq<FileDiffView>, l: DiffLineView) -> bool {
    match row {
        Row::Line { file, hunk, line, start, .. } => start == 0
            && files[file as int].hunks[hunk as int].lines[line as int] == l,
        _ => false,
    }
}

/// The row is one that the query finds.
pub open spec fn is_found(row: Row, files: Seq<FileDiffView>, query: Seq<char>) -> bool {
    exists|l: DiffLineView| #[trigger] begins_line(row, files, l) && found_by(l.content, query)
}

proof fn lemma_has_part(s: Seq<char>, part: Seq<char>)
    ensures
        text::find_from(s, part, 0) is Some <==> has_part(s, part),
{
    text::lemma_find_from(s, part, 0);
    if has_part(s, part) {
        let at = choose|at: int|
            0 <= at && at + part.len() <= s.len() && #[trigger] s.subrange(at, at + part.len())
                == part;
        assert(text::occurs_at(s, part, at));
    }
}

proof fn lemma_row_found(row: Row, files: Seq<FileDiffView>, query: Seq<char>)
    ensures
        review::row_hits(row, files, query, review::has_upper(query)) == is_found(
            row,
            files,
            query,
        ),
{
    if let Row::Line { file, hunk, line, start, .. } = row {
        let l = files[file as int].hunks[hunk as int].lines[line as int];
        lemma_has_part(l.content, query);
        lemma_has_part(case::lowercase(l.content), case::lowercase(query));
        if start == 0 {
            assert(begins_line(row, files, l));
        }
    }
}

proof fn lemma_listed(
    rows: Seq<Row>,
    files: Seq<FileDiffView>,
    query: Seq<char>,
    n: int,
)
    requires
        0 <= n <= rows.len() <= usize::MAX,
    ensures
        ({
            let m = review::matching(rows, files, query, review::has_upper(query), n);
            &&& forall|i: int|
                #![trigger rows[i]]
                0 <= i < n ==> (m.contains(i as usize) <==> is_found(rows[i], files, query))
            &&& forall|k: int| 0 <= k < m.len() ==> (#[trigger] m[k]) < n
            &&& forall|j: int, k: int| 0 <= j < k < m.len() ==> (#[trigger] m[j]) < #[trigger] m[k]
        }),
    decreases n,
{
    if n > 0 {
        lemma_listed(rows, files, query, n - 1);
        lemma_row_found(rows[n - 1], files, query);
        let before = review::matching(rows, files, query, review::has_upper(query), n - 1);
        let m = review::matching(rows, files, query, review::has_upper(query), n);
        assert forall|k: int| 0 <= k < m.len() implies (#[trigger] m[k]) < n by {
            if k < before.len() {
                assert(m[k] == before[k]);
            }
        }
        assert forall|i: int|
            #![trigger rows[i]]
            0 <= i < n implies (m.contains(i as usize) <==> is_found(rows[i], files, query)) by {
            if i < n - 1 {
                if before.contains(i as usize) {
                    let k = before.index_of(i as usize);
                    assert(m[k] == i as usize);
                }
                if m.contains(i as usize) {
                    let k = m.index_of(i as usize);
                    assert(m[k] == i as usize);
                    assert(k < before.len());
                    assert(before[k] == m[k]);
                }
            } else {
                if is_found(rows[i], files, query) {
                    assert(m.last() == i as usize);
                }
                if m.contains(i as usize) {
                    let k = m.index_of(i as usize);
                    assert(m[k] == i as usize);
                    if k < before.len() {
                        assert(before[k] < n - 1);
                    }
                }
            }
        }
        assert forall|j: int, k: int| 0 <= j < k < m.len() implies (#[trigger] m[j])
            < #[trigger] m[k] by {
            assert(m[j] == before[j]);
            if k < before.len() {
                assert(m[k] == before[k]);
            }
        }
    }
}

/// A search lists, from the top down, exactly the rows that begin a diff line,
/// be it context, added or deleted, which holds the query. It then stands on the
/// first of them; where nothing is found no search is live, and nothing moves.
pub proof fn lemma_search_finds_every_line(
    s: StreamView,
    files: Seq<FileDiffView>,
    query: Seq<char>,
)
    requires
        s.ok(),
    ensures
        ({
            let r = s.searched(query, files);
            let none = forall|i: int|
                #![trigger s.rows[i]]
                0 <= i < s.rows.len() ==> !is_found(s.rows[i], files, query);
            &&& r.rows == s.rows
            &&& none ==> r == (StreamView { search: None, ..s })
            &&& !none ==> {
                &&& r.search is Some
                &&& r.search->0.query == query
                &&& forall|i: int|
                    #![trigger s.rows[i]]
                    0 <= i < s.rows.len() ==> (r.search->0.matches.contains(i as usize)
                        <==> is_found(s.rows[i], files, query))
                &&& forall|k: int|
                    0 <= k < r.search->0.matches.len() ==> (#[trigger] r.search->0.matches[k])
                        < s.rows.len()
                &&& forall|j: int, k: int|
                    0 <= j < k < r.search->0.matches.len() ==> (
                    #[trigger] r.search->0.matches[j]) < #[trigger] r.search->0.matches[k]
                &&& r.search->0.matches[r.search->0.current as int] == r.cursor
                &&& is_found(s.rows[r.cursor as int], files, query)
                &&& forall|i: int|
                    #![trigger s.rows[i]]
                    0 <= i < r.cursor ==> !is_found(s.rows[i], files, query)
                &&& r.scroll <= r.cursor
                &&& r.selection == s.selection
            }
        }),
{
    let n = s.rows.len() as int;
    lemma_listed(s.rows, files, query, n);
    let m = review::matching(s.rows, files, query, review::has_upper(query), n);
    let r = s.searched(query, files);
    if m.len() == 0 {
        assert forall|i: int|
            #![trigger s.rows[i]]
            0 <= i < n implies !is_found(s.rows[i], files, query) by {
            assert(!m.contains(i as usize));
        }
    } else {
        assert(m.contains(m[0]));
        assert(is_found(s.rows[m[0] as int], files, query));
        assert(r.cursor == m[0]);
        assert forall|i: int|
            #![trigger s.rows[i]]
            0 <= i < r.cursor implies !is_found(s.rows[i], files, query) by {
            if m.contains(i as usize) {
                let k = m.index_of(i as usize);
                assert(m[k] == i as usize);
                if k > 0 {
                    assert(m[0] < m[k]);
                }
            }
        }
    }
}

/// Going on from a match puts the cursor on the next one down, and from the last
/// one on the first; going back is the same upwards. The list stays as it is.
pub proof fn lemma_matches_are_walked_in_order(s: StreamView)
    requires
        s.ok(),
        s.search is Some,
    ensures
        ({
            let q = s.search->0;
            let n = q.matches.len() as int;
            let up = s.match_moved(1);
            let down = s.match_moved(-1);
            &&& up.rows == s.rows && down.rows == s.rows
            &&& up.search is Some && up.search->0.matches == q.matches && up.search->0.query
                == q.query
            &&& down.search is Some && down.search->0.matches == q.matches
            &&& up.search->0.current == (if q.current + 1 < n {
                q.current + 1
            } else {
                0
            })
            &&& down.search->0.current == (if q.current > 0 {
                q.current - 1
            } else {
                n - 1
            })
            &&& up.cursor == q.matches[up.search->0.current as int]
            &&& down.cursor == q.matches[down.search->0.current as int]
            &&& up.scroll <= up.cursor
            &&& down.scroll <= down.cursor
        }),
{
    let q = s.search->0;
    let n = q.matches.len() as int;
    review::lemma_around(q.current as int, n);
    let up = s.match_moved(1);
    let down = s.match_moved(-1);
    assert((q.current + 1) % n == (if q.current + 1 < n {
        q.current + 1
    } else {
        0int
    })) by (nonlinear_arith)
        requires
            0 <= q.current < n,
    ;
    assert((q.current - 1) % n == (if q.current > 0 {
        q.current - 1
    } else {
        n - 1
    })) by (nonlinear_arith)
        requires
            0 <= q.current < n,
    ;
    assert(q.matches[up.search->0.current as int] < s.rows.len());
    assert(q.matches[down.search->0.current as int] < s.rows.len());
}

} // verus!
