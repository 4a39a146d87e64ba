//! Which requests of a burst run.

use crate::event;
use crate::event::RequestView;
use vstd::prelude::*;

verus! {

/// Do two requests ask for the same thing, so that the later one is enough? A
/// burst has one diff and one count, and one expansion of a path in a scope and
/// generation.
pub open spec fn replaces(later: RequestView, earlier: RequestView) -> bool {
    match (later, earlier) {
        (RequestView::Diff { .. }, RequestView::Diff { .. }) => true,
        (RequestView::Counts { .. }, RequestView::Counts { .. }) => true,
        (
            RequestView::File { seq: a, scope: s, path: p, .. },
            RequestView::File { seq: b, scope: t, path: q, .. },
        ) => a == b && s == t && p == q,
        _ => false,
    }
}

/// The number a request was given.
pub open spec fn number(r: RequestView) -> int {
    match r {
        RequestView::Diff { seq, .. } => seq as int,
        RequestView::Counts { seq } => seq as int,
        RequestView::File { seq, .. } => seq as int,
    }
}

/// Diffs run before expansions, expansions before counts.
pub open spec fn turn(r: RequestView) -> int {
    match r {
        RequestView::Diff { .. } => 0,
        RequestView::File { .. } => 1,
        RequestView::Counts { .. } => 2,
    }
}

/// The request at `j` of the first `n` stands for itself: none of the later
/// ones replaces it.
pub open spec fn last_of_its_kind(burst: Seq<RequestView>, n: int, j: int) -> bool {
    forall|k: int| j < k < n ==> !replaces(#[trigger] burst[k], burst[j])
}

/// Requests are numbered in the order in which they are made.
pub open spec fn numbered_in_order(burst: Seq<RequestView>) -> bool {
    forall|i: int, j: int|
        0 <= i < j < burst.len() ==> number(#[trigger] burst[i]) <= number(#[trigger] burst[j])
}

proof fn lemma_same_file_index(s: Seq<RequestView>, r: RequestView, i: int)
    requires
        0 <= i <= s.len(),
    ensures
        ({
            let k = event::same_file_index(s, r, i);
            &&& i <= k <= s.len()
            &&& forall|j: int| i <= j < k ==> !(#[trigger] s[j]).same_file(r)
            &&& k < s.len() ==> s[k].same_file(r)
        }),
    decreases s.len() - i,
{
    if i < s.len() && !s[i].same_file(r) {
        lemma_same_file_index(s, r, i + 1);
    }
}

/// A request of the first `n` that none of the later ones replaces.
#[verifier::opaque]
spec fn stands(burst: Seq<RequestView>, n: int, r: RequestView) -> bool {
    exists|j: int| 0 <= j < n && #[trigger] burst[j] == r && last_of_its_kind(burst, n, j)
}

/// One of the requests replaces `r`.
#[verifier::opaque]
spec fn covered(f: Seq<RequestView>, r: RequestView) -> bool {
    exists|k: int| 0 <= k < f.len() && replaces(#[trigger] f[k], r)
}

proof fn lemma_stands_on(burst: Seq<RequestView>, n: int, r: RequestView)
    requires
        0 < n <= burst.len(),
        stands(burst, n - 1, r),
        !replaces(burst[n - 1], r),
    ensures
        stands(burst, n, r),
{
    reveal(stands);
    let j = choose|j: int|
        0 <= j < n - 1 && #[trigger] burst[j] == r && last_of_its_kind(burst, n - 1, j);
    assert(last_of_its_kind(burst, n, j));
}

proof fn lemma_newcomer_stands(burst: Seq<RequestView>, n: int)
    requires
        0 < n <= burst.len(),
    ensures
        stands(burst, n, burst[n - 1]),
{
    reveal(stands);
    assert(last_of_its_kind(burst, n, n - 1));
}

proof fn lemma_one_stands(burst: Seq<RequestView>, n: int, a: RequestView, b: RequestView)
    requires
        stands(burst, n, a),
        stands(burst, n, b),
        replaces(a, b),
    ensures
        a == b,
{
    reveal(stands);
    let i = choose|i: int| 0 <= i < n && #[trigger] burst[i] == a && last_of_its_kind(burst, n, i);
    let j = choose|j: int| 0 <= j < n && #[trigger] burst[j] == b && last_of_its_kind(burst, n, j);
    if i < j {
        assert(replaces(burst[j], burst[i]));
    } else if j < i {
        assert(replaces(burst[i], burst[j]));
    }
}

proof fn lemma_stands_within(burst: Seq<RequestView>, n: int, r: RequestView)
    requires
        n == burst.len(),
        n > 0,
        numbered_in_order(burst),
        stands(burst, n, r),
    ensures
        number(r) <= number(burst[n - 1]),
{
    reveal(stands);
}

/// Everything in `f` is an expansion that stands, and no two are alike.
spec fn all_stand(f: Seq<RequestView>, burst: Seq<RequestView>, n: int) -> bool {
    &&& forall|k: int| 0 <= k < f.len() ==> (#[trigger] f[k]) is File && stands(burst, n, f[k])
    &&& forall|a: int, b: int|
        0 <= a < b < f.len() ==> !replaces(#[trigger] f[a], #[trigger] f[b])
}

/// `f` has an expansion for each that was asked for.
spec fn all_covered(f: Seq<RequestView>, burst: Seq<RequestView>, n: int) -> bool {
    forall|j: int| 0 <= j < n && (#[trigger] burst[j]) is File ==> covered(f, burst[j])
}

proof fn lemma_covered(f: Seq<RequestView>, g: Seq<RequestView>, at: int, r: RequestView, q: RequestView)
    requires
        r is File,
        at < f.len() ==> 0 <= at && f[at].same_file(r) && g == f.update(at, r),
        at >= f.len() ==> g == f.push(r),
    ensures
        covered(f, q) ==> covered(g, q),
        covered(g, r),
{
    reveal(covered);
    let p = if at < f.len() {
        at
    } else {
        f.len() as int
    };
    assert(g[p] == r && replaces(g[p], r));
    if covered(f, q) {
        let k = choose|k: int| 0 <= k < f.len() && replaces(#[trigger] f[k], q);
        if k == at {
            assert(replaces(g[p], q));
        } else {
            assert(g[k] == f[k]);
        }
    }
}

proof fn lemma_files(burst: Seq<RequestView>, n: int)
    requires
        0 <= n <= burst.len(),
    ensures
        all_stand(event::file_requests(burst, n), burst, n),
        all_covered(event::file_requests(burst, n), burst, n),
    decreases n,
{
    if n > 0 {
        lemma_files(burst, n - 1);
        let f = event::file_requests(burst, n - 1);
        let r = burst[n - 1];
        let g = event::file_requests(burst, n);
        lemma_same_file_index(f, r, 0);
        let at = event::same_file_index(f, r, 0);
        if r is File {
            assert(covered(g, r)) by {
                lemma_covered(f, g, at, r, r);
            }
            assert(all_covered(g, burst, n)) by {
                assert forall|j: int| 0 <= j < n && (#[trigger] burst[j]) is File implies covered(
                    g,
                    burst[j],
                ) by {
                    if j < n - 1 {
                        lemma_covered(f, g, at, r, burst[j]);
                    }
                }
            }
            lemma_newcomer_stands(burst, n);
            lemma_still_stand(burst, n, f, g, at);
        } else {
            assert(g == f);
            assert forall|k: int| 0 <= k < g.len() implies (#[trigger] g[k]) is File && stands(
                burst,
                n,
                g[k],
            ) by {
                lemma_stands_on(burst, n, f[k]);
            }
        }
    }
}

proof fn lemma_still_stand(
    burst: Seq<RequestView>,
    n: int,
    f: Seq<RequestView>,
    g: Seq<RequestView>,
    at: int,
)
    requires
        0 < n <= burst.len(),
        burst[n - 1] is File,
        stands(burst, n, burst[n - 1]),
        all_stand(f, burst, n - 1),
        0 <= at <= f.len(),
        forall|j: int| 0 <= j < at ==> !(#[trigger] f[j]).same_file(burst[n - 1]),
        at < f.len() ==> f[at].same_file(burst[n - 1]) && g == f.update(at, burst[n - 1]),
        at == f.len() ==> g == f.push(burst[n - 1]),
    ensures
        all_stand(g, burst, n),
{
    let r = burst[n - 1];
    assert forall|k: int| 0 <= k < f.len() && k != at implies !replaces(r, #[trigger] f[k])
        && !replaces(f[k], r) by {
        if at < f.len() {
            if k < at {
                assert(!replaces(f[k], f[at]));
            } else {
                assert(!replaces(f[at], f[k]));
            }
        } else {
            assert(!f[k].same_file(r));
        }
    }
    assert forall|k: int| 0 <= k < g.len() implies (#[trigger] g[k]) is File && stands(
        burst,
        n,
        g[k],
    ) by {
        if k != at {
            assert(g[k] == f[k]);
            lemma_stands_on(burst, n, f[k]);
        }
    }
    assert forall|a: int, b: int| 0 <= a < b < g.len() implies !replaces(
        #[trigger] g[a],
        #[trigger] g[b],
    ) by {
        if a != at {
            assert(g[a] == f[a]);
        }
        if b != at {
            assert(g[b] == f[b]);
        }
    }
}

proof fn lemma_last_diff(burst: Seq<RequestView>, n: int)
    requires
        0 <= n <= burst.len(),
    ensures
        match event::last_diff(burst, n) {
            Some(d) => d is Diff && stands(burst, n, d),
            None => forall|j: int| 0 <= j < n ==> !((#[trigger] burst[j]) is Diff),
        },
    decreases n,
{
    if n > 0 {
        lemma_last_diff(burst, n - 1);
        if burst[n - 1] is Diff {
            lemma_newcomer_stands(burst, n);
        } else if let Some(d) = event::last_diff(burst, n - 1) {
            lemma_stands_on(burst, n, d);
        }
    }
}

proof fn lemma_last_counts(burst: Seq<RequestView>, n: int)
    requires
        0 <= n <= burst.len(),
    ensures
        match event::last_counts(burst, n) {
            Some(d) => d is Counts && stands(burst, n, d),
            None => forall|j: int| 0 <= j < n ==> !((#[trigger] burst[j]) is Counts),
        },
    decreases n,
{
    if n > 0 {
        lemma_last_counts(burst, n - 1);
        if burst[n - 1] is Counts {
            lemma_newcomer_stands(burst, n);
        } else if let Some(d) = event::last_counts(burst, n - 1) {
            lemma_stands_on(burst, n, d);
        }
    }
}

proof fn lemma_newest(s: Seq<RequestView>, n: int, least: Option<u64>, top: u64)
    requires
        0 <= n <= s.len(),
        forall|k: int| 0 <= k < n ==> number(#[trigger] s[k]) <= top,
        least matches Some(l) ==> l <= top,
        least == Some(top) || exists|k: int| 0 <= k < n && number(#[trigger] s[k]) == top,
    ensures
        event::newest(s, n, least) == Some(top),
    decreases n,
{
    if n > 0 {
        if number(s[n - 1]) == top {
            lemma_below(s, n - 1, least, top);
        } else {
            lemma_newest(s, n - 1, least, top);
        }
    }
}

proof fn lemma_below(s: Seq<RequestView>, n: int, least: Option<u64>, top: u64)
    requires
        0 <= n <= s.len(),
        forall|k: int| 0 <= k < n ==> number(#[trigger] s[k]) <= top,
        least matches Some(l) ==> l <= top,
    ensures
        event::newest(s, n, least) matches Some(g) ==> g <= top,
    decreases n,
{
    if n > 0 {
        lemma_below(s, n - 1, least, top);
    }
}

proof fn lemma_kept(s: Seq<RequestView>, g: u64, n: int)
    requires
        0 <= n <= s.len(),
    ensures
        event::kept_files(s, Some(g), n) == s.take(n).filter(|r: RequestView| number(r) == g),
    decreases n,
{
    reveal(Seq::filter);
    if n > 0 {
        lemma_kept(s, g, n - 1);
        assert(s.take(n).drop_last() =~= s.take(n - 1));
    } else {
        assert(s.take(n) =~= Seq::empty());
    }
}

proof fn lemma_filtered_apart(s: Seq<RequestView>, g: u64)
    requires
        forall|a: int, b: int|
            0 <= a < b < s.len() ==> !replaces(#[trigger] s[a], #[trigger] s[b]),
    ensures
        ({
            let t = s.filter(|r: RequestView| number(r) == g);
            &&& forall|a: int, b: int|
                0 <= a < b < t.len() ==> !replaces(#[trigger] t[a], #[trigger] t[b])
            &&& forall|k: int| 0 <= k < t.len() ==> s.contains(#[trigger] t[k])
        }),
    decreases s.len(),
{
    reveal(Seq::filter);
    if s.len() > 0 {
        let front = s.drop_last();
        assert forall|a: int, b: int| 0 <= a < b < front.len() implies !replaces(
            #[trigger] front[a],
            #[trigger] front[b],
        ) by {
            assert(front[a] == s[a] && front[b] == s[b]);
        }
        lemma_filtered_apart(front, g);
        let u = front.filter(|r: RequestView| number(r) == g);
        let t = s.filter(|r: RequestView| number(r) == g);
        assert forall|k: int| 0 <= k < t.len() implies s.contains(#[trigger] t[k]) by {
            if k < u.len() {
                assert(t[k] == u[k]);
                assert(front.contains(u[k]));
                let i = front.index_of(u[k]);
                assert(s[i] == t[k]);
            } else {
                assert(s[s.len() - 1] == t[k]);
            }
        }
        assert forall|a: int, b: int| 0 <= a < b < t.len() implies !replaces(
            #[trigger] t[a],
            #[trigger] t[b],
        ) by {
            if b < u.len() {
                assert(t[a] == u[a] && t[b] == u[b]);
            } else {
                assert(t[a] == u[a]);
                assert(front.contains(u[a]));
                let i = front.index_of(u[a]);
                assert(s[i] == t[a]);
                assert(s[s.len() - 1] == t[b]);
            }
        }
    }
}

proof fn lemma_generation(burst: Seq<RequestView>)
    requires
        burst.len() > 0,
        numbered_in_order(burst),
    ensures
        ({
            let n = burst.len() as int;
            event::newest_of(
                event::last_diff(burst, n),
                event::last_counts(burst, n),
                event::file_requests(burst, n),
            ) == Some(burst[n - 1].generation())
        }),
{
    let n = burst.len() as int;
    let d = event::last_diff(burst, n);
    let c = event::last_counts(burst, n);
    let f = event::file_requests(burst, n);
    let last = burst[n - 1];
    let top = last.generation();
    let least = event::later(event::generation_of(d), event::generation_of(c));
    lemma_files(burst, n);
    lemma_last_diff(burst, n);
    lemma_last_counts(burst, n);
    lemma_newcomer_stands(burst, n);
    assert forall|k: int| 0 <= k < f.len() implies number(#[trigger] f[k]) <= top by {
        lemma_stands_within(burst, n, f[k]);
    }
    if let Some(x) = d {
        lemma_stands_within(burst, n, x);
        if last is Diff {
            lemma_one_stands(burst, n, last, x);
        }
    }
    if let Some(x) = c {
        lemma_stands_within(burst, n, x);
        if last is Counts {
            lemma_one_stands(burst, n, last, x);
        }
    }
    if last is File {
        reveal(covered);
        let k = choose|k: int| 0 <= k < f.len() && replaces(#[trigger] f[k], last);
        assert(number(f[k]) == top);
    }
    lemma_newest(f, f.len() as int, least, top);
}

/// The parts of what runs: `head` the diff, `mid` the expansions, `tail` the
/// counts.
spec fn parts(burst: Seq<RequestView>) -> (Seq<RequestView>, Seq<RequestView>, Seq<RequestView>) {
    let n = burst.len() as int;
    let top = burst[n - 1].generation();
    (
        event::listed(event::kept(event::last_diff(burst, n), Some(top))),
        event::file_requests(burst, n).filter(|r: RequestView| number(r) == top),
        event::listed(event::kept(event::last_counts(burst, n), Some(top))),
    )
}

proof fn lemma_parts(burst: Seq<RequestView>)
    requires
        burst.len() > 0,
        numbered_in_order(burst),
    ensures
        event::scheduled(burst) == parts(burst).0 + parts(burst).1 + parts(burst).2,
{
    let n = burst.len() as int;
    lemma_generation(burst);
    let f = event::file_requests(burst, n);
    lemma_kept(f, burst[n - 1].generation(), f.len() as int);
    assert(f.take(f.len() as int) =~= f);
}

proof fn lemma_mid(burst: Seq<RequestView>)
    requires
        burst.len() > 0,
        numbered_in_order(burst),
    ensures
        ({
            let n = burst.len() as int;
            let mid = parts(burst).1;
            &&& forall|k: int|
                0 <= k < mid.len() ==> (#[trigger] mid[k]) is File && number(mid[k]) == number(
                    burst[n - 1],
                ) && stands(burst, n, mid[k])
            &&& forall|a: int, b: int|
                0 <= a < b < mid.len() ==> !replaces(#[trigger] mid[a], #[trigger] mid[b])
        }),
{
    let n = burst.len() as int;
    let f = event::file_requests(burst, n);
    let top = burst[n - 1].generation();
    let pick = |r: RequestView| number(r) == top;
    let mid = f.filter(pick);
    lemma_files(burst, n);
    lemma_filtered_apart(f, top);
    assert forall|k: int| 0 <= k < mid.len() implies (#[trigger] mid[k]) is File && number(mid[k])
        == top && stands(burst, n, mid[k]) by {
        broadcast use vstd::seq_lib::group_filter_ensures;

        assert(mid.contains(mid[k]));
        assert(f.contains(mid[k]));
        let i = f.index_of(mid[k]);
        assert(f[i] is File);
    }
}

proof fn lemma_runs(burst: Seq<RequestView>, r: RequestView)
    requires
        burst.len() > 0,
        numbered_in_order(burst),
        number(r) == number(burst.last()),
        stands(burst, burst.len() as int, r),
    ensures
        event::scheduled(burst).contains(r),
{
    let n = burst.len() as int;
    let f = event::file_requests(burst, n);
    let top = burst[n - 1].generation();
    let all = event::scheduled(burst);
    let (head, mid, tail) = parts(burst);
    lemma_parts(burst);
    lemma_files(burst, n);
    lemma_last_diff(burst, n);
    lemma_last_counts(burst, n);
    let j = choose|j: int| 0 <= j < n && #[trigger] burst[j] == r;
    assert(0 <= j < n && burst[j] == r) by {
        reveal(stands);
    }
    if r is Diff {
        lemma_one_stands(burst, n, event::last_diff(burst, n)->0, r);
        assert(head[0] == r);
        assert(all[0] == r);
    } else if r is Counts {
        lemma_one_stands(burst, n, event::last_counts(burst, n)->0, r);
        assert(tail[0] == r);
        assert(all[all.len() - 1] == r);
    } else {
        assert(covered(f, burst[j]));
        let k = choose|k: int| 0 <= k < f.len() && replaces(#[trigger] f[k], r);
        assert(0 <= k < f.len() && replaces(f[k], r)) by {
            reveal(covered);
        }
        lemma_one_stands(burst, n, f[k], r);
        let pick = |r: RequestView| number(r) == top;
        assert(mid.contains(r)) by {
            broadcast use vstd::seq_lib::group_filter_ensures;

            assert(pick(f[k]));
            assert(f.contains(r));
        }
        let m = mid.index_of(r);
        assert(all[head.len() + m] == r);
    }
}

/// Of a burst whose requests are numbered in order, exactly those run that have
/// the newest number and that no later request replaces: diffs first, then
/// expansions, then counts, and nothing twice.
pub proof fn lemma_newest_requests_run(burst: Seq<RequestView>, r: RequestView)
    requires
        burst.len() > 0,
        numbered_in_order(burst),
    ensures
        event::scheduled(burst).contains(r) <==> (number(r) == number(burst.last()) && exists|j: int|
            0 <= j < burst.len() && #[trigger] burst[j] == r && last_of_its_kind(
                burst,
                burst.len() as int,
                j,
            )),
        forall|a: int, b: int|
            0 <= a < b < event::scheduled(burst).len() ==> turn(
                #[trigger] event::scheduled(burst)[a],
            ) <= turn(#[trigger] event::scheduled(burst)[b]) && !replaces(
                event::scheduled(burst)[a],
                event::scheduled(burst)[b],
            ),
{
    let n = burst.len() as int;
    let all = event::scheduled(burst);
    let (head, mid, tail) = parts(burst);
    lemma_parts(burst);
    lemma_mid(burst);
    lemma_last_diff(burst, n);
    lemma_last_counts(burst, n);
    if all.contains(r) {
        let k = all.index_of(r);
        if k >= head.len() && k < head.len() + mid.len() {
            assert(all[k] == mid[k - head.len()]);
        }
        assert(stands(burst, n, r) && number(r) == number(burst.last()));
    } else if number(r) == number(burst.last()) && stands(burst, n, r) {
        lemma_runs(burst, r);
    }
    assert(stands(burst, n, r) <==> exists|j: int|
        0 <= j < burst.len() && #[trigger] burst[j] == r && last_of_its_kind(
            burst,
            burst.len() as int,
            j,
        )) by {
        reveal(stands);
    }
    assert forall|a: int, b: int| 0 <= a < b < all.len() implies turn(#[trigger] all[a]) <= turn(
        #[trigger] all[b],
    ) && !replaces(all[a], all[b]) by {
        if a >= head.len() && a < head.len() + mid.len() {
            assert(all[a] == mid[a - head.len()]);
        }
        if b >= head.len() && b < head.len() + mid.len() {
            assert(all[b] == mid[b - head.len()]);
        }
    }
}

} // verus!
