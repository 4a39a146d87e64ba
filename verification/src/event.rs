//! Work for the background loader and what it answers.

use crate::deep;
use crate::git::diff::{DiffResult, FileDiff};
use crate::git::scope::{Scope, ScopeView};
use crate::text;
use vstd::prelude::*;

verus! {

broadcast use crate::deep::group_deep;

/// What is loaded of a single file.
#[derive(Clone, Copy, Debug, PartialEq, Eq, Structural)]
pub enum FileLoadKind {
    Stub { untracked_dir: bool },
    FullContext,
}

/// Work for the background loader. Everything git-expensive runs there; the
/// UI thread never computes a diff.
#[derive(Debug)]
pub enum LoadRequest {
    /// Load (or reload) the diff for a scope.
    Diff { seq: u64, scope: Scope },
    /// Compute the scope picker's file counts.
    Counts { seq: u64 },
    /// Expand one stub: a large file (no size cap) or an untracked dir.
    File {
        seq: u64,
        scope: Scope,
        path: String,
        old_path: Option<String>,
        kind: FileLoadKind,
    },
}

/// What a request says.
#[verifier::ext_equal]
pub enum RequestView {
    Diff { seq: u64, scope: ScopeView },
    Counts { seq: u64 },
    File {
        seq: u64,
        scope: ScopeView,
        path: Seq<char>,
        old_path: Option<Seq<char>>,
        kind: FileLoadKind,
    },
}

impl View for LoadRequest {
    type V = RequestView;

    open spec fn view(&self) -> RequestView {
        match self {
            LoadRequest::Diff { seq, scope } => RequestView::Diff { seq: *seq, scope: scope@ },
            LoadRequest::Counts { seq } => RequestView::Counts { seq: *seq },
            LoadRequest::File { seq, scope, path, old_path, kind } => RequestView::File {
                seq: *seq,
                scope: scope@,
                path: path@,
                old_path: deep::deep_opt(*old_path),
                kind: *kind,
            },
        }
    }
}

/// File counts for the scope picker.
#[derive(Debug)]
pub struct ScopeCounts {
    pub uncommitted: usize,
    pub staged: usize,
    /// (branch name, count) when a fork point can be found.
    pub branch: Option<(String, usize)>,
}

/// Everything the main loop can be woken up by besides key input.
#[derive(Debug)]
pub enum AppEvent {
    /// The loader finished a diff. `seq` pairs it with its request; stale
    /// responses (seq mismatch) are dropped.
    Diff { seq: u64, scope: Scope, diff: Result<DiffResult, String> },
    Counts { seq: u64, counts: ScopeCounts },
    /// Expansion result: one or more files replacing the stub at `path`.
    File {
        seq: u64,
        scope: Scope,
        path: String,
        kind: FileLoadKind,
        files: Result<Vec<FileDiff>, String>,
    },
}

impl RequestView {
    /// The generation of a request.
    pub open spec fn generation(self) -> u64 {
        match self {
            RequestView::Diff { seq, .. } => seq,
            RequestView::Counts { seq } => seq,
            RequestView::File { seq, .. } => seq,
        }
    }

    /// Do two requests expand the same path of the same generation and scope?
    pub open spec fn same_file(self, other: RequestView) -> bool {
        match (self, other) {
            (
                RequestView::File { seq: a, scope: s, path: p, .. },
                RequestView::File { seq: b, scope: t, path: q, .. },
            ) => a == b && s == t && p == q,
            _ => false,
        }
    }
}

/// The generation of a request.
pub fn request_seq(request: &LoadRequest) -> (r: u64)
    ensures
        r == request@.generation(),
{
    match request {
        LoadRequest::Diff { seq, .. } => *seq,
        LoadRequest::Counts { seq } => *seq,
        LoadRequest::File { seq, .. } => *seq,
    }
}

fn same_expansion(a: &LoadRequest, b: &LoadRequest) -> (r: bool)
    ensures
        r == a@.same_file(b@),
{
    match (a, b) {
        (
            LoadRequest::File { seq: x, scope: s, path: p, .. },
            LoadRequest::File { seq: y, scope: t, path: q, .. },
        ) => *x == *y && s.same(t) && text::same(p.as_str(), q.as_str()),
        _ => false,
    }
}

/// The first of the requests from `i` on that expands the same path.
pub open spec fn same_file_index(requests: Seq<RequestView>, request: RequestView, i: int) -> int
    decreases requests.len() - i,
{
    if i >= requests.len() || requests[i].same_file(request) {
        i
    } else {
        same_file_index(requests, request, i + 1)
    }
}

/// File requests with one more: it replaces an earlier one for the same path.
pub open spec fn with_file_request(
    requests: Seq<RequestView>,
    request: RequestView,
) -> Seq<RequestView> {
    let k = same_file_index(requests, request, 0);
    if !(request is File) {
        requests
    } else if k < requests.len() {
        requests.update(k, request)
    } else {
        requests.push(request)
    }
}

/// Queues a file request; one for the same path, scope and generation is
/// replaced.
pub fn push_file_request(requests: &mut Vec<LoadRequest>, request: LoadRequest)
    ensures
        deep::deep(final(requests)@) == with_file_request(deep::deep(old(requests)@), request@),
{
    let is_file: bool = match &request {
        LoadRequest::File { .. } => true,
        _ => false,
    };
    if !is_file {
        return;
    }
    let ghost all = deep::deep(requests@);
    let mut i: usize = 0;
    while i < requests.len() && !same_expansion(&requests[i], &request)
        invariant
            i <= requests@.len(),
            all == deep::deep(requests@),
            same_file_index(all, request@, i as int) == same_file_index(all, request@, 0),
        decreases requests@.len() - i,
    {
        assert(all[i as int] == requests@[i as int]@);
        i += 1;
    }
    if i < requests.len() {
        assert(all[i as int] == requests@[i as int]@);
        requests[i] = request;
    } else {
        requests.push(request);
    }
    assert(deep::deep(requests@) =~= with_file_request(all, request@));
}

/// The newest generation of the first `n` requests, `least` at the least.
pub open spec fn newest(requests: Seq<RequestView>, n: int, least: Option<u64>) -> Option<u64>
    decreases n,
{
    if n <= 0 {
        least
    } else {
        later(newest(requests, n - 1, least), Some(requests[n - 1].generation()))
    }
}

/// The later of two generations.
pub open spec fn later(a: Option<u64>, b: Option<u64>) -> Option<u64> {
    match (a, b) {
        (Some(x), Some(y)) => if x >= y {
            a
        } else {
            b
        },
        (Some(_), None) => a,
        _ => b,
    }
}

/// The generation of a request, if there is one.
pub open spec fn generation_of(r: Option<RequestView>) -> Option<u64> {
    match r {
        Some(q) => Some(q.generation()),
        None => None,
    }
}

/// The newest generation of all requests.
pub open spec fn newest_of(
    diff: Option<RequestView>,
    counts: Option<RequestView>,
    files: Seq<RequestView>,
) -> Option<u64> {
    newest(files, files.len() as int, later(generation_of(diff), generation_of(counts)))
}

/// The request if it belongs to the generation.
pub open spec fn kept(r: Option<RequestView>, generation: Option<u64>) -> Option<RequestView> {
    if generation_of(r) == generation {
        r
    } else {
        None
    }
}

/// Those of the first `n` requests that belong to the generation.
pub open spec fn kept_files(files: Seq<RequestView>, generation: Option<u64>, n: int) -> Seq<
    RequestView,
>
    decreases n,
{
    if n <= 0 {
        Seq::empty()
    } else if Some(files[n - 1].generation()) == generation {
        kept_files(files, generation, n - 1).push(files[n - 1])
    } else {
        kept_files(files, generation, n - 1)
    }
}

fn pick_later(a: Option<u64>, b: Option<u64>) -> (r: Option<u64>)
    ensures
        r == later(a, b),
{
    match (a, b) {
        (Some(x), Some(y)) => if x >= y {
            a
        } else {
            b
        },
        (Some(_), None) => a,
        _ => b,
    }
}

fn generation(r: &Option<LoadRequest>) -> (g: Option<u64>)
    ensures
        g == generation_of(deep::deep_opt(*r)),
{
    match r {
        Some(q) => Some(request_seq(q)),
        None => None,
    }
}

/// Drops everything that a later generation supersedes.
pub fn retain_newest_generation(
    diff: &mut Option<LoadRequest>,
    counts: &mut Option<LoadRequest>,
    files: &mut Vec<LoadRequest>,
)
    ensures
        ({
            let d = deep::deep_opt(*old(diff));
            let c = deep::deep_opt(*old(counts));
            let f = deep::deep(old(files)@);
            let g = newest_of(d, c, f);
            &&& deep::deep_opt(*final(diff)) == kept(d, g)
            &&& deep::deep_opt(*final(counts)) == kept(c, g)
            &&& deep::deep(final(files)@) == kept_files(f, g, f.len() as int)
        }),
{
    let ghost f = deep::deep(files@);
    let ghost d = deep::deep_opt(*diff);
    let ghost c = deep::deep_opt(*counts);
    let dg: Option<u64> = generation(diff);
    let cg: Option<u64> = generation(counts);
    let ghost least = later(dg, cg);
    let mut g: Option<u64> = pick_later(dg, cg);
    let mut i: usize = 0;
    while i < files.len()
        invariant
            i <= files@.len(),
            f == deep::deep(files@),
            g == newest(f, i as int, least),
        decreases files@.len() - i,
    {
        assert(f[i as int] == files@[i as int]@);
        g = pick_later(g, Some(request_seq(&files[i])));
        i += 1;
    }
    if !same_generation(dg, g) {
        *diff = None;
    }
    if !same_generation(cg, g) {
        *counts = None;
    }
    let mut all: Vec<LoadRequest> = Vec::new();
    all.append(files);
    let mut keep: Vec<LoadRequest> = Vec::new();
    for q in it: all
        invariant
            deep::deep(it.seq()) == f,
            deep::deep(keep@) == kept_files(f, g, it.index() as int),
    {
        assert(f[it.index() as int] == q@);
        if same_generation(Some(request_seq(&q)), g) {
            keep.push(q);
        }
    }
    files.append(&mut keep);
}

fn same_generation(a: Option<u64>, b: Option<u64>) -> (r: bool)
    ensures
        r == (a == b),
{
    match (a, b) {
        (Some(x), Some(y)) => x == y,
        (None, None) => true,
        _ => false,
    }
}

/// The file requests of the first `n` requests of a burst.
pub open spec fn file_requests(burst: Seq<RequestView>, n: int) -> Seq<RequestView>
    decreases n,
{
    if n <= 0 {
        Seq::empty()
    } else {
        with_file_request(file_requests(burst, n - 1), burst[n - 1])
    }
}

/// The last diff request of the first `n` requests.
pub open spec fn last_diff(burst: Seq<RequestView>, n: int) -> Option<RequestView>
    decreases n,
{
    if n <= 0 {
        None
    } else if burst[n - 1] is Diff {
        Some(burst[n - 1])
    } else {
        last_diff(burst, n - 1)
    }
}

/// The last counts request of the first `n` requests.
pub open spec fn last_counts(burst: Seq<RequestView>, n: int) -> Option<RequestView>
    decreases n,
{
    if n <= 0 {
        None
    } else if burst[n - 1] is Counts {
        Some(burst[n - 1])
    } else {
        last_counts(burst, n - 1)
    }
}

/// A request as a list.
pub open spec fn listed(r: Option<RequestView>) -> Seq<RequestView> {
    match r {
        Some(q) => seq![q],
        None => Seq::empty(),
    }
}

/// The work of a burst of requests: the newest diff, then the expansions, then
/// the newest counts, of the newest generation only.
pub open spec fn scheduled(burst: Seq<RequestView>) -> Seq<RequestView> {
    let n = burst.len() as int;
    let d = last_diff(burst, n);
    let c = last_counts(burst, n);
    let f = file_requests(burst, n);
    let g = newest_of(d, c, f);
    listed(kept(d, g)) + kept_files(f, g, f.len() as int) + listed(kept(c, g))
}

/// Coalesces a burst down to the newest request of each kind and one expansion
/// per path in a scope generation, in the order in which they run. A later
/// generation supersedes every older kind of work before it consumes git time;
/// a reload and expansions may share a generation, in which case the reload
/// runs first.
pub fn schedule(burst: Vec<LoadRequest>) -> (r: Vec<LoadRequest>)
    ensures
        deep::deep(r@) == scheduled(deep::deep(burst@)),
{
    let ghost all = deep::deep(burst@);
    let mut diff: Option<LoadRequest> = None;
    let mut counts: Option<LoadRequest> = None;
    let mut files: Vec<LoadRequest> = Vec::new();
    for q in it: burst
        invariant
            deep::deep(it.seq()) == all,
            deep::deep_opt(diff) == last_diff(all, it.index() as int),
            deep::deep_opt(counts) == last_counts(all, it.index() as int),
            deep::deep(files@) == file_requests(all, it.index() as int),
    {
        assert(all[it.index() as int] == q@);
        let kind: u8 = match &q {
            LoadRequest::Diff { .. } => 0,
            LoadRequest::Counts { .. } => 1,
            LoadRequest::File { .. } => 2,
        };
        if kind == 0 {
            diff = Some(q);
        } else if kind == 1 {
            counts = Some(q);
        } else {
            push_file_request(&mut files, q);
        }
    }
    retain_newest_generation(&mut diff, &mut counts, &mut files);
    let mut out: Vec<LoadRequest> = Vec::new();
    if let Some(q) = diff {
        out.push(q);
    }
    out.append(&mut files);
    if let Some(q) = counts {
        out.push(q);
    }
    assert(deep::deep(out@) =~= scheduled(all));
    out
}

/// Is the generation no later than the newest one?
pub open spec fn no_later(generation: u64, newest: Option<u64>) -> bool {
    newest matches Some(g) && generation <= g
}

proof fn lemma_newest(requests: Seq<RequestView>, n: int, least: Option<u64>)
    requires
        0 <= n <= requests.len(),
    ensures
        forall|k: int|
            0 <= k < n ==> no_later((#[trigger] requests[k]).generation(), newest(requests, n, least)),
        least matches Some(l) ==> no_later(l, newest(requests, n, least)),
    decreases n,
{
    if n > 0 {
        lemma_newest(requests, n - 1, least);
    }
}

proof fn lemma_kept_files(files: Seq<RequestView>, g: Option<u64>, n: int)
    requires
        0 <= n <= files.len(),
    ensures
        forall|k: int|
            0 <= k < kept_files(files, g, n).len() ==> Some(
                (#[trigger] kept_files(files, g, n)[k]).generation(),
            ) == g,
    decreases n,
{
    if n > 0 {
        lemma_kept_files(files, g, n - 1);
        let above = kept_files(files, g, n - 1);
        assert forall|k: int| 0 <= k < kept_files(files, g, n).len() implies Some(
            (#[trigger] kept_files(files, g, n)[k]).generation(),
        ) == g by {
            if k < above.len() {
                assert(kept_files(files, g, n)[k] == above[k]);
            }
        }
    }
}

/// Stale work is discarded before loading: all that runs of a burst belongs to
/// one generation, and no diff, counts or expansion that was asked for belongs
/// to a later one.
pub proof fn lemma_only_the_newest_runs(burst: Seq<RequestView>)
    ensures
        ({
            let n = burst.len() as int;
            let g = newest_of(last_diff(burst, n), last_counts(burst, n), file_requests(burst, n));
            &&& forall|k: int|
                0 <= k < scheduled(burst).len() ==> Some(
                    (#[trigger] scheduled(burst)[k]).generation(),
                ) == g
            &&& forall|k: int|
                0 <= k < file_requests(burst, n).len() ==> no_later(
                    (#[trigger] file_requests(burst, n)[k]).generation(),
                    g,
                )
            &&& last_diff(burst, n) matches Some(d) ==> no_later(d.generation(), g)
            &&& last_counts(burst, n) matches Some(c) ==> no_later(c.generation(), g)
        }),
{
    let n = burst.len() as int;
    let d = last_diff(burst, n);
    let c = last_counts(burst, n);
    let f = file_requests(burst, n);
    let g = newest_of(d, c, f);
    lemma_newest(f, f.len() as int, later(generation_of(d), generation_of(c)));
    lemma_kept_files(f, g, f.len() as int);
    let head = listed(kept(d, g));
    let mid = kept_files(f, g, f.len() as int);
    assert forall|k: int| 0 <= k < scheduled(burst).len() implies Some(
        (#[trigger] scheduled(burst)[k]).generation(),
    ) == g by {
        if k < head.len() {
            assert(scheduled(burst)[k] == head[k]);
        } else if k < head.len() + mid.len() {
            assert(scheduled(burst)[k] == mid[k - head.len()]);
        } else {
            assert(scheduled(burst)[k] == listed(kept(c, g))[k - head.len() - mid.len()]);
        }
    }
}

} // verus!
