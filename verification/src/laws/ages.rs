//! How ages and commits are shown.

use crate::git::log;
use crate::git::log::CommitInfoView;
use crate::git::scope;
use crate::num;
use vstd::prelude::*;

verus! {

/// The units of an age, smallest first, with their seconds.
pub open spec fn units() -> Seq<(int, Seq<char>)> {
    seq![
        (60int, "m"@),
        (60 * 60int, "h"@),
        (24 * 60 * 60int, "d"@),
        (7 * 24 * 60 * 60int, "w"@),
        (365 * 24 * 60 * 60int, "y"@),
    ]
}

/// An age of a minute or more is shown in the largest unit it fills, in whole
/// numbers; a shorter one as `now`.
pub proof fn lemma_age(seconds: int) -> (shown: (int, int))
    ensures
        seconds < 60 ==> log::humanized(seconds) == "now"@,
        seconds >= 60 ==> ({
            let (n, k) = shown;
            let (size, name) = units()[k];
            &&& 0 <= k < units().len()
            &&& log::humanized(seconds) == num::decimal(n as nat) + name
            &&& n >= 1
            &&& n * size <= seconds < (n + 1) * size
            &&& k + 1 < units().len() ==> seconds < units()[k + 1].0
        }),
{
    let k: int = if seconds < 3600 {
        0
    } else if seconds < 86_400 {
        1
    } else if seconds < 604_800 {
        2
    } else if seconds < 31_536_000 {
        3
    } else {
        4
    };
    let size = units()[k].0;
    if seconds >= 60 {
        lemma_whole(seconds, size);
    }
    (seconds / size, k)
}

proof fn lemma_whole(seconds: int, size: int)
    requires
        0 < size <= seconds,
    ensures
        seconds / size >= 1,
        (seconds / size) * size <= seconds < (seconds / size + 1) * size,
{
    let n = seconds / size;
    vstd::arithmetic::div_mod::lemma_fundamental_div_mod(seconds, size);
    vstd::arithmetic::div_mod::lemma_mod_bound(seconds, size);
    vstd::arithmetic::div_mod::lemma_div_non_zero(seconds, size);
    assert(n * size <= seconds < (n + 1) * size) by (nonlinear_arith)
        requires
            seconds == size * n + seconds % size,
            0 <= seconds % size < size,
    ;
}

/// A commit is listed under the start of its id, with what it says of itself; a
/// missing author is a question mark; a commit from the future is as good as
/// new.
pub proof fn lemma_commit_entry(c: CommitInfoView, now: i64)
    requires
        0 <= now,
        0 <= c.time,
    ensures
        ({
            let e = log::entry_of(c, now);
            &&& e.id == c.id
            &&& e.short.is_prefix_of(c.id)
            &&& c.id.len() >= 7 ==> e.short.len() == 7
            &&& c.summary matches Some(s) ==> e.summary == s
            &&& c.summary is None ==> e.summary.len() == 0
            &&& c.author matches Some(a) ==> e.author == a
            &&& c.author is None ==> e.author == "?"@
            &&& e.age == log::humanized(now - c.time)
            &&& c.time > now ==> e.age == "now"@
        }),
{
    assert(scope::abbreviated(c.id).is_prefix_of(c.id)) by {
        assert(c.id.take(scope::abbreviated(c.id).len() as int) =~= scope::abbreviated(c.id));
    }
}

/// The list holds the newest thousand commits at most.
pub proof fn lemma_log_is_capped(n: nat)
    ensures
        log::listed(n) <= n,
        log::listed(n) <= 1000,
        log::listed(n) == n || log::listed(n) == 1000,
{
}

} // verus!
