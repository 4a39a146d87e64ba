//! The commit list for the pickers.

use crate::deep;
use crate::git::scope;
use crate::git::scope::Oid;
use crate::num;
use crate::text;
use vstd::prelude::*;

verus! {

broadcast use crate::deep::group_deep;

/// Cap the commit picker; nobody scrolls a list further than this to review.
pub const LOG_LIMIT: usize = 1000;

/// One commit of the picker's list.
#[derive(Debug)]
pub struct LogEntry {
    pub id: Oid,
    pub short: String,
    pub summary: String,
    pub author: String,
    pub age: String,
}

/// What an entry shows.
#[verifier::ext_equal]
pub struct LogEntryView {
    pub id: Seq<char>,
    pub short: Seq<char>,
    pub summary: Seq<char>,
    pub author: Seq<char>,
    pub age: Seq<char>,
}

impl View for LogEntry {
    type V = LogEntryView;

    open spec fn view(&self) -> LogEntryView {
        LogEntryView {
            id: self.id@,
            short: self.short@,
            summary: self.summary@,
            author: self.author@,
            age: self.age@,
        }
    }
}

/// What the history says of one commit.
#[derive(Debug)]
pub struct CommitInfo {
    pub id: Oid,
    pub summary: Option<String>,
    pub author: Option<String>,
    /// Seconds since the epoch.
    pub time: i64,
}

/// What a commit's record says.
#[verifier::ext_equal]
pub struct CommitInfoView {
    pub id: Seq<char>,
    pub summary: Option<Seq<char>>,
    pub author: Option<Seq<char>>,
    pub time: i64,
}

impl View for CommitInfo {
    type V = CommitInfoView;

    open spec fn view(&self) -> CommitInfoView {
        CommitInfoView {
            id: self.id@,
            summary: deep::deep_opt(self.summary),
            author: deep::deep_opt(self.author),
            time: self.time,
        }
    }
}

/// An age in its largest whole unit.
pub open spec fn humanized(seconds: int) -> Seq<char> {
    if seconds < 60 {
        "now"@
    } else if seconds < 3600 {
        num::decimal((seconds / 60) as nat) + "m"@
    } else if seconds < 86_400 {
        num::decimal((seconds / 3600) as nat) + "h"@
    } else if seconds < 604_800 {
        num::decimal((seconds / 86_400) as nat) + "d"@
    } else if seconds < 31_536_000 {
        num::decimal((seconds / 604_800) as nat) + "w"@
    } else {
        num::decimal((seconds / 31_536_000) as nat) + "y"@
    }
}

/// An age in its largest whole unit.
pub fn humanize(seconds: i64) -> (r: String)
    ensures
        r@ == humanized(seconds as int),
{
    if seconds < 60 {
        return text::copy("now");
    }
    let s: u64 = seconds as u64;
    let (n, unit): (u64, &str) = if s < 3600 {
        (s / 60, "m")
    } else if s < 86_400 {
        (s / 3600, "h")
    } else if s < 604_800 {
        (s / 86_400, "d")
    } else if s < 31_536_000 {
        (s / 604_800, "w")
    } else {
        (s / 31_536_000, "y")
    };
    let mut out: String = num::decimal_text(n);
    text::put(&mut out, unit);
    out
}

/// `now - then`, kept within the range of times.
pub open spec fn elapsed(now: i64, then: i64) -> int {
    if now - then > i64::MAX {
        i64::MAX as int
    } else if now - then < i64::MIN {
        i64::MIN as int
    } else {
        now - then
    }
}

/// The entry of a commit.
pub open spec fn entry_of(c: CommitInfoView, now: i64) -> LogEntryView {
    LogEntryView {
        id: c.id,
        short: scope::abbreviated(c.id),
        summary: match c.summary {
            Some(s) => s,
            None => Seq::empty(),
        },
        author: match c.author {
            Some(a) => a,
            None => "?"@,
        },
        age: humanized(elapsed(now, c.time)),
    }
}

fn since(now: i64, then: i64) -> (r: i64)
    ensures
        r == elapsed(now, then),
{
    let d: i128 = now as i128 - then as i128;
    if d > i64::MAX as i128 {
        i64::MAX
    } else if d < i64::MIN as i128 {
        i64::MIN
    } else {
        d as i64
    }
}

fn entry(c: &CommitInfo, now: i64) -> (r: LogEntry)
    ensures
        r@ == entry_of(c@, now),
{
    let summary: String = match &c.summary {
        Some(s) => text::copy(s.as_str()),
        None => String::new(),
    };
    let author: String = match &c.author {
        Some(a) => text::copy(a.as_str()),
        None => text::copy("?"),
    };
    let r = LogEntry {
        id: c.id.copy(),
        short: c.id.short(),
        summary,
        author,
        age: humanize(since(now, c.time)),
    };
    assert(r@ =~= entry_of(c@, now));
    r
}

/// How many of the commits are listed.
pub open spec fn listed(commits: nat) -> nat {
    if commits < LOG_LIMIT {
        commits
    } else {
        LOG_LIMIT as nat
    }
}

/// Most recent commits, newest first: the entries of the first commits of a
/// history walk.
pub fn commit_log(commits: &[CommitInfo], now: i64) -> (r: Vec<LogEntry>)
    ensures
        r@.len() == listed(commits@.len()),
        forall|i: int| 0 <= i < r@.len() ==> (#[trigger] r@[i])@ == entry_of(commits@[i]@, now),
{
    let mut out: Vec<LogEntry> = Vec::new();
    while out.len() < commits.len() && out.len() < LOG_LIMIT
        invariant
            out@.len() <= listed(commits@.len()),
            forall|i: int|
                0 <= i < out@.len() ==> (#[trigger] out@[i])@ == entry_of(commits@[i]@, now),
        decreases commits@.len() - out@.len(),
    {
        out.push(entry(&commits[out.len()], now));
    }
    out
}

} // verus!
