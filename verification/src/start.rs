//! What the command line asks to review.

use crate::deep;
use crate::git::scope::Scope;
use crate::text;
use vstd::prelude::*;

verus! {

broadcast use crate::deep::group_deep;

/// What to open at launch.
#[derive(Debug)]
pub enum Start {
    /// Nothing was named: ask.
    Picker,
    Open(Scope),
    /// The current branch since its fork point.
    Fork,
    /// A commit or a range that is still to be resolved.
    Revision(String),
}

/// One if the flag is set.
pub open spec fn set(flag: bool) -> int {
    if flag {
        1
    } else {
        0
    }
}

/// The scope that the flags name; at most one may.
pub fn initial_scope(uncommitted: bool, staged: bool, branch: Option<&str>, rev: Option<&str>) -> (r:
    Result<Start, String>)
    ensures
        ({
            let named = set(uncommitted) + set(staged) + set(branch is Some) + set(rev is Some);
            if named > 1 {
                r matches Err(e) && e@
                    == "pick at most one of: REV, --uncommitted, --staged, --branch"@
            } else if uncommitted {
                r matches Ok(Start::Open(Scope::Uncommitted))
            } else if staged {
                r matches Ok(Start::Open(Scope::Staged))
            } else {
                match (branch, rev) {
                    (Some(b), _) => if b@.len() == 0 {
                        r matches Ok(Start::Fork)
                    } else {
                        r matches Ok(Start::Open(Scope::Branch { base })) && base@ == b@
                    },
                    (None, Some(v)) => r matches Ok(Start::Revision(s)) && s@ == v@,
                    (None, None) => r matches Ok(Start::Picker),
                }
            }
        }),
{
    let mut named: u8 = 0;
    if uncommitted {
        named += 1;
    }
    if staged {
        named += 1;
    }
    if branch.is_some() {
        named += 1;
    }
    if rev.is_some() {
        named += 1;
    }
    if named > 1 {
        return Err(text::copy("pick at most one of: REV, --uncommitted, --staged, --branch"));
    }
    if uncommitted {
        return Ok(Start::Open(Scope::Uncommitted));
    }
    if staged {
        return Ok(Start::Open(Scope::Staged));
    }
    match branch {
        Some(b) => {
            if b.is_empty() {
                return Ok(Start::Fork);
            }
            return Ok(Start::Open(Scope::Branch { base: text::copy(b) }));
        },
        None => {},
    }
    match rev {
        Some(v) => Ok(Start::Revision(text::copy(v))),
        None => Ok(Start::Picker),
    }
}

/// The scope of the current branch since its fork point, if it has one.
pub fn fork_scope(branch: Option<String>) -> (r: Result<Scope, String>)
    ensures
        match branch {
            Some(b) => r matches Ok(Scope::BranchFork { branch: c }) && c@ == b@,
            None => r matches Err(e) && e@
                == "no fork point found: pass a base with --branch <BASE>"@,
        },
{
    match branch {
        Some(b) => Ok(Scope::BranchFork { branch: b }),
        None => Err(text::copy("no fork point found: pass a base with --branch <BASE>")),
    }
}

} // verus!
