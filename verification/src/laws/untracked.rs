//! How untracked and oversized files are shown.

use crate::bytes;
use crate::git::cli;
use crate::git::diff::{DiffLineView, FileDiffView, FileStatus, HunkView};
use crate::git::worktree;
use crate::git::worktree::FoundView;
use crate::laws::changes;
use crate::laws::lines;
use crate::laws::patches;
use crate::num;
use crate::text;
use vstd::prelude::*;

verus! {

/// An untracked file within the cap and without a zero byte shows each of its
/// lines as an added one, numbered from one on, under a header that says so.
pub proof fn lemma_untracked_text_is_all_added(
    path: Seq<char>,
    size: u64,
    cap: u64,
    content: Seq<u8>,
    all: Seq<Seq<char>>,
    i: int,
)
    requires
        size <= cap,
        !content.contains(0),
        bytes::lossy(content) == lines::joined(all),
        forall|k: int| 0 <= k < all.len() ==> lines::one_line(#[trigger] all[k]),
        0 <= i < all.len(),
        all.len() <= u32::MAX,
    ensures
        ({
            let f = worktree::untracked(path, size, cap, content);
            let l = f.hunks[0].lines[i];
            &&& f.path == path && f.old_path is None
            &&& f.status == FileStatus::Added
            &&& !f.large && !f.binary && !f.untracked_dir
            &&& f.byte_size == size
            &&& f.additions == all.len() && f.deletions == 0
            &&& f.hunks.len() == 1
            &&& f.hunks[0].lines.len() == all.len()
            &&& l.content == all[i]
            &&& l.origin == '+'
            &&& l.old_lineno is None
            &&& l.new_lineno == Some((i + 1) as u32)
            &&& !l.expanded_context
            &&& cli::hunk_header(f.hunks[0].header) == Some((0nat, 0nat, 1nat, all.len()))
        }),
{
    lines::lemma_lines_of_joined(all);
    let f = worktree::untracked(path, size, cap, content);
    vstd::arithmetic::div_mod::lemma_small_mod((i + 1) as nat, 0x1_0000_0000);
    lemma_header(all.len());
}

proof fn lemma_header(n: nat)
    requires
        n <= u32::MAX,
    ensures
        cli::hunk_header("@@ -0,0 +1,"@ + num::decimal(n) + " @@"@) == Some((0nat, 0nat, 1nat, n)),
{
    patches::lemma_header_reads_as_printed(0, 0, 1, n, false, false, Seq::empty());
    reveal_strlit("@@ -0,0 +1,");
    reveal_strlit("@@ -");
    reveal_strlit(" +");
    reveal_strlit(",");
    assert(num::decimal(0) =~= seq!['0']);
    assert(num::decimal(1) =~= seq!['1']);
    let old = patches::range_text(0, 0, false);
    let new = patches::range_text(1, n, false);
    assert("@@ -0,0 +1,"@ =~= "@@ -"@ + old + " +"@ + (num::decimal(1) + ","@));
    assert("@@ -0,0 +1,"@ + num::decimal(n) + " @@"@ =~= patches::header_text(
        old,
        new,
        Seq::empty(),
    ));
}

/// What is over the cap is a stub, what holds a zero byte is binary, and an
/// empty file shows nothing: none of them has lines.
pub proof fn lemma_untracked_without_lines(
    path: Seq<char>,
    size: u64,
    cap: u64,
    content: Seq<u8>,
)
    ensures
        ({
            let f = worktree::untracked(path, size, cap, content);
            &&& f.path == path && f.status == FileStatus::Added && f.byte_size == size
            &&& f.large <==> size > cap
            &&& f.binary <==> size <= cap && content.contains(0)
            &&& f.large || f.binary ==> f.hunks.len() == 0 && f.additions == 0
            &&& bytes::lossy(content).len() == 0 ==> f.hunks.len() == 0 && f.additions == 0
        }),
{
}

/// A directory that is untracked as a whole is one entry under its own name.
pub proof fn lemma_untracked_directory(name: Seq<char>)
    ensures
        ({
            let f = worktree::collapsed(name.push('/'));
            &&& f.path == name
            &&& f.untracked_dir
            &&& f.status == FileStatus::Added
            &&& f.hunks.len() == 0 && !f.large && !f.binary
        }),
{
    reveal_strlit("/");
    let p = name.push('/');
    assert(p.drop_last() =~= name);
    assert(text::ends_with(p, "/"@)) by {
        assert(p.skip(p.len() - 1) =~= "/"@);
        assert(p.subrange(p.len() - 1, p.len() as int) =~= "/"@);
    }
}

/// The paths of a listing that are no directories.
pub open spec fn plain_files(listing: Seq<FoundView>) -> nat {
    listing.filter(|f: FoundView| !(f.path.len() > 0 && f.path.last() == '/')).len()
}

proof fn lemma_dir(path: Seq<char>)
    ensures
        text::ends_with(path, "/"@) <==> path.len() > 0 && path.last() == '/',
{
    reveal_strlit("/");
    if path.len() > 0 {
        let tail = path.subrange(path.len() - 1, path.len() as int);
        assert(path.skip(path.len() - 1) =~= tail);
        assert(tail.len() == 1 && tail[0] == path.last());
        if path.last() == '/' {
            assert(tail =~= "/"@);
        }
    }
}

proof fn lemma_spent(listing: Seq<FoundView>)
    requires
        listing.len() <= usize::MAX,
    ensures
        worktree::spent(listing).files == plain_files(listing),
        plain_files(listing) <= listing.len(),
        worktree::listed(listing).len() == listing.len(),
    decreases listing.len(),
{
    reveal(Seq::filter);
    if listing.len() > 0 {
        lemma_spent(listing.drop_last());
        lemma_dir(listing.last().path);
    }
}

/// A file of a listing of untracked paths is a stub exactly where it is over a
/// mebibyte, or has content at all once two hundred files are listed or more
/// than four mebibytes are shown before it.
pub proof fn lemma_listing_is_budgeted(listing: Seq<FoundView>, found: FoundView)
    requires
        listing.len() < usize::MAX,
        !(found.path.len() > 0 && found.path.last() == '/'),
    ensures
        ({
            let files = worktree::listed(listing.push(found));
            let f = files.last();
            let spent = plain_files(listing) >= 200 || worktree::inlined(worktree::listed(listing))
                > 4194304;
            &&& files.drop_last() == worktree::listed(listing)
            &&& f.path == found.path
            &&& f.large <==> (found.size > 1048576 || (found.size > 0 && spent))
        }),
{
    lemma_spent(listing);
    lemma_dir(found.path);
    worktree::lemma_inlined_content_is_bounded(listing);
    assert(listing.push(found).drop_last() =~= listing);
    let files = worktree::listed(listing.push(found));
    assert(files.drop_last() =~= worktree::listed(listing));
}

// ---- oversized patches --------------------------------------------------------------

proof fn lemma_utf8_add(a: Seq<char>, b: Seq<char>)
    ensures
        cli::utf8(a + b) == cli::utf8(a) + cli::utf8(b),
    decreases a.len(),
{
    if a.len() == 0 {
        assert(a + b =~= b);
        assert(cli::utf8(a) + cli::utf8(b) =~= cli::utf8(b));
    } else {
        lemma_utf8_add(a.drop_first(), b);
        assert((a + b).drop_first() =~= a.drop_first() + b);
        assert(cli::utf8(a + b) =~= cli::utf8(a) + cli::utf8(b));
    }
}

/// The text that lines hold.
pub open spec fn text_of(ls: Seq<DiffLineView>) -> Seq<char> {
    lines::joined(ls.map_values(|l: DiffLineView| l.content))
}

proof fn lemma_line_bytes(ls: Seq<DiffLineView>)
    ensures
        worktree::line_bytes(ls) == cli::utf8(text_of(ls)).len(),
    decreases ls.len(),
{
    let cs = ls.map_values(|l: DiffLineView| l.content);
    if ls.len() > 0 {
        lemma_line_bytes(ls.drop_last());
        assert(cs.drop_last() =~= ls.drop_last().map_values(|l: DiffLineView| l.content));
        let c = ls.last().content;
        lemma_utf8_add(lines::joined(cs.drop_last()), c.push('\n'));
        lemma_utf8_add(c, seq!['\n']);
        assert(c.push('\n') =~= c + seq!['\n']);
        assert(cli::utf8(seq!['\n']).len() == 1) by {
            reveal_with_fuel(vstd::utf8::encode_utf8, 2);
            assert(vstd::utf8::has_width_1_encoding('\n' as u32));
        }
    }
}

proof fn lemma_content_bytes(hunks: Seq<HunkView>)
    ensures
        worktree::content_bytes(hunks) == cli::utf8(text_of(changes::lines_of(hunks))).len(),
    decreases hunks.len(),
{
    if hunks.len() > 0 {
        let front = hunks.drop_last();
        let a = changes::lines_of(front);
        let b = hunks.last().lines;
        lemma_content_bytes(front);
        lemma_line_bytes(b);
        let f = |l: DiffLineView| l.content;
        assert((a + b).map_values(f) =~= a.map_values(f) + b.map_values(f));
        lines::lemma_joined_add(a.map_values(f), b.map_values(f));
        lemma_utf8_add(text_of(a), text_of(b));
    }
}

/// A file of a patch collapses to a stub exactly when its lines make up more
/// than a mebibyte of text; the stub says how much, and is the same file
/// otherwise. A smaller one is left as it is.
pub proof fn lemma_oversized_files_collapse(f: FileDiffView)
    ensures
        ({
            let n = cli::utf8(text_of(changes::lines_of(f.hunks))).len();
            let g = worktree::stubbed(f);
            &&& n <= 1048576 ==> g == f
            &&& n > 1048576 ==> g.large && g.hunks.len() == 0 && g.additions == 0 && g.deletions
                == 0 && (n <= u64::MAX ==> g.byte_size == n)
            &&& g.path == f.path && g.old_path == f.old_path && g.status == f.status
            &&& g.binary == f.binary && g.untracked_dir == f.untracked_dir && g.full_context
                == f.full_context
        }),
{
    lemma_content_bytes(f.hunks);
}

} // verus!
