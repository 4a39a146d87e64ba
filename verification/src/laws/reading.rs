//! What is passed over when patches and texts are read.

use crate::git::cli;
use crate::git::cli::PatchState;
use crate::text;
use vstd::prelude::*;

verus! {

/// The first character of none of the lines that say something in a patch: those
/// that start a file, describe it, start a hunk, or are part of one.
pub open spec fn says_nothing(c: char) -> bool {
    c != 'd' && c != 'n' && c != 'r' && c != 'B' && c != 'G' && c != '-' && c != '+' && c != '@'
        && c != ' '
}

proof fn lemma_starts_otherwise(line: Seq<char>, p: Seq<char>)
    requires
        line.len() > 0,
        p.len() > 0,
        line[0] != p[0],
    ensures
        !text::starts_with(line, p),
        line != p,
{
    if text::starts_with(line, p) {
        assert(line.subrange(0, p.len() as int)[0] == line[0]);
    }
}

/// Lines like the remark on a missing line feed at the end, or the object ids of
/// a file, change nothing, wherever in a patch they stand.
pub proof fn lemma_remarks_change_nothing(s: PatchState, line: Seq<char>)
    requires
        line.len() > 0,
        says_nothing(line[0]),
    ensures
        cli::patch_step(s, line) == s,
{
    reveal_strlit("diff --git ");
    reveal_strlit("new file mode");
    reveal_strlit("deleted file mode");
    reveal_strlit("rename from ");
    reveal_strlit("rename to ");
    reveal_strlit("Binary files ");
    reveal_strlit("GIT binary patch");
    reveal_strlit("--- ");
    reveal_strlit("+++ ");
    reveal_strlit("@@ -");
    lemma_starts_otherwise(line, "diff --git "@);
    lemma_starts_otherwise(line, "new file mode"@);
    lemma_starts_otherwise(line, "deleted file mode"@);
    lemma_starts_otherwise(line, "rename from "@);
    lemma_starts_otherwise(line, "rename to "@);
    lemma_starts_otherwise(line, "Binary files "@);
    lemma_starts_otherwise(line, "GIT binary patch"@);
    lemma_starts_otherwise(line, "--- "@);
    lemma_starts_otherwise(line, "+++ "@);
    lemma_starts_otherwise(line, "@@ -"@);
}

/// An empty line is no content and changes nothing.
pub proof fn lemma_empty_lines_change_nothing(s: PatchState)
    ensures
        cli::patch_step(s, Seq::empty()) == s,
{
    reveal_strlit("diff --git ");
    reveal_strlit("new file mode");
    reveal_strlit("deleted file mode");
    reveal_strlit("rename from ");
    reveal_strlit("rename to ");
    reveal_strlit("Binary files ");
    reveal_strlit("GIT binary patch");
    reveal_strlit("--- ");
    reveal_strlit("+++ ");
    reveal_strlit("@@ -");
}

/// A patch reads the same with such a line and without it.
pub proof fn lemma_remarks_are_passed_over(
    a: Seq<Seq<char>>,
    remark: Seq<char>,
    b: Seq<Seq<char>>,
)
    requires
        remark.len() > 0,
        says_nothing(remark[0]),
    ensures
        cli::patch_run(a.push(remark) + b) == cli::patch_run(a + b),
    decreases b.len(),
{
    let x = a.push(remark) + b;
    let y = a + b;
    if b.len() == 0 {
        assert(x.drop_last() =~= a);
        assert(x.last() == remark);
        assert(y =~= a);
        lemma_remarks_change_nothing(cli::patch_run(a), remark);
    } else {
        lemma_remarks_are_passed_over(a, remark, b.drop_last());
        assert(x.drop_last() =~= a.push(remark) + b.drop_last());
        assert(y.drop_last() =~= a + b.drop_last());
        assert(x.last() == b.last() && y.last() == b.last());
    }
}

/// Nothing is read before the first file of a patch.
pub proof fn lemma_nothing_before_the_first_file(s: PatchState, line: Seq<char>)
    requires
        s.files.len() == 0,
        !text::starts_with(line, "diff --git "@),
    ensures
        cli::patch_step(s, line) == s,
{
}

// ---- lines --------------------------------------------------------------------------

proof fn lemma_feed(s: Seq<char>, t: Seq<char>, i: int)
    requires
        0 <= i <= s.len(),
        !s.contains('\n'),
    ensures
        text::next_index(s.push('\n') + t, '\n', i) == s.len(),
        text::next_index(s, '\n', i) == s.len(),
    decreases s.len() - i,
{
    let all = s.push('\n') + t;
    if i < s.len() {
        assert(s.contains(s[i]));
        assert(all[i] == s[i]);
        lemma_feed(s, t, i + 1);
    } else {
        assert(all[i] == '\n');
    }
}

proof fn lemma_lines_past(p: Seq<char>, q: Seq<char>, i: int)
    requires
        0 <= i <= q.len(),
    ensures
        text::lines_from(p + q, p.len() + i) == text::lines_from(q, i),
    decreases q.len() - i,
{
    lemma_index_past(p, q, i);
    text::lemma_next_index(q, '\n', i);
    let k = text::next_index(q, '\n', i);
    if i < q.len() {
        assert((p + q).subrange(p.len() + i, p.len() + k) =~= q.subrange(i, k));
        if k < q.len() {
            lemma_lines_past(p, q, k + 1);
        } else {
            assert((p + q).subrange(p.len() + i, (p + q).len() as int) =~= q.subrange(
                i,
                q.len() as int,
            ));
        }
    }
}

proof fn lemma_index_past(p: Seq<char>, q: Seq<char>, i: int)
    requires
        0 <= i <= q.len(),
    ensures
        text::next_index(p + q, '\n', p.len() + i) == p.len() + text::next_index(q, '\n', i),
    decreases q.len() - i,
{
    if i < q.len() && q[i] != '\n' {
        lemma_index_past(p, q, i + 1);
    }
}

/// A line ends with a line feed, which a carriage return may go before; what
/// follows the last one is a line too, unless it is empty.
pub proof fn lemma_line_ends(s: Seq<char>, rest: Seq<char>)
    requires
        !s.contains('\n'),
        s.len() > 0 ==> s.last() != '\r',
    ensures
        text::lines(s.push('\n') + rest) == seq![s] + text::lines(rest),
        text::lines(s.push('\r').push('\n') + rest) == seq![s] + text::lines(rest),
        s.len() > 0 ==> text::lines(s) == seq![s],
        text::lines(Seq::empty()).len() == 0,
        text::lines(s.push('\r')) == seq![s.push('\r')],
{
    let p = s.push('\n');
    lemma_feed(s, rest, 0);
    lemma_lines_past(p, rest, 0);
    assert((p + rest).subrange(0, s.len() as int) =~= s);
    let cr = s.push('\r');
    assert(!cr.contains('\n')) by {
        if cr.contains('\n') {
            let i = cr.index_of('\n');
            assert(cr[i] == '\n');
            assert(s[i] == '\n');
            assert(s.contains('\n'));
        }
    }
    let q = cr.push('\n');
    lemma_feed(cr, rest, 0);
    lemma_lines_past(q, rest, 0);
    assert((q + rest).subrange(0, cr.len() as int) =~= cr);
    assert(cr.drop_last() =~= s);
    assert(s.subrange(0, s.len() as int) =~= s);
    assert(cr.subrange(0, cr.len() as int) =~= cr);
}

} // verus!
