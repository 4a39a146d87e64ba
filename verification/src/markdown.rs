//! Review comments as markdown.

use crate::comments::{Comment, CommentView};
use crate::deep;
use crate::num;
use crate::text;
use vstd::prelude::*;

verus! {

broadcast use crate::deep::group_deep;

// ---- order of the export --------------------------------------------------------------

/// Does `a` come no later than `b`? Comments are ordered by path, then by line.
pub open spec fn no_later(a: CommentView, b: CommentView) -> bool {
    let o = text::order(a.path, b.path);
    o < 0 || (o == 0 && a.lines.0 <= b.lines.0)
}

/// `x` placed behind everything that comes no later.
pub open spec fn insert_comment(s: Seq<CommentView>, x: CommentView) -> Seq<CommentView>
    decreases s.len(),
{
    if s.len() == 0 || no_later(s.last(), x) {
        s.push(x)
    } else {
        insert_comment(s.drop_last(), x).push(s.last())
    }
}

/// The comments by path and line; equals keep their order.
pub open spec fn sort_comments(s: Seq<CommentView>) -> Seq<CommentView>
    decreases s.len(),
{
    if s.len() == 0 {
        s
    } else {
        insert_comment(sort_comments(s.drop_last()), s.last())
    }
}

/// Every comment comes no later than those behind it.
pub open spec fn in_order(s: Seq<CommentView>) -> bool {
    forall|i: int, j: int| #![trigger s[i], s[j]] 0 <= i < j < s.len() ==> no_later(s[i], s[j])
}

proof fn lemma_no_later_transitive(a: CommentView, b: CommentView, c: CommentView)
    requires
        no_later(a, b),
        no_later(b, c),
    ensures
        no_later(a, c),
{
    text::lemma_order_swap(a.path, b.path);
    text::lemma_order_swap(b.path, c.path);
    text::lemma_order_swap(a.path, c.path);
    text::lemma_order_equal(a.path, b.path);
    text::lemma_order_equal(b.path, c.path);
    text::lemma_order_equal(a.path, c.path);
    text::lemma_order_transitive(a.path, b.path, c.path);
}

proof fn lemma_no_later_total(a: CommentView, b: CommentView)
    ensures
        no_later(a, b) || no_later(b, a),
{
    text::lemma_order_swap(a.path, b.path);
}

proof fn lemma_insert_comment(s: Seq<CommentView>, x: CommentView)
    requires
        in_order(s),
    ensures
        in_order(insert_comment(s, x)),
        insert_comment(s, x).to_multiset() == s.to_multiset().insert(x),
        insert_comment(s, x).len() == s.len() + 1,
    decreases s.len(),
{
    broadcast use vstd::seq_lib::group_to_multiset_ensures;

    let r = insert_comment(s, x);
    if s.len() == 0 {
    } else if no_later(s.last(), x) {
        assert forall|i: int, j: int|
            #![trigger r[i], r[j]]
            0 <= i < j < r.len() implies no_later(r[i], r[j]) by {
            if j == s.len() && i < s.len() - 1 {
                assert(no_later(s[i], s.last()));
                lemma_no_later_transitive(s[i], s.last(), x);
            }
        }
    } else {
        let front = s.drop_last();
        assert(in_order(front));
        lemma_insert_comment(front, x);
        lemma_no_later_total(s.last(), x);
        let q = insert_comment(front, x);
        assert(s =~= front.push(s.last()));
        assert(r.to_multiset() =~= s.to_multiset().insert(x));
        assert forall|i: int, j: int|
            #![trigger r[i], r[j]]
            0 <= i < j < r.len() implies no_later(r[i], r[j]) by {
            if j == q.len() {
                assert(q.contains(q[i]));
                assert(q.to_multiset().count(q[i]) > 0);
                assert(r[i] == q[i]);
                if q[i] != x {
                    assert(front.to_multiset().count(q[i]) > 0);
                    assert(front.contains(q[i]));
                    let k = front.index_of(q[i]);
                    assert(s[k] == q[i]);
                    assert(no_later(s[k], s.last()));
                }
            } else {
                assert(no_later(q[i], q[j]));
            }
        }
    }
}

/// The export lists every comment once, by path and then by line.
pub proof fn lemma_export_order(s: Seq<CommentView>)
    ensures
        in_order(sort_comments(s)),
        sort_comments(s).to_multiset() == s.to_multiset(),
        sort_comments(s).len() == s.len(),
    decreases s.len(),
{
    broadcast use vstd::seq_lib::group_to_multiset_ensures;

    if s.len() > 0 {
        lemma_export_order(s.drop_last());
        lemma_insert_comment(sort_comments(s.drop_last()), s.last());
        assert(s =~= s.drop_last().push(s.last()));
    }
}

fn comes_no_later(a: &Comment, b: &Comment) -> (r: bool)
    ensures
        r == no_later(a@, b@),
{
    let ac: Vec<char> = text::to_chars(a.path.as_str());
    let bc: Vec<char> = text::to_chars(b.path.as_str());
    let o: i8 = text::order_chars(ac.as_slice(), bc.as_slice());
    o < 0 || (o == 0 && a.lines.0 <= b.lines.0)
}

proof fn lemma_insert_split(s: Seq<CommentView>, x: CommentView, pos: int)
    requires
        0 <= pos <= s.len(),
        forall|i: int| pos <= i < s.len() ==> !no_later(#[trigger] s[i], x),
        pos > 0 ==> no_later(s[pos - 1], x),
    ensures
        insert_comment(s, x) == s.insert(pos, x),
    decreases s.len(),
{
    if pos == s.len() {
        assert(s.insert(pos, x) =~= s.push(x));
    } else {
        assert(!no_later(s[s.len() - 1], x));
        lemma_insert_split(s.drop_last(), x, pos);
        assert(s.insert(pos, x) =~= s.drop_last().insert(pos, x).push(s.last()));
    }
}

fn insert_sorted(sorted: &mut Vec<Comment>, x: Comment)
    ensures
        deep::deep(final(sorted)@) == insert_comment(deep::deep(old(sorted)@), x@),
{
    let ghost s = deep::deep(sorted@);
    let mut pos: usize = sorted.len();
    while pos > 0 && !comes_no_later(&sorted[pos - 1], &x)
        invariant
            pos <= sorted@.len(),
            s == deep::deep(sorted@),
            forall|i: int| pos <= i < s.len() ==> !no_later(#[trigger] s[i], x@),
        decreases pos,
    {
        assert(s[pos - 1] == sorted@[pos - 1]@);
        pos -= 1;
    }
    proof {
        if pos > 0 {
            assert(s[pos - 1] == sorted@[pos - 1]@);
        }
        lemma_insert_split(s, x@, pos as int);
    }
    sorted.insert(pos, x);
}

fn sorted(comments: &[Comment]) -> (r: Vec<Comment>)
    ensures
        deep::deep(r@) == sort_comments(deep::deep(comments@)),
{
    let ghost all = deep::deep(comments@);
    let mut out: Vec<Comment> = Vec::new();
    let mut i: usize = 0;
    while i < comments.len()
        invariant
            i <= comments@.len(),
            all == deep::deep(comments@),
            deep::deep(out@) == sort_comments(all.take(i as int)),
        decreases comments@.len() - i,
    {
        assert(all.take(i + 1).drop_last() =~= all.take(i as int));
        assert(all.take(i + 1).last() == comments@[i as int]@);
        insert_sorted(&mut out, comments[i].copy());
        i += 1;
    }
    assert(all.take(i as int) =~= all);
    out
}

// ---- the text -----------------------------------------------------------------------

/// The line range of a comment: `L3`, or `L3–L5`.
pub open spec fn range_label(lines: (u32, u32)) -> Seq<char> {
    if lines.0 == lines.1 {
        "L"@ + num::decimal(lines.0 as nat)
    } else {
        "L"@ + num::decimal(lines.0 as nat) + "–L"@ + num::decimal(lines.1 as nat)
    }
}

/// Lines, each between `before` and a line feed.
pub open spec fn prefixed_lines(lines: Seq<Seq<char>>, before: Seq<char>) -> Seq<char>
    decreases lines.len(),
{
    if lines.len() == 0 {
        Seq::empty()
    } else {
        prefixed_lines(lines.drop_last(), before) + before + lines.last() + "\n"@
    }
}

/// The snippet as a fenced block; nothing if there is none.
pub open spec fn snippet_block(snippet: Seq<Seq<char>>) -> Seq<char> {
    if snippet.len() == 0 {
        Seq::empty()
    } else {
        "```diff\n"@ + prefixed_lines(snippet, Seq::empty()) + "```\n\n"@
    }
}

/// One comment: its line reference, scope and state, its snippet, its text quoted.
#[verifier::opaque]
pub open spec fn comment_block(c: CommentView) -> Seq<char> {
    "\n**"@ + range_label(c.lines) + "**"@ + (if c.new_side {
        ""@
    } else {
        ", old side"@
    }) + " · _"@ + c.scope + "_"@ + (if c.outdated {
        " · ⚠ outdated"@
    } else {
        ""@
    }) + "\n\n"@ + snippet_block(c.snippet) + prefixed_lines(text::lines(c.body), "> "@)
}

/// The heading that starts a new file; nothing while the file stays the same.
pub open spec fn heading(previous: Seq<char>, path: Seq<char>) -> Seq<char> {
    if path == previous {
        Seq::empty()
    } else {
        "\n## "@ + path + "\n"@
    }
}

/// The path that the comment before the last one is on.
pub open spec fn previous_path(comments: Seq<CommentView>) -> Seq<char> {
    if comments.len() < 2 {
        Seq::empty()
    } else {
        comments[comments.len() - 2].path
    }
}

/// Comments in the given order, with a heading for each file.
pub open spec fn body_text(comments: Seq<CommentView>) -> Seq<char>
    decreases comments.len(),
{
    if comments.len() == 0 {
        Seq::empty()
    } else {
        body_text(comments.drop_last()) + heading(
            previous_path(comments),
            comments.last().path,
        ) + comment_block(comments.last())
    }
}

/// The whole export.
pub open spec fn exported(
    comments: Seq<CommentView>,
    title: Seq<char>,
    date: Seq<char>,
) -> Seq<char> {
    "# Review comments — "@ + title + " ("@ + date + ")\n"@ + body_text(sort_comments(comments))
}

proof fn lemma_in_body(comments: Seq<CommentView>, i: int) -> (at: int)
    requires
        0 <= i < comments.len(),
    ensures
        ({
            let block = comment_block(comments[i]);
            &&& 0 <= at
            &&& at + block.len() <= body_text(comments).len()
            &&& body_text(comments).subrange(at, at + block.len()) == block
        }),
    decreases comments.len(),
{
    let block = comment_block(comments[i]);
    let before = body_text(comments.drop_last());
    let all = body_text(comments);
    if i == comments.len() - 1 {
        let at = all.len() - block.len();
        assert(all.subrange(at, all.len() as int) =~= block);
        at
    } else {
        let at = lemma_in_body(comments.drop_last(), i);
        assert(all.subrange(at, at + block.len()) =~= before.subrange(at, at + block.len()));
        at
    }
}

/// Does the text hold `part`?
pub open spec fn holds(s: Seq<char>, part: Seq<char>) -> bool {
    exists|at: int|
        0 <= at && at + part.len() <= s.len() && #[trigger] s.subrange(at, at + part.len()) == part
}

/// No comment is left out of the export, outdated ones included.
pub proof fn lemma_every_comment_is_exported(
    comments: Seq<CommentView>,
    title: Seq<char>,
    date: Seq<char>,
    c: CommentView,
)
    requires
        comments.contains(c),
    ensures
        holds(exported(comments, title, date), comment_block(c)),
{
    broadcast use vstd::seq_lib::group_to_multiset_ensures;

    let list = sort_comments(comments);
    lemma_export_order(comments);
    assert(comments.to_multiset().count(c) > 0);
    assert(list.contains(c));
    let i = list.index_of(c);
    let at = lemma_in_body(list, i);
    let block = comment_block(c);
    let all = exported(comments, title, date);
    let shift = all.len() - body_text(list).len();
    assert(all.subrange(shift + at, shift + at + block.len()) =~= body_text(list).subrange(
        at,
        at + block.len(),
    ));
}

fn put_range(out: &mut String, lines: (u32, u32))
    ensures
        final(out)@ == old(out)@ + range_label(lines),
{
    let ghost start = out@;
    text::put(out, "L");
    text::put(out, num::decimal_text(lines.0 as u64).as_str());
    if lines.0 != lines.1 {
        text::put(out, "–L");
        text::put(out, num::decimal_text(lines.1 as u64).as_str());
    }
    assert(out@ =~= start + range_label(lines));
}

fn put_lines(out: &mut String, lines: &[String], before: &str)
    ensures
        final(out)@ == old(out)@ + prefixed_lines(deep::deep(lines@), before@),
{
    let ghost start = out@;
    let ghost all = deep::deep(lines@);
    let mut i: usize = 0;
    assert(out@ =~= start + prefixed_lines(all.take(0), before@));
    while i < lines.len()
        invariant
            i <= lines@.len(),
            all == deep::deep(lines@),
            out@ == start + prefixed_lines(all.take(i as int), before@),
        decreases lines@.len() - i,
    {
        assert(all.take(i + 1).drop_last() =~= all.take(i as int));
        assert(all.take(i + 1).last() == lines@[i as int]@);
        text::put(out, before);
        text::put(out, lines[i].as_str());
        text::put(out, "\n");
        assert(out@ =~= start + prefixed_lines(all.take(i + 1), before@));
        i += 1;
    }
    assert(all.take(i as int) =~= all);
}

/// The lines of a text, in order.
pub fn lines_of(s: &str) -> (r: Vec<String>)
    ensures
        deep::deep(r@) == text::lines(s@),
{
    let cs: Vec<char> = text::to_chars(s);
    let lines: Vec<Vec<char>> = text::line_chars(cs.as_slice());
    let ghost all = deep::deep(lines@);
    let mut out: Vec<String> = Vec::new();
    let mut i: usize = 0;
    while i < lines.len()
        invariant
            i <= lines@.len(),
            all == deep::deep(lines@),
            deep::deep(out@) =~= all.take(i as int),
        decreases lines@.len() - i,
    {
        out.push(text::to_text(lines[i].as_slice()));
        i += 1;
    }
    assert(all.take(i as int) =~= all);
    out
}

fn snippet_text(snippet: &[String]) -> (r: String)
    ensures
        r@ == snippet_block(deep::deep(snippet@)),
{
    let mut out: String = String::new();
    if snippet.len() > 0 {
        out = text::copy("```diff\n");
        put_lines(&mut out, snippet, "");
        proof {
            reveal_strlit("");
            assert(""@ =~= Seq::<char>::empty());
        }
        text::put(&mut out, "```\n\n");
    }
    assert(out@ =~= snippet_block(deep::deep(snippet@)));
    out
}

fn comment_text(c: &Comment) -> (r: String)
    ensures
        r@ == comment_block(c@),
{
    reveal(comment_block);
    let mut out: String = text::copy("\n**");
    put_range(&mut out, c.lines);
    text::put(&mut out, "**");
    text::put(
        &mut out,
        if c.new_side {
            ""
        } else {
            ", old side"
        },
    );
    text::put(&mut out, " · _");
    text::put(&mut out, c.scope.as_str());
    text::put(&mut out, "_");
    text::put(
        &mut out,
        if c.outdated {
            " · ⚠ outdated"
        } else {
            ""
        },
    );
    text::put(&mut out, "\n\n");
    text::put(&mut out, snippet_text(c.snippet.as_slice()).as_str());
    put_lines(&mut out, lines_of(c.body.as_str()).as_slice(), "> ");
    out
}

/// Render all comments as markdown, grouped by file, ordered by line.
/// Outdated comments are flagged; the preserved snippet gives context either
/// way.
pub fn export_markdown(comments: &[Comment], title: &str, date: &str) -> (r: String)
    ensures
        r@ == exported(deep::deep(comments@), title@, date@),
{
    let list: Vec<Comment> = sorted(comments);
    let ghost all = deep::deep(list@);
    let mut out: String = text::copy("# Review comments — ");
    text::put(&mut out, title);
    text::put(&mut out, " (");
    text::put(&mut out, date);
    text::put(&mut out, ")\n");
    let ghost start = out@;
    let mut current: String = String::new();
    let mut i: usize = 0;
    assert(out@ =~= start + body_text(all.take(0)));
    while i < list.len()
        invariant
            i <= list@.len(),
            all == deep::deep(list@),
            current@ == (if i == 0 {
                Seq::empty()
            } else {
                all[i - 1].path
            }),
            out@ == start + body_text(all.take(i as int)),
        decreases list@.len() - i,
    {
        let c: &Comment = &list[i];
        let ghost grown = all.take(i + 1);
        assert(grown.drop_last() =~= all.take(i as int));
        assert(grown.last() == c@);
        assert(current@ =~= previous_path(grown));
        let ghost so_far = out@;
        if !text::same(c.path.as_str(), current.as_str()) {
            current = text::copy(c.path.as_str());
            text::put(&mut out, "\n## ");
            text::put(&mut out, c.path.as_str());
            text::put(&mut out, "\n");
        }
        assert(out@ =~= so_far + heading(previous_path(grown), c@.path));
        text::put(&mut out, comment_text(c).as_str());
        assert(out@ =~= start + body_text(grown));
        i += 1;
    }
    assert(all.take(i as int) =~= all);
    assert(out@ =~= exported(deep::deep(comments@), title@, date@));
    out
}

} // verus!
