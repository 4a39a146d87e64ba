//! What an export holds.

use crate::comments::CommentView;
use crate::laws::lines;
use crate::markdown;
use crate::num;
use crate::text;
use vstd::prelude::*;

verus! {

/// The line that says where a comment stands and what state it is in.
pub open spec fn reference(c: CommentView) -> Seq<char> {
    let from = num::decimal(c.lines.0 as nat);
    let to = num::decimal(c.lines.1 as nat);
    let at = if c.lines.0 == c.lines.1 {
        "**L"@ + from + "**"@
    } else {
        "**L"@ + from + "–L"@ + to + "**"@
    };
    let side = if c.new_side {
        at
    } else {
        at + ", old side"@
    };
    let scope = side + " · _"@ + c.scope + "_"@;
    if c.outdated {
        scope + " · ⚠ outdated"@
    } else {
        scope
    }
}

/// Lines quoted the way markdown does it.
pub open spec fn quoted(lines: Seq<Seq<char>>) -> Seq<Seq<char>> {
    lines.map_values(|l: Seq<char>| seq!['>', ' '] + l)
}

/// The lines that show a snippet: all of its own between two fences.
pub open spec fn fenced(snippet: Seq<Seq<char>>) -> Seq<Seq<char>> {
    if snippet.len() > 0 {
        seq!["```diff"@] + snippet + seq!["```"@, ""@]
    } else {
        Seq::empty()
    }
}

/// The lines that show one comment.
pub open spec fn shown(c: CommentView) -> Seq<Seq<char>> {
    seq![""@, reference(c), ""@] + fenced(c.snippet) + quoted(text::lines(c.body))
}

/// The lines that show the comment at `i` of a list, under a heading where it
/// is the first on its file.
pub open spec fn entry(list: Seq<CommentView>, i: int) -> Seq<Seq<char>> {
    if i > 0 && list[i].path == list[i - 1].path {
        shown(list[i])
    } else {
        seq![""@, "## "@ + list[i].path] + shown(list[i])
    }
}

/// The lines of the first `n` comments of a list.
pub open spec fn entries(list: Seq<CommentView>, n: int) -> Seq<Seq<char>>
    decreases n,
{
    if n <= 0 {
        Seq::empty()
    } else {
        entries(list, n - 1) + entry(list, n - 1)
    }
}

/// All lines of an export.
pub open spec fn page(list: Seq<CommentView>, title: Seq<char>, date: Seq<char>) -> Seq<
    Seq<char>,
> {
    seq!["# Review comments — "@ + title + " ("@ + date + ")"@] + entries(list, list.len() as int)
}

proof fn lemma_plain(snippet: Seq<Seq<char>>)
    ensures
        markdown::prefixed_lines(snippet, Seq::empty()) == lines::joined(snippet),
    decreases snippet.len(),
{
    reveal_strlit("\n");
    assert("\n"@ =~= seq!['\n']);
    if snippet.len() > 0 {
        lemma_plain(snippet.drop_last());
        assert(markdown::prefixed_lines(snippet, Seq::empty()) =~= lines::joined(snippet));
    }
}

proof fn lemma_quoted(body: Seq<Seq<char>>)
    ensures
        markdown::prefixed_lines(body, "> "@) == lines::joined(quoted(body)),
    decreases body.len(),
{
    reveal_strlit("\n");
    reveal_strlit("> ");
    assert("\n"@ =~= seq!['\n']);
    assert("> "@ =~= seq!['>', ' ']);
    if body.len() > 0 {
        lemma_quoted(body.drop_last());
        assert(quoted(body).drop_last() =~= quoted(body.drop_last()));
        assert(markdown::prefixed_lines(body, "> "@) =~= lines::joined(quoted(body)));
    }
}

proof fn lemma_joined_one(a: Seq<char>)
    ensures
        lines::joined(seq![a]) == a.push('\n'),
{
    assert(seq![a].drop_last() =~= Seq::<Seq<char>>::empty());
    assert(lines::joined(seq![a].drop_last()) == Seq::<char>::empty());
    assert(Seq::<char>::empty() + a.push('\n') =~= a.push('\n'));
}

proof fn lemma_fenced(snippet: Seq<Seq<char>>)
    ensures
        markdown::snippet_block(snippet) == lines::joined(fenced(snippet)),
{
    if snippet.len() > 0 {
        reveal_strlit("");
        reveal_strlit("```diff");
        reveal_strlit("```diff\n");
        reveal_strlit("```");
        reveal_strlit("```\n\n");
        lemma_plain(snippet);
        lemma_joined_one("```diff"@);
        lemma_joined_one("```"@);
        lemma_joined_one(""@);
        let head = seq!["```diff"@];
        let tail = seq!["```"@, ""@];
        lines::lemma_joined_add(head, snippet);
        lines::lemma_joined_add(head + snippet, tail);
        lines::lemma_joined_add(seq!["```"@], seq![""@]);
        assert(tail =~= seq!["```"@] + seq![""@]);
        assert("```diff\n"@ =~= "```diff"@.push('\n'));
        assert("```\n\n"@ =~= "```"@.push('\n') + ""@.push('\n'));
    }
}

proof fn lemma_reference(c: CommentView)
    ensures
        markdown::comment_block(c) == "\n"@ + reference(c) + "\n\n"@ + markdown::snippet_block(
            c.snippet,
        ) + markdown::prefixed_lines(text::lines(c.body), "> "@),
{
    reveal(markdown::comment_block);
    reveal_strlit("");
    reveal_strlit("\n");
    reveal_strlit("\n**");
    reveal_strlit("**");
    reveal_strlit("L");
    reveal_strlit("**L");
    assert("\n**"@ + "L"@ =~= "\n"@ + "**L"@);
    assert(markdown::comment_block(c) =~= "\n"@ + reference(c) + "\n\n"@ + markdown::snippet_block(
        c.snippet,
    ) + markdown::prefixed_lines(text::lines(c.body), "> "@));
}

proof fn lemma_shown(c: CommentView)
    ensures
        markdown::comment_block(c) == lines::joined(shown(c)),
{
    lemma_reference(c);
    lemma_fenced(c.snippet);
    lemma_quoted(text::lines(c.body));
    reveal_strlit("");
    reveal_strlit("\n");
    reveal_strlit("\n\n");
    let head = seq![""@, reference(c), ""@];
    lemma_joined_one(""@);
    lemma_joined_one(reference(c));
    lines::lemma_joined_add(seq![""@], seq![reference(c)]);
    lines::lemma_joined_add(seq![""@] + seq![reference(c)], seq![""@]);
    assert(head =~= seq![""@] + seq![reference(c)] + seq![""@]);
    lines::lemma_joined_add(head, fenced(c.snippet));
    lines::lemma_joined_add(head + fenced(c.snippet), quoted(text::lines(c.body)));
    assert(lines::joined(head) =~= "\n"@ + reference(c) + "\n\n"@);
}

proof fn lemma_entries(list: Seq<CommentView>, n: int)
    requires
        0 <= n <= list.len(),
        forall|i: int| 0 <= i < list.len() ==> (#[trigger] list[i]).path.len() > 0,
    ensures
        markdown::body_text(list.take(n)) == lines::joined(entries(list, n)),
    decreases n,
{
    if n > 0 {
        lemma_entries(list, n - 1);
        let front = list.take(n);
        assert(front.drop_last() =~= list.take(n - 1));
        let c = list[n - 1];
        assert(front.last() == c);
        lemma_shown(c);
        lines::lemma_joined_add(entries(list, n - 1), entry(list, n - 1));
        let before = markdown::previous_path(front);
        assert(n > 1 ==> before == list[n - 2].path);
        assert(n == 1 ==> before != c.path);
        if !(n > 1 && c.path == list[n - 2].path) {
            reveal_strlit("");
            reveal_strlit("\n## ");
            reveal_strlit("## ");
            reveal_strlit("\n");
            let head = seq![""@, "## "@ + c.path];
            lemma_joined_one(""@);
            lemma_joined_one("## "@ + c.path);
            lines::lemma_joined_add(seq![""@], seq!["## "@ + c.path]);
            assert(head =~= seq![""@] + seq!["## "@ + c.path]);
            lines::lemma_joined_add(head, shown(c));
            assert(lines::joined(head) =~= "\n## "@ + c.path + "\n"@);
        } else {
            assert(markdown::heading(before, c.path) =~= Seq::empty());
        }
        assert(markdown::body_text(front) =~= lines::joined(entries(list, n)));
    } else {
        assert(list.take(n) =~= Seq::empty());
    }
}

/// An export is a title line, then file by file a heading and under it each
/// comment: the reference, the whole snippet between fences, the text quoted.
pub proof fn lemma_export_is_made_of_lines(
    comments: Seq<CommentView>,
    title: Seq<char>,
    date: Seq<char>,
)
    requires
        forall|i: int| 0 <= i < comments.len() ==> (#[trigger] comments[i]).path.len() > 0,
    ensures
        markdown::exported(comments, title, date) == lines::joined(
            page(markdown::sort_comments(comments), title, date),
        ),
{
    broadcast use vstd::seq_lib::group_to_multiset_ensures;

    let list = markdown::sort_comments(comments);
    markdown::lemma_export_order(comments);
    assert forall|i: int| 0 <= i < list.len() implies (#[trigger] list[i]).path.len() > 0 by {
        assert(list.contains(list[i]));
        assert(comments.to_multiset().count(list[i]) > 0);
        let k = comments.index_of(list[i]);
        assert(comments[k].path.len() > 0);
    }
    lemma_entries(list, list.len() as int);
    assert(list.take(list.len() as int) =~= list);
    let top = "# Review comments — "@ + title + " ("@ + date + ")"@;
    lemma_joined_one(top);
    lines::lemma_joined_add(seq![top], entries(list, list.len() as int));
    reveal_strlit(")");
    reveal_strlit(")\n");
    assert(")\n"@ =~= ")"@.push('\n'));
    assert(top.push('\n') =~= "# Review comments — "@ + title + " ("@ + date + ")\n"@);
}

proof fn lemma_regroup(
    a: Seq<char>,
    b: Seq<char>,
    c: Seq<char>,
    d: Seq<char>,
    e: Seq<char>,
    f: Seq<char>,
    g: Seq<char>,
)
    ensures
        a + (b + c + d + e + f) + g == (a + b) + c + d + e + (f + g),
{
    assert(a + (b + c + d + e + f) + g =~= (a + b) + c + d + e + (f + g));
}

/// For every comment with a snippet the export holds a fence, then text that
/// splits into exactly the snippet's lines, then the closing fence; the quoted
/// text of the comment follows.
pub proof fn lemma_snippet_is_exported_whole(
    comments: Seq<CommentView>,
    title: Seq<char>,
    date: Seq<char>,
    c: CommentView,
) -> (parts: (Seq<char>, Seq<char>, Seq<char>))
    requires
        comments.contains(c),
        c.snippet.len() > 0,
        forall|i: int| 0 <= i < c.snippet.len() ==> lines::one_line(#[trigger] c.snippet[i]),
    ensures
        ({
            let (before, inside, behind) = parts;
            &&& markdown::exported(comments, title, date) == before + "```diff\n"@ + inside
                + "```\n\n"@ + behind
            &&& text::lines(inside) == c.snippet
            &&& inside == lines::joined(c.snippet)
            &&& lines::joined(quoted(text::lines(c.body))).is_prefix_of(behind)
            &&& ("\n"@ + reference(c) + "\n\n"@).is_suffix_of(before)
        }),
{
    let all = markdown::exported(comments, title, date);
    markdown::lemma_every_comment_is_exported(comments, title, date, c);
    let block = markdown::comment_block(c);
    let at = choose|at: int|
        0 <= at && at + block.len() <= all.len() && #[trigger] all.subrange(at, at + block.len())
            == block;
    let inside = lines::joined(c.snippet);
    let head = "\n"@ + reference(c) + "\n\n"@;
    let tail = lines::joined(quoted(text::lines(c.body)));
    let before = all.take(at) + head;
    let rest = all.skip((at + block.len()) as int);
    let behind = tail + rest;
    assert(block == head + "```diff\n"@ + inside + "```\n\n"@ + tail) by {
        lemma_reference(c);
        lemma_plain(c.snippet);
        lemma_quoted(text::lines(c.body));
        assert(block =~= head + "```diff\n"@ + inside + "```\n\n"@ + tail);
    }
    lines::lemma_lines_of_joined(c.snippet);
    assert(all =~= all.take(at) + block + rest);
    lemma_regroup(all.take(at), head, "```diff\n"@, inside, "```\n\n"@, tail, rest);
    assert(behind.take(tail.len() as int) =~= tail);
    assert(before.skip(before.len() - head.len()) =~= head);
    (before, inside, behind)
}

proof fn lemma_filter_push(
    s: Seq<CommentView>,
    x: CommentView,
    pick: spec_fn(CommentView) -> bool,
)
    ensures
        s.push(x).filter(pick) == (if pick(x) {
            s.filter(pick).push(x)
        } else {
            s.filter(pick)
        }),
{
    reveal(Seq::filter);
    assert(s.push(x).drop_last() =~= s);
}

proof fn lemma_insert_keeps(
    s: Seq<CommentView>,
    x: CommentView,
    path: Seq<char>,
    line: u32,
)
    ensures
        markdown::insert_comment(s, x).filter(
            |c: CommentView| c.path == path && c.lines.0 == line,
        ) == s.push(x).filter(|c: CommentView| c.path == path && c.lines.0 == line),
    decreases s.len(),
{
    if s.len() == 0 || markdown::no_later(s.last(), x) {
    } else {
        let pick = |c: CommentView| c.path == path && c.lines.0 == line;
        let front = s.drop_last();
        lemma_insert_keeps(front, x, path, line);
        let inner = markdown::insert_comment(front, x);
        let l = s.last();
        text::lemma_order_equal(l.path, x.path);
        assert(!(pick(l) && pick(x)));
        lemma_filter_push(inner, l, pick);
        lemma_filter_push(s, x, pick);
        lemma_filter_push(front, x, pick);
        lemma_filter_push(front, l, pick);
        assert(front.push(l) =~= s);
        assert(markdown::insert_comment(s, x).filter(pick) =~= s.push(x).filter(pick));
    }
}

/// Comments on the same line of a file keep the order they were made in.
pub proof fn lemma_comments_on_a_line_keep_their_order(
    s: Seq<CommentView>,
    path: Seq<char>,
    line: u32,
)
    ensures
        markdown::sort_comments(s).filter(
            |c: CommentView| c.path == path && c.lines.0 == line,
        ) == s.filter(|c: CommentView| c.path == path && c.lines.0 == line),
    decreases s.len(),
{
    let pick = |c: CommentView| c.path == path && c.lines.0 == line;
    if s.len() > 0 {
        let front = s.drop_last();
        lemma_comments_on_a_line_keep_their_order(front, path, line);
        let sorted = markdown::sort_comments(front);
        lemma_insert_keeps(sorted, s.last(), path, line);
        reveal(Seq::filter);
        assert(sorted.push(s.last()).drop_last() =~= sorted);
    }
}

/// The export goes by path, letter by letter, and on a file from the top down:
/// of two comments the later one never has a smaller path, nor a smaller first
/// line on the same path.
pub proof fn lemma_export_goes_by_path_and_line(s: Seq<CommentView>, i: int, j: int)
    requires
        0 <= i < j < s.len(),
    ensures
        ({
            let list = markdown::sort_comments(s);
            let a = list[i];
            let b = list[j];
            &&& list.len() == s.len()
            &&& list.to_multiset() == s.to_multiset()
            &&& a.path == b.path ==> a.lines.0 <= b.lines.0
            &&& a.path != b.path ==> smaller(a.path, b.path)
        }),
{
    let list = markdown::sort_comments(s);
    markdown::lemma_export_order(s);
    assert(markdown::no_later(list[i], list[j]));
    assert(list[i].path.take(0) =~= list[j].path.take(0));
    lemma_smaller(list[i].path, list[j].path, 0);
    text::lemma_order_equal(list[i].path, list[j].path);
}

/// Texts are alike up to some place, where the first ends or has the smaller
/// character.
pub open spec fn smaller(a: Seq<char>, b: Seq<char>) -> bool {
    exists|k: int|
        0 <= k <= a.len() && k < b.len() && (k < a.len() ==> a[k] < b[k]) && #[trigger] a.take(k)
            == b.take(k)
}

proof fn lemma_smaller(a: Seq<char>, b: Seq<char>, i: int)
    requires
        0 <= i <= a.len(),
        i <= b.len(),
        a.take(i) == b.take(i),
    ensures
        text::order_from(a, b, i) < 0 ==> smaller(a, b),
    decreases a.len() - i,
{
    if i < a.len() && i < b.len() && a[i] == b[i] {
        assert(a.take(i + 1) =~= a.take(i).push(a[i]));
        assert(b.take(i + 1) =~= b.take(i).push(b[i]));
        lemma_smaller(a, b, i + 1);
    }
}

} // verus!
