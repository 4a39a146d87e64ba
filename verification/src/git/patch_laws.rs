//! What holds of names and patches as git prints them.

use crate::git::cli;
use crate::git::cli::PatchState;
use crate::git::diff;
use crate::git::diff::FileDiffView;
use crate::text;
use vstd::prelude::*;

verus! {

// ---- quoting ----------------------------------------------------------------------------

/// An octal digit.
pub open spec fn octal_digit(n: int) -> char {
    (0x30 + n) as char
}

/// A character of a name as it stands between quotes: the quote, the backslash
/// and the control characters are escaped.
pub open spec fn quoted_char(c: char) -> Seq<char> {
    if c == '"' || c == '\\' {
        seq!['\\', c]
    } else if c == '\u{7}' {
        seq!['\\', 'a']
    } else if c == '\u{8}' {
        seq!['\\', 'b']
    } else if c == '\t' {
        seq!['\\', 't']
    } else if c == '\n' {
        seq!['\\', 'n']
    } else if c == '\u{b}' {
        seq!['\\', 'v']
    } else if c == '\u{c}' {
        seq!['\\', 'f']
    } else if c == '\r' {
        seq!['\\', 'r']
    } else if c < ' ' || c == '\u{7f}' {
        let n = c as int;
        seq!['\\', octal_digit(n / 64), octal_digit(n / 8 % 8), octal_digit(n % 8)]
    } else {
        seq![c]
    }
}

/// The characters of a name as they stand between quotes.
pub open spec fn quoted_body(name: Seq<char>) -> Seq<char>
    decreases name.len(),
{
    if name.len() == 0 {
        Seq::empty()
    } else {
        quoted_char(name[0]) + quoted_body(name.drop_first())
    }
}

/// A name in git's C-style quotes.
pub open spec fn quoted_name(name: Seq<char>) -> Seq<char> {
    seq!['"'] + quoted_body(name) + seq!['"']
}

proof fn lemma_octal_shift(b: Seq<u8>, k: int, i: int, most: nat)
    requires
        0 <= k <= b.len(),
        0 <= i,
    ensures
        cli::octal_run(b, k + i, most) == cli::octal_run(b.skip(k), i, most),
    decreases most,
{
    if most > 0 {
        lemma_octal_shift(b, k, i + 1, (most - 1) as nat);
        if k + i < b.len() {
            assert(b.skip(k)[i] == b[k + i]);
        }
    }
}

proof fn lemma_value_shift(b: Seq<u8>, k: int, i: int, n: nat)
    requires
        0 <= k <= b.len(),
        0 <= i,
        k + i + n <= b.len(),
    ensures
        cli::octal_value(b, k + i, n) == cli::octal_value(b.skip(k), i, n),
    decreases n,
{
    if n > 0 {
        lemma_value_shift(b, k, i, (n - 1) as nat);
        assert(b.skip(k)[i + n - 1] == b[k + i + n - 1]);
    }
}

proof fn lemma_unescape_shift(b: Seq<u8>, k: int, i: int)
    requires
        0 <= k <= b.len(),
        0 <= i,
    ensures
        cli::unescape(b, k + i) == cli::unescape(b.skip(k), i),
    decreases b.len() - i,
{
    let t = b.skip(k);
    if k + i < b.len() {
        assert(t[i] == b[k + i]);
        if b[k + i] != 0x5c {
            lemma_unescape_shift(b, k, i + 1);
        } else if k + i + 1 < b.len() {
            assert(t[i + 1] == b[k + i + 1]);
            if cli::is_octal(b[k + i + 1]) {
                let n = cli::octal_run(b, k + i + 1, 3);
                cli::lemma_octal_run(b, k + i + 1, 3);
                lemma_octal_shift(b, k, i + 1, 3);
                lemma_value_shift(b, k, i + 1, n);
                lemma_unescape_shift(b, k, i + 1 + n);
            } else {
                lemma_unescape_shift(b, k, i + 2);
            }
        }
    }
}

proof fn lemma_rest(a: Seq<u8>, b: Seq<u8>)
    ensures
        cli::unescape(a + b, a.len() as int) == cli::unescape(b, 0),
{
    lemma_unescape_shift(a + b, a.len() as int, 0);
    assert((a + b).skip(a.len() as int) =~= b);
}

/// Bytes without a backslash stand for themselves.
proof fn lemma_plain_bytes(a: Seq<u8>, b: Seq<u8>)
    requires
        forall|i: int| 0 <= i < a.len() ==> #[trigger] a[i] != 0x5c,
    ensures
        cli::unescape(a + b, 0) == a + cli::unescape(b, 0),
    decreases a.len(),
{
    if a.len() == 0 {
        assert(a + b =~= b);
        assert(a + cli::unescape(b, 0) =~= cli::unescape(b, 0));
    } else {
        let rest = a.drop_first();
        let head = seq![a[0]];
        assert(a[0] != 0x5c);
        assert forall|i: int| 0 <= i < rest.len() implies #[trigger] rest[i] != 0x5c by {
            assert(rest[i] == a[i + 1]);
        }
        lemma_plain_bytes(rest, b);
        assert(a + b =~= head + (rest + b));
        lemma_rest(head, rest + b);
        assert(a =~= head + rest);
        assert(cli::unescape(a + b, 0) =~= a + cli::unescape(b, 0));
    }
}

proof fn lemma_wide_bytes(c: u32)
    requires
        c > 0x7f,
        c <= 0x10ffff,
    ensures
        forall|i: int|
            0 <= i < vstd::utf8::encode_scalar(c).len() ==> #[trigger] vstd::utf8::encode_scalar(
                c,
            )[i] != 0x5c,
{
    assert(vstd::utf8::leading_byte_width_2(c) != 0x5c) by (bit_vector);
    assert(vstd::utf8::leading_byte_width_3(c) != 0x5c) by (bit_vector);
    assert(vstd::utf8::leading_byte_width_4(c) != 0x5c) by (bit_vector);
    assert(vstd::utf8::last_continuation_byte(c) != 0x5c) by (bit_vector);
    assert(vstd::utf8::second_last_continuation_byte(c) != 0x5c) by (bit_vector);
    assert(vstd::utf8::third_last_continuation_byte(c) != 0x5c) by (bit_vector);
}

proof fn lemma_encode_add(a: Seq<char>, b: Seq<char>)
    ensures
        vstd::utf8::encode_utf8(a + b) == vstd::utf8::encode_utf8(a) + vstd::utf8::encode_utf8(b),
    decreases a.len(),
{
    if a.len() == 0 {
        assert(a + b =~= b);
        assert(vstd::utf8::encode_utf8(a) + vstd::utf8::encode_utf8(b)
            =~= vstd::utf8::encode_utf8(b));
    } else {
        lemma_encode_add(a.drop_first(), b);
        assert((a + b).drop_first() =~= a.drop_first() + b);
        assert(vstd::utf8::encode_utf8(a + b) =~= vstd::utf8::encode_utf8(a)
            + vstd::utf8::encode_utf8(b));
    }
}

/// The bytes of one quoted character stand for the character's own.
proof fn lemma_char_unescaped(c: char, b: Seq<u8>)
    ensures
        cli::unescape(vstd::utf8::encode_utf8(quoted_char(c)) + b, 0)
            == vstd::utf8::encode_scalar(c as u32) + cli::unescape(b, 0),
{
    let q = quoted_char(c);
    let e = vstd::utf8::encode_utf8(q);
    let own = vstd::utf8::encode_scalar(c as u32);
    if c <= '\u{7f}' {
        let one = seq![c];
        assert(one.drop_first() =~= Seq::empty());
        reveal_with_fuel(vstd::utf8::encode_utf8, 2);
        assert(vstd::utf8::encode_utf8(one) =~= own);
        vstd::utf8::is_ascii_chars_encode_utf8(one);
        assert(vstd::utf8::encode_utf8(one)[0] == c as u8);
        assert(own =~= seq![c as u8]);
        if q.len() == 4 {
            let n = c as int;
            assert(0 <= n / 64 < 8 && 0 <= n / 8 % 8 < 8 && 0 <= n % 8 < 8);
            assert(n == (n / 64 * 8 + n / 8 % 8) * 8 + n % 8);
        }
        vstd::utf8::is_ascii_chars_encode_utf8(q);
        assert(e.len() == q.len());
        assert(e[0] == q[0] as u8);
        lemma_rest(e, b);
        let all = e + b;
        if q.len() == 1 {
            assert(c != '\\');
            lemma_plain_bytes(e, b);
            assert(e =~= own);
        } else if q.len() == 2 {
            assert(e[1] == q[1] as u8);
            assert(all[0] == 0x5c && all[1] == e[1]);
            assert(!cli::is_octal(all[1]));
            assert(cli::escaped(all[1]) == c as u8);
            assert(cli::unescape(all, 0) =~= own + cli::unescape(b, 0));
        } else {
            let n = c as int;
            assert(e[1] == q[1] as u8 && e[2] == q[2] as u8 && e[3] == q[3] as u8);
            assert(e[1] == 0x30 + n / 64);
            assert(e[2] == 0x30 + n / 8 % 8);
            assert(e[3] == 0x30 + n % 8);
            assert(all[0] == 0x5c && all[1] == e[1] && all[2] == e[2] && all[3] == e[3]);
            reveal_with_fuel(cli::octal_run, 4);
            reveal_with_fuel(cli::octal_value, 4);
            assert(cli::octal_run(all, 1, 3) == 3);
            assert(cli::octal_value(all, 1, 3) == n);
            assert(cli::unescape(all, 0) =~= own + cli::unescape(b, 0));
        }
    } else {
        assert(q == seq![c]);
        assert(q.drop_first() =~= Seq::empty());
        reveal_with_fuel(vstd::utf8::encode_utf8, 2);
        assert(e =~= own);
        lemma_wide_bytes(c as u32);
        lemma_plain_bytes(e, b);
    }
}

proof fn lemma_body_unescaped(name: Seq<char>)
    ensures
        cli::unescape(vstd::utf8::encode_utf8(quoted_body(name)), 0) == vstd::utf8::encode_utf8(
            name,
        ),
    decreases name.len(),
{
    if name.len() > 0 {
        let rest = name.drop_first();
        lemma_body_unescaped(rest);
        lemma_encode_add(quoted_char(name[0]), quoted_body(rest));
        lemma_char_unescaped(name[0], vstd::utf8::encode_utf8(quoted_body(rest)));
    }
}

/// Unquoting undoes git's quoting: it gives back every name.
pub proof fn lemma_unquoting_undoes_quoting(name: Seq<char>)
    ensures
        cli::unquoted(quoted_name(name)) == name,
{
    let q = quoted_name(name);
    assert(q.subrange(1, q.len() - 1) =~= quoted_body(name));
    lemma_body_unescaped(name);
    vstd::utf8::encode_utf8_valid_utf8(name);
    vstd::utf8::encode_utf8_decode_utf8(name);
}

// ---- header lines -----------------------------------------------------------------------

pub proof fn lemma_starts(a: Seq<char>, b: Seq<char>)
    ensures
        text::starts_with(a + b, a),
        cli::after(a + b, a) == b,
{
    assert((a + b).subrange(0, a.len() as int) =~= a);
    assert((a + b).skip(a.len() as int) =~= b);
}

/// A header line names its file, quoted or not, blanks around the name
/// included; the tab that may follow a name is not part of it. A name that
/// ends in a tab is always quoted.
pub proof fn lemma_header_names_its_file(mark: Seq<char>, side: Seq<char>, name: Seq<char>)
    ensures
        cli::header_path(mark + quoted_name(side + name), mark, side) == Some(name),
        cli::header_path(mark + quoted_name(side + name).push('\t'), mark, side) == Some(name),
        side.len() > 0 && side[0] != '"' ==> cli::header_path(
            mark + (side + name).push('\t'),
            mark,
            side,
        ) == Some(name),
        side.len() > 0 && side[0] != '"' && (side + name).last() != '\t' ==> cli::header_path(
            mark + (side + name),
            mark,
            side,
        ) == Some(name),
{
    let whole = side + name;
    let q = quoted_name(whole);
    lemma_unquoting_undoes_quoting(whole);
    lemma_starts(side, name);
    lemma_starts(mark, q);
    lemma_starts(mark, q.push('\t'));
    lemma_starts(mark, whole);
    lemma_starts(mark, whole.push('\t'));
    assert(q.last() == '"');
    assert(q.push('\t').drop_last() =~= q);
    assert(whole.push('\t').drop_last() =~= whole);
}

proof fn lemma_digits(c: char)
    requires
        c <= '\u{7f}',
    ensures
        0 <= c as int / 64 < 8,
        0 <= c as int / 8 % 8 < 8,
        0 <= c as int % 8 < 8,
{
}

/// Between quotes every quote follows a backslash.
proof fn lemma_quotes_are_escaped(name: Seq<char>, j: int)
    requires
        0 <= j < quoted_body(name).len(),
        quoted_body(name)[j] == '"',
    ensures
        j > 0,
        quoted_body(name)[j - 1] == '\\',
    decreases name.len(),
{
    let c: char = name[0];
    let head = quoted_char(c);
    if c <= '\u{7f}' {
        lemma_digits(c);
    }
    if j >= head.len() {
        lemma_quotes_are_escaped(name.drop_first(), j - head.len());
    }
}

pub proof fn lemma_last_place(s: Seq<char>, p: Seq<char>, at: int, from: int)
    requires
        text::occurs_at(s, p, at),
        at <= from,
        forall|i: int| at < i <= from ==> !#[trigger] text::occurs_at(s, p, i),
    ensures
        text::rfind_from(s, p, from) == Some(at),
    decreases from - at,
{
    if at < from {
        assert(!text::occurs_at(s, p, from));
        lemma_last_place(s, p, at, from - 1);
    }
}

/// A `diff --git` line whose second name is quoted gives that name's path.
pub proof fn lemma_quoted_guess_is_exact(first: Seq<char>, name: Seq<char>)
    ensures
        cli::guessed_path(first + seq![' '] + quoted_name("b/"@ + name)) == name,
{
    reveal_strlit(" \"b/");
    reveal_strlit("b/");
    let p = " \"b/"@;
    let whole = "b/"@ + name;
    let q = quoted_name(whole);
    let body = quoted_body(whole);
    let rest = first + seq![' '] + q;
    let at = first.len() as int;
    assert(whole[0] == 'b' && whole.drop_first()[0] == '/');
    assert(whole.drop_first().drop_first() =~= name);
    assert(quoted_char('b') =~= seq!['b']);
    assert(quoted_char('/') =~= seq!['/']);
    reveal_with_fuel(quoted_body, 3);
    assert(body[0] == 'b' && body[1] == '/');
    assert(rest.subrange(at, at + 4) =~= p);
    assert forall|i: int| at < i <= rest.len() - p.len() implies !#[trigger] text::occurs_at(
        rest,
        p,
        i,
    ) by {
        if text::occurs_at(rest, p, i) {
            assert(rest.subrange(i, i + 4)[1] == '"');
            assert(rest.subrange(i, i + 4)[0] == ' ');
            let j = i + 1 - at - 2;
            assert(rest[i + 1] == body[j]);
            lemma_quotes_are_escaped(whole, j);
            assert(rest[i] == body[j - 1]);
        }
    }
    lemma_last_place(rest, p, at, rest.len() - p.len());
    assert(rest.skip(at + 1) =~= q);
    assert(rest.last() == '"');
    lemma_unquoting_undoes_quoting(whole);
    lemma_starts("b/"@, name);
}

// ---- concatenation ----------------------------------------------------------------------

proof fn lemma_next_index_shift(p: Seq<char>, q: Seq<char>, c: char, from: int)
    requires
        0 <= from <= q.len(),
    ensures
        text::next_index(p + q, c, p.len() + from) == p.len() + text::next_index(q, c, from),
    decreases q.len() - from,
{
    if from < q.len() {
        assert((p + q)[p.len() + from] == q[from]);
        if q[from] != c {
            lemma_next_index_shift(p, q, c, from + 1);
        }
    }
}

proof fn lemma_lines_shift(p: Seq<char>, q: Seq<char>, from: int)
    requires
        0 <= from <= q.len(),
    ensures
        text::lines_from(p + q, p.len() + from) == text::lines_from(q, from),
    decreases q.len() - from,
{
    lemma_next_index_shift(p, q, '\n', from);
    text::lemma_next_index(q, '\n', from);
    let k = text::next_index(q, '\n', from);
    if from < q.len() {
        assert((p + q).subrange(p.len() + from, p.len() + k) =~= q.subrange(from, k));
        if k < q.len() {
            lemma_lines_shift(p, q, k + 1);
        }
    }
}

pub proof fn lemma_next_index_kept(p: Seq<char>, q: Seq<char>, c: char, from: int)
    requires
        0 <= from < p.len(),
        p.last() == c,
    ensures
        text::next_index(p + q, c, from) == text::next_index(p, c, from),
        from <= text::next_index(p, c, from) < p.len(),
    decreases p.len() - from,
{
    assert((p + q)[from] == p[from]);
    if p[from] != c {
        lemma_next_index_kept(p, q, c, from + 1);
    }
}

pub proof fn lemma_lines_add(p: Seq<char>, q: Seq<char>, from: int)
    requires
        0 <= from <= p.len(),
        p.len() == 0 || p.last() == '\n',
    ensures
        text::lines_from(p + q, from) == text::lines_from(p, from) + text::lines_from(q, 0),
    decreases p.len() - from,
{
    if from == p.len() {
        lemma_lines_shift(p, q, 0);
        assert(text::lines_from(p, from) + text::lines_from(q, 0) =~= text::lines_from(q, 0));
    } else {
        lemma_next_index_kept(p, q, '\n', from);
        let k = text::next_index(p, '\n', from);
        assert((p + q).subrange(from, k) =~= p.subrange(from, k));
        lemma_lines_add(p, q, k + 1);
        assert(text::lines_from(p + q, from) =~= text::lines_from(p, from) + text::lines_from(
            q,
            0,
        ));
    }
}

/// The one parse has gathered what the other has, after `base`.
pub open spec fn alongside(base: Seq<FileDiffView>, a: PatchState, b: PatchState) -> bool {
    &&& b.files.len() > 0
    &&& a.files == base + b.files
    &&& a.old_left == b.old_left
    &&& a.new_left == b.new_left
    &&& a.old_left > 0 || a.new_left > 0 ==> a.old_ln == b.old_ln && a.new_ln == b.new_ln
}

proof fn lemma_last_added(base: Seq<FileDiffView>, files: Seq<FileDiffView>, f: FileDiffView)
    requires
        files.len() > 0,
    ensures
        (base + files).last() == files.last(),
        diff::with_last(base + files, f) == base + diff::with_last(files, f),
        diff::with_last(files, f).len() > 0,
{
    assert(diff::with_last(base + files, f) =~= base + diff::with_last(files, f));
}

proof fn lemma_step_alongside(base: Seq<FileDiffView>, a: PatchState, b: PatchState, line: Seq<char>)
    requires
        alongside(base, a, b),
    ensures
        alongside(base, cli::patch_step(a, line), cli::patch_step(b, line)),
{
    let f = b.files.last();
    lemma_last_added(base, b.files, f);
    if text::starts_with(line, "diff --git "@) {
        let g = cli::fresh_file(cli::guessed_path(cli::after(line, "diff --git "@)));
        assert(a.files.push(g) =~= base + b.files.push(g));
    } else if b.old_left > 0 || b.new_left > 0 {
        lemma_last_added(base, b.files, cli::content_step(b, line).files.last());
        if f.hunks.len() > 0 && line.len() > 0 && diff::content_origin(line[0]) {
            let g = cli::content_step(b, line).files.last();
            assert(cli::content_step(b, line).files == diff::with_last(b.files, g));
            assert(cli::content_step(a, line).files == diff::with_last(a.files, g));
        }
    } else {
        match cli::described(f, line) {
            Some(g) => {
                lemma_last_added(base, b.files, g);
            },
            None => {
                if let Some(h) = cli::hunk_header(line) {
                    lemma_last_added(base, b.files, diff::with_hunk(f, line));
                }
            },
        }
    }
}

pub proof fn lemma_run_alongside(p: Seq<Seq<char>>, q: Seq<Seq<char>>)
    requires
        q.len() > 0,
        text::starts_with(q[0], "diff --git "@),
    ensures
        alongside(cli::patch_run(p).files, cli::patch_run(p + q), cli::patch_run(q)),
    decreases q.len(),
{
    let base = cli::patch_run(p).files;
    let front = q.drop_last();
    assert((p + q).drop_last() =~= p + front);
    assert((p + q).last() == q.last());
    if q.len() == 1 {
        assert(front =~= Seq::empty());
        assert(p + front =~= p);
        let g = cli::fresh_file(cli::guessed_path(cli::after(q[0], "diff --git "@)));
        assert(cli::patch_run(front) == cli::patch_start());
        assert(cli::patch_run(q).files =~= seq![g]);
        assert(cli::patch_run(p + q).files =~= base + seq![g]);
    } else {
        assert(front[0] == q[0]);
        lemma_run_alongside(p, front);
        lemma_step_alongside(base, cli::patch_run(p + front), cli::patch_run(front), q.last());
    }
}

pub proof fn lemma_first_line(q: Seq<char>, mark: Seq<char>)
    requires
        text::starts_with(q, mark),
        mark.len() > 0,
        forall|i: int| 0 <= i < mark.len() ==> #[trigger] mark[i] != '\n' && mark[i] != '\r',
    ensures
        text::lines(q).len() > 0,
        text::starts_with(text::lines(q)[0], mark),
{
    let k = text::next_index(q, '\n', 0);
    text::lemma_next_index(q, '\n', 0);
    let n = mark.len() as int;
    assert(q.subrange(0, n) == mark);
    assert forall|i: int| 0 <= i < n implies #[trigger] q[i] == mark[i] by {
        assert(q.subrange(0, n)[i] == q[i]);
    }
    if k < n {
        assert(q[k] == mark[k]);
    }
    let whole = q.subrange(0, k);
    let first = text::lines(q)[0];
    assert(first == whole || first == text::drop_cr(whole));
    if first != whole {
        assert(whole.last() == '\r');
        if k == n {
            assert(q[k - 1] == mark[k - 1]);
        }
    }
    assert(first.subrange(0, n) =~= mark);
}

/// Patches can be put together: a file's section is parsed the same whatever
/// stands before it, even where the last hunk before it is cut short.
pub proof fn lemma_patches_concatenate(p: Seq<char>, q: Seq<char>)
    requires
        p.len() == 0 || p.last() == '\n',
        text::starts_with(q, "diff --git "@),
    ensures
        cli::patch_files(p + q) == cli::patch_files(p) + cli::patch_files(q),
{
    reveal_strlit("diff --git ");
    lemma_lines_add(p, q, 0);
    lemma_first_line(q, "diff --git "@);
    lemma_run_alongside(text::lines(p), text::lines(q));
}

} // verus!
