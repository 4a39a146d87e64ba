//! Worktree diffs as the `git` command prints them: status entries, unified
//! diffs, and untracked files shown as additions.

use crate::bytes;
use crate::deep;
use crate::git::diff;
use crate::git::diff::{DiffLine, DiffLineView, FileDiff, FileDiffView, FileStatus};
use crate::num;
use crate::text;
use vstd::prelude::*;

verus! {

broadcast use crate::deep::group_deep;

// ---- status entries ----------------------------------------------------------------

/// One entry of `git status --porcelain -z`.
#[derive(Debug, Clone)]
pub struct StatusEntry {
    pub x: char,
    pub y: char,
    pub path: String,
}

/// What a status entry holds.
#[verifier::ext_equal]
pub struct StatusView {
    pub x: char,
    pub y: char,
    pub path: Seq<char>,
}

impl View for StatusEntry {
    type V = StatusView;

    open spec fn view(&self) -> StatusView {
        StatusView { x: self.x, y: self.y, path: self.path@ }
    }
}

/// The bytes of a text.
pub open spec fn utf8(s: Seq<char>) -> Seq<u8> {
    vstd::utf8::encode_utf8(s)
}

/// The entry that one field writes: two status letters, a space, the path.
pub open spec fn status_entry(field: Seq<char>) -> StatusView {
    StatusView {
        x: field[0],
        y: if field.len() > 1 {
            field[1]
        } else {
            ' '
        },
        path: vstd::utf8::decode_utf8(utf8(field).skip(3)),
    }
}

/// Renames and copies carry the original path as the next field.
pub open spec fn has_original(e: StatusView) -> bool {
    e.x == 'R' || e.y == 'R' || e.x == 'C' || e.y == 'C'
}

/// The entries of the fields from `i` on; fields too short to be one are passed over.
pub open spec fn status_entries(fields: Seq<Seq<char>>, i: int) -> Seq<StatusView>
    decreases fields.len() + 1 - i,
{
    if i < 0 || i >= fields.len() {
        Seq::empty()
    } else if utf8(fields[i]).len() < 4 {
        status_entries(fields, i + 1)
    } else {
        let e = status_entry(fields[i]);
        seq![e] + status_entries(
            fields,
            if has_original(e) {
                i + 2
            } else {
                i + 1
            },
        )
    }
}

/// Every entry from field `i` on has its path start at a character boundary.
pub open spec fn well_cut(fields: Seq<Seq<char>>, i: int) -> bool
    decreases fields.len() + 1 - i,
{
    if i < 0 || i >= fields.len() {
        true
    } else if utf8(fields[i]).len() < 4 {
        well_cut(fields, i + 1)
    } else {
        vstd::utf8::is_char_boundary(utf8(fields[i]), 3) && well_cut(
            fields,
            if has_original(status_entry(fields[i])) {
                i + 2
            } else {
                i + 1
            },
        )
    }
}

/// The entries of a whole status output.
pub open spec fn status_of(out: Seq<char>) -> Seq<StatusView> {
    status_entries(text::split(out, '\0'), 0)
}

/// A status output whose paths all start at a character boundary, as git
/// writes them.
pub open spec fn status_well_formed(out: Seq<char>) -> bool {
    well_cut(text::split(out, '\0'), 0)
}

fn entry_at(field: &[char]) -> (r: Option<StatusEntry>)
    requires
        utf8(field@).len() >= 4,
    ensures
        match r {
            Some(e) => vstd::utf8::is_char_boundary(utf8(field@), 3) && e@ == status_entry(
                field@,
            ),
            None => !vstd::utf8::is_char_boundary(utf8(field@), 3),
        },
{
    proof {
        if field@.len() == 0 {
            assert(utf8(field@).len() == 0);
        }
    }
    let s: String = text::to_text(field);
    if !s.as_str().is_char_boundary(3) {
        return None;
    }
    let (_, path) = s.as_str().split_at(3);
    proof {
        assert(utf8(path@) =~= utf8(field@).skip(3));
        vstd::utf8::encode_utf8_decode_utf8(path@);
    }
    let y: char = if field.len() > 1 {
        field[1]
    } else {
        ' '
    };
    Some(StatusEntry { x: field[0], y, path: text::copy(path) })
}

fn read_status(out: &str) -> (r: Option<Vec<StatusEntry>>)
    ensures
        match r {
            Some(v) => status_well_formed(out@) && deep::deep(v@) == status_of(out@),
            None => !status_well_formed(out@),
        },
{
    let cs: Vec<char> = text::to_chars(out);
    let fields: Vec<Vec<char>> = text::split_chars(cs.as_slice(), '\0');
    let ghost all = deep::deep(fields@);
    let mut entries: Vec<StatusEntry> = Vec::new();
    let mut i: usize = 0;
    while i < fields.len()
        invariant
            all == deep::deep(fields@),
            all == text::split(out@, '\0'),
            deep::deep(entries@) + status_entries(all, i as int) == status_of(out@),
            well_cut(all, i as int) == status_well_formed(out@),
        decreases fields@.len() - i,
    {
        let ghost before = deep::deep(entries@);
        assert(all[i as int] == fields@[i as int]@);
        let field: &Vec<char> = &fields[i];
        let whole: String = text::to_text(field.as_slice());
        let size: usize = whole.as_str().as_bytes().len();
        if size < 4 {
            i += 1;
        } else {
            match entry_at(field.as_slice()) {
                None => {
                    return None;
                },
                Some(e) => {
                    let paired: bool = e.x == 'R' || e.y == 'R' || e.x == 'C' || e.y == 'C';
                    let ghost shown = e@;
                    entries.push(e);
                    let ghost next: int = if paired {
                        i + 2
                    } else {
                        i + 1
                    };
                    assert(deep::deep(entries@) + status_entries(all, next) =~= before
                        + status_entries(all, i as int));
                    if paired && fields.len() - i >= 2 {
                        i += 2;
                    } else {
                        if paired {
                            assert(status_entries(all, i + 1) == status_entries(all, i + 2));
                            assert(well_cut(all, i + 1) == well_cut(all, i + 2));
                        }
                        i += 1;
                    }
                },
            }
        }
    }
    assert(deep::deep(entries@) =~= status_of(out@));
    Some(entries)
}

/// Do all the paths of a status output start at a character boundary?
pub fn status_is_well_formed(out: &str) -> (r: bool)
    ensures
        r == status_well_formed(out@),
{
    read_status(out).is_some()
}

/// Parse `git status --porcelain -z` entries.
pub fn parse_status_z(out: &str) -> (r: Vec<StatusEntry>)
    requires
        status_well_formed(out@),
    ensures
        deep::deep(r@) == status_of(out@),
{
    match read_status(out) {
        Some(v) => v,
        None => Vec::new(),
    }
}

/// Does the entry count as uncommitted work?
pub open spec fn is_uncommitted(e: StatusView) -> bool {
    e.x != ' ' || e.y != ' '
}

/// Does the entry count as staged?
pub open spec fn is_staged(e: StatusView) -> bool {
    e.x != ' ' && e.x != '?'
}

/// Is the entry an untracked file or directory?
pub open spec fn is_untracked_entry(e: StatusView) -> bool {
    e.x == '?' && e.y == '?'
}

/// (uncommitted, staged) changed-file counts from one status scan.
pub fn worktree_counts(out: &str) -> (r: (usize, usize))
    requires
        status_well_formed(out@),
    ensures
        r.0 == status_of(out@).filter(|e: StatusView| is_uncommitted(e)).len(),
        r.1 == status_of(out@).filter(|e: StatusView| is_staged(e)).len(),
{
    let entries: Vec<StatusEntry> = parse_status_z(out);
    let ghost all = deep::deep(entries@);
    let ghost unc = |e: StatusView| is_uncommitted(e);
    let ghost stg = |e: StatusView| is_staged(e);
    let mut uncommitted: usize = 0;
    let mut staged: usize = 0;
    let mut i: usize = 0;
    reveal(Seq::filter);
    assert(all.take(0).filter(unc).len() == 0);
    assert(all.take(0).filter(stg).len() == 0);
    while i < entries.len()
        invariant
            i <= entries@.len(),
            all == deep::deep(entries@),
            uncommitted <= i,
            staged <= i,
            unc == (|e: StatusView| is_uncommitted(e)),
            stg == (|e: StatusView| is_staged(e)),
            uncommitted == all.take(i as int).filter(unc).len(),
            staged == all.take(i as int).filter(stg).len(),
        decreases entries@.len() - i,
    {
        let e: &StatusEntry = &entries[i];
        proof {
            reveal(Seq::filter);
            assert(all.take(i + 1).drop_last() =~= all.take(i as int));
            assert(all.take(i + 1).last() == e@);
        }
        if e.x != ' ' || e.y != ' ' {
            uncommitted += 1;
        }
        if e.x != ' ' && e.x != '?' {
            staged += 1;
        }
        i += 1;
    }
    assert(all.take(i as int) =~= all);
    (uncommitted, staged)
}

/// Does the status list the path as untracked?
pub fn is_untracked(out: &str, path: &str) -> (r: bool)
    requires
        status_well_formed(out@),
    ensures
        r == exists|i: int|
            0 <= i < status_of(out@).len() && is_untracked_entry(#[trigger] status_of(out@)[i])
                && status_of(out@)[i].path == path@,
{
    let entries: Vec<StatusEntry> = parse_status_z(out);
    let ghost all = deep::deep(entries@);
    let mut i: usize = 0;
    while i < entries.len()
        invariant
            i <= entries@.len(),
            all == deep::deep(entries@),
            all == status_of(out@),
            forall|j: int|
                0 <= j < i ==> !(is_untracked_entry(#[trigger] all[j]) && all[j].path == path@),
        decreases entries@.len() - i,
    {
        let e: &StatusEntry = &entries[i];
        assert(all[i as int] == e@);
        if e.x == '?' && e.y == '?' && text::same(e.path.as_str(), path) {
            return true;
        }
        i += 1;
    }
    false
}

/// The paths that the status lists as untracked, in order.
pub open spec fn untracked_of(entries: Seq<StatusView>) -> Seq<Seq<char>>
    decreases entries.len(),
{
    if entries.len() == 0 {
        Seq::empty()
    } else if is_untracked_entry(entries.last()) {
        untracked_of(entries.drop_last()).push(entries.last().path)
    } else {
        untracked_of(entries.drop_last())
    }
}

/// The untracked paths of a status output, in order; a directory that is
/// untracked as a whole comes as one path with a trailing slash.
pub fn untracked_paths(out: &str) -> (r: Vec<String>)
    requires
        status_well_formed(out@),
    ensures
        deep::deep(r@) == untracked_of(status_of(out@)),
{
    let entries: Vec<StatusEntry> = parse_status_z(out);
    let ghost all = deep::deep(entries@);
    let mut paths: Vec<String> = Vec::new();
    let mut i: usize = 0;
    while i < entries.len()
        invariant
            i <= entries@.len(),
            all == deep::deep(entries@),
            deep::deep(paths@) == untracked_of(all.take(i as int)),
        decreases entries@.len() - i,
    {
        let e: &StatusEntry = &entries[i];
        assert(all.take(i + 1).drop_last() =~= all.take(i as int));
        assert(all.take(i + 1).last() == e@);
        if e.x == '?' && e.y == '?' {
            paths.push(text::copy(e.path.as_str()));
        }
        i += 1;
    }
    assert(all.take(i as int) =~= all);
    paths
}

// ---- quoted paths -----------------------------------------------------------------

/// Is the byte an octal digit?
pub open spec fn is_octal(b: u8) -> bool {
    0x30 <= b <= 0x37
}

/// How many octal digits start at `i`, counting at most `most`.
pub open spec fn octal_run(b: Seq<u8>, i: int, most: nat) -> nat
    decreases most,
{
    if most == 0 || i < 0 || i >= b.len() || !is_octal(b[i]) {
        0
    } else {
        1 + octal_run(b, i + 1, (most - 1) as nat)
    }
}

/// A run of octal digits is no longer than asked, and stays inside the bytes.
pub proof fn lemma_octal_run(b: Seq<u8>, i: int, most: nat)
    requires
        0 <= i,
    ensures
        octal_run(b, i, most) <= most,
        octal_run(b, i, most) > 0 ==> i + octal_run(b, i, most) <= b.len(),
    decreases most,
{
    if most > 0 && i < b.len() && is_octal(b[i]) {
        lemma_octal_run(b, i + 1, (most - 1) as nat);
    }
}

/// The number that `n` octal digits from `i` on write.
pub open spec fn octal_value(b: Seq<u8>, i: int, n: nat) -> nat
    decreases n,
{
    if n == 0 {
        0
    } else {
        octal_value(b, i, (n - 1) as nat) * 8 + (b[i + n - 1] - 0x30) as nat
    }
}

/// The byte that a single-character escape stands for: `\a`, `\b`, `\t`, `\n`,
/// `\v`, `\f` and `\r` are the control characters 7 to 13, and every other
/// character, such as `"` and `\`, stands for itself.
pub open spec fn escaped(b: u8) -> u8 {
    if b == 0x61 {
        0x07
    } else if b == 0x62 {
        0x08
    } else if b == 0x74 {
        0x09
    } else if b == 0x6e {
        0x0a
    } else if b == 0x76 {
        0x0b
    } else if b == 0x66 {
        0x0c
    } else if b == 0x72 {
        0x0d
    } else {
        b
    }
}

/// The bytes from `i` on with C-style escapes undone.
pub open spec fn unescape(b: Seq<u8>, i: int) -> Seq<u8>
    decreases b.len() - i,
{
    if i < 0 || i >= b.len() {
        Seq::empty()
    } else if b[i] != 0x5c {
        seq![b[i]] + unescape(b, i + 1)
    } else if i + 1 >= b.len() {
        Seq::empty()
    } else if is_octal(b[i + 1]) {
        let n = octal_run(b, i + 1, 3);
        proof {
            lemma_octal_run(b, i + 1, 3);
        }
        seq![(octal_value(b, i + 1, n) % 256) as u8] + unescape(b, i + 1 + n)
    } else {
        seq![escaped(b[i + 1])] + unescape(b, i + 2)
    }
}

/// Is the text enclosed in double quotes?
pub open spec fn is_quoted(s: Seq<char>) -> bool {
    s.len() >= 2 && s[0] == '"' && s.last() == '"'
}

/// A name as git prints it, its quoting undone. A name that is not quoted is
/// taken as it stands.
pub open spec fn unquoted(s: Seq<char>) -> Seq<char> {
    if is_quoted(s) {
        bytes::lossy(unescape(vstd::utf8::encode_utf8(s.subrange(1, s.len() - 1)), 0))
    } else {
        s
    }
}

fn unescape_byte(b: u8) -> (r: u8)
    ensures
        r == escaped(b),
{
    match b {
        0x61 => 0x07,
        0x62 => 0x08,
        0x74 => 0x09,
        0x6e => 0x0a,
        0x76 => 0x0b,
        0x66 => 0x0c,
        0x72 => 0x0d,
        _ => b,
    }
}

fn unescape_bytes(b: &[u8]) -> (r: Vec<u8>)
    ensures
        r@ == unescape(b@, 0),
{
    let mut out: Vec<u8> = Vec::new();
    let mut i: usize = 0;
    while i < b.len()
        invariant
            i <= b@.len(),
            out@ + unescape(b@, i as int) == unescape(b@, 0),
        decreases b@.len() - i,
    {
        let ghost before = out@;
        let ghost at = i as int;
        if b[i] != 0x5c {
            out.push(b[i]);
            i += 1;
            assert(out@ + unescape(b@, i as int) =~= before + unescape(b@, at));
        } else if i + 1 == b.len() {
            i += 1;
            assert(out@ + unescape(b@, i as int) =~= before + unescape(b@, at));
        } else if 0x30 <= b[i + 1] && b[i + 1] <= 0x37 {
            let start: usize = i + 1;
            let mut n: usize = 0;
            let mut v: u32 = 0;
            reveal_with_fuel(octal_run, 4);
            while n < 3 && start + n < b.len() && 0x30 <= b[start + n] && b[start + n] <= 0x37
                invariant
                    n <= 3,
                    start + n <= b.len(),
                    start < b.len(),
                    is_octal(b@[start as int]),
                    v == octal_value(b@, start as int, n as nat),
                    n == 0 ==> v == 0,
                    n == 1 ==> v < 8,
                    n == 2 ==> v < 64,
                    n == 3 ==> v < 512,
                    octal_run(b@, start as int, 3) == n + octal_run(
                        b@,
                        start + n,
                        (3 - n) as nat,
                    ),
                decreases 3 - n,
            {
                v = v * 8 + (b[start + n] - 0x30) as u32;
                n += 1;
            }
            assert(octal_run(b@, start as int, 3) == n);
            out.push((v % 256) as u8);
            i = start + n;
            assert(out@ + unescape(b@, i as int) =~= before + unescape(b@, at));
        } else {
            out.push(unescape_byte(b[i + 1]));
            i += 2;
            assert(out@ + unescape(b@, i as int) =~= before + unescape(b@, at));
        }
    }
    assert(out@ =~= unescape(b@, 0));
    out
}

fn unquote_chars(s: &[char]) -> (r: String)
    ensures
        r@ == unquoted(s@),
{
    if !(s.len() >= 2 && s[0] == '"' && s[s.len() - 1] == '"') {
        return text::to_text(s);
    }
    let inner: String = text::text_range(s, 1, s.len() - 1);
    let out: Vec<u8> = unescape_bytes(inner.as_str().as_bytes());
    bytes::lossy_text(out.as_slice())
}

/// Undo git's C-style quoting for paths with special characters. White space
/// around the printed name is not part of it.
pub fn unquote(s: &str) -> (r: String)
    ensures
        r@ == unquoted(text::trim(s@)),
{
    let cs: Vec<char> = text::to_chars(s);
    let t: Vec<char> = text::trim_chars(cs.as_slice());
    unquote_chars(t.as_slice())
}

/// `s` without the prefix `p`, if it starts with it.
pub open spec fn without_prefix(s: Seq<char>, p: Seq<char>) -> Seq<char> {
    if text::starts_with(s, p) {
        after(s, p)
    } else {
        s
    }
}

/// Where the quoted second name of a `diff --git` line starts. No other place
/// can look like it: inside quotes every `"` follows a `\`, and a name with a
/// `"` is always quoted.
pub open spec fn quoted_name_at(rest: Seq<char>) -> Option<int> {
    if rest.len() > 0 && rest.last() == '"' {
        match text::rfind(rest, " \"b/"@) {
            Some(i) => Some(i + 1),
            None => None,
        }
    } else {
        None
    }
}

/// The path guessed from the rest of a `diff --git` line: its second name
/// without quoting and `b/`. Where that is not quoted, it is what follows the
/// last ` b/`, or the whole rest.
pub open spec fn guessed_path(rest: Seq<char>) -> Seq<char> {
    match quoted_name_at(rest) {
        Some(i) => without_prefix(unquoted(rest.skip(i)), "b/"@),
        None => match text::rfind(rest, " b/"@) {
            Some(i) => unquoted(rest.skip(i + 3)),
            None => rest,
        },
    }
}

fn guess_path_chars(rest: &[char]) -> (r: String)
    ensures
        r@ == guessed_path(rest@),
{
    let total: usize = rest.len();
    let quoted: Vec<char> = text::to_chars(" \"b/");
    let marker: Vec<char> = text::to_chars(" b/");
    proof {
        reveal_strlit(" b/");
        reveal_strlit(" \"b/");
    }
    if total > 0 && rest[total - 1] == '"' {
        if let Some(i) = text::rfind_text(rest, quoted.as_slice()) {
            let tail: Vec<char> = text::copy_range(rest, i + 1, total);
            assert(tail@ =~= rest@.skip(i + 1));
            let name: String = unquote_chars(tail.as_slice());
            let cs: Vec<char> = text::to_chars(name.as_str());
            return match strip(cs.as_slice(), "b/") {
                Some(p) => text::to_text(p.as_slice()),
                None => name,
            };
        }
    }
    match text::rfind_text(rest, marker.as_slice()) {
        Some(i) => {
            let tail: Vec<char> = text::copy_range(rest, i + 3, total);
            assert(tail@ =~= rest@.skip(i + 3));
            unquote_chars(tail.as_slice())
        },
        None => text::to_text(rest),
    }
}

/// Best-effort path from `diff --git a/x b/x` (overridden by ---/+++ lines).
pub fn guess_b_path(rest: &str) -> (r: String)
    ensures
        r@ == guessed_path(rest@),
{
    let cs: Vec<char> = text::to_chars(rest);
    guess_path_chars(cs.as_slice())
}

/// A header name without the tab that git appends to one with blanks.
pub open spec fn without_tab(s: Seq<char>) -> Seq<char> {
    if s.len() > 0 && s.last() == '\t' {
        s.drop_last()
    } else {
        s
    }
}

/// The path that a `---` or `+++` line names: its name without quoting and the
/// prefix of its side; `None` if the line names no file of that side.
pub open spec fn header_path(line: Seq<char>, mark: Seq<char>, side: Seq<char>) -> Option<
    Seq<char>,
> {
    if text::starts_with(line, mark) {
        let name = unquoted(without_tab(after(line, mark)));
        if text::starts_with(name, side) {
            Some(after(name, side))
        } else {
            None
        }
    } else {
        None
    }
}

fn parse_header_path(line: &[char], mark: &str, side: &str) -> (r: Option<String>)
    ensures
        deep::deep_opt(r) == header_path(line@, mark@, side@),
{
    match strip(line, mark) {
        None => None,
        Some(rest) => {
            let n: usize = rest.len();
            let hi: usize = if n > 0 && rest[n - 1] == '\t' {
                n - 1
            } else {
                n
            };
            let cut: Vec<char> = text::copy_range(rest.as_slice(), 0, hi);
            assert(cut@ =~= without_tab(rest@));
            let name: String = unquote_chars(cut.as_slice());
            let cs: Vec<char> = text::to_chars(name.as_str());
            match strip(cs.as_slice(), side) {
                Some(p) => Some(text::to_text(p.as_slice())),
                None => None,
            }
        },
    }
}

// ---- hunk headers -----------------------------------------------------------------

/// `s` around the first occurrence of `sep`.
pub open spec fn split_once(s: Seq<char>, sep: Seq<char>) -> Option<(Seq<char>, Seq<char>)> {
    match text::find_from(s, sep, 0) {
        Some(k) => Some((s.take(k), s.skip(k + sep.len()))),
        None => None,
    }
}

fn split_once_chars(s: &[char], sep: &str) -> (r: Option<(Vec<char>, Vec<char>)>)
    ensures
        match r {
            Some((a, b)) => split_once(s@, sep@) == Some((a@, b@)),
            None => split_once(s@, sep@) is None,
        },
{
    let p: Vec<char> = text::to_chars(sep);
    match text::find(s, p.as_slice(), 0) {
        Some(k) => {
            let a: Vec<char> = text::copy_range(s, 0, k);
            let total: usize = s.len();
            let b: Vec<char> = text::copy_range(s, k + p.len(), total);
            assert(a@ =~= s@.take(k as int));
            assert(b@ =~= s@.skip(k + p@.len()));
            Some((a, b))
        },
        None => None,
    }
}

/// A line range of a hunk header: `start,count`, or `start` alone for one line.
pub open spec fn line_range(s: Seq<char>) -> Option<(nat, nat)> {
    match split_once(s, ","@) {
        Some((start, count)) => match (
            num::parsed(start, u32::MAX as nat),
            num::parsed(count, u64::MAX as nat),
        ) {
            (Some(a), Some(n)) => Some((a, n)),
            _ => None,
        },
        None => match num::parsed(s, u32::MAX as nat) {
            Some(a) => Some((a, 1)),
            None => None,
        },
    }
}

/// The four numbers of a hunk header `@@ -old +new @@`.
pub open spec fn hunk_header(line: Seq<char>) -> Option<(nat, nat, nat, nat)> {
    if !text::starts_with(line, "@@ -"@) {
        None
    } else {
        match split_once(line.skip(4), " +"@) {
            None => None,
            Some((old_part, rest)) => match split_once(rest, " @@"@) {
                None => None,
                Some((new_part, _)) => match (line_range(old_part), line_range(new_part)) {
                    (Some((os, oc)), Some((ns, nc))) => Some((os, oc, ns, nc)),
                    _ => None,
                },
            },
        }
    }
}

fn parse_range(s: &[char]) -> (r: Option<(u32, u64)>)
    ensures
        match r {
            Some((a, n)) => line_range(s@) == Some((a as nat, n as nat)),
            None => line_range(s@) is None,
        },
{
    match split_once_chars(s, ",") {
        Some((start, count)) => {
            match num::parse_u32(start.as_slice()) {
                Some(a) => match num::parse_bounded(count.as_slice(), u64::MAX) {
                    Some(n) => Some((a, n)),
                    None => None,
                },
                None => None,
            }
        },
        None => match num::parse_u32(s) {
            Some(a) => Some((a, 1)),
            None => None,
        },
    }
}

fn parse_header_chars(line: &[char]) -> (r: Option<(u32, u64, u32, u64)>)
    ensures
        match r {
            Some((os, oc, ns, nc)) => hunk_header(line@) == Some(
                (os as nat, oc as nat, ns as nat, nc as nat),
            ),
            None => hunk_header(line@) is None,
        },
{
    if !text::begins(line, "@@ -") {
        return None;
    }
    proof {
        reveal_strlit("@@ -");
    }
    let rest: Vec<char> = text::copy_range(line, 4, line.len());
    assert(rest@ =~= line@.skip(4));
    match split_once_chars(rest.as_slice(), " +") {
        None => None,
        Some((old_part, rest)) => match split_once_chars(rest.as_slice(), " @@") {
            None => None,
            Some((new_part, _)) => {
                match parse_range(old_part.as_slice()) {
                    None => None,
                    Some((os, oc)) => match parse_range(new_part.as_slice()) {
                        None => None,
                        Some((ns, nc)) => Some((os, oc, ns, nc)),
                    },
                }
            },
        },
    }
}

/// "@@ -12,3 +14,4 @@ fn ctx" -> (12, 3, 14, 4, whole line)
pub fn parse_hunk_header(line: &str) -> (r: Option<(u32, u64, u32, u64, &str)>)
    ensures
        match r {
            Some((os, oc, ns, nc, whole)) => hunk_header(line@) == Some(
                (os as nat, oc as nat, ns as nat, nc as nat),
            ) && whole@ == line@,
            None => hunk_header(line@) is None,
        },
{
    let cs: Vec<char> = text::to_chars(line);
    match parse_header_chars(cs.as_slice()) {
        Some((os, oc, ns, nc)) => Some((os, oc, ns, nc, line)),
        None => None,
    }
}

// ---- unified diffs ----------------------------------------------------------------

/// What a parse has gathered so far. The two `left` counts say how many lines
/// the current hunk still expects on either side; content is only consumed
/// while one of them is nonzero, so file contents can't be mistaken for markers.
#[verifier::ext_equal]
pub struct PatchState {
    pub files: Seq<FileDiffView>,
    pub old_ln: u32,
    pub new_ln: u32,
    pub old_left: u64,
    pub new_left: u64,
}

/// The state before the first line.
pub open spec fn patch_start() -> PatchState {
    PatchState { files: Seq::empty(), old_ln: 0, new_ln: 0, old_left: 0, new_left: 0 }
}

/// The next line number.
pub open spec fn next_ln(n: u32) -> u32 {
    if n == u32::MAX {
        0
    } else {
        (n + 1) as u32
    }
}

/// One less, but not below zero.
pub open spec fn fewer(n: u64) -> u64 {
    if n == 0 {
        0
    } else {
        (n - 1) as u64
    }
}

/// The entry that a `diff --git` line starts.
pub open spec fn fresh_file(path: Seq<char>) -> FileDiffView {
    FileDiffView {
        path,
        old_path: None,
        status: FileStatus::Modified,
        binary: false,
        large: false,
        byte_size: 0,
        untracked_dir: false,
        full_context: false,
        hunks: Seq::empty(),
        additions: 0,
        deletions: 0,
    }
}

/// What follows the prefix `p` of a line that starts with it.
pub open spec fn after(line: Seq<char>, p: Seq<char>) -> Seq<char> {
    line.skip(p.len() as int)
}

/// A file after one of the lines that describe it outside the hunks; `None`
/// if the line is none of these. Header paths are preferred over the guess of
/// the `diff --git` line.
pub open spec fn described(f: FileDiffView, line: Seq<char>) -> Option<FileDiffView> {
    if text::starts_with(line, "new file mode"@) {
        Some(FileDiffView { status: FileStatus::Added, ..f })
    } else if text::starts_with(line, "deleted file mode"@) {
        Some(FileDiffView { status: FileStatus::Deleted, ..f })
    } else if text::starts_with(line, "rename from "@) {
        Some(
            FileDiffView {
                status: FileStatus::Renamed,
                old_path: Some(unquoted(after(line, "rename from "@))),
                ..f
            },
        )
    } else if text::starts_with(line, "rename to "@) {
        Some(FileDiffView { path: unquoted(after(line, "rename to "@)), ..f })
    } else if text::starts_with(line, "Binary files "@) || line == "GIT binary patch"@ {
        Some(FileDiffView { binary: true, ..f })
    } else if let Some(path) = header_path(line, "--- "@, "a/"@) {
        if f.status == FileStatus::Renamed || f.status == FileStatus::Added {
            Some(f)
        } else {
            Some(FileDiffView { path, ..f })
        }
    } else if let Some(path) = header_path(line, "+++ "@, "b/"@) {
        if f.status == FileStatus::Renamed {
            Some(f)
        } else {
            Some(FileDiffView { path, ..f })
        }
    } else {
        None
    }
}

/// The state after a content line of the current hunk.
pub open spec fn content_step(s: PatchState, line: Seq<char>) -> PatchState {
    let f = s.files.last();
    if f.hunks.len() == 0 || line.len() == 0 {
        s
    } else if line[0] == ' ' {
        PatchState {
            files: diff::with_last(
                s.files,
                diff::with_line(
                    f,
                    DiffLineView {
                        origin: ' ',
                        old_lineno: Some(s.old_ln),
                        new_lineno: Some(s.new_ln),
                        content: line.skip(1),
                        expanded_context: false,
                    },
                ),
            ),
            old_ln: next_ln(s.old_ln),
            new_ln: next_ln(s.new_ln),
            old_left: fewer(s.old_left),
            new_left: fewer(s.new_left),
        }
    } else if line[0] == '-' {
        PatchState {
            files: diff::with_last(
                s.files,
                diff::with_line(
                    f,
                    DiffLineView {
                        origin: '-',
                        old_lineno: Some(s.old_ln),
                        new_lineno: None,
                        content: line.skip(1),
                        expanded_context: false,
                    },
                ),
            ),
            old_ln: next_ln(s.old_ln),
            old_left: fewer(s.old_left),
            ..s
        }
    } else if line[0] == '+' {
        PatchState {
            files: diff::with_last(
                s.files,
                diff::with_line(
                    f,
                    DiffLineView {
                        origin: '+',
                        old_lineno: None,
                        new_lineno: Some(s.new_ln),
                        content: line.skip(1),
                        expanded_context: false,
                    },
                ),
            ),
            new_ln: next_ln(s.new_ln),
            new_left: fewer(s.new_left),
            ..s
        }
    } else {
        s
    }
}

/// The state after a line outside the hunks.
pub open spec fn outside_step(s: PatchState, line: Seq<char>) -> PatchState {
    let f = s.files.last();
    match described(f, line) {
        Some(g) => PatchState { files: diff::with_last(s.files, g), ..s },
        None => match hunk_header(line) {
            Some((os, oc, ns, nc)) => PatchState {
                files: diff::with_last(s.files, diff::with_hunk(f, line)),
                old_ln: os as u32,
                new_ln: ns as u32,
                old_left: oc as u64,
                new_left: nc as u64,
            },
            None => s,
        },
    }
}

/// The state after one more line.
pub open spec fn patch_step(s: PatchState, line: Seq<char>) -> PatchState {
    if text::starts_with(line, "diff --git "@) {
        PatchState {
            files: s.files.push(fresh_file(guessed_path(after(line, "diff --git "@)))),
            old_left: 0,
            new_left: 0,
            ..s
        }
    } else if s.files.len() == 0 {
        s
    } else if s.old_left > 0 || s.new_left > 0 {
        content_step(s, line)
    } else {
        outside_step(s, line)
    }
}

/// The state after all the lines.
pub open spec fn patch_run(lines: Seq<Seq<char>>) -> PatchState
    decreases lines.len(),
{
    if lines.len() == 0 {
        patch_start()
    } else {
        patch_step(patch_run(lines.drop_last()), lines.last())
    }
}

/// The files that a unified diff describes.
pub open spec fn patch_files(patch: Seq<char>) -> Seq<FileDiffView> {
    patch_run(text::lines(patch)).files
}

/// While a hunk still expects lines, a line that starts with one of the
/// content signs is content, whatever it looks like otherwise.
pub proof fn lemma_content_is_never_a_header(s: PatchState, line: Seq<char>)
    requires
        s.old_left > 0 || s.new_left > 0,
        s.files.len() > 0,
        s.files.last().hunks.len() > 0,
        line.len() > 0,
        diff::content_origin(line[0]),
    ensures
        patch_step(s, line).files.len() == s.files.len(),
        patch_step(s, line).files.last().path == s.files.last().path,
        patch_step(s, line).files.last().status == s.files.last().status,
        patch_step(s, line).files.last().hunks.len() == s.files.last().hunks.len(),
        patch_step(s, line).files.last().hunks.last().lines.last().content == line.skip(1),
        patch_step(s, line).files.last().hunks.last().lines.last().origin == line[0],
{
    reveal_strlit("diff --git ");
    assert("diff --git "@[0] == 'd');
    if text::starts_with(line, "diff --git "@) {
        assert(line.subrange(0, "diff --git "@.len() as int)[0] == 'd');
    }
}

fn strip(line: &[char], p: &str) -> (r: Option<Vec<char>>)
    ensures
        match r {
            Some(rest) => text::starts_with(line@, p@) && rest@ == after(line@, p@),
            None => !text::starts_with(line@, p@),
        },
{
    let pc: Vec<char> = text::to_chars(p);
    if text::matches_at(line, pc.as_slice(), 0) {
        let rest: Vec<char> = text::copy_range(line, pc.len(), line.len());
        assert(rest@ =~= after(line@, p@));
        Some(rest)
    } else {
        None
    }
}

fn describe(file: &mut FileDiff, line: &[char]) -> (r: bool)
    ensures
        match described(old(file)@, line@) {
            Some(g) => r && final(file)@ == g,
            None => !r && final(file)@ == old(file)@,
        },
{
    if text::begins(line, "new file mode") {
        file.status = FileStatus::Added;
        return true;
    }
    if text::begins(line, "deleted file mode") {
        file.status = FileStatus::Deleted;
        return true;
    }
    if let Some(p) = strip(line, "rename from ") {
        file.status = FileStatus::Renamed;
        file.old_path = Some(unquote_chars(p.as_slice()));
        return true;
    }
    if let Some(p) = strip(line, "rename to ") {
        file.path = unquote_chars(p.as_slice());
        return true;
    }
    let marker: Vec<char> = text::to_chars("GIT binary patch");
    if text::begins(line, "Binary files ") || text::same_chars(line, marker.as_slice()) {
        file.binary = true;
        return true;
    }
    if let Some(p) = parse_header_path(line, "--- ", "a/") {
        if file.status != FileStatus::Renamed && file.status != FileStatus::Added {
            file.path = p;
        }
        return true;
    }
    if let Some(p) = parse_header_path(line, "+++ ", "b/") {
        if file.status != FileStatus::Renamed {
            file.path = p;
        }
        return true;
    }
    false
}

fn new_file(path: String) -> (r: FileDiff)
    ensures
        r@ == fresh_file(path@),
{
    let f = FileDiff {
        path,
        old_path: None,
        status: FileStatus::Modified,
        binary: false,
        large: false,
        byte_size: 0,
        untracked_dir: false,
        full_context: false,
        hunks: Vec::new(),
        additions: 0,
        deletions: 0,
    };
    assert(f@ =~= fresh_file(path@));
    f
}

/// A parse in progress.
struct Patch {
    files: Vec<FileDiff>,
    old_ln: u32,
    new_ln: u32,
    old_left: u64,
    new_left: u64,
}

impl View for Patch {
    type V = PatchState;

    closed spec fn view(&self) -> PatchState {
        PatchState {
            files: deep::deep(self.files@),
            old_ln: self.old_ln,
            new_ln: self.new_ln,
            old_left: self.old_left,
            new_left: self.new_left,
        }
    }
}

fn decrement(n: u64) -> (r: u64)
    ensures
        r == fewer(n),
{
    if n == 0 {
        0
    } else {
        n - 1
    }
}

impl Patch {
    fn content(&mut self, line: &[char])
        requires
            old(self)@.files.len() > 0,
        ensures
            final(self)@ == content_step(old(self)@, line@),
    {
        let ghost s = self@;
        match self.files.pop() {
            None => {},
            Some(mut file) => {
                let ghost f = file@;
                if file.hunks.len() == 0 || line.len() == 0 || (line[0] != ' ' && line[0] != '-'
                    && line[0] != '+') {
                    self.files.push(file);
                    assert(self@ =~= s);
                    return;
                }
                let origin: char = line[0];
                let old_lineno: Option<u32> = if origin == '+' {
                    None
                } else {
                    Some(self.old_ln)
                };
                let new_lineno: Option<u32> = if origin == '-' {
                    None
                } else {
                    Some(self.new_ln)
                };
                let added = DiffLine {
                    origin,
                    old_lineno,
                    new_lineno,
                    content: text::text_range(line, 1, line.len()),
                    expanded_context: false,
                };
                assert(added@.content =~= line@.skip(1));
                file.push_line(added);
                self.files.push(file);
                if origin != '+' {
                    self.old_ln = self.old_ln.wrapping_add(1);
                    self.old_left = decrement(self.old_left);
                }
                if origin != '-' {
                    self.new_ln = self.new_ln.wrapping_add(1);
                    self.new_left = decrement(self.new_left);
                }
                assert(self@ =~= content_step(s, line@));
            },
        }
    }

    fn outside(&mut self, line: &[char])
        requires
            old(self)@.files.len() > 0,
        ensures
            final(self)@ == outside_step(old(self)@, line@),
    {
        let ghost s = self@;
        match self.files.pop() {
            None => {},
            Some(mut file) => {
                if describe(&mut file, line) {
                    self.files.push(file);
                    assert(self@ =~= outside_step(s, line@));
                    return;
                }
                match parse_header_chars(line) {
                    Some((os, oc, ns, nc)) => {
                        self.old_ln = os;
                        self.new_ln = ns;
                        self.old_left = oc;
                        self.new_left = nc;
                        file.push_hunk(text::to_text(line));
                        self.files.push(file);
                        assert(self@ =~= outside_step(s, line@));
                    },
                    None => {
                        self.files.push(file);
                        assert(self@ =~= s);
                    },
                }
            },
        }
    }

    fn step(&mut self, line: &[char])
        ensures
            final(self)@ == patch_step(old(self)@, line@),
    {
        let ghost s = self@;
        if let Some(rest) = strip(line, "diff --git ") {
            self.files.push(new_file(guess_path_chars(rest.as_slice())));
            self.old_left = 0;
            self.new_left = 0;
            assert(self@ =~= patch_step(s, line@));
            return;
        }
        if self.files.len() == 0 {
            return;
        }
        if self.old_left > 0 || self.new_left > 0 {
            self.content(line);
        } else {
            self.outside(line);
        }
    }
}

/// Parse `git diff -p` output into FileDiffs (paths, statuses, hunks, lines).
pub fn parse_patch(patch: &str) -> (r: Vec<FileDiff>)
    ensures
        deep::deep(r@) == patch_files(patch@),
{
    let cs: Vec<char> = text::to_chars(patch);
    let lines: Vec<Vec<char>> = text::line_chars(cs.as_slice());
    let ghost all = deep::deep(lines@);
    let mut state = Patch { files: Vec::new(), old_ln: 0, new_ln: 0, old_left: 0, new_left: 0 };
    assert(state@ =~= patch_start());
    let mut i: usize = 0;
    while i < lines.len()
        invariant
            i <= lines@.len(),
            all == deep::deep(lines@),
            state@ == patch_run(all.take(i as int)),
        decreases lines@.len() - i,
    {
        assert(all.take(i + 1).drop_last() =~= all.take(i as int));
        assert(all.take(i + 1).last() == lines@[i as int]@);
        state.step(lines[i].as_slice());
        i += 1;
    }
    assert(all.take(i as int) =~= all);
    state.files
}

} // verus!
