//! What git's status output says.

use crate::git::cli;
use crate::git::cli::StatusView;
use crate::laws::splitting;
use crate::text;
use vstd::prelude::*;

verus! {

/// A status entry as git writes it: two letters, the path, and the path it was
/// renamed or copied from.
pub struct Entry {
    pub x: char,
    pub y: char,
    pub path: Seq<char>,
    pub original: Option<Seq<char>>,
}

impl Entry {
    /// Letters and paths as git has them.
    pub open spec fn ok(self) -> bool {
        &&& '\0' < self.x && self.x < '\u{80}'
        &&& '\0' < self.y && self.y < '\u{80}'
        &&& self.path.len() > 0
        &&& !self.path.contains('\0')
        &&& self.original is Some <==> (self.x == 'R' || self.x == 'C' || self.y == 'R' || self.y
            == 'C')
        &&& self.original matches Some(p) ==> !p.contains('\0')
    }

    /// The first field of the entry.
    pub open spec fn field(self) -> Seq<char> {
        seq![self.x, self.y, ' '] + self.path
    }

    /// The entry as it is written.
    pub open spec fn printed(self) -> Seq<char> {
        match self.original {
            Some(p) => self.field().push('\0') + p.push('\0'),
            None => self.field().push('\0'),
        }
    }

    /// What is read of the entry.
    pub open spec fn read(self) -> StatusView {
        StatusView { x: self.x, y: self.y, path: self.path }
    }
}

/// A whole status output.
pub open spec fn printed(entries: Seq<Entry>) -> Seq<char>
    decreases entries.len(),
{
    if entries.len() == 0 {
        Seq::empty()
    } else {
        entries[0].printed() + printed(entries.skip(1))
    }
}

proof fn lemma_ascii(c: char, rest: Seq<char>)
    requires
        c < '\u{80}',
    ensures
        ({
            let b = cli::utf8(seq![c] + rest);
            &&& b.len() == 1 + cli::utf8(rest).len()
            &&& b.skip(1) == cli::utf8(rest)
            &&& vstd::utf8::valid_utf8(b)
            &&& vstd::utf8::pop_first_scalar(b) == cli::utf8(rest)
            &&& vstd::utf8::length_of_first_scalar(b) == 1
        }),
{
    let s = seq![c] + rest;
    assert(s.drop_first() =~= rest);
    vstd::utf8::encode_utf8_first_scalar(s);
    vstd::utf8::encode_utf8_valid_utf8(s);
    assert(vstd::utf8::has_width_1_encoding(c as u32));
    assert(cli::utf8(s).skip(1) =~= cli::utf8(rest));
    assert(vstd::utf8::pop_first_scalar(cli::utf8(s)) =~= cli::utf8(rest));
}

proof fn lemma_nonempty(s: Seq<char>)
    requires
        s.len() > 0,
    ensures
        cli::utf8(s).len() > 0,
{
    vstd::utf8::encode_utf8_first_scalar(s);
}

proof fn lemma_field(e: Entry)
    requires
        e.ok(),
    ensures
        cli::utf8(e.field()).len() >= 4,
        cli::status_entry(e.field()) == e.read(),
        vstd::utf8::is_char_boundary(cli::utf8(e.field()), 3),
{
    let c = seq![' '] + e.path;
    let b = seq![e.y] + c;
    let a = seq![e.x] + b;
    assert(a =~= e.field());
    lemma_ascii(' ', e.path);
    lemma_ascii(e.y, c);
    lemma_ascii(e.x, b);
    lemma_nonempty(e.path);
    let bytes = cli::utf8(a);
    assert(bytes.skip(3) =~= bytes.skip(1).skip(1).skip(1));
    vstd::utf8::encode_utf8_decode_utf8(e.path);
    vstd::utf8::encode_utf8_valid_utf8(e.path);
    vstd::utf8::is_char_boundary_start_end_of_seq(cli::utf8(e.path));
    reveal_with_fuel(vstd::utf8::is_char_boundary, 4);
    assert(vstd::utf8::is_char_boundary(cli::utf8(c), 1));
    assert(vstd::utf8::is_char_boundary(cli::utf8(b), 2));
    assert(vstd::utf8::is_char_boundary(cli::utf8(a), 3));
}

proof fn lemma_entries_past(a: Seq<Seq<char>>, b: Seq<Seq<char>>, i: int)
    requires
        0 <= i,
    ensures
        cli::status_entries(a + b, a.len() + i) == cli::status_entries(b, i),
        cli::well_cut(a + b, a.len() + i) == cli::well_cut(b, i),
    decreases b.len() + 2 - i,
{
    if i < b.len() {
        assert((a + b)[a.len() + i] == b[i]);
        lemma_entries_past(a, b, i + 1);
        lemma_entries_past(a, b, i + 2);
    }
}

/// Reading a status output gives the entries that were written, in order: the
/// two letters and the path of each, whatever characters it holds.
pub proof fn lemma_status_reads_as_printed(entries: Seq<Entry>)
    requires
        forall|i: int| 0 <= i < entries.len() ==> (#[trigger] entries[i]).ok(),
    ensures
        cli::status_well_formed(printed(entries)),
        cli::status_of(printed(entries)) == entries.map_values(|e: Entry| e.read()),
    decreases entries.len(),
{
    let out = printed(entries);
    if entries.len() == 0 {
        splitting::lemma_split_one(out, '\0');
        reveal_with_fuel(cli::status_entries, 2);
        reveal_with_fuel(cli::well_cut, 2);
        assert(text::split(out, '\0')[0] == Seq::<char>::empty());
        assert(cli::utf8(Seq::<char>::empty()).len() == 0);
        assert(cli::status_of(out) =~= entries.map_values(|e: Entry| e.read()));
    } else {
        let e = entries[0];
        let rest = entries.skip(1);
        assert forall|i: int| 0 <= i < rest.len() implies (#[trigger] rest[i]).ok() by {
            assert(rest[i] == entries[i + 1]);
        }
        lemma_status_reads_as_printed(rest);
        lemma_field(e);
        let tail = printed(rest);
        let f = e.field();
        assert(!f.contains('\0')) by {
            if f.contains('\0') {
                let i = f.index_of('\0');
                assert(f[i] == '\0');
                if i >= 3 {
                    assert(f[i] == e.path[i - 3]);
                    assert(e.path.contains('\0'));
                }
            }
        }
        let fields = text::split(tail, '\0');
        match e.original {
            Some(p) => {
                assert(out =~= f.push('\0') + (p.push('\0') + tail));
                splitting::lemma_split_first(f, p.push('\0') + tail, '\0');
                splitting::lemma_split_first(p, tail, '\0');
                let all = text::split(out, '\0');
                assert(all =~= seq![f, p] + fields);
                lemma_entries_past(seq![f, p], fields, 0);
                assert(all[0] == f);
                assert(cli::status_entries(all, 0) == seq![e.read()] + cli::status_entries(all, 2));
            },
            None => {
                splitting::lemma_split_first(f, tail, '\0');
                let all = text::split(out, '\0');
                assert(all =~= seq![f] + fields);
                lemma_entries_past(seq![f], fields, 0);
                assert(all[0] == f);
                assert(cli::status_entries(all, 0) == seq![e.read()] + cli::status_entries(all, 1));
            },
        }
        assert(entries.map_values(|e: Entry| e.read()) =~= seq![e.read()] + rest.map_values(
            |e: Entry| e.read(),
        ));
    }
}

/// Which entries count: all that have a letter as uncommitted; as staged those
/// whose first letter is neither a space nor a question mark; as untracked
/// those marked `??`, which are never staged.
pub proof fn lemma_what_counts(e: StatusView)
    ensures
        cli::is_uncommitted(e) <==> !(e.x == ' ' && e.y == ' '),
        cli::is_staged(e) <==> !(e.x == ' ' || e.x == '?'),
        cli::is_untracked_entry(e) <==> seq![e.x, e.y] == seq!['?', '?'],
        cli::is_untracked_entry(e) ==> cli::is_uncommitted(e) && !cli::is_staged(e),
{
    if seq![e.x, e.y] == seq!['?', '?'] {
        assert(seq![e.x, e.y][0] == '?' && seq![e.x, e.y][1] == '?');
    }
}

/// The untracked paths are those of the entries marked `??`, in order.
pub proof fn lemma_untracked_paths(entries: Seq<StatusView>)
    ensures
        cli::untracked_of(entries) == entries.filter(
            |e: StatusView| e.x == '?' && e.y == '?',
        ).map_values(|e: StatusView| e.path),
    decreases entries.len(),
{
    reveal(Seq::filter);
    if entries.len() > 0 {
        lemma_untracked_paths(entries.drop_last());
    }
    assert(cli::untracked_of(entries) =~= entries.filter(
        |e: StatusView| e.x == '?' && e.y == '?',
    ).map_values(|e: StatusView| e.path));
}

} // verus!
