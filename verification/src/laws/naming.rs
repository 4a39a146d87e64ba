//! Which grammar a file is colored with.

use crate::laws::splitting;
use crate::text;
use crate::ui::highlight;
use vstd::prelude::*;

verus! {

proof fn lemma_last_dot(s: Seq<char>, at: int, n: int)
    requires
        0 <= at < n <= s.len(),
        s[at] == '.',
        forall|i: int| at < i < n ==> s[i] != '.',
    ensures
        highlight::last_dot(s, n) == Some(at),
    decreases n,
{
    if at < n - 1 {
        lemma_last_dot(s, at, n - 1);
    }
}

proof fn lemma_no_dot(s: Seq<char>, n: int)
    requires
        0 <= n <= s.len(),
        !s.contains('.'),
    ensures
        highlight::last_dot(s, n) is None,
    decreases n,
{
    if n > 0 {
        assert(s.contains(s[n - 1]));
        lemma_no_dot(s, n - 1);
    }
}

/// The directories of a path, each with its slash.
pub open spec fn below(dirs: Seq<Seq<char>>, name: Seq<char>) -> Seq<char> {
    splitting::separated(dirs.push(name), '/')
}

proof fn lemma_name(dirs: Seq<Seq<char>>, name: Seq<char>)
    requires
        forall|i: int| 0 <= i < dirs.len() ==> !(#[trigger] dirs[i]).contains('/'),
        !name.contains('/'),
        name.len() > 0,
        name != seq!['.'],
    ensures
        highlight::last_component(text::split(below(dirs, name), '/')) == Some(name),
{
    let all = dirs.push(name);
    assert forall|i: int| 0 <= i < all.len() implies !(#[trigger] all[i]).contains('/') by {
        if i < dirs.len() {
            assert(all[i] == dirs[i]);
        }
    }
    splitting::lemma_split_undoes_join(all, '/');
    assert(all.last() == name);
}

/// The extension of a file is what follows the last dot of its name, whatever
/// directories it is in; a name that starts with its only dot has none, nor has
/// one without a dot.
pub proof fn lemma_extension(dirs: Seq<Seq<char>>, stem: Seq<char>, ext: Seq<char>)
    requires
        forall|i: int| 0 <= i < dirs.len() ==> !(#[trigger] dirs[i]).contains('/'),
        stem.len() > 0,
        !stem.contains('/'),
        !ext.contains('/'),
        !ext.contains('.'),
        ext.len() > 0,
    ensures
        highlight::extension(below(dirs, stem.push('.') + ext)) == Some(ext),
        !stem.contains('.') ==> highlight::extension(below(dirs, stem)) is None,
        highlight::extension(below(dirs, seq!['.'] + ext)) is None,
{
    let name = stem.push('.') + ext;
    let at = stem.len() as int;
    lemma_no_slash(stem, ext);
    lemma_name(dirs, name);
    assert forall|i: int| at < i < name.len() implies name[i] != '.' by {
        assert(name[i] == ext[i - at - 1]);
        assert(ext.contains(ext[i - at - 1]));
    }
    lemma_last_dot(name, at, name.len() as int);
    assert(name.skip(at + 1) =~= ext);
    assert(name != seq!['.', '.']) by {
        if name == seq!['.', '.'] {
            assert(name[at + 1] == ext[0]);
            assert(ext.contains(ext[0]));
        }
    }
    if !stem.contains('.') {
        assert(stem != seq!['.'] && stem != seq!['.', '.']) by {
            assert(stem.contains(stem[0]));
        }
        lemma_name(dirs, stem);
        lemma_no_dot(stem, stem.len() as int);
    }
    let hidden = seq!['.'] + ext;
    assert(!hidden.contains('/')) by {
        if hidden.contains('/') {
            let i = hidden.index_of('/');
            assert(hidden[i] == '/');
            assert(hidden[i] == ext[i - 1]);
            assert(ext.contains('/'));
        }
    }
    assert(hidden[1] == ext[0]);
    assert(ext.contains(ext[0]));
    assert(hidden != seq!['.'] && hidden != seq!['.', '.']);
    lemma_name(dirs, hidden);
    assert forall|i: int| 0 < i < hidden.len() implies hidden[i] != '.' by {
        assert(hidden[i] == ext[i - 1]);
        assert(ext.contains(ext[i - 1]));
    }
    lemma_last_dot(hidden, 0, hidden.len() as int);
}

proof fn lemma_no_slash(stem: Seq<char>, ext: Seq<char>)
    requires
        stem.len() > 0,
        !stem.contains('/'),
        !ext.contains('/'),
        ext.len() > 0,
    ensures
        !(stem.push('.') + ext).contains('/'),
        (stem.push('.') + ext) != seq!['.'],
{
    let name = stem.push('.') + ext;
    if name.contains('/') {
        let i = name.index_of('/');
        assert(name[i] == '/');
        if i < stem.len() {
            assert(name[i] == stem[i]);
            assert(stem.contains('/'));
        } else if i > stem.len() {
            assert(name[i] == ext[i - stem.len() - 1]);
            assert(ext.contains('/'));
        }
    }
    assert(name.len() >= 3);
}

/// A terminal has all colors where it says `truecolor` or `24bit` anywhere.
pub proof fn lemma_truecolor(a: Seq<char>, b: Seq<char>, s: Seq<char>)
    ensures
        highlight::is_truecolor(a + "truecolor"@ + b),
        highlight::is_truecolor(a + "24bit"@ + b),
        highlight::is_truecolor(s) ==> (exists|i: int|
            #[trigger] text::occurs_at(s, "truecolor"@, i)) || (exists|i: int|
            #[trigger] text::occurs_at(s, "24bit"@, i)),
{
    let x = a + "truecolor"@ + b;
    let y = a + "24bit"@ + b;
    let n = a.len() as int;
    assert(x.subrange(n, n + "truecolor"@.len()) =~= "truecolor"@);
    assert(y.subrange(n, n + "24bit"@.len()) =~= "24bit"@);
    text::lemma_find_from(x, "truecolor"@, 0);
    text::lemma_find_from(y, "24bit"@, 0);
    assert(text::occurs_at(x, "truecolor"@, n));
    assert(text::occurs_at(y, "24bit"@, n));
    text::lemma_find_from(s, "truecolor"@, 0);
    text::lemma_find_from(s, "24bit"@, 0);
    if text::find_from(s, "truecolor"@, 0) is Some {
        assert(text::occurs_at(s, "truecolor"@, text::find_from(s, "truecolor"@, 0)->0));
    } else if text::find_from(s, "24bit"@, 0) is Some {
        let k = text::find_from(s, "24bit"@, 0)->0;
        assert(text::occurs_at(s, "24bit"@, k));
    }
}

} // verus!
