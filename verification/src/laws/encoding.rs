//! What goes to the clipboard.

use crate::clipboard;
use crate::clipboard::Route;
use vstd::prelude::*;

verus! {

/// The six bits that a character stands for.
pub open spec fn bits(c: char) -> int {
    if 'A' <= c <= 'Z' {
        c as int - 'A' as int
    } else if 'a' <= c <= 'z' {
        c as int - 'a' as int + 26
    } else if '0' <= c <= '9' {
        c as int - '0' as int + 52
    } else if c == '+' {
        62
    } else {
        63
    }
}

/// The bytes that a padded text of fours stands for.
pub open spec fn decoded(s: Seq<char>) -> Seq<u8>
    decreases s.len(),
{
    if s.len() < 4 {
        Seq::empty()
    } else {
        let a = bits(s[0]);
        let b = bits(s[1]);
        let c = bits(s[2]);
        let d = bits(s[3]);
        let x = (a * 4 + b / 16) as u8;
        let y = (b % 16 * 16 + c / 4) as u8;
        let z = (c % 4 * 64 + d) as u8;
        if s[2] == '=' {
            seq![x]
        } else if s[3] == '=' {
            seq![x, y]
        } else {
            seq![x, y, z] + decoded(s.skip(4))
        }
    }
}

proof fn lemma_sextet(n: int)
    requires
        0 <= n < 64,
    ensures
        bits(clipboard::sextet(n)) == n,
        clipboard::sextet(n) != '=',
{
    let c = clipboard::sextet(n);
    if n < 26 {
        assert(c as int == 'A' as int + n);
    } else if n < 52 {
        assert(c as int == 'a' as int + n - 26);
    } else if n < 62 {
        assert(c as int == '0' as int + n - 52);
    }
}

/// What is encoded reads as the bytes it was made of.
pub proof fn lemma_decoding_undoes_encoding(b: Seq<u8>)
    ensures
        decoded(clipboard::base64(b)) == b,
        clipboard::base64(b).len() == (b.len() + 2) / 3 * 4,
    decreases b.len(),
{
    let s = clipboard::base64(b);
    if b.len() == 0 {
        assert(decoded(s) =~= b);
    } else {
        let x = b[0] as int;
        lemma_sextet(x / 4);
        if b.len() == 1 {
            lemma_sextet(x % 4 * 16);
            assert(decoded(s) =~= b);
        } else {
            let y = b[1] as int;
            lemma_sextet(x % 4 * 16 + y / 16);
            if b.len() == 2 {
                lemma_sextet(y % 16 * 4);
                assert(decoded(s) =~= b);
            } else {
                let z = b[2] as int;
                lemma_sextet(y % 16 * 4 + z / 64);
                lemma_sextet(z % 64);
                lemma_decoding_undoes_encoding(b.skip(3));
                assert(s.skip(4) =~= clipboard::base64(b.skip(3)));
                assert(decoded(s) =~= b);
            }
        }
    }
}

/// Both ways are tried: the desktop's first, the terminal's in a remote session.
pub proof fn lemma_routes(remote: bool)
    ensures
        clipboard::route(remote, 0) != clipboard::route(remote, 1),
        clipboard::route(true, 0) == Route::Osc52,
        clipboard::route(false, 0) == Route::System,
{
}

/// The sequence carries the encoded text as it is, between the start of the
/// clipboard sequence and its end; tmux gets the same sequence in an envelope,
/// with its escape doubled.
pub proof fn lemma_sequence(encoded: Seq<char>)
    ensures
        ({
            let plain = clipboard::sequence(encoded, false);
            let wrapped = clipboard::sequence(encoded, true);
            &&& plain == "\x1b]52;c;"@ + encoded + "\x07"@
            &&& wrapped == "\x1bPtmux;\x1b"@ + plain + "\x1b\\"@
        }),
{
}

} // verus!
