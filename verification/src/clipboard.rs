//! Copying to the clipboard: which way to take, and the terminal's escape
//! sequence.

use crate::num;
use crate::text;
use base64::Engine;
use vstd::prelude::*;

verus! {

/// Keep remote copies bounded. Terminals commonly cap OSC 52 payloads, and
/// emitting an unbounded review into the terminal can stall the UI.
pub const MAX_OSC52_BYTES: usize = 100_000;

/// The ways to the clipboard.
#[derive(Clone, Copy, Debug, PartialEq, Eq, Structural)]
pub enum Route {
    /// The desktop's clipboard.
    System,
    /// The terminal's escape sequence.
    Osc52,
}

/// What a copy does next.
#[derive(Debug)]
pub enum CopyStep {
    Try(Route),
    Done,
    Failed(String),
}

/// The way that is tried at attempt `n`: the desktop first, but the terminal
/// in a remote session.
pub open spec fn route(remote: bool, n: int) -> Route {
    if remote == (n == 0) {
        Route::Osc52
    } else {
        Route::System
    }
}

/// A way by name.
pub open spec fn route_name(r: Route) -> Seq<char> {
    match r {
        Route::System => "system clipboard"@,
        Route::Osc52 => "OSC 52"@,
    }
}

/// The message when both ways failed, in the order in which they were tried.
pub open spec fn copy_error(remote: bool, first: Seq<char>, second: Seq<char>) -> Seq<char> {
    route_name(route(remote, 0)) + ": "@ + first + "; "@ + route_name(route(remote, 1)) + ": "@
        + second
}

fn name_of(r: Route) -> (s: &'static str)
    ensures
        s@ == route_name(r),
{
    match r {
        Route::System => "system clipboard",
        Route::Osc52 => "OSC 52",
    }
}

/// Copies using the desktop clipboard when available, with OSC 52 as the
/// terminal-native path for SSH sessions and as a fallback elsewhere. `tried`
/// holds how the attempts so far went.
pub fn copy(remote: bool, tried: &[Result<(), String>]) -> (r: CopyStep)
    ensures
        ({
            let n = tried@.len();
            if n == 0 {
                r == CopyStep::Try(route(remote, 0))
            } else if n == 1 && tried@[0] is Err {
                r == CopyStep::Try(route(remote, 1))
            } else {
                match (tried@[0], tried@[1]) {
                    (Err(a), Err(b)) => r matches CopyStep::Failed(e) && e@ == copy_error(
                        remote,
                        a@,
                        b@,
                    ),
                    _ => r is Done,
                }
            }
        }),
{
    let (first, second): (Route, Route) = if remote {
        (Route::Osc52, Route::System)
    } else {
        (Route::System, Route::Osc52)
    };
    if tried.len() == 0 {
        return CopyStep::Try(first);
    }
    match &tried[0] {
        Ok(()) => CopyStep::Done,
        Err(a) => {
            if tried.len() == 1 {
                return CopyStep::Try(second);
            }
            match &tried[1] {
                Ok(()) => CopyStep::Done,
                Err(b) => {
                    let mut e: String = text::copy(name_of(first));
                    text::put(&mut e, ": ");
                    text::put(&mut e, a.as_str());
                    text::put(&mut e, "; ");
                    text::put(&mut e, name_of(second));
                    text::put(&mut e, ": ");
                    text::put(&mut e, b.as_str());
                    CopyStep::Failed(e)
                },
            }
        },
    }
}

/// The character for six bits, in the standard alphabet.
pub open spec fn sextet(n: int) -> char {
    if n < 26 {
        ('A' as int + n) as char
    } else if n < 52 {
        ('a' as int + n - 26) as char
    } else if n < 62 {
        ('0' as int + n - 52) as char
    } else if n == 62 {
        '+'
    } else {
        '/'
    }
}

/// Bytes in standard base64 with padding: every three bytes make four
/// characters, and `=` fills up the last four.
pub open spec fn base64(b: Seq<u8>) -> Seq<char>
    decreases b.len(),
{
    let x = b[0] as int;
    let y = b[1] as int;
    let z = b[2] as int;
    if b.len() == 0 {
        Seq::empty()
    } else if b.len() == 1 {
        seq![sextet(x / 4), sextet(x % 4 * 16), '=', '=']
    } else if b.len() == 2 {
        seq![sextet(x / 4), sextet(x % 4 * 16 + y / 16), sextet(y % 16 * 4), '=']
    } else {
        seq![
            sextet(x / 4),
            sextet(x % 4 * 16 + y / 16),
            sextet(y % 16 * 4 + z / 64),
            sextet(z % 64),
        ] + base64(b.skip(3))
    }
}

/// A text's UTF-8 bytes in standard base64 with padding.
pub open spec fn base64_of(s: Seq<char>) -> Seq<char> {
    base64(vstd::utf8::encode_utf8(s))
}

/// `Engine::encode` of base64's standard engine: the standard alphabet with
/// padding, over the UTF-8 bytes of the text. It panics where the encoded text
/// is longer than the largest allocation.
#[verifier::external_body]
fn encode(s: &str) -> (r: String)
    requires
        (vstd::utf8::encode_utf8(s@).len() + 2) / 3 * 4 <= isize::MAX,
    ensures
        r@ == base64_of(s@),
{
    base64::engine::general_purpose::STANDARD.encode(s)
}

/// The escape sequence for an encoded text. tmux gets it wrapped for
/// passthrough: its prefix contributes the first of the two escape bytes
/// required before the nested sequence.
pub open spec fn sequence(encoded: Seq<char>, tmux: bool) -> Seq<char> {
    let osc = "\x1b]52;c;"@ + encoded + "\x07"@;
    if tmux {
        "\x1bPtmux;\x1b"@ + osc + "\x1b\\"@
    } else {
        osc
    }
}

/// The escape sequence for a text that is encoded already.
pub fn wrap_sequence(encoded: &str, tmux: bool) -> (r: String)
    ensures
        r@ == sequence(encoded@, tmux),
{
    let mut osc: String = text::copy("\x1b]52;c;");
    text::put(&mut osc, encoded);
    text::put(&mut osc, "\x07");
    if tmux {
        let mut out: String = text::copy("\x1bPtmux;\x1b");
        text::put(&mut out, osc.as_str());
        text::put(&mut out, "\x1b\\");
        out
    } else {
        osc
    }
}

/// The escape sequence that copies a text.
pub fn osc52_sequence(s: &str, tmux: bool) -> (r: String)
    requires
        (vstd::utf8::encode_utf8(s@).len() + 2) / 3 * 4 <= isize::MAX,
    ensures
        r@ == sequence(base64_of(s@), tmux),
{
    wrap_sequence(encode(s).as_str(), tmux)
}

/// The message for a text over the limit.
pub open spec fn too_large(n: nat) -> Seq<char> {
    "copy is "@ + num::decimal(n) + " bytes; remote limit is 100000"@
}

/// What to write to the terminal for a copy; refused over the limit.
pub fn write_osc52(s: &str, tmux: bool) -> (r: Result<String, String>)
    ensures
        ({
            let n = vstd::utf8::encode_utf8(s@).len();
            if n > MAX_OSC52_BYTES {
                r matches Err(e) && e@ == too_large(n)
            } else {
                r matches Ok(q) && q@ == sequence(base64_of(s@), tmux)
            }
        }),
{
    let n: usize = s.as_bytes().len();
    if n > MAX_OSC52_BYTES {
        let mut e: String = text::copy("copy is ");
        text::put(&mut e, num::decimal_text(n as u64).as_str());
        text::put(&mut e, " bytes; remote limit is 100000");
        return Err(e);
    }
    Ok(osc52_sequence(s, tmux))
}

} // verus!
