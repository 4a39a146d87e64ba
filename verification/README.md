# gittre

A lean git review TUI: read diffs, leave comments, export them as markdown.

The logic is a library of verified Rust. Every function states what it returns
or changes over mathematical models of its data, and Verus proves it:

- `src/git/` — parsing patches and `git status`, assembling diffs, scopes and
  what is diffed for each, fork points, revision ranges, the commit list.
- `src/comments.rs`, `src/store.rs`, `src/markdown.rs` — review comments: how
  they find their lines again after the code changed, how they are kept, and
  how they are exported.
- `src/ui/` — the review stream, the file tree, pickers, the comment editor,
  popups, the hint bar: what is shown, as lines of styled text.
- `src/app/` — the application as a state machine. Each handler takes an event,
  changes the state and returns the tasks that are to be done outside; the
  answers come back as events.
- `src/keymap.rs`, `src/event.rs`, `src/start.rs`, `src/clipboard.rs` — key
  bindings, load scheduling, the start screen, copying to the clipboard.

Properties that span several functions stand as public proof functions, in
`src/app/laws.rs`, `src/app/session_laws.rs`, `src/ui/stream_laws.rs`,
`src/ui/selection_laws.rs`, `src/git/patch_laws.rs`, `src/git/numbering.rs` and
beside the functions they speak of.

What is not proved: the contracts of calls into `base64`, `syntect`,
`unicode-width` and a few functions of the standard library. Each such call
stands in a small function marked `external_body`, except for `String::push`,
which has an `assume_specification`; a comment beside each says what is claimed.

`app/` is the program around the library: the command line, the terminal, git
and the file system. `tests/` exercises the library from outside.
