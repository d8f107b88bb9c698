# mergify-stack

The rules of stacked pull requests, verified with Verus. A stack is a branch
whose commits each become one pull request, every one of them on top of the one
below. The commits are told apart by the `Change-Id` trailer of their messages.

- `src/` decides: what belongs to which pull request, what a push has to do and
  in which order, how a rebase is edited, what the comments say and how they are
  read back. Every function states in its contract what it returns, and the laws
  that span several functions are proved at the end of each module.
- `src/outside.rs` holds the calls into other crates. What is said of them there
  is taken on trust.
- `app/` does what the library decides: it runs git, talks to GitHub, reads and
  writes files and draws on the terminal.
- `tests/` runs the library on concrete values. `tests/patterns.rs` and
  `tests/text.rs` compare its grammars with the crates that implement them.
