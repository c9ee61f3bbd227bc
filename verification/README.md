# lre

A regular-expression library for byte texts and UTF-16LE ("wide") texts with
ECMAScript syntax and flags. The matching itself is done by the `regress`
crate; everything around it is written in Verus and proved against its
contracts.

The API is that of a binding to QuickJS's `libregexp`, whose C sources are not
part of this project; `regress` (a pure-Rust ECMAScript engine, with its
`utf16` feature) stands in for it. What follows from that:

- compile error texts are the engine's own (for `(`, "Unbalanced
  parenthesis"); the library's own checks give "malformed unicode char" and
  "too many captures";
- a search never fails: `MemoryError` and `TimeoutError` remain in the error
  type (and come from `RegexError::from_c_error`) but no search produces them;
- there is no bytecode: a compiled regex keeps its pattern as code points and
  each search hands it to the engine again, so there is no `bytecode()`
  accessor and `exec` takes no callback pointer;
- the number of capture groups and their names come from the library's own
  scan of the pattern.

The layout:

- `src/flags.rs`: the flag set, its builders and queries.
- `src/encoding.rs`: the pattern encoding (UTF-8 layout with surrogate code
  points allowed), its encoder and decoder, and the laws that tie them to
  UTF-8 and UTF-16.
- `src/pattern.rs`: the scan of a pattern for its capture groups and names.
- `src/safe.rs`: compilation (validation, group table, reported flags) and
  execution (code units, byte spans, sticky matching, capture lists).
- `src/regex.rs`: `Regex`, `Match`, `Captures`, the iterators over matches,
  captures and split pieces, and replacement, with the laws of iteration
  (matches are ordered and disjoint, a text of `n` bytes has at most `n + 1`
  matches, the capture iterator reports exactly the matches of `find_iter`,
  split pieces and matches rebuild the text, replacing is joining the split
  pieces).
- `src/engine.rs`: the trusted calls into `regress` and into the few std
  functions that vstd leaves unspecified.
- `app/lib.rs`: the error type with `std::error::Error`, the flags as a
  `bitflags` type, and `Iterator` adapters for the iterators.
