# jq2

An interactive session for jq queries over one JSON file that is read and
parsed once. Results are paged on the terminal, or written to a file with
`query > file` / `query >> file` or `:save file`.

The library (`src/`) is verified with Verus:

- `text` — trimming, prefixes, case folding, decimal numbers and line
  splitting on character sequences.
- `redirect` — finding a top-level `>`/`>>` in a query, the `:save`
  command, and how saved files are written.
- `query` — checks made before a query runs (blank queries, field access
  on an array root, jq syntax) and the dataset's root type.
- `json` — the library's JSON value and its plain and highlighted pretty
  printers.
- `jq` — the calls into jaq: reading the dataset once, compiling a
  program, running it one output at a time (a `halt` is reported as an
  error), reading a jaq value.
- `pager` — page generation from a program's outputs, the pager's state
  machine, keys (Enter or Space forward, Backspace or `b` back, `q`
  quits) and screen text.
- `save` — the records written when results are saved to a file.
- `repl` — what the prompt does with a typed line.

`app/main.rs` is the program: terminal, files, line editing and the loops
that drive the library.
