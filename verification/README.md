# bts_map

A ranked, token-budgeted map of a source repository, verified with Verus.

Source files are parsed with tree-sitter; tag queries mark definition and
reference sites (`name.definition.*`, `name.reference.*`).  Files become the
nodes of a dependency graph: a reference in one file to a name another file
defines links the first to the second, weighted by the number of such
references.  PageRank over that graph orders the files, optionally adjusted by
regret-learning feedback, and the renderer prints each file's definition lines
until a token budget (cl100k_base tokens) is used up.

Layout:

- `src/` — the verified library: tag extraction (`tags`, `grammar`,
  `queries`), the file graph (`graph`), the renderer (`render`), the feedback
  database (`feedback`), the directory filter of the walk (`walk`) and text
  helpers (`text`).
- `app/` — the `bts-map` command: argument parsing, the directory walk, JSON
  storage of the feedback database, and the floating-point PageRank.
- `tests/` — tests of the library.
