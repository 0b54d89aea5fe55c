# typthon

A gradual type checker for Python, verified with Verus.

- `src/` is the library. Every function there carries a `requires`/`ensures`
  contract over mathematical models (`Seq`, `Map`, `Set`, spec views of the
  library's types), and Verus proves each body against it. Laws that relate
  several functions are public proof functions.
- `tests/` holds ordinary Rust tests that run the compiled library.
- `app/` is the `typthon` command: argument handling, file and directory I/O,
  and the configuration file (TOML, through serde copies of the configuration
  types in `app/config_io.rs`).

Main modules of `src/`: `parse` (Python source to the library's syntax tree in
`pyast`: `rustpython_parser` parses, and the tree's `{:?}` text is read back by
`tree_text` and `parse`), `types`, `subtype` and `ops` (the type language),
`inference` (unification), `constraints` (the constraint solver and generics),
`effects` (effect analysis), `checker` (the core checker), `cli_checker` (the
checker behind the command line), `context` (classes and names, over `dashmap`),
`incremental` (content digests, dependency graph, invalidation and layers),
`integration` and `parallel` (compilation and per-module analysis), `advanced`,
`variance`, `protocols`, `refinement`, `errors`, `metrics` (timing statistics and
counters), `intern`, `location`, `debug` and `display`.

Calls into outside crates (`rustpython_parser`, `blake3`, `dashmap`, `format!`
on strings, `char::from_u32`) stand
behind small trusted functions marked `#[verifier::external_body]`, each with a
doc comment saying what its contract claims.
