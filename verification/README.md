# aegis

A verified compiler front end for `.aes` authorization schemas: type definitions
with relations (`let`) and algebraic permissions (`def`), plus inline tests.

- `src/` — the library, verified with Verus: lexer, parser (with the grammar in
  `grammar.rs`, a proof that every program it derives parses without a
  diagnostic into a tree whose names, expressions, relations, subjects,
  assertions and test ranges are the ones the grammar gives, and a proof that any
  other source gets an error), semantic analysis (declaration and verification passes, stated as
  exact folds over the tree), export to the intermediate representation, the
  compiler pipeline, symbol interning, the virtual file system, diagnostics, and
  the tally and outcome of a command-line run.
- `tests/` — tests of the library.
- `app/` — the `aes` command-line tool: argument parsing, file I/O, rendering of
  diagnostics, protobuf encoding and the client of the schema service.
