# smartedit

Compact, language-aware outlines of source files and deterministic edit programs, as a
library whose behaviour is stated in contracts and proved with Verus.

## Layout

- `src/program.rs`, `src/tokens.rs`: the edit-program grammar as spec functions and the
  parser proved against it (`parse_edit_program`).
- `src/edit.rs`, `src/paths.rs`: the edit model (ranges, path specs, modifications, stages).
- `src/textedit.rs`: line addressing and the rendering of pending deletions and insertions.
- `src/executor.rs`, `src/plan.rs`, `src/fs.rs`, `src/fspath.rs`: planning a program over a
  file system given as a trait, the plan, and lexical path operations.
- `src/outline*.rs`, `src/syntax.rs`: outlines of Rust, Python, Go, JavaScript, TypeScript,
  TSX, Scala, Java, Kotlin and Lua files over a plain copy of the Tree-sitter parse tree;
  rendering, locations and selection.
- `src/matchers.rs`: globs, regular expressions and UTF-8 offsets.
- `src/error.rs`: the errors and their messages.
- `app/`: the host file system and the text form of errors.
- `tests/`: tests of the library.
