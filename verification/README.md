# hulk

The front end of a compiler for HULK (Havana University Language for Kompilers), an
expression-oriented, statically typed, object-oriented language, written in Verus: the
library's functions carry `requires`/`ensures` contracts that Verus proves.

## Layout

- `src/` — the verified library.
  - Lexing: `regex_ast` (regular-expression parser), `nfa` (Thompson construction),
    `utils` (ε-closure and moves), `dfa` (subset construction), `lexer` (lexer
    generation and tokenization), `token`.
  - Errors and positions: `span`, `source_map`, `error`, `text`.
  - Syntax tree: `ast`, `printer` and `printer_decl` (indented dump of a tree).
  - Semantic analysis: `types`, `inference` (unifier), `assoc` (name tables),
    `type_checker`, `scope`, `visit`, `visit_call`, `visit_decl` (inference and checking),
    `base_detector`, `resolve` (resolution of type variables), `resolve_laws` (resolving
    again changes nothing), `flatten` (attribute and
    method tables of classes), `inferred` (unresolved-variable report), `check` (the
    whole analysis), `typing` (what a successful analysis guarantees of the recorded
    types).
  - Transformation: `mono` (monomorphization of generic functions).
- `tests/` — tests run against the compiled library.
- `app/` — the command-line driver: reads a source file, runs the lexer and reports
  errors with the exit code of the earliest failing stage.
