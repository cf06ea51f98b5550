# esm_lexer

A lexer for ECMAScript modules, with JSX, that finds the `import` and
`export` syntax of a source without building a syntax tree, verified with
Verus.

The library (`src/`) takes a source as UTF-16 code units and reports:

- the imports: static, dynamic `import()`, `import.meta`, source and defer
  phases, with specifier, statement and attribute positions;
- the exports: exported and local names with their positions;
- whether the module is a facade (module syntax only).

Positions are UTF-16 code unit offsets. A syntax error is a `ParseError`
holding the offset where it was found. JSX elements in expression position
are skipped; their expression containers are lexed like any other code, so a
dynamic import inside one is reported.

## Layout

- `src/state.rs`: the lexer state (`Lexer`), its invariant and the records.
- `src/source.rs`, `src/position.rs`: the source text and the cursor.
- `src/helper.rs`, `src/comment.rs`: character classes, keywords, comments.
- `src/lexer.rs`: strings, templates, regular expressions, escape decoding.
- `src/import.rs`, `src/export.rs`: import and export statements.
- `src/jsx.rs`: the JSX scanner.
- `src/parse.rs`: the token loop and the two passes of `parse`.
- `src/f.rs`: character code helpers.
- `app/lib.rs`: serialisable records, JSON output and the WebAssembly entry.

Each step of the lexer is described by a spec predicate over the state
before and after it (`consume_token`, `reads_import_statement`,
`reads_export_statement`, `jsx_scan_tolerant`, ...), and each function
ensures its predicate. The laws of the library (the facade, the UTF-16
round trip, what each reported import keeps) are proof functions in the
modules they speak of.
