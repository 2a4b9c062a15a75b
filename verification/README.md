# perfectionist

The decisions of a set of style lints for Rust code, written in Verus
and proved against their contracts: which items, paths, attributes,
doc comments and function bodies each rule reports, with which message,
and which rewrite it suggests.

The compiler's data (HIR, spans, the source map, name resolution) is not
read here. Each rule takes the facts it decides on as plain values —
the shape of an item, the text of a snippet, a model of a function body
or of a `use` tree — and returns a `Diagnostic` (message, notes, helps
and suggested edits) or the data a diagnostic is built from.

## Layout

- `src/` — the verified library, one module per rule, plus shared parts:
  - `text.rs`, `ordering.rs`: character-level text operations and the
    orders the rules sort by, each with a mathematical model.
  - `lexing.rs`: Rust source text cut into tokens by `rustc_lexer`.
  - `diagnostic.rs`: what a rule reports, and its model.
  - `fn_body.rs`: the model of a function body that
    `excessive_nesting` and `excessive_cognitive_complexity` measure.
  - public proof functions whose names start with `lemma_` state laws
    across calls: fixes that are stable when checked again, layouts that
    pass the check they were made for, measures that respect nesting.
- `tests/` — tests of the library's public functions.
- `app/` — what stands around the library: the `dylint.toml`
  configuration tables read through serde into the library's types,
  and the path and float computations left to the caller.
