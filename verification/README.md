# gd refactoring library

The structural refactorings of the `gd` GDScript toolchain (delete, move,
extract, inline, introduce, change-signature, encapsulate, invert-if,
convert-signal, node-path conversion, edit primitives), written in Verus with
their contracts proved.

- `src/syntax.rs`: the syntax tree as plain values and its well-formedness.
- `src/parse.rs`: parsing with tree-sitter's GDScript grammar, and the
  verified check that a tree fits the text it came from; each command has an
  entry (`*_in`, `*_at`) that takes the texts, parses them and plans.
- `src/text.rs`, `src/edits.rs`, `src/assoc.rs`: text, byte-range edits and small maps.
- `src/refactor/`: one module per refactoring; `properties.rs` holds the
  properties proved across them.
- `tests/`: tests run against parse trees made by tree-sitter.
- `app/`: file I/O and the commands that drive the library; the
  toolchain's reference index, type inference, scene parser, formatter,
  renamer and undo stack are reached through the `Project` trait.
