# cleoc

A small compiler front end for the Cleo language, written in Verus: it lexes
and parses a unit, gathers its declarations into a symbol table, type checks
the function bodies, lowers them and prints C declarations and definitions.
Every function in `src/` carries a contract that Verus proves, except four
small functions that produce the derived `Debug` text of a value through
`std::format!`. Three of them promise nothing of that text and feed only
error messages; the one the `debug` listing uses promises that its text is
`type_def_text` of the type's shape, a name for the derived text.

## Layout

- `src/lexer.rs`, `src/token.rs`, `src/tokenstream.rs`: characters to tokens,
  stated against a model lexer over `Seq<char>`; spans are byte offsets of
  the UTF-8 text.
- `src/parse_type.rs`, `src/parse_expr.rs`, `src/parse_decl.rs`, `src/parse.rs`:
  the grammar as spec functions over the token sequence, and parsers that
  return exactly what those functions describe; `src/ast.rs` holds the tree
  and its models.
- `src/types.rs`, `src/symbols.rs`, `src/methods.rs`, `src/defkinds.rs`,
  `src/context.rs`: the type interner, the scoped symbol table, the method
  table and the context they form.
- `src/registry.rs`, `src/outline.rs`: the analyzer's registry of structural
  types and symbols, and the outline of a module.
- `src/text.rs`: decimal numbers and string building.
- `src/gather.rs`: defining the declarations of a unit.
- `src/typing.rs`: the type checking rules as functions of the checking
  state; `src/checker.rs`: the checker, whose every step is proved to follow
  those rules and to keep the context well formed.
- `src/typed_ast.rs`, `src/ir.rs`, `src/lower.rs`, `src/codegen.rs`: lowering
  and printing C.
- `src/driver.rs`: the whole pipeline, from a text to the C text.
- `src/layout.rs`: the side-by-side listing of a source and its output.
- `app/main.rs`: the command-line program (reading the file, error reports,
  printing).
- `tests/`: the tests, run against the compiled library.
