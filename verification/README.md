# quasar

A small scripting-language front end and the object heap of its virtual
machine, written in Verus with their behaviour stated in contracts and proved.

Layout of `src/`:

- `garbage_collector.rs` — `Heap<T>` and `Handle<T>`: the heap keeps its
  objects in slots, tagged with the generation in which they came in; a handle
  reaches its object while the slot holds that generation.
- `alum/token.rs` — tokens, operators, their binding strength.
- `alum/lexer.rs` — `lex`: a text into tokens, with the lexing rules as a
  specification and laws about them (tokens are well formed; no token spans a
  blank).
- `alum/number.rs` — which number literals `f64` accepts.
- `alum/ast.rs` — statements, expressions and bindings, and their views.
- `alum/symbols.rs` — the table of bindings by name.
- `alum/grammar.rs` — the grammar as a specification over tokens and parser
  states, with its error cases.
- `alum/scope.rs` — laws on the grammar: an expression keeps the bindings,
  depths and operation flag; a statement keeps the depths and the flag and
  drops no binding.
- `alum/parser.rs` — `Parser`, proved to follow the grammar, to move forward at
  every step, and to keep its invariant.

`app/main.rs` lexes and parses a sample program and prints the statements.
Lowering the statements to the virtual machine's intermediate representation
and running them are not part of this crate: the IR builder and the
interpreter are not here.
