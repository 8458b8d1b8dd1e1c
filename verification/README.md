# hulk

A front end for HULK, the teaching language of classes, functions and
expressions, written in Verus: every function of the library carries a
contract that Verus proves.

## Layout

- `src/lexer.rs`, `src/parser.rs`: the tokens of a source and a
  recursive-descent parser; `src/derivation.rs` states the grammar as a
  relation between tokens and syntax trees, with the precedence and
  associativity of the operators, and the parser is proved to return only
  trees that the input derives, and to succeed on every input in the
  forms that `program_tokens` and `expression_tokens` describe: classes,
  functions, blocks, `let`, `if`, `while`, `for`, `case`, operators, type
  tests, calls, accesses and object and array creations.
- `src/errors.rs`, `src/text.rs`: syntax errors with line, column, the
  offending line of source and hints, and the text helpers they need.
  Offsets and spans count bytes of the UTF-8 source; lines and columns
  count characters.
- `src/ast.rs`, `src/tokens.rs`, `src/ast_printer.rs`: the syntax tree and
  an outline printer whose output is given exactly by its contracts.
- `src/semantic/`: the symbol table (scopes, classes, inheritance, lowest
  common ancestor), the collector of declarations, the semantic checker,
  type inference and the type checker, each specified by a model of what
  it reports or infers; `analyze` runs the four passes in that order, all
  of them whatever the earlier ones reported, and the type checker reads
  the parameter types that inference filled in.
- `src/layout.rs`, `src/static_types.rs`: what the code generator decides
  from the tree and the symbols: the order in which classes are laid out
  (parents first), the fields of an object (inherited ones first, in the
  same places) and the table of methods of a class (an override keeps the
  slot of the method it replaces), and the class or type an expression is
  known to have.
- `tests/`: tests on concrete programs.
- `app/`: the command-line driver and the emission of LLVM code, which rest
  on I/O, floating point and the `inkwell` bindings.
