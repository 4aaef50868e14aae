# rivet

A small C compiler for RV32, written as a Verus library: each stage states its
behaviour in `requires` / `ensures` contracts over mathematical models, and
Verus proves the code against them.

## Layout

- `src/source.rs`: file ids, spans, the source map, byte and character offsets.
- `src/lexer.rs`, `src/lex_rules.rs`: the lexer and the rules that define a token.
- `src/preprocess.rs`: escaped-newline splicing, `#include`, `#define`,
  conditionals and macro expansion, over a store of file contents.
- `src/grammar.rs`, `src/parser.rs`: the parse relation and the parser.
- `src/ast.rs`, `src/typed_ast.rs`: the program before and after checking.
- `src/sema.rs`: the type checker and its typing rules.
- `src/codegen.rs`: RV32 assembly generation and the assembly each construct gives.
- `src/driver.rs`: the pipeline from a file to assembly, and the diagnostic format.
- `app/main.rs`: the command-line program, which reads files and prints results.
- `tests/`: scenario tests and tests of the stated laws.
