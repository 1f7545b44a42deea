# gobol

The front and middle of the Gobol compiler, written in Verus: each function
states what it does in `requires` / `ensures`, and Verus proves it.

## Layout

- `src/` — the verified library:
  - `token.rs`, `lexer.rs` — tokens and the lexer (a contract per token, and
    a check that tells in advance whether a token's text would split a
    multi-byte character);
  - `error.rs` — diagnostics with source snippets;
  - `table.rs` — string-keyed tables (the last insertion under a key wins);
  - `environment.rs` — types, symbols and the scoped symbol table;
  - `ast.rs` — the syntax tree the analyses read;
  - `semantic_analyzer.rs` — the type checker's state and its checks
    (declarations, functions and parameters, `impl` and `extern` blocks,
    traits, operators, calls, struct literals, member access, indexing,
    matches, lambdas, loops, returns, C header scanning and the decisions of
    inlining a header's includes, module paths,
    the builtins every program sees, and loading a module: it is declared
    statement by statement, pausing at each import so that the caller can
    read and parse the imported module first);
    sub-expressions are visited first and their types handed in; what
    each declaration puts in the global scope is stated symbol by symbol
    (`Decl`, `declared_as`);
  - `ir.rs` — the intermediate form, its mathematical views, free-variable
    collection and monomorphization of generic functions;
  - `builder.rs` — the intermediate-form builder: lowering of type
    annotations, struct and enum definitions, functions, `impl` blocks,
    declarations, simple statements and expressions (operands lowered
    first and handed in), type inference of lowered expressions, the
    passes of a build over a whole program that need no function body
    (struct definitions, `extern` functions) and its result, and the
    `#[expand]` macro expander;
  - `cranelift.rs` — what the native back end decides without generating
    code: type inference and struct layout over the intermediate form,
    variadic C stubs, target triples and the choice of linker;
  - `linking.rs` — the command lines of the C compiler and the linkers, and
    the messages of a failed link;
  - `toolchain.rs` — the C toolchain found through the `cc` crate;
  - `text.rs` — text utilities shared by the rest.
- `tests/` — tests of the library on concrete values.
- `app/` — the `gobol` command and what touches the file system and other
  processes: reading sources and headers, finding modules and linkers,
  running the compiler and the linker.
