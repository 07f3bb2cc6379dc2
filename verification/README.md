# TyPy

A small, statically typed, Python-like language: integers, booleans,
typed variables, arithmetic and comparisons, and `if`/`elif`/`else` blocks
delimited by indentation.

```text
x: int = 5
if x > 3:
    x = 100
x
```

## Layout

- `src/` is the interpreter as a Verus library. Each stage is specified by
  spec functions and proved against them:
  - `tokenizer.rs`: source text to tokens, with `INDENT`/`DEDENT` tokens;
    `token_stream.rs` proves the shape of every token stream.
  - `parser.rs`: tokens to statements, by a grammar written as spec functions.
  - `types.rs`: the static type checker, with block scopes.
  - `compiler.rs`: statements to stack-machine bytecode; its jumps go forward
    and its globals are interned symbols.
  - `vm.rs`: the virtual machine, specified one instruction at a time; compiled
    programs always come to an end.
  - `object.rs`, `value.rs`: runtime values and their operations.
  - `symbol.rs`: the string interner.
  - `checker.rs`: a checker for single expressions.
  - `resolution.rs`: how the checker and the compiler agree on names; a
    program that type-checks never fails to find a global it loads.
  - `interpreter.rs`: the stages composed: one source text tokenized, parsed,
    checked, compiled and run, with an outcome fixed by the stages' specs.
  - `cli.rs`: the decisions of the command-line interpreter (arguments, file
    names, how the REPL gathers a block).
  - `text.rs`: decimal rendering and the character classes that std provides.
- `app/main.rs` is the `typy` command: it reads files and the terminal and
  prints, and calls the library for everything else.
- `tests/` holds the tests.

## Running

```text
typy program.tp        # run a file (the name must be snake_case, ending in .tp)
typy                   # start the REPL
typy --debug           # print tokens, syntax tree, bytecode and each VM step
```
