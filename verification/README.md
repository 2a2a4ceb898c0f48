# numen

A small bytecode language: a scanner, a single-pass Pratt compiler that
writes bytecode into a chunk, and a stack-based virtual machine, verified
with Verus.

Layout:

- `src/scanner.rs`: the scanner, with the lexical grammar written as spec
  functions (`token_at`, `lexeme_end`, `skip_trivia`); `scan_tokens` is
  proved to return exactly the next token.
- `src/compiler.rs`: the parser and code generator; its invariant `pwf`
  holds throughout, `compile` reports success exactly when no error was
  recorded, and the code it adds is made of whole instructions the machine
  knows, whose jumps land on instruction starts (`whole_from`,
  `jumps_land` in `src/debug.rs`).
- `src/grammar.rs`: the grammar as spec functions from the state of
  compilation before a piece of the program to the state after it
  (`s_parse`, `s_stmt`, `s_compile`); the compiler's functions are proved
  to do what these give, and `VM::interpret` compiles exactly when
  `s_compile` says the program compiles, to the code it gives.
- `src/chunk_values.rs`, `src/debug.rs`: values, opcodes, chunks and the
  decoding behind the disassembler.
- `src/table.rs`: the global-variable table, viewed as a map.
- `src/vm.rs`: the machine, specified step by step by `VmState::step`.
  Float arithmetic is handed out as a request and answered with `resume`.
- `src/laws.rs`: properties that span several functions, among them that
  compiled code runs in step (`law_compiled_code_runs_in_step`).
- `app/main.rs`: reads a program, prints, and does the float arithmetic.
