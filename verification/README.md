# speck

The front end of the Speck game language — a tiny language for tiny games — with the
development viewer's wire formats and the toolchain's policy, written in Verus and proved
against its contracts.

## Layout

- `src/lexer.rs`, `src/parser.rs`, `src/ast.rs`: source text to tokens to syntax trees. The
  lexer's result is specified exactly; of the parser, only that it stays within the tokens,
  gives spans that cover what it consumed, keeps the title and the entry points' shapes, and
  reports an error at a token. The syntax tree it builds is not specified by a grammar.
- `src/sema/`: semantic checking.
  - `declarations.rs`: top-level names, struct fields, entry points, compile-time initializers.
  - `lengths.rs`: integer constants and the resolution of array lengths.
  - `evaluation.rs`: compile-time evaluation of constant and global initializers. An `f32`
    value is held as its bit pattern; a literal's bits are supplied by the caller (`analyze`
    takes them), and `f32` sums, differences, products and quotients are left undetermined and
    listed by `undetermined_initializers`.
  - `floats.rs`: exact `f32` negation, comparison, and conversions between `f32` and `i32` on
    bit patterns.
  - `typing.rs`: what type checking an expression or statement reports, as spec functions.
  - `inference.rs`, `statements.rs`: the checker that meets those specs.
  - `bodies.rs`: the tables bodies see, initializer and function checks, and `check`, which
    gives the values constants and globals start with when nothing is found.
  - `laws.rs`: what holds of every checked program, among it that every array length in its
    declarations resolved and every constant has a value unless it rests on `f32` arithmetic.
- `src/checked.rs`: `analyze`, lexing through checking in one step, keeping the checked tree
  with the values its constants and globals start with.
- `src/diagnostic.rs`, `src/source.rs`: spans, line and column positions, rendering.
- `src/dev/`: the viewer's frame and control protocol, HTTP requests and routing, and the
  frame store and input lease state.
- `src/toolchain.rs`, `src/codegen.rs`: target policy and the LLVM spellings the runtime uses.
- `src/emit.rs`: lowering a checked program to textual LLVM IR, with checked array indexing and
  saturating `f32` to `i32` conversion. Its contract gives the module exactly up to the function
  definitions (header, declarations, struct types, aggregate constants and globals with their
  initial values, `f32`s spelled by the bits of their `f64` widening), and of each definition
  its first line and its block structure: every block's label comes right after an instruction
  that ends the block before, and the body ends with one. Which instructions a body holds is
  stated for the pieces (bounds checks, conversions, operators, element accesses), not for a
  whole body.
- `src/audio_assets.rs`, `src/resolution.rs`, `src/keyboard.rs`, `src/builtins.rs`: assets,
  framebuffer sizes, keys, and the runtime's functions and constants.
- `app/main.rs`: the `speck build <game.spk>` command, which reads a file, reports what checking
  finds, and writes the LLVM IR of a game that checks.
- `app/constants.rs`: the initial values the library leaves undetermined because they rest on
  `f32` arithmetic, which the lowering then takes from the command.
- `tests/`: tests against the compiled library.
