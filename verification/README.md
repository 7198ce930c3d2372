# acc_toolchain

A compiler and a cycle-level simulator for a small accumulator machine, written
in Verus. Source text is tokenized, parsed into a syntax tree, laid out as
text, and assembled into a binary image of 32-bit words (data first, then
code); the simulator loads the image and runs it micro-instruction by
micro-instruction through a cached memory, producing a trace and the output
stream.

Layout of `src/`:

- `lexer`, `token`, `parser`, `ast`, `ast_format`: the front end, each stated
  against a grammar or text model given as spec functions.
- `codegen`: the model of the assembler (data reservation, code generation,
  emission) as partial spec functions; `assembler`, `asm_cmd`: the assembler,
  proved to compute exactly that model; `image`: laws about the emitted image
  (what the loader reads back, how instruction words decode, where labels
  land, that `main` comes first).
- `isa`, `signals`, `microcode`, `processor`, `memory`, `mpu`, `simulator`:
  the machine, each step stated as a transition on plain values; `run`,
  `run_checked` and `run_image` run a program to its halt. Every state that
  fault-free ticks reach from a fresh machine keeps the micro-PC within the
  row of the current instruction (`lemma_micro_pc_in_row`).
- `compare`, `text`: rendering and normalizing text (normalizing twice changes
  nothing); `verdict`: judging a compiled program and its run against what a
  test expects.

Compiling is a function of the source (`lemma_compile_deterministic`): the
parser's grammar reads tokens only through their plain values.

`app/main.rs` holds the command-line front ends (`compile`, `simulate`,
`test`), which read files and TOML test descriptions and print results.
