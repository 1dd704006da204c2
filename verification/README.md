# light_assembler

A verified assembler front end for TVM mnemonics.

- `src/engine.rs` — the scanner and command grouper: it reads the source
  character by character, recognises words, commas, comments and `{...}`
  blocks, groups parameters with the command before them, compiles each
  command through the instruction table and reports errors at the file and
  line each source line came from. Its behaviour is stated as a step function
  over a scanner state (`step`, `scan`, `finish`, `compile_result`), and
  `Engine::build` is proved to return exactly what `compile_result` gives.
- `src/commands.rs` — the instruction table a new engine starts with: the
  instructions that take one operand (`PUSHINT`, `PUSH`, `POP`, `XCHG`) and
  the TVM instructions that take no parameters, each with its fixed opcode.
- `src/operands.rs` — how a command turns its parameter text into code:
  integer constants in the shortest of the 4-, 8- and 16-bit push forms,
  stack registers `sN` in their short or long form, with an exact
  specification (`encode`) and the errors for parameters of the wrong form
  or out of range.
- `src/encoding.rs` — the base64 text form of a serialized bag of cells.
- `src/writer.rs` — the code being written and the bit offset of every
  instruction.
- `src/debug.rs` — source lines and debug positions (`Line`, `DbgPos`,
  `DbgNode`).
- `src/info.rs` — debug information of a tree of cells, by cell hash.
- `src/errors.rs` — compile errors and their positions.
- `src/laws.rs` — properties proved of the whole: blank sources compile to
  nothing, a program of commands compiles to their opcodes in order, command
  names and words are read case-insensitively, a trailing comment changes
  nothing, a compiled source has balanced braces, recorded positions lie
  inside the code, the code does not depend on the source lines it is said
  to come from, and others.
- `app/` — the shared-library face: cells and bags of cells through
  `ton_types`, the C entry point, serde forms of debug records.

More commands are added with `Engine::add_command`. A command's rule gives
how many parameters it takes, its opcode and its operand kind; the code it
emits is `encode(operand, opcode, parameter texts)`. Commands whose
parameters are blocks (`{...}`) take the block's text as a parameter; the
table holds none that compiles a block into a referenced cell.
