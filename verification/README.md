# Hack assembler, verified

An assembler for the Hack machine language of the Nand2Tetris course: it turns
assembly source (`.asm`) into 16-bit machine words (`.hack`), with every
function of the library proved against its contract by Verus.

Layout:

- `src/text.rs` — character-level operations on strings (comparison, search,
  white space, decimal parsing, 16-digit binary rendering), each
  specified over `Seq<char>`.
- `src/code.rs` — the dest, comp and jump tables of C-instructions.
- `src/parser.rs` — cleaning source lines and taking instructions apart.
- `src/symbol_table.rs` — symbol names and their addresses, kept sorted.
- `src/assembler.rs` — the two passes, the whole assembly, and the faults that
  stop it, specified by `label_pass`, `code_pass` and `assembled`.
- `app/main.rs` — the program: reads `input/program.asm`, writes
  `output/program.hack`.
- `tests/` — tests of each module.
