# x86_to_riscv

A static translator from x86-64 ELF executables to RV64 ELF executables,
written in Verus.

- `src/` is the verified library: the x86 decoder (`operation`), the
  per-instruction handlers (`operation::handeler`), the translation of a
  straight-line run (`translate`), the linking of all runs into one code
  image (`link`), the RV64 encoders (`encode`), the register map and
  constant loading (`registers`), ELF reading and writing (`elf`), a model
  of the RV64 integer subset (`riscv`), and single-instruction translators
  on bare arguments (`instructions`). Against the model, these emitted
  sequences are proved: 64-bit constant loading, the flags of `test` for 8-
  and 64-bit operands, the flags of `cmp` for 64- and 32-bit operands (CF
  from the unsigned comparison, the others from the sum that the word
  meant for the difference computes), what the `sub` words compute (that
  sum), the argument moves of `syscall`, `xor`, `mov` between registers
  and of small immediates, and the filled-in lea and branch fixups.
- `app/main.rs` is the program: it reads the input file, runs the
  translation of each run on its own task, links, and writes `Program`.
- `tests/` exercises the library on concrete inputs.
