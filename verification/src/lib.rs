//! Translation of x86-64 ELF executables into RV64 ELF executables.
pub mod encode;
pub mod registers;
pub mod riscv;
pub mod elf;
pub mod operation;
pub mod translate;
pub mod link;
pub mod instructions;
