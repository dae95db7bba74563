//! x86-64 general-purpose registers, their RV64 homes, system call numbers,
//! and the materialisation of 64-bit constants in RV64 code.
use vstd::prelude::*;

use crate::encode::{encode_addi, encode_slli, i_type, shift_type, OP_IMM};

verus! {

/// RV64 register that holds the emulated x86 flags (RFLAGS bits).
pub const CPUSTATEREG: u8 = 24;
/// First scratch register.
pub const JUNKREG0: u8 = 25;
/// Second scratch register.
pub const JUNKREG1: u8 = 26;
/// Third scratch register.
pub const JUNKREG2: u8 = 27;

/// The sixteen x86-64 general-purpose registers.
#[derive(Debug, Clone, Copy, PartialEq, Eq, Structural)]
pub enum X86Reg {
    Rax,
    Rbx,
    Rcx,
    Rdx,
    Rsi,
    Rdi,
    Rbp,
    Rsp,
    R8,
    R9,
    R10,
    R11,
    R12,
    R13,
    R14,
    R15,
}

/// The register with x86 encoding number `n` (0..=15), in the order of the
/// ModRM/REX encoding: rax, rcx, rdx, rbx, rsp, rbp, rsi, rdi, r8..r15.
pub open spec fn reg_from_number(n: int) -> X86Reg {
    if n == 0 {
        X86Reg::Rax
    } else if n == 1 {
        X86Reg::Rcx
    } else if n == 2 {
        X86Reg::Rdx
    } else if n == 3 {
        X86Reg::Rbx
    } else if n == 4 {
        X86Reg::Rsp
    } else if n == 5 {
        X86Reg::Rbp
    } else if n == 6 {
        X86Reg::Rsi
    } else if n == 7 {
        X86Reg::Rdi
    } else if n == 8 {
        X86Reg::R8
    } else if n == 9 {
        X86Reg::R9
    } else if n == 10 {
        X86Reg::R10
    } else if n == 11 {
        X86Reg::R11
    } else if n == 12 {
        X86Reg::R12
    } else if n == 13 {
        X86Reg::R13
    } else if n == 14 {
        X86Reg::R14
    } else {
        X86Reg::R15
    }
}

/// Encoding number of the register named by the `rm` field (bits 2..0) of
/// `byte`, extended by the REX.B bit.
pub open spec fn rm_number(byte: u8, rex_b: bool) -> int {
    byte as int % 8 + if rex_b {
        8int
    } else {
        0int
    }
}

/// Encoding number of the register named by the `reg` field (bits 5..3) of
/// `byte`, extended by the REX.R bit.
pub open spec fn reg_field_number(byte: u8, rex_r: bool) -> int {
    (byte as int / 8) % 8 + if rex_r {
        8int
    } else {
        0int
    }
}

impl X86Reg {
    /// Slot of the register in the tracked register file.
    pub open spec fn spec_index(self) -> int {
        match self {
            X86Reg::Rax => 0,
            X86Reg::Rbx => 1,
            X86Reg::Rcx => 2,
            X86Reg::Rdx => 3,
            X86Reg::Rsi => 4,
            X86Reg::Rdi => 5,
            X86Reg::Rbp => 6,
            X86Reg::Rsp => 7,
            X86Reg::R8 => 8,
            X86Reg::R9 => 9,
            X86Reg::R10 => 10,
            X86Reg::R11 => 11,
            X86Reg::R12 => 12,
            X86Reg::R13 => 13,
            X86Reg::R14 => 14,
            X86Reg::R15 => 15,
        }
    }

    /// The RV64 register that holds this x86 register: x8..=x23, in the
    /// order of the tracked register file.
    pub open spec fn spec_riscv(self) -> u8 {
        (self.spec_index() + 8) as u8
    }

    /// The register named by the `rm` field of a ModRM byte (REX.B extends it).
    pub fn from_modrm(byte: u8, rex_b: bool) -> (reg: Self)
        ensures
            reg == reg_from_number(rm_number(byte, rex_b)),
    {
        let mut reg = byte % 8;

        if rex_b {
            reg += 8;
        }

        Self::from_number(reg)
    }

    /// The register named by the `reg` field of a ModRM byte (REX.R extends it).
    pub fn from_modrm_reg(byte: u8, rex_r: bool) -> (reg: Self)
        ensures
            reg == reg_from_number(reg_field_number(byte, rex_r)),
    {
        let mut reg = (byte / 8) % 8;

        if rex_r {
            reg += 8;
        }

        Self::from_number(reg)
    }

    fn from_number(reg: u8) -> (r: Self)
        requires
            reg < 16,
        ensures
            r == reg_from_number(reg as int),
    {
        match reg {
            0 => Self::Rax,
            1 => Self::Rcx,
            2 => Self::Rdx,
            3 => Self::Rbx,
            4 => Self::Rsp,
            5 => Self::Rbp,
            6 => Self::Rsi,
            7 => Self::Rdi,
            8 => Self::R8,
            9 => Self::R9,
            10 => Self::R10,
            11 => Self::R11,
            12 => Self::R12,
            13 => Self::R13,
            14 => Self::R14,
            _ => Self::R15,
        }
    }

    /// Slot of the register in the tracked register file.
    pub fn to_index(self) -> (index: usize)
        ensures
            index == self.spec_index(),
    {
        match self {
            Self::Rax => 0,
            Self::Rbx => 1,
            Self::Rcx => 2,
            Self::Rdx => 3,
            Self::Rsi => 4,
            Self::Rdi => 5,
            Self::Rbp => 6,
            Self::Rsp => 7,
            Self::R8 => 8,
            Self::R9 => 9,
            Self::R10 => 10,
            Self::R11 => 11,
            Self::R12 => 12,
            Self::R13 => 13,
            Self::R14 => 14,
            Self::R15 => 15,
        }
    }

    /// The RV64 register that holds this x86 register.
    pub fn to_riscv(self) -> (reg: u8)
        ensures
            reg == self.spec_riscv(),
    {
        match self {
            Self::Rax => 8,
            Self::Rbx => 9,
            Self::Rcx => 10,
            Self::Rdx => 11,
            Self::Rsi => 12,
            Self::Rdi => 13,
            Self::Rbp => 14,
            Self::Rsp => 15,
            Self::R8 => 16,
            Self::R9 => 17,
            Self::R10 => 18,
            Self::R11 => 19,
            Self::R12 => 20,
            Self::R13 => 21,
            Self::R14 => 22,
            Self::R15 => 23,
        }
    }
}

/// Every x86 register has a slot below 16 and an RV64 home in x8..=x23,
/// distinct registers have distinct slots and homes, and neither home nor
/// slot is shared with the flags register or the scratch registers.
pub proof fn lemma_register_homes(a: X86Reg, b: X86Reg)
    ensures
        0 <= a.spec_index() < 16,
        8 <= a.spec_riscv() <= 23,
        a.spec_riscv() < CPUSTATEREG,
        a != b ==> a.spec_index() != b.spec_index(),
        a != b ==> a.spec_riscv() != b.spec_riscv(),
{
}

/// Decoding an encoding number gives back a register whose ModRM number it
/// is: for every `n` in 0..16, `reg_from_number(n)` is the register with
/// encoding number `n`, so the sixteen numbers name sixteen distinct registers.
pub proof fn lemma_reg_from_number_injective(m: int, n: int)
    requires
        0 <= m < 16,
        0 <= n < 16,
        m != n,
    ensures
        reg_from_number(m) != reg_from_number(n),
{
}

/// The system calls the translator knows.
#[derive(Debug, Clone, Copy, PartialEq, Eq, Structural)]
pub enum SysCall {
    Write,
    Exit,
}

/// The x86-64 Linux system call numbers that are translated: 1 (write) and 60 (exit).
pub open spec fn is_known_x86_syscall(code: u64) -> bool {
    code == 1 || code == 60
}

impl SysCall {
    /// The system call for Linux x86-64 call number `code`.
    pub fn from_x86(code: u64) -> (call: Self)
        requires
            is_known_x86_syscall(code),
        ensures
            code == 1 ==> call == SysCall::Write,
            code == 60 ==> call == SysCall::Exit,
    {
        if code == 1 {
            Self::Write
        } else {
            Self::Exit
        }
    }

    /// The Linux RV64 call number of the system call.
    pub open spec fn spec_riscv(self) -> u64 {
        match self {
            SysCall::Write => 64,
            SysCall::Exit => 93,
        }
    }

    /// The Linux RV64 call number of the system call.
    pub fn to_riscv(&self) -> (code: u64)
        ensures
            code == self.spec_riscv(),
    {
        match self {
            Self::Write => 64,
            Self::Exit => 93,
        }
    }
}

/// The signed twelve-bit chunk that `addi` adds for the low bits of `v`:
/// the low twelve bits of `v`, taken as a value in -2048..=2047.
pub open spec fn low_chunk(v: int) -> int {
    let low = v % 4096;
    if low >= 2048 {
        low - 4096
    } else {
        low
    }
}

/// What is left of `v` once its low chunk is taken away, shifted right by twelve.
pub open spec fn chunk_rest(v: int) -> int {
    (v - low_chunk(v)) / 4096
}

/// `v` after `k` chunks have been taken away.
pub open spec fn rest_after(v: int, k: nat) -> int
    decreases k,
{
    if k == 0 {
        v
    } else {
        chunk_rest(rest_after(v, (k - 1) as nat))
    }
}

/// Chunk number `k` of `v`, counting from the least significant one.
pub open spec fn chunk_at(v: int, k: nat) -> int {
    low_chunk(rest_after(v, k))
}

/// Chunk `i` of the six that `load_u64` uses for `value`, most significant first.
pub open spec fn load_chunk(value: u64, i: int) -> int {
    chunk_at(value as int, (5 - i) as nat)
}

/// The words `load_u64` emits after the first one, from chunk `i` on: for
/// each chunk a shift left by twelve, then an `addi` of the chunk unless it is 0.
pub open spec fn load_u64_tail(rd: u8, value: u64, i: int) -> Seq<u32>
    decreases 6 - i,
{
    if i >= 6 {
        Seq::empty()
    } else {
        seq![shift_type(12, rd, 0b001, rd)] + (if load_chunk(value, i) != 0 {
            seq![i_type(load_chunk(value, i) as i32, rd, 0, rd, OP_IMM)]
        } else {
            Seq::empty()
        }) + load_u64_tail(rd, value, i + 1)
    }
}

/// The words `load_u64` emits: `addi rd, x0, c0`, then the tail from chunk 1.
pub open spec fn load_u64_words(rd: u8, value: u64) -> Seq<u32> {
    seq![i_type(load_chunk(value, 0) as i32, 0, 0, rd, OP_IMM)] + load_u64_tail(rd, value, 1)
}

proof fn lemma_low_chunk_range(v: int)
    ensures
        -2048 <= low_chunk(v) < 2048,
        (v - low_chunk(v)) % 4096 == 0,
        v == low_chunk(v) + 4096 * chunk_rest(v),
{
    let low = v % 4096;
    vstd::arithmetic::div_mod::lemma_fundamental_div_mod(v, 4096);
    assert(v == 4096 * (v / 4096) + low);
    if low >= 2048 {
        assert(v - (low - 4096) == 4096 * (v / 4096 + 1)) by (nonlinear_arith)
            requires
                v == 4096 * (v / 4096) + low,
        ;
        assert((4096 * (v / 4096 + 1)) % 4096 == 0) by (nonlinear_arith);
        assert((4096 * (v / 4096 + 1)) / 4096 == v / 4096 + 1) by (nonlinear_arith);
    } else {
        assert(v - low == 4096 * (v / 4096));
        assert((4096 * (v / 4096)) % 4096 == 0) by (nonlinear_arith);
        assert((4096 * (v / 4096)) / 4096 == v / 4096) by (nonlinear_arith);
    }
}

proof fn lemma_chunk_rest_bounds(v: int)
    requires
        v >= 0,
    ensures
        0 <= chunk_rest(v),
        chunk_rest(v) <= v,
        4096 * chunk_rest(v) <= v + 2048,
{
    lemma_low_chunk_range(v);
}

/// Appends to `riscv_code` RV64 code that loads `value` into `riscv_register`:
/// value is split into six signed twelve-bit chunks, loaded by an `addi`
/// from x0 and then, chunk by chunk, shifted in and added.
pub fn load_u64(riscv_register: u8, value: u64, riscv_code: &mut Vec<u32>)
    ensures
        final(riscv_code)@ == old(riscv_code)@ + load_u64_words(riscv_register, value),
{
    let mut chunks = [0i64;6];
    let mut rest = value as i128;
    let mut i: usize = 6;

    while i > 0
        invariant
            i <= 6,
            0 <= rest <= value,
            rest == rest_after(value as int, (6 - i) as nat),
            forall|j: int| i <= j < 6 ==> chunks[j] == load_chunk(value, j),
            forall|j: int| i <= j < 6 ==> -2048 <= #[trigger] chunks[j] < 2048,
        decreases i,
    {
        i = i - 1;
        proof {
            lemma_low_chunk_range(rest as int);
            lemma_chunk_rest_bounds(rest as int);
        }
        let mut chunk = (rest % 4096) as i64;

        if chunk >= 0x800 {
            chunk -= 0x1000;
        }

        chunks[i] = chunk;
        rest = (rest - chunk as i128) / 4096;
        assert(rest == rest_after(value as int, (6 - i) as nat));
    }

    riscv_code.push(encode_addi(riscv_register, 0, chunks[0] as i32));

    let mut j: usize = 1;
    while j < 6
        invariant
            1 <= j <= 6,
            forall|k: int| 0 <= k < 6 ==> chunks[k] == load_chunk(value, k),
            forall|k: int| 0 <= k < 6 ==> -2048 <= #[trigger] chunks[k] < 2048,
            old(riscv_code)@ + load_u64_words(riscv_register, value) == riscv_code@
                + load_u64_tail(riscv_register, value, j as int),
        decreases 6 - j,
    {
        let ghost before = riscv_code@;
        riscv_code.push(encode_slli(riscv_register, riscv_register, 12));

        if chunks[j] != 0 {
            riscv_code.push(encode_addi(riscv_register, riscv_register, chunks[j] as i32));
        }
        assert(load_u64_tail(riscv_register, value, j as int) == riscv_code@.subrange(
            before.len() as int,
            riscv_code@.len() as int,
        ) + load_u64_tail(riscv_register, value, j + 1));
        assert(before + load_u64_tail(riscv_register, value, j as int) =~= riscv_code@
            + load_u64_tail(riscv_register, value, j + 1));
        j = j + 1;
    }
    assert(load_u64_tail(riscv_register, value, 6) =~= Seq::<u32>::empty());
    assert(riscv_code@ =~= riscv_code@ + load_u64_tail(riscv_register, value, 6));
}

} // verus!
