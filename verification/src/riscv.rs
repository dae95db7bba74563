//! Meaning of the RV64 words the translator emits.
//!
//! `rv_decode` reads a word of the integer subset that the emitted
//! straight-line sequences use (register and immediate ALU operations and
//! `lui`); `rv_run` executes straight-line code on the thirty-two integer
//! registers, with x0 reading as zero. The lemmas show that the encoders'
//! formats, the branch format among them, read back field by field, and
//! prove what emitted sequences compute.
use vstd::prelude::*;

use crate::encode::{
    b_type, i_type, r_type, shift_type, u_type, OP_BRANCH, OP_IMM, OP_LUI, OP_REG, OP_REG_32,
};
use crate::registers::{
    chunk_rest, load_chunk, load_u64_tail, load_u64_words, low_chunk, rest_after,
};

verus! {

/// A decoded RV64 instruction of the subset whose meaning is modelled.
pub enum RvOp {
    Addi { rd: u32, rs1: u32, imm: i64 },
    Xori { rd: u32, rs1: u32, imm: i64 },
    Andi { rd: u32, rs1: u32, imm: i64 },
    Slli { rd: u32, rs1: u32, shamt: u32 },
    Srli { rd: u32, rs1: u32, shamt: u32 },
    Add { rd: u32, rs1: u32, rs2: u32 },
    Sub { rd: u32, rs1: u32, rs2: u32 },
    Sltu { rd: u32, rs1: u32, rs2: u32 },
    Xor { rd: u32, rs1: u32, rs2: u32 },
    Or { rd: u32, rs1: u32, rs2: u32 },
    And { rd: u32, rs1: u32, rs2: u32 },
    /// `lui`: `imm` holds the upper twenty bits of the word.
    Lui { rd: u32, imm: u32 },
    /// `addw`: the 32-bit sum, sign-extended.
    Addw { rd: u32, rs1: u32, rs2: u32 },
    /// `subw`: the 32-bit difference, sign-extended.
    Subw { rd: u32, rs1: u32, rs2: u32 },
}

/// A twelve-bit immediate field read as a signed value.
pub open spec fn sext12(x: u32) -> i64 {
    if x >= 2048 {
        (x as int - 4096) as i64
    } else {
        x as i64
    }
}

/// Decodes a word of the modelled subset; `None` for every other word.
pub open spec fn rv_decode(w: u32) -> Option<RvOp> {
    let opcode = w & 0x7fu32;
    let rd = (w >> 7u32) & 0x1fu32;
    let funct3 = (w >> 12u32) & 0x7u32;
    let rs1 = (w >> 15u32) & 0x1fu32;
    let rs2 = (w >> 20u32) & 0x1fu32;
    let funct7 = w >> 25u32;
    let imm = sext12(w >> 20u32);
    let shamt = (w >> 20u32) & 0x3fu32;
    if opcode == OP_IMM {
        if funct3 == 0 {
            Some(RvOp::Addi { rd, rs1, imm })
        } else if funct3 == 4 {
            Some(RvOp::Xori { rd, rs1, imm })
        } else if funct3 == 7 {
            Some(RvOp::Andi { rd, rs1, imm })
        } else if funct3 == 1 && w >> 26u32 == 0 {
            Some(RvOp::Slli { rd, rs1, shamt })
        } else if funct3 == 5 && w >> 26u32 == 0 {
            Some(RvOp::Srli { rd, rs1, shamt })
        } else {
            None
        }
    } else if opcode == OP_REG && funct7 == 0 {
        if funct3 == 0 {
            Some(RvOp::Add { rd, rs1, rs2 })
        } else if funct3 == 3 {
            Some(RvOp::Sltu { rd, rs1, rs2 })
        } else if funct3 == 4 {
            Some(RvOp::Xor { rd, rs1, rs2 })
        } else if funct3 == 6 {
            Some(RvOp::Or { rd, rs1, rs2 })
        } else if funct3 == 7 {
            Some(RvOp::And { rd, rs1, rs2 })
        } else {
            None
        }
    } else if opcode == OP_REG && funct7 == 0x20 && funct3 == 0 {
        Some(RvOp::Sub { rd, rs1, rs2 })
    } else if opcode == OP_LUI {
        Some(RvOp::Lui { rd, imm: w >> 12u32 })
    } else if opcode == OP_REG_32 && funct3 == 0 && funct7 == 0 {
        Some(RvOp::Addw { rd, rs1, rs2 })
    } else if opcode == OP_REG_32 && funct3 == 0 && funct7 == 0x20 {
        Some(RvOp::Subw { rd, rs1, rs2 })
    } else {
        None
    }
}

/// The low 32 bits of `x`, sign-extended to 64 bits.
pub open spec fn sext32(x: u64) -> u64 {
    (((x as u32) as i32) as i64) as u64
}

/// The value `lui` loads for the upper immediate `imm`: `imm` shifted into
/// bits 12..32, sign-extended from bit 31.
pub open spec fn lui_value(imm: u32) -> u64 {
    (((imm << 12u32) as i32) as i64) as u64
}

/// `x` reduced modulo 2^64.
pub open spec fn wrap64(x: int) -> u64 {
    (x % 0x1_0000_0000_0000_0000int) as u64
}

/// Reads register `r`; x0 reads as zero.
pub open spec fn reg_read(regs: Seq<u64>, r: u32) -> u64 {
    if r == 0 {
        0
    } else {
        regs[r as int]
    }
}

/// Writes register `r`; writes to x0 are dropped.
pub open spec fn reg_write(regs: Seq<u64>, r: u32, v: u64) -> Seq<u64> {
    if r == 0 {
        regs
    } else {
        regs.update(r as int, v)
    }
}

/// The effect of one instruction on the register file.
pub open spec fn rv_step(op: RvOp, regs: Seq<u64>) -> Seq<u64> {
    match op {
        RvOp::Addi { rd, rs1, imm } => reg_write(regs, rd, wrap64(reg_read(regs, rs1) + imm)),
        RvOp::Xori { rd, rs1, imm } => reg_write(regs, rd, reg_read(regs, rs1) ^ (imm as u64)),
        RvOp::Andi { rd, rs1, imm } => reg_write(regs, rd, reg_read(regs, rs1) & (imm as u64)),
        RvOp::Slli { rd, rs1, shamt } => reg_write(regs, rd, reg_read(regs, rs1) << shamt),
        RvOp::Srli { rd, rs1, shamt } => reg_write(regs, rd, reg_read(regs, rs1) >> shamt),
        RvOp::Add { rd, rs1, rs2 } => reg_write(
            regs,
            rd,
            wrap64(reg_read(regs, rs1) + reg_read(regs, rs2)),
        ),
        RvOp::Sub { rd, rs1, rs2 } => reg_write(
            regs,
            rd,
            wrap64(reg_read(regs, rs1) - reg_read(regs, rs2)),
        ),
        RvOp::Sltu { rd, rs1, rs2 } => reg_write(
            regs,
            rd,
            if reg_read(regs, rs1) < reg_read(regs, rs2) {
                1
            } else {
                0
            },
        ),
        RvOp::Xor { rd, rs1, rs2 } => reg_write(
            regs,
            rd,
            reg_read(regs, rs1) ^ reg_read(regs, rs2),
        ),
        RvOp::Or { rd, rs1, rs2 } => reg_write(
            regs,
            rd,
            reg_read(regs, rs1) | reg_read(regs, rs2),
        ),
        RvOp::And { rd, rs1, rs2 } => reg_write(
            regs,
            rd,
            reg_read(regs, rs1) & reg_read(regs, rs2),
        ),
        RvOp::Lui { rd, imm } => reg_write(regs, rd, lui_value(imm)),
        RvOp::Addw { rd, rs1, rs2 } => reg_write(
            regs,
            rd,
            sext32(wrap64(reg_read(regs, rs1) + reg_read(regs, rs2))),
        ),
        RvOp::Subw { rd, rs1, rs2 } => reg_write(
            regs,
            rd,
            sext32(wrap64(reg_read(regs, rs1) - reg_read(regs, rs2))),
        ),
    }
}

/// Runs straight-line code; `None` when a word is outside the modelled subset.
pub open spec fn rv_run(words: Seq<u32>, regs: Seq<u64>) -> Option<Seq<u64>>
    decreases words.len(),
{
    if words.len() == 0 {
        Some(regs)
    } else {
        match rv_decode(words[0]) {
            Some(op) => rv_run(words.drop_first(), rv_step(op, regs)),
            None => None,
        }
    }
}

/// Running two pieces of code one after the other is running their concatenation.
pub proof fn lemma_run_append(a: Seq<u32>, b: Seq<u32>, regs: Seq<u64>)
    ensures
        rv_run(a + b, regs) == match rv_run(a, regs) {
            Some(r) => rv_run(b, r),
            None => None,
        },
    decreases a.len(),
{
    if a.len() == 0 {
        assert(a + b =~= b);
    } else {
        assert((a + b).drop_first() =~= a.drop_first() + b);
        assert((a + b)[0] == a[0]);
        match rv_decode(a[0]) {
            Some(op) => lemma_run_append(a.drop_first(), b, rv_step(op, regs)),
            None => {},
        }
    }
}

/// Running a single word is one step of its decoded instruction.
pub proof fn lemma_run_one(w: u32, regs: Seq<u64>)
    ensures
        rv_run(seq![w], regs) == match rv_decode(w) {
            Some(op) => Some(rv_step(op, regs)),
            None => None,
        },
{
    let s = seq![w];
    assert(s.drop_first() =~= Seq::<u32>::empty());
    match rv_decode(w) {
        Some(op) => {
            assert(rv_run(Seq::<u32>::empty(), rv_step(op, regs)) == Some(rv_step(op, regs)));
        },
        None => {},
    }
}

/// The fields of an I-type word read back as written.
pub proof fn lemma_i_type_fields(imm: i32, rs1: u8, funct3: u32, rd: u8, opcode: u32)
    requires
        rs1 < 32,
        rd < 32,
        funct3 < 8,
        opcode < 128,
    ensures
        i_type(imm, rs1, funct3, rd, opcode) & 0x7fu32 == opcode,
        (i_type(imm, rs1, funct3, rd, opcode) >> 7u32) & 0x1fu32 == rd as u32,
        (i_type(imm, rs1, funct3, rd, opcode) >> 12u32) & 0x7u32 == funct3,
        (i_type(imm, rs1, funct3, rd, opcode) >> 15u32) & 0x1fu32 == rs1 as u32,
        i_type(imm, rs1, funct3, rd, opcode) >> 20u32 == (imm as u32) & 0xfffu32,
        -2048 <= imm < 2048 ==> sext12((imm as u32) & 0xfffu32) == imm as i64,
{
    assert({
        let w = (((imm as u32) & 0xfffu32) << 20u32) | ((rs1 as u32) << 15u32) | (funct3 << 12u32)
            | ((rd as u32) << 7u32) | opcode;
        &&& w & 0x7fu32 == opcode
        &&& (w >> 7u32) & 0x1fu32 == rd as u32
        &&& (w >> 12u32) & 0x7u32 == funct3
        &&& (w >> 15u32) & 0x1fu32 == rs1 as u32
        &&& w >> 20u32 == (imm as u32) & 0xfffu32
    }) by (bit_vector)
        requires
            rs1 < 32,
            rd < 32,
            funct3 < 8,
            opcode < 128,
    ;
    assert(0 <= imm < 2048 ==> (imm as u32) & 0xfffu32 == imm as u32) by (bit_vector);
    assert(-2048 <= imm < 0 ==> (imm as u32) & 0xfffu32 == (imm + 4096) as u32) by (bit_vector);
}

/// The fields of a shift-immediate word read back as written.
pub proof fn lemma_shift_type_fields(shamt: u8, rs1: u8, funct3: u32, rd: u8)
    requires
        shamt < 64,
        rs1 < 32,
        rd < 32,
        funct3 < 8,
    ensures
        shift_type(shamt, rs1, funct3, rd) & 0x7fu32 == OP_IMM,
        (shift_type(shamt, rs1, funct3, rd) >> 7u32) & 0x1fu32 == rd as u32,
        (shift_type(shamt, rs1, funct3, rd) >> 12u32) & 0x7u32 == funct3,
        (shift_type(shamt, rs1, funct3, rd) >> 15u32) & 0x1fu32 == rs1 as u32,
        (shift_type(shamt, rs1, funct3, rd) >> 20u32) & 0x3fu32 == shamt as u32,
        shift_type(shamt, rs1, funct3, rd) >> 26u32 == 0,
{
    assert({
        let w = ((shamt as u32) << 20u32) | ((rs1 as u32) << 15u32) | (funct3 << 12u32) | ((
        rd as u32) << 7u32) | 0x13u32;
        &&& w & 0x7fu32 == 0x13u32
        &&& (w >> 7u32) & 0x1fu32 == rd as u32
        &&& (w >> 12u32) & 0x7u32 == funct3
        &&& (w >> 15u32) & 0x1fu32 == rs1 as u32
        &&& (w >> 20u32) & 0x3fu32 == shamt as u32
        &&& w >> 26u32 == 0
    }) by (bit_vector)
        requires
            shamt < 64,
            rs1 < 32,
            rd < 32,
            funct3 < 8,
    ;
}

/// The fields of an R-type word read back as written.
pub proof fn lemma_r_type_fields(funct7: u32, rs2: u8, rs1: u8, funct3: u32, rd: u8, opcode: u32)
    requires
        funct7 < 128,
        rs2 < 32,
        rs1 < 32,
        rd < 32,
        funct3 < 8,
        opcode < 128,
    ensures
        r_type(funct7, rs2, rs1, funct3, rd, opcode) & 0x7fu32 == opcode,
        (r_type(funct7, rs2, rs1, funct3, rd, opcode) >> 7u32) & 0x1fu32 == rd as u32,
        (r_type(funct7, rs2, rs1, funct3, rd, opcode) >> 12u32) & 0x7u32 == funct3,
        (r_type(funct7, rs2, rs1, funct3, rd, opcode) >> 15u32) & 0x1fu32 == rs1 as u32,
        (r_type(funct7, rs2, rs1, funct3, rd, opcode) >> 20u32) & 0x1fu32 == rs2 as u32,
        r_type(funct7, rs2, rs1, funct3, rd, opcode) >> 25u32 == funct7,
{
    assert({
        let w = (funct7 << 25u32) | ((rs2 as u32) << 20u32) | ((rs1 as u32) << 15u32) | (funct3
            << 12u32) | ((rd as u32) << 7u32) | opcode;
        &&& w & 0x7fu32 == opcode
        &&& (w >> 7u32) & 0x1fu32 == rd as u32
        &&& (w >> 12u32) & 0x7u32 == funct3
        &&& (w >> 15u32) & 0x1fu32 == rs1 as u32
        &&& (w >> 20u32) & 0x1fu32 == rs2 as u32
        &&& w >> 25u32 == funct7
    }) by (bit_vector)
        requires
            funct7 < 128,
            rs2 < 32,
            rs1 < 32,
            rd < 32,
            funct3 < 8,
            opcode < 128,
    ;
}

/// `addi rd, rs1, imm` decodes back to itself for registers below 32 and an
/// immediate that fits twelve signed bits.
pub proof fn lemma_decode_addi(rd: u8, rs1: u8, imm: i32)
    requires
        rd < 32,
        rs1 < 32,
        -2048 <= imm < 2048,
    ensures
        rv_decode(i_type(imm, rs1, 0, rd, OP_IMM)) == Some(
            RvOp::Addi { rd: rd as u32, rs1: rs1 as u32, imm: imm as i64 },
        ),
{
    lemma_i_type_fields(imm, rs1, 0, rd, OP_IMM);
}

/// `slli rd, rs1, shamt` decodes back to itself.
pub proof fn lemma_decode_slli(rd: u8, rs1: u8, shamt: u8)
    requires
        rd < 32,
        rs1 < 32,
        shamt < 64,
    ensures
        rv_decode(shift_type(shamt, rs1, 1, rd)) == Some(
            RvOp::Slli { rd: rd as u32, rs1: rs1 as u32, shamt: shamt as u32 },
        ),
{
    lemma_shift_type_fields(shamt, rs1, 1, rd);
}

/// `xori`, `andi` (and `addi`) decode back to themselves for registers
/// below 32 and an immediate that fits twelve signed bits.
pub proof fn lemma_decode_imm(rd: u8, rs1: u8, funct3: u32, imm: i32)
    requires
        rd < 32,
        rs1 < 32,
        funct3 == 0 || funct3 == 4 || funct3 == 7,
        -2048 <= imm < 2048,
    ensures
        rv_decode(i_type(imm, rs1, funct3, rd, OP_IMM)) == Some(
            if funct3 == 0 {
                RvOp::Addi { rd: rd as u32, rs1: rs1 as u32, imm: imm as i64 }
            } else if funct3 == 4 {
                RvOp::Xori { rd: rd as u32, rs1: rs1 as u32, imm: imm as i64 }
            } else {
                RvOp::Andi { rd: rd as u32, rs1: rs1 as u32, imm: imm as i64 }
            },
        ),
{
    lemma_i_type_fields(imm, rs1, funct3, rd, OP_IMM);
}

/// `srli rd, rs1, shamt` decodes back to itself.
pub proof fn lemma_decode_srli(rd: u8, rs1: u8, shamt: u8)
    requires
        rd < 32,
        rs1 < 32,
        shamt < 64,
    ensures
        rv_decode(shift_type(shamt, rs1, 5, rd)) == Some(
            RvOp::Srli { rd: rd as u32, rs1: rs1 as u32, shamt: shamt as u32 },
        ),
{
    lemma_shift_type_fields(shamt, rs1, 5, rd);
}

/// The register-register words with a zero funct7 (`add`, `sltu`, `xor`,
/// `or`, `and`) decode back to themselves.
pub proof fn lemma_decode_reg(rd: u8, rs1: u8, rs2: u8, funct3: u32)
    requires
        rd < 32,
        rs1 < 32,
        rs2 < 32,
        funct3 == 0 || funct3 == 3 || funct3 == 4 || funct3 == 6 || funct3 == 7,
    ensures
        rv_decode(r_type(0, rs2, rs1, funct3, rd, OP_REG)) == Some(
            if funct3 == 0 {
                RvOp::Add { rd: rd as u32, rs1: rs1 as u32, rs2: rs2 as u32 }
            } else if funct3 == 3 {
                RvOp::Sltu { rd: rd as u32, rs1: rs1 as u32, rs2: rs2 as u32 }
            } else if funct3 == 4 {
                RvOp::Xor { rd: rd as u32, rs1: rs1 as u32, rs2: rs2 as u32 }
            } else if funct3 == 6 {
                RvOp::Or { rd: rd as u32, rs1: rs1 as u32, rs2: rs2 as u32 }
            } else {
                RvOp::And { rd: rd as u32, rs1: rs1 as u32, rs2: rs2 as u32 }
            },
        ),
{
    lemma_r_type_fields(0, rs2, rs1, funct3, rd, OP_REG);
}

/// The 32-bit register-register word with a zero funct7 and funct3 (the
/// `addw` layout) decodes as `addw`. The same group with funct3 `0b110` or
/// `0b111` (the layouts `orw_word` and `andw_word` build) is reserved, and
/// decodes to nothing.
pub proof fn lemma_decode_reg32(rd: u8, rs1: u8, rs2: u8, funct3: u32)
    requires
        rd < 32,
        rs1 < 32,
        rs2 < 32,
        funct3 == 0 || funct3 == 6 || funct3 == 7,
    ensures
        rv_decode(r_type(0, rs2, rs1, funct3, rd, OP_REG_32)) == if funct3 == 0 {
            Some(RvOp::Addw { rd: rd as u32, rs1: rs1 as u32, rs2: rs2 as u32 })
        } else {
            None::<RvOp>
        },
{
    lemma_r_type_fields(0, rs2, rs1, funct3, rd, OP_REG_32);
}

/// `lui rd, imm` decodes back to itself, with the low twenty bits of `imm`.
pub proof fn lemma_decode_lui(rd: u8, imm: i32)
    requires
        rd < 32,
    ensures
        rv_decode(u_type(imm, rd, OP_LUI)) == Some(
            RvOp::Lui { rd: rd as u32, imm: (imm as u32) & 0xfffffu32 },
        ),
{
    assert({
        let w = (((imm as u32) & 0xfffffu32) << 12u32) | ((rd as u32) << 7u32) | 0x37u32;
        &&& w & 0x7fu32 == 0x37u32
        &&& (w >> 7u32) & 0x1fu32 == rd as u32
        &&& w >> 12u32 == (imm as u32) & 0xfffffu32
    }) by (bit_vector)
        requires
            rd < 32,
    ;
}

/// The byte offset a B-type branch word encodes: its thirteen-bit
/// immediate (bit 0 zero), sign-extended.
pub open spec fn branch_imm(w: u32) -> int {
    let u = (((w >> 31u32) & 1u32) << 12u32) | (((w >> 7u32) & 1u32) << 11u32) | (((w >> 25u32)
        & 0x3fu32) << 5u32) | (((w >> 8u32) & 0xfu32) << 1u32);
    if u >= 4096 {
        u - 8192
    } else {
        u as int
    }
}

/// The fields of a B-type word read back as written: opcode, `funct3`, both
/// registers, and, for an even offset in -4096..4096, the offset.
pub proof fn lemma_b_type_fields(offset: i32, rs2: u8, rs1: u8, funct3: u32)
    requires
        rs1 < 32,
        rs2 < 32,
        funct3 < 8,
        -4096 <= offset < 4096,
        offset % 2 == 0,
    ensures
        b_type(offset, rs2, rs1, funct3) & 0x7fu32 == OP_BRANCH,
        (b_type(offset, rs2, rs1, funct3) >> 12u32) & 0x7u32 == funct3,
        (b_type(offset, rs2, rs1, funct3) >> 15u32) & 0x1fu32 == rs1 as u32,
        (b_type(offset, rs2, rs1, funct3) >> 20u32) & 0x1fu32 == rs2 as u32,
        branch_imm(b_type(offset, rs2, rs1, funct3)) == offset as int,
{
    let w = b_type(offset, rs2, rs1, funct3);
    let u = (((w >> 31u32) & 1u32) << 12u32) | (((w >> 7u32) & 1u32) << 11u32) | (((w >> 25u32)
        & 0x3fu32) << 5u32) | (((w >> 8u32) & 0xfu32) << 1u32);
    assert({
        let imm = offset as u32;
        let w = (((imm >> 12u32) & 1u32) << 31u32) | (((imm >> 5u32) & 0x3fu32) << 25u32) | ((rs2 as u32)
            << 20u32) | ((rs1 as u32) << 15u32) | (funct3 << 12u32) | (((imm >> 1u32) & 0xfu32)
            << 8u32) | (((imm >> 11u32) & 1u32) << 7u32) | 0x63u32;
        let u = (((w >> 31u32) & 1u32) << 12u32) | (((w >> 7u32) & 1u32) << 11u32) | (((w >> 25u32)
            & 0x3fu32) << 5u32) | (((w >> 8u32) & 0xfu32) << 1u32);
        &&& w & 0x7fu32 == 0x63u32
        &&& (w >> 12u32) & 0x7u32 == funct3
        &&& (w >> 15u32) & 0x1fu32 == rs1 as u32
        &&& (w >> 20u32) & 0x1fu32 == rs2 as u32
        &&& (offset >= 0 ==> u == offset as u32)
        &&& (offset < 0 ==> u == (offset + 8192) as u32)
    }) by (bit_vector)
        requires
            rs1 < 32,
            rs2 < 32,
            funct3 < 8,
            -4096 <= offset < 4096,
            offset % 2 == 0,
    ;
}

proof fn lemma_shl12(x: u64)
    ensures
        x << 12u32 == wrap64(x as int * 4096),
{
    assert(x << 12u32 == ((x as int * 4096) % 0x1_0000_0000_0000_0000int) as u64) by (bit_vector);
}

proof fn lemma_wrap64_of_u64(x: int)
    requires
        0 <= x < 0x1_0000_0000_0000_0000int,
    ensures
        wrap64(x) == x,
{
}

proof fn lemma_rest_bounds(v: u64)
    ensures
        forall|k: nat| k <= 6 ==> 0 <= #[trigger] rest_after(v as int, k) <= v,
        rest_after(v as int, 6) == 0,
{
    let x = v as int;
    assert forall|k: nat| k <= 6 implies 0 <= #[trigger] rest_after(x, k) <= x by {
        lemma_rest_bounds_upto(x, k);
    }
    lemma_rest_step(rest_after(x, 0));
    lemma_rest_step(rest_after(x, 1));
    lemma_rest_step(rest_after(x, 2));
    lemma_rest_step(rest_after(x, 3));
    lemma_rest_step(rest_after(x, 4));
    lemma_rest_step(rest_after(x, 5));
    assert(rest_after(x, 1) == chunk_rest(rest_after(x, 0)));
    assert(rest_after(x, 2) == chunk_rest(rest_after(x, 1)));
    assert(rest_after(x, 3) == chunk_rest(rest_after(x, 2)));
    assert(rest_after(x, 4) == chunk_rest(rest_after(x, 3)));
    assert(rest_after(x, 5) == chunk_rest(rest_after(x, 4)));
    assert(rest_after(x, 6) == chunk_rest(rest_after(x, 5)));
}

proof fn lemma_rest_bounds_upto(x: int, k: nat)
    requires
        x >= 0,
    ensures
        0 <= rest_after(x, k) <= x,
    decreases k,
{
    if k > 0 {
        lemma_rest_bounds_upto(x, (k - 1) as nat);
        lemma_rest_step(rest_after(x, (k - 1) as nat));
    }
}

proof fn lemma_rest_step(v: int)
    requires
        v >= 0,
    ensures
        -2048 <= low_chunk(v) < 2048,
        v == low_chunk(v) + 4096 * chunk_rest(v),
        0 <= chunk_rest(v) <= v,
        4096 * chunk_rest(v) <= v + 2048,
{
    let low = v % 4096;
    vstd::arithmetic::div_mod::lemma_fundamental_div_mod(v, 4096);
    if low >= 2048 {
        assert((v - (low - 4096)) == 4096 * (v / 4096 + 1));
        vstd::arithmetic::div_mod::lemma_div_multiples_vanish(v / 4096 + 1, 4096);
    } else {
        assert(v - low == 4096 * (v / 4096));
        vstd::arithmetic::div_mod::lemma_div_multiples_vanish(v / 4096, 4096);
    }
}

proof fn lemma_load_tail(rd: u8, value: u64, i: int, regs: Seq<u64>)
    requires
        1 <= rd < 32,
        1 <= i <= 6,
        regs.len() == 32,
        regs[rd as int] == rest_after(value as int, (6 - i) as nat),
    ensures
        rv_run(load_u64_tail(rd, value, i), regs) == Some(regs.update(rd as int, value)),
    decreases 6 - i,
{
    lemma_rest_bounds(value);
    let v = value as int;
    if i == 6 {
        assert(regs.update(rd as int, value) =~= regs);
    } else {
        let r_hi = rest_after(v, (6 - i) as nat);
        let r_lo = rest_after(v, (5 - i) as nat);
        let c = load_chunk(value, i);
        assert(rest_after(v, (6 - i) as nat) == chunk_rest(rest_after(v, (5 - i) as nat)));
        lemma_rest_step(r_lo);
        assert(c == low_chunk(r_lo));
        let slli = seq![shift_type(12, rd, 0b001, rd)];
        let add = if c != 0 {
            seq![i_type(c as i32, rd, 0, rd, OP_IMM)]
        } else {
            Seq::empty()
        };
        let rest = load_u64_tail(rd, value, i + 1);
        assert(load_u64_tail(rd, value, i) == slli + add + rest);
        lemma_run_append(slli + add, rest, regs);
        lemma_run_append(slli, add, regs);
        lemma_decode_slli(rd, rd, 12);
        lemma_run_one(shift_type(12, rd, 0b001, rd), regs);
        let x = regs[rd as int];
        lemma_shl12(x);
        let r1 = regs.update(rd as int, x << 12u32);
        assert(rv_run(slli, regs) == Some(r1));
        assert(x << 12u32 == wrap64(r_hi * 4096));
        assert(0 <= r_lo <= v);
        if c != 0 {
            lemma_decode_addi(rd, rd, c as i32);
            lemma_run_one(i_type(c as i32, rd, 0, rd, OP_IMM), r1);
            let y = wrap64(r_hi * 4096);
            assert(r_hi * 4096 >= 0);
            vstd::arithmetic::div_mod::lemma_add_mod_noop(
                r_hi * 4096,
                c,
                0x1_0000_0000_0000_0000int,
            );
            vstd::arithmetic::div_mod::lemma_mod_twice(c, 0x1_0000_0000_0000_0000int);
            lemma_wrap64_of_u64(r_lo);
            assert(wrap64(y + c) == wrap64(r_hi * 4096 + c)) by {
                vstd::arithmetic::div_mod::lemma_add_mod_noop(
                    r_hi * 4096,
                    c,
                    0x1_0000_0000_0000_0000int,
                );
                vstd::arithmetic::div_mod::lemma_mod_twice(
                    r_hi * 4096,
                    0x1_0000_0000_0000_0000int,
                );
                vstd::arithmetic::div_mod::lemma_add_mod_noop(
                    y as int,
                    c,
                    0x1_0000_0000_0000_0000int,
                );
            }
            assert(rv_run(add, r1) == Some(r1.update(rd as int, r_lo as u64)));
        } else {
            lemma_wrap64_of_u64(r_lo);
            assert(add =~= Seq::<u32>::empty());
        }
        let r2 = regs.update(rd as int, r_lo as u64);
        assert(rv_run(slli + add, regs) == Some(r2)) by {
            assert(r1.update(rd as int, r_lo as u64) =~= r2);
        }
        lemma_load_tail(rd, value, i + 1, r2);
        assert(r2.update(rd as int, value) =~= regs.update(rd as int, value));
    }
}

/// The code that `load_u64` emits loads `value` into its target register
/// and leaves every other register as it was.
pub proof fn lemma_load_u64_loads(rd: u8, value: u64, regs: Seq<u64>)
    requires
        1 <= rd < 32,
        regs.len() == 32,
    ensures
        rv_run(load_u64_words(rd, value), regs) == Some(reg_write(regs, rd as u32, value)),
{
    lemma_rest_bounds(value);
    let v = value as int;
    let r5 = rest_after(v, 5);
    lemma_rest_step(r5);
    assert(rest_after(v, 6) == chunk_rest(r5));
    let c0 = load_chunk(value, 0);
    assert(c0 == low_chunk(r5));
    assert(r5 == c0);
    let first = seq![i_type(c0 as i32, 0, 0, rd, OP_IMM)];
    lemma_run_append(first, load_u64_tail(rd, value, 1), regs);
    lemma_decode_addi(rd, 0, c0 as i32);
    lemma_run_one(i_type(c0 as i32, 0, 0, rd, OP_IMM), regs);
    lemma_wrap64_of_u64(c0);
    let r1 = regs.update(rd as int, r5 as u64);
    assert(rv_run(first, regs) == Some(r1));
    lemma_load_tail(rd, value, 1, r1);
    assert(r1.update(rd as int, value) =~= regs.update(rd as int, value));
}

} // verus!
