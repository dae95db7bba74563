//! Encoders for the RV64 instructions that the translator emits.
//!
//! Each encoder is specified by the instruction format it fills in
//! (`r_type`, `i_type`, `s_type`, `u_type`, `b_type`, `j_type`,
//! `shift_type`). Register operands are placed unmasked, as the words are
//! built; `crate::riscv` proves that for register numbers below 32 every
//! field of the word reads back as written.
use vstd::prelude::*;

verus! {

/// Opcode of the register-immediate ALU group (`addi`, `xori`, `andi`, shifts).
pub const OP_IMM: u32 = 0x13;
/// Opcode of the register-register ALU group (`add`, `xor`, `or`, `and`, `sltu`).
pub const OP_REG: u32 = 0x33;
/// Opcode of the 32-bit register-register ALU group (`subw` and friends).
pub const OP_REG_32: u32 = 0x3B;
/// Opcode of `lui`.
pub const OP_LUI: u32 = 0x37;
/// Opcode of the loads.
pub const OP_LOAD: u32 = 0x03;
/// Opcode of the stores.
pub const OP_STORE: u32 = 0x23;
/// Opcode of the conditional branches.
pub const OP_BRANCH: u32 = 0x63;
/// Opcode of `jal`.
pub const OP_JAL: u32 = 0x6F;
/// Opcode of `jalr`.
pub const OP_JALR: u32 = 0x67;
/// The whole `ecall` word.
pub const ECALL_WORD: u32 = 0x00000073;

/// R-type: `funct7 | rs2 | rs1 | funct3 | rd | opcode`.
pub open spec fn r_type(funct7: u32, rs2: u8, rs1: u8, funct3: u32, rd: u8, opcode: u32) -> u32 {
    (funct7 << 25u32) | ((rs2 as u32) << 20u32) | ((rs1 as u32) << 15u32) | (funct3 << 12u32)
        | ((rd as u32) << 7u32) | opcode
}

/// I-type: the low twelve bits of `imm`, then `rs1 | funct3 | rd | opcode`.
pub open spec fn i_type(imm: i32, rs1: u8, funct3: u32, rd: u8, opcode: u32) -> u32 {
    (((imm as u32) & 0xfffu32) << 20u32) | ((rs1 as u32) << 15u32) | (funct3 << 12u32)
        | ((rd as u32) << 7u32) | opcode
}

/// Shift-immediate form of RV64 (`slli`, `srli`): a six-bit shift amount
/// where the I-type immediate stands, with the upper bits zero.
pub open spec fn shift_type(shamt: u8, rs1: u8, funct3: u32, rd: u8) -> u32 {
    ((shamt as u32) << 20u32) | ((rs1 as u32) << 15u32) | (funct3 << 12u32) | ((rd as u32) << 7u32)
        | OP_IMM
}

/// S-type: `imm[11:5] | rs2 | rs1 | funct3 | imm[4:0] | opcode`.
pub open spec fn s_type(imm: i32, rs2: u8, rs1: u8, funct3: u32, opcode: u32) -> u32 {
    ((((imm as u32) >> 5u32) & 0x7fu32) << 25u32) | ((rs2 as u32) << 20u32) | ((rs1 as u32)
        << 15u32) | (funct3 << 12u32) | (((imm as u32) & 0x1fu32) << 7u32) | opcode
}

/// U-type: the low twenty bits of `imm` in bits 31..12, then `rd | opcode`.
pub open spec fn u_type(imm: i32, rd: u8, opcode: u32) -> u32 {
    (((imm as u32) & 0xfffffu32) << 12u32) | ((rd as u32) << 7u32) | opcode
}

/// B-type: `imm[12] | imm[10:5] | rs2 | rs1 | funct3 | imm[4:1] | imm[11] | opcode`.
pub open spec fn b_type(offset: i32, rs2: u8, rs1: u8, funct3: u32) -> u32 {
    let imm = offset as u32;
    (((imm >> 12u32) & 1u32) << 31u32) | (((imm >> 5u32) & 0x3fu32) << 25u32) | ((rs2 as u32)
        << 20u32) | ((rs1 as u32) << 15u32) | (funct3 << 12u32) | (((imm >> 1u32) & 0xfu32)
        << 8u32) | (((imm >> 11u32) & 1u32) << 7u32) | OP_BRANCH
}

/// J-type: `imm[20] | imm[10:1] | imm[11] | imm[19:12] | rd | opcode`.
pub open spec fn j_type(offset: i32, rd: u8) -> u32 {
    let imm = offset as u32;
    (((imm >> 20u32) & 1u32) << 31u32) | (((imm >> 1u32) & 0x3ffu32) << 21u32) | (((imm >> 11u32)
        & 1u32) << 20u32) | (((imm >> 12u32) & 0xffu32) << 12u32) | ((rd as u32) << 7u32) | OP_JAL
}

/// The word of the instruction `addi` (see `encode_addi`).
pub open spec fn addi_word(rd: u8, rs1: u8, imm: i32) -> u32 {
    i_type(imm, rs1, 0, rd, OP_IMM)
}

/// The word of the instruction `lui` (see `encode_lui`).
pub open spec fn lui_word(rd: u8, imm: i32) -> u32 {
    u_type(imm, rd, OP_LUI)
}

/// The word of the instruction `xor` (see `encode_xor`).
pub open spec fn xor_word(rd: u8, rs1: u8, rs2: u8) -> u32 {
    r_type(0, rs2, rs1, 0b100, rd, OP_REG)
}

/// The word of the instruction `ld` (see `encode_ld`).
pub open spec fn ld_word(rd: u8, rs1: u8, imm: i32) -> u32 {
    i_type(imm, rs1, 0b011, rd, OP_LOAD)
}

/// The word of the instruction `sd` (see `encode_sd`).
pub open spec fn sd_word(rs2: u8, rs1: u8, imm: i32) -> u32 {
    s_type(imm, rs2, rs1, 0b011, OP_STORE)
}

/// The word of the instruction `andi` (see `encode_andi`).
pub open spec fn andi_word(rd: u8, rs1: u8, imm: i32) -> u32 {
    i_type(imm, rs1, 0b111, rd, OP_IMM)
}

/// The word of the instruction `xori` (see `encode_xori`).
pub open spec fn xori_word(rd: u8, rs1: u8, imm: i32) -> u32 {
    i_type(imm, rs1, 0b100, rd, OP_IMM)
}

/// The word of the instruction `slli` (see `encode_slli`).
pub open spec fn slli_word(rd: u8, rs1: u8, shamt: u8) -> u32 {
    shift_type(shamt, rs1, 0b001, rd)
}

/// The word of the instruction `srli` (see `encode_srli`).
pub open spec fn srli_word(rd: u8, rs1: u8, shamt: u8) -> u32 {
    shift_type(shamt, rs1, 0b101, rd)
}

/// The word of the instruction `add` (see `encode_add`).
pub open spec fn add_word(rd: u8, rs1: u8, rs2: u8) -> u32 {
    r_type(0, rs2, rs1, 0, rd, OP_REG)
}

/// The word emitted for a 64-bit subtraction (see `encode_sub`): with
/// `funct7 = 0` it is the layout of `add`, so it computes `rs1 + rs2`.
pub open spec fn sub_word(rd: u8, rs1: u8, rs2: u8) -> u32 {
    r_type(0, rs2, rs1, 0, rd, OP_REG)
}

/// The word emitted for a 32-bit subtraction (see `encode_subw`): with
/// `funct7 = 0` in the 32-bit group it is the layout of `addw`.
pub open spec fn subw_word(rd: u8, rs1: u8, rs2: u8) -> u32 {
    r_type(0, rs2, rs1, 0, rd, OP_REG_32)
}

/// The word of the instruction `sltu` (see `encode_sltu`).
pub open spec fn sltu_word(rd: u8, rs1: u8, rs2: u8) -> u32 {
    r_type(0, rs2, rs1, 0b011, rd, OP_REG)
}

/// The word of the instruction `and` (see `encode_and`).
pub open spec fn and_word(rd: u8, rs1: u8, rs2: u8) -> u32 {
    r_type(0, rs2, rs1, 0b111, rd, OP_REG)
}

/// The `and` layout in the 32-bit register group (see `encode_andw`): that
/// group has no instruction with `funct3 = 0b111`, so RV64 reserves this
/// word.
pub open spec fn andw_word(rd: u8, rs1: u8, rs2: u8) -> u32 {
    r_type(0, rs2, rs1, 0b111, rd, OP_REG_32)
}

/// The word of the instruction `or` (see `encode_or`).
pub open spec fn or_word(rd: u8, rs1: u8, rs2: u8) -> u32 {
    r_type(0, rs2, rs1, 0b110, rd, OP_REG)
}

/// The `or` layout in the 32-bit register group (see `encode_orw`): that
/// group has no instruction with `funct3 = 0b110`, so RV64 reserves this
/// word.
pub open spec fn orw_word(rd: u8, rs1: u8, rs2: u8) -> u32 {
    r_type(0, rs2, rs1, 0b110, rd, OP_REG_32)
}

/// The word of the instruction `jalr` (see `encode_jalr`).
pub open spec fn jalr_word(rd: u8, rs1: u8, imm: i32) -> u32 {
    i_type(imm, rs1, 0, rd, OP_JALR)
}

/// The word of the instruction `jal` (see `encode_jal`).
pub open spec fn jal_word(rd: u8, offset: i32) -> u32 {
    j_type(offset, rd)
}

/// The word of the instruction `bne` (see `encode_bne`).
pub open spec fn bne_word(rs1: u8, rs2: u8, offset: i32) -> u32 {
    b_type(offset, rs2, rs1, 0b001)
}

/// Builds an R-type word.
pub fn r_word(funct7: u32, rs2: u8, rs1: u8, funct3: u32, rd: u8, opcode: u32) -> (word: u32)
    ensures
        word == r_type(funct7, rs2, rs1, funct3, rd, opcode),
{
    (funct7 << 25u32) | ((rs2 as u32) << 20u32) | ((rs1 as u32) << 15u32) | (funct3 << 12u32)
        | ((rd as u32) << 7u32) | opcode
}

/// Builds an I-type word.
pub fn i_word(imm: i32, rs1: u8, funct3: u32, rd: u8, opcode: u32) -> (word: u32)
    ensures
        word == i_type(imm, rs1, funct3, rd, opcode),
{
    (((imm as u32) & 0xfffu32) << 20u32) | ((rs1 as u32) << 15u32) | (funct3 << 12u32)
        | ((rd as u32) << 7u32) | opcode
}

/// Builds a shift-immediate word.
pub fn shift_word(shamt: u8, rs1: u8, funct3: u32, rd: u8) -> (word: u32)
    ensures
        word == shift_type(shamt, rs1, funct3, rd),
{
    ((shamt as u32) << 20u32) | ((rs1 as u32) << 15u32) | (funct3 << 12u32) | ((rd as u32) << 7u32)
        | OP_IMM
}

/// `addi rd, rs1, imm`
pub fn encode_addi(rd: u8, rs1: u8, imm: i32) -> (word: u32)
    ensures
        word == addi_word(rd, rs1, imm),
{
    i_word(imm, rs1, 0, rd, OP_IMM)
}

/// `ecall`
pub fn encode_ecall() -> (word: u32)
    ensures
        word == ECALL_WORD,
{
    0x00000073
}

/// `lui rd, imm`
pub fn encode_lui(rd: u8, imm: i32) -> (word: u32)
    ensures
        word == lui_word(rd, imm),
{
    ((imm as u32 & 0xfffff) << 12) | ((rd as u32) << 7) | 0x37
}

/// `xor rd, rs1, rs2`
pub fn encode_xor(rd: u8, rs1: u8, rs2: u8) -> (word: u32)
    ensures
        word == xor_word(rd, rs1, rs2),
{
    r_word(0, rs2, rs1, 0b100, rd, OP_REG)
}

/// `ld rd, imm(rs1)`
pub fn encode_ld(rd: u8, rs1: u8, imm: i32) -> (word: u32)
    ensures
        word == ld_word(rd, rs1, imm),
{
    i_word(imm, rs1, 0b011, rd, OP_LOAD)
}

/// `sd rs2, imm(rs1)`
pub fn encode_sd(rs2: u8, rs1: u8, imm: i32) -> (word: u32)
    ensures
        word == sd_word(rs2, rs1, imm),
{
    let imm = imm as u32;

    ((imm >> 5 & 0x7f) << 25) | ((rs2 as u32) << 20) | ((rs1 as u32) << 15) | (0b011 << 12) | ((imm
        & 0x1f) << 7) | 0x23
}

/// `andi rd, rs1, imm`
pub fn encode_andi(rd: u8, rs1: u8, imm: i32) -> (word: u32)
    ensures
        word == andi_word(rd, rs1, imm),
{
    i_word(imm, rs1, 0b111, rd, OP_IMM)
}

/// `xori rd, rs1, imm`
pub fn encode_xori(rd: u8, rs1: u8, imm: i32) -> (word: u32)
    ensures
        word == xori_word(rd, rs1, imm),
{
    i_word(imm, rs1, 0b100, rd, OP_IMM)
}

/// `slli rd, rs1, shamt`
pub fn encode_slli(rd: u8, rs1: u8, shamt: u8) -> (word: u32)
    ensures
        word == slli_word(rd, rs1, shamt),
{
    shift_word(shamt, rs1, 0b001, rd)
}

/// `srli rd, rs1, shamt`
pub fn encode_srli(rd: u8, rs1: u8, shamt: u8) -> (word: u32)
    ensures
        word == srli_word(rd, rs1, shamt),
{
    shift_word(shamt, rs1, 0b101, rd)
}

/// `add rd, rs1, rs2`
pub fn encode_add(rd: u8, rs1: u8, rs2: u8) -> (word: u32)
    ensures
        word == add_word(rd, rs1, rs2),
{
    r_word(0, rs2, rs1, 0, rd, OP_REG)
}

/// The word emitted for a 64-bit subtraction. It carries `funct7 = 0`, so it
/// is the same word as `encode_add(rd, rs1, rs2)`.
pub fn encode_sub(rd: u8, rs1: u8, rs2: u8) -> (word: u32)
    ensures
        word == sub_word(rd, rs1, rs2),
{
    r_word(0, rs2, rs1, 0b000, rd, OP_REG)
}

/// The word emitted for a 32-bit subtraction (`funct7 = 0` in the 32-bit
/// group, the layout of `addw`).
pub fn encode_subw(rd: u8, rs1: u8, rs2: u8) -> (word: u32)
    ensures
        word == subw_word(rd, rs1, rs2),
{
    r_word(0, rs2, rs1, 0b000, rd, OP_REG_32)
}

/// `sltu rd, rs1, rs2`
pub fn encode_sltu(rd: u8, rs1: u8, rs2: u8) -> (word: u32)
    ensures
        word == sltu_word(rd, rs1, rs2),
{
    r_word(0, rs2, rs1, 0b011, rd, OP_REG)
}

/// `and rd, rs1, rs2`
pub fn encode_and(rd: u8, rs1: u8, rs2: u8) -> (word: u32)
    ensures
        word == and_word(rd, rs1, rs2),
{
    r_word(0, rs2, rs1, 0b111, rd, OP_REG)
}

/// The `and` layout in the 32-bit register group, a word RV64 reserves
/// (that group has no instruction with `funct3 = 0b111`).
pub fn encode_andw(rd: u8, rs1: u8, rs2: u8) -> (word: u32)
    ensures
        word == andw_word(rd, rs1, rs2),
{
    r_word(0, rs2, rs1, 0b111, rd, OP_REG_32)
}

/// `or rd, rs1, rs2`
pub fn encode_or(rd: u8, rs1: u8, rs2: u8) -> (word: u32)
    ensures
        word == or_word(rd, rs1, rs2),
{
    r_word(0, rs2, rs1, 0b110, rd, OP_REG)
}

/// The `or` layout in the 32-bit register group, a word RV64 reserves
/// (that group has no instruction with `funct3 = 0b110`).
pub fn encode_orw(rd: u8, rs1: u8, rs2: u8) -> (word: u32)
    ensures
        word == orw_word(rd, rs1, rs2),
{
    r_word(0, rs2, rs1, 0b110, rd, OP_REG_32)
}

/// `jalr rd, imm(rs1)`
pub fn encode_jalr(rd: u8, rs1: u8, imm: i32) -> (word: u32)
    ensures
        word == jalr_word(rd, rs1, imm),
{
    i_word(imm, rs1, 0, rd, OP_JALR)
}

/// `jal rd, offset`
pub fn encode_jal(rd: u8, offset: i32) -> (word: u32)
    ensures
        word == jal_word(rd, offset),
{
    let imm = offset as u32;

    (((imm >> 20) & 1) << 31) | (((imm >> 1) & 0x3ff) << 21) | (((imm >> 11) & 1) << 20) | (((imm
        >> 12) & 0xff) << 12) | ((rd as u32) << 7) | 0x6F
}

/// `bne rs1, rs2, offset`
pub fn encode_bne(rs1: u8, rs2: u8, offset: i32) -> (word: u32)
    ensures
        word == bne_word(rs1, rs2, offset),
{
    let imm = offset as u32;

    (((imm >> 12) & 1) << 31) | (((imm >> 5) & 0x3f) << 25) | ((rs2 as u32) << 20) | ((rs1 as u32)
        << 15) | (0b001 << 12) | (((imm >> 1) & 0xf) << 8) | (((imm >> 11) & 1) << 7) | 0x63
}

} // verus!
