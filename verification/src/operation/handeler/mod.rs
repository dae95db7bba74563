//! Per-instruction translation of x86-64 operations into RV64 code.
//!
//! Each handler reads the instruction at `code_offset`, appends RV64 words
//! (and, for `lea`, data and a fixup) to the output of the current
//! translation, updates the tracked register values, and says how far to
//! advance, whether the current straight-line run ends there, and which
//! branch target must be translated as well. Where a handler has no rule
//! for an instruction's form, or would read beyond the code, it returns an
//! error and changes nothing.
use vstd::prelude::*;
use std::sync::Arc;
use vstd::bytes::{spec_u32_from_le_bytes, spec_u64_from_le_bytes, u32_from_le_bytes, u64_from_le_bytes};
use vstd::slice::slice_subrange;

use crate::elf::{Elf64Header, Elf64ProgramHeader};
use crate::operation::DecodedInstruction;
use crate::registers::{reg_field_number, reg_from_number, rm_number, X86Reg};

pub mod syscall;
pub mod mov;
pub mod lea;
pub mod xor;
pub mod endbr64;
pub mod sub;
pub mod pop;
pub mod nop;
pub mod cmp;
pub mod conditionaljump;
pub mod test;
pub mod jmp;
pub mod call;
pub mod ret;

verus! {

/// What a translation reads: the code being translated (from the entry
/// point to the end of its segment), the file header, the whole input file
/// and its loadable segments.
#[derive(Clone)]
pub struct TranslationContext {
    pub code: Arc<[u8]>,
    pub header: Arc<Elf64Header>,
    pub bytes: Arc<Vec<u8>>,
    pub segments: Arc<Vec<Elf64ProgramHeader>>,
}

/// The input of a handler: the instruction and where it stands, the
/// translation it belongs to, and the output of that translation so far.
pub struct HandelerInputValue<'a> {
    pub code: &'a [u8],
    pub code_offset: usize,
    pub registers: &'a mut [u64; 16],
    pub operation: &'a DecodedInstruction,
    pub header: &'a Elf64Header,
    pub translation_context: &'a TranslationContext,
    pub bytes: &'a Vec<u8>,
    pub riscv_data: &'a mut Vec<u8>,
    pub riscv_code: &'a mut Vec<u32>,
    pub lea_fixups: &'a mut Vec<(usize, u8, u64)>,
    pub branch_fixups: &'a mut Vec<(usize, usize)>,
    pub call_fixups: &'a mut Vec<(usize, usize)>,
    pub segments: &'a Vec<Elf64ProgramHeader>,
}

/// A further translation of the same code that a branch asks for: where it
/// starts, and the register values known at the branch.
#[derive(Debug, Clone, Copy)]
pub struct ChildTranslation {
    pub code_offset: usize,
    pub registers: [u64; 16],
}

/// What a handler reports: how many bytes the instruction spans, whether
/// the straight-line run ends with it, and the translation it asks for.
#[derive(Debug, Clone, Copy)]
pub struct HandelerReturnValue {
    pub operation_len: usize,
    pub finish_thread: bool,
    pub future: Option<ChildTranslation>,
}

/// Why an instruction cannot be translated.
#[derive(Debug, Clone, Copy, PartialEq, Eq, Structural)]
pub enum TranslateError {
    /// The translator has no rule for this instruction or operand form.
    Unsupported,
    /// The instruction reaches beyond the end of the code.
    Truncated,
    /// An address or offset computation leaves the range of its integer type.
    AddressOverflow,
    /// The address a `lea` computes lies in no loadable segment, or its
    /// segment's bytes lie beyond the file.
    UnmappedAddress,
}

impl HandelerReturnValue {
    /// Advance by `operation_len` and go on with the run.
    pub fn new(operation_len: usize) -> (r: Self)
        ensures
            r.operation_len == operation_len,
            !r.finish_thread,
            r.future is None,
    {
        Self { operation_len, finish_thread: false, future: None }
    }

    /// Advance by `operation_len`, go on, and translate `future` as well.
    pub fn future(operation_len: usize, future: ChildTranslation) -> (r: Self)
        ensures
            r.operation_len == operation_len,
            !r.finish_thread,
            r.future == Some(future),
    {
        Self { operation_len, finish_thread: false, future: Some(future) }
    }

    /// Advance by `operation_len` and end the run.
    pub fn finish(operation_len: usize) -> (r: Self)
        ensures
            r.operation_len == operation_len,
            r.finish_thread,
            r.future is None,
    {
        Self { operation_len, finish_thread: true, future: None }
    }

    /// Advance by `operation_len`, end the run, and translate `future`.
    pub fn finish_with_future(operation_len: usize, future: ChildTranslation) -> (r: Self)
        ensures
            r.operation_len == operation_len,
            r.finish_thread,
            r.future == Some(future),
    {
        Self { operation_len, finish_thread: true, future: Some(future) }
    }
}

/// The prefix byte at `offset` when it is a REX prefix (0x40..=0x4F), else 0.
pub open spec fn rex_at(code: Seq<u8>, offset: int) -> u8 {
    if code[offset] / 16 == 4 {
        code[offset]
    } else {
        0
    }
}

/// REX.B: bit 0.
pub open spec fn rex_b(rex: u8) -> bool {
    rex % 2 == 1
}

/// REX.R: bit 2.
pub open spec fn rex_r(rex: u8) -> bool {
    (rex / 4) % 2 == 1
}

/// REX.W: bit 3 (64-bit operand size).
pub open spec fn rex_w(rex: u8) -> bool {
    (rex / 8) % 2 == 1
}

/// The 32-bit little-endian value at `i..i + 4`, when it is inside the code.
pub open spec fn le32_at(code: Seq<u8>, i: int) -> Option<u32> {
    if 0 <= i && i + 4 <= code.len() {
        Some(spec_u32_from_le_bytes(code.subrange(i, i + 4)))
    } else {
        None
    }
}

pub(crate) fn read_le32(code: &[u8], i: usize) -> (r: Option<u32>)
    ensures
        r == le32_at(code@, i as int),
{
    if i > code.len() || code.len() - i < 4 {
        None
    } else {
        Some(u32_from_le_bytes(slice_subrange(code, i, i + 4)))
    }
}

/// The 64-bit little-endian value at `i..i + 8`, when it is inside the code.
pub open spec fn le64_at(code: Seq<u8>, i: int) -> Option<u64> {
    if 0 <= i && i + 8 <= code.len() {
        Some(spec_u64_from_le_bytes(code.subrange(i, i + 8)))
    } else {
        None
    }
}

pub(crate) fn read_le64(code: &[u8], i: usize) -> (r: Option<u64>)
    ensures
        r == le64_at(code@, i as int),
{
    if i > code.len() || code.len() - i < 8 {
        None
    } else {
        Some(u64_from_le_bytes(slice_subrange(code, i, i + 8)))
    }
}

/// The branch target `offset + len + displacement`, with the offset read as
/// an `i64`; `None` when the sum leaves the `i64` range.
pub open spec fn branch_target(offset: usize, len: int, displacement: int) -> Option<i64> {
    let t = (offset as i64) as int + len + displacement;
    if i64::MIN <= t <= i64::MAX {
        Some(t as i64)
    } else {
        None
    }
}

pub(crate) fn compute_branch_target(offset: usize, len: i64, displacement: i64) -> (r: Option<i64>)
    ensures
        r == branch_target(offset, len as int, displacement as int),
{
    let t: i128 = (offset as i64) as i128 + len as i128 + displacement as i128;
    if t < i64::MIN as i128 || t > i64::MAX as i128 {
        None
    } else {
        Some(t as i64)
    }
}

pub(crate) fn rex_bit_b(rex: u8) -> (b: bool)
    ensures
        b == rex_b(rex),
{
    rex % 2 == 1
}

pub(crate) fn rex_bit_r(rex: u8) -> (b: bool)
    ensures
        b == rex_r(rex),
{
    (rex / 4) % 2 == 1
}

pub(crate) fn rex_bit_w(rex: u8) -> (b: bool)
    ensures
        b == rex_w(rex),
{
    (rex / 8) % 2 == 1
}

/// Offset of the ModRM byte of an instruction at `offset` whose opcode is
/// one byte, after an optional REX prefix.
pub open spec fn modrm_offset_at(code: Seq<u8>, offset: usize) -> int {
    if code[offset as int] / 16 == 4 {
        offset + 2
    } else {
        offset + 1
    }
}

/// The two register operands of a register-to-register instruction at
/// `offset` (ModRM `mod == 3`): the `rm` register (REX.B extends it), the
/// `reg` register (REX.R extends it), and the REX byte (0 when absent).
/// `Truncated` when the ModRM byte lies beyond the code, `Unsupported` when
/// an operand is in memory.
pub open spec fn register_operands(code: Seq<u8>, offset: usize) -> Result<
    (X86Reg, X86Reg, u8),
    TranslateError,
> {
    let m = modrm_offset_at(code, offset);
    let rex = rex_at(code, offset as int);
    if m >= code.len() {
        Err(TranslateError::Truncated)
    } else if code[m] / 64 != 3 {
        Err(TranslateError::Unsupported)
    } else {
        Ok(
            (
                reg_from_number(rm_number(code[m], rex_b(rex))),
                reg_from_number(reg_field_number(code[m], rex_r(rex))),
                rex,
            ),
        )
    }
}

pub(crate) fn read_register_operands(code: &[u8], offset: usize) -> (r: Result<
    (X86Reg, X86Reg, u8, usize),
    TranslateError,
>)
    requires
        offset < code@.len(),
    ensures
        match r {
            Ok((a, b, rex, m)) => register_operands(code@, offset) == Ok::<
                (X86Reg, X86Reg, u8),
                TranslateError,
            >((a, b, rex)) && m == modrm_offset_at(code@, offset),
            Err(e) => register_operands(code@, offset) == Err::<
                (X86Reg, X86Reg, u8),
                TranslateError,
            >(e),
        },
{
    let mut rex: u8 = 0;
    let mut prefix_len: usize = 0;

    if code[offset] / 16 == 4 {
        rex = code[offset];
        prefix_len = 1;
    }
    if code.len() - offset <= prefix_len + 1 {
        return Err(TranslateError::Truncated);
    }
    let modrm_offset = offset + prefix_len + 1;
    let modrm = code[modrm_offset];
    if modrm / 64 != 3 {
        return Err(TranslateError::Unsupported);
    }
    let rm = X86Reg::from_modrm(modrm, rex_bit_b(rex));
    let reg = X86Reg::from_modrm_reg(modrm, rex_bit_r(rex));
    Ok((rm, reg, rex, modrm_offset))
}

} // verus!
