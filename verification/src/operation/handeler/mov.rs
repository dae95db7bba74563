use vstd::prelude::*;

use crate::encode::{addi_word, encode_addi};
use crate::riscv::{lemma_decode_imm, lemma_run_one, reg_write, rv_run};
use crate::operation::handeler::{
    le32_at, le64_at, read_le32, read_le64, HandelerInputValue, HandelerReturnValue,
    TranslateError,
};
use crate::registers::{
    lemma_register_homes, load_u64, load_u64_words, reg_field_number, reg_from_number, rm_number,
    X86Reg,
};

verus! {

/// The forms of `mov` the translator handles.
pub enum MovForm {
    /// `mov r32, imm32` (0xB8 + r).
    Imm32 { reg: X86Reg, value: u32 },
    /// `mov r64, imm64` (REX.W 0xB8 + r).
    Imm64 { reg: X86Reg, wide_value: u64 },
    /// `mov r/m64, r64` between registers (REX.W 0x89).
    RegReg { dst: X86Reg, src: X86Reg },
}

/// The `mov` at `offset`: `0xB8+r imm32`; `0x48/0x49 0xB8+r imm64` (0x49
/// extends the register with REX.B); `0x48/0x49 0x89 modrm` (0x49 extends
/// the `rm` register); `0x4C 0x89 modrm` (REX.R extends the `reg`
/// register). The ModRM `mod` field is not looked at. `Truncated` when a
/// byte it reads lies beyond the code; `Unsupported` for every other form.
pub open spec fn mov_form(code: Seq<u8>, offset: int) -> Result<MovForm, TranslateError> {
    let b0 = code[offset];
    if 0xB8 <= b0 <= 0xBF {
        match le32_at(code, offset + 1) {
            Some(value) => Ok(MovForm::Imm32 { reg: reg_from_number(rm_number(b0, false)), value }),
            None => Err(TranslateError::Truncated),
        }
    } else if b0 == 0x48 || b0 == 0x49 {
        if offset + 1 >= code.len() {
            Err(TranslateError::Truncated)
        } else {
            let b1 = code[offset + 1];
            if 0xB8 <= b1 <= 0xBF {
                match le64_at(code, offset + 2) {
                    Some(value) => Ok(
                        MovForm::Imm64 { reg: reg_from_number(rm_number(b1, b0 == 0x49)), wide_value: value },
                    ),
                    None => Err(TranslateError::Truncated),
                }
            } else if b1 == 0x89 {
                if offset + 2 >= code.len() {
                    Err(TranslateError::Truncated)
                } else {
                    let modrm = code[offset + 2];
                    Ok(
                        MovForm::RegReg {
                            dst: reg_from_number(rm_number(modrm, b0 == 0x49)),
                            src: reg_from_number(reg_field_number(modrm, false)),
                        },
                    )
                }
            } else {
                Err(TranslateError::Unsupported)
            }
        }
    } else if b0 == 0x4C {
        if offset + 1 >= code.len() {
            Err(TranslateError::Truncated)
        } else if code[offset + 1] != 0x89 {
            Err(TranslateError::Unsupported)
        } else if offset + 2 >= code.len() {
            Err(TranslateError::Truncated)
        } else {
            let modrm = code[offset + 2];
            Ok(
                MovForm::RegReg {
                    dst: reg_from_number(rm_number(modrm, false)),
                    src: reg_from_number(reg_field_number(modrm, true)),
                },
            )
        }
    } else {
        Err(TranslateError::Unsupported)
    }
}

/// `mov`: an immediate into a register, or a register into a register.
/// `mov r32, imm32` emits `addi rd, x0, imm` (the low twelve bits of the
/// immediate) and records the immediate; `mov r64, imm64` emits
/// `load_u64_words` and records the immediate; a register move emits
/// `addi rd, rs, 0` and records the source's value in the destination.
pub fn mov(values: HandelerInputValue) -> (r: Result<HandelerReturnValue, TranslateError>)
    requires
        values.code_offset < values.code@.len(),
    ensures
        match mov_form(values.code@, values.code_offset as int) {
            Ok(form) => r matches Ok(v) && {
                let regs = old(values.registers)@;
                let code = old(values.riscv_code)@;
                &&& v.operation_len == values.operation.len
                &&& !v.finish_thread
                &&& v.future is None
                &&& match form {
                    MovForm::Imm32 { reg, value } => {
                        &&& final(values.riscv_code)@ == code.push(
                            addi_word(reg.spec_riscv(), 0, value as i32),
                        )
                        &&& final(values.registers)@ == regs.update(reg.spec_index(), value as u64)
                    },
                    MovForm::Imm64 { reg, wide_value: value } => {
                        &&& final(values.riscv_code)@ == code + load_u64_words(
                            reg.spec_riscv(),
                            value,
                        )
                        &&& final(values.registers)@ == regs.update(reg.spec_index(), value)
                    },
                    MovForm::RegReg { dst, src } => {
                        &&& final(values.riscv_code)@ == code.push(
                            addi_word(dst.spec_riscv(), src.spec_riscv(), 0),
                        )
                        &&& final(values.registers)@ == regs.update(
                            dst.spec_index(),
                            regs[src.spec_index()],
                        )
                    },
                }
            },
            Err(e) => r == Err::<HandelerReturnValue, TranslateError>(e)
                && final(values.riscv_code)@ == old(values.riscv_code)@
                && final(values.registers)@ == old(values.registers)@,
        },
        final(values.riscv_data)@ == old(values.riscv_data)@,
        final(values.lea_fixups)@ == old(values.lea_fixups)@,
        final(values.branch_fixups)@ == old(values.branch_fixups)@,
        final(values.call_fixups)@ == old(values.call_fixups)@,
{
    let code = values.code;
    let code_offset = values.code_offset;
    let operation_len = values.operation.len;

    match code[code_offset] {
        // mov r32, imm32
        0xB8..=0xBF => {
            let opcode = code[code_offset];
            let x86_register = X86Reg::from_modrm(opcode, false);
            let riscv_register = x86_register.to_riscv();

            let value = match read_le32(code, code_offset + 1) {
                Some(v) => v as u64,
                None => {
                    return Err(TranslateError::Truncated);
                },
            };

            values.registers[x86_register.to_index()] = value;

            values.riscv_code.push(encode_addi(riscv_register, 0, value as i32));

            Ok(HandelerReturnValue::new(operation_len))
        },
        // REX.W / REX.W + REX.B
        0x48 | 0x49 => {
            if code.len() - code_offset <= 1 {
                return Err(TranslateError::Truncated);
            }
            let rex_b = code[code_offset] % 2 == 1;
            match code[code_offset + 1] {
                // mov r64, imm64
                0xB8..=0xBF => {
                    let opcode = code[code_offset + 1];
                    let x86_register = X86Reg::from_modrm(opcode, rex_b);
                    let riscv_register = x86_register.to_riscv();

                    let value = match read_le64(code, code_offset + 2) {
                        Some(v) => v,
                        None => {
                            return Err(TranslateError::Truncated);
                        },
                    };

                    values.registers[x86_register.to_index()] = value;

                    load_u64(riscv_register, value, values.riscv_code);

                    Ok(HandelerReturnValue::new(operation_len))
                },
                // mov r/m64, r64
                0x89 => {
                    if code.len() - code_offset <= 2 {
                        return Err(TranslateError::Truncated);
                    }
                    let modrm = code[code_offset + 2];

                    let destination = X86Reg::from_modrm(modrm, rex_b);
                    let source = X86Reg::from_modrm_reg(modrm, false);

                    values.registers[destination.to_index()] = values.registers[source.to_index()];

                    values.riscv_code.push(
                        encode_addi(destination.to_riscv(), source.to_riscv(), 0),
                    );

                    Ok(HandelerReturnValue::new(operation_len))
                },
                _ => Err(TranslateError::Unsupported),
            }
        },
        // REX.W + REX.R
        0x4C => {
            if code.len() - code_offset <= 1 {
                return Err(TranslateError::Truncated);
            }
            if code[code_offset + 1] != 0x89 {
                return Err(TranslateError::Unsupported);
            }
            // mov r/m64, r64
            if code.len() - code_offset <= 2 {
                return Err(TranslateError::Truncated);
            }
            let modrm = code[code_offset + 2];

            let destination = X86Reg::from_modrm(modrm, false);
            let source = X86Reg::from_modrm_reg(modrm, true);

            values.registers[destination.to_index()] = values.registers[source.to_index()];

            values.riscv_code.push(encode_addi(destination.to_riscv(), source.to_riscv(), 0));

            Ok(HandelerReturnValue::new(operation_len))
        },
        _ => Err(TranslateError::Unsupported),
    }
}

} // verus!

verus! {

/// `mov r32, imm32` with an immediate below 2048 loads the immediate: the
/// emitted word leaves `value` in the register's RV64 home and every other
/// register as it was.
pub proof fn lemma_mov_imm32_loads(reg: X86Reg, value: u32, regs: Seq<u64>)
    requires
        regs.len() == 32,
        value < 2048,
    ensures
        rv_run(seq![addi_word(reg.spec_riscv(), 0, value as i32)], regs) == Some(
            reg_write(regs, reg.spec_riscv() as u32, value as u64),
        ),
{
    lemma_register_homes(reg, reg);
    lemma_decode_imm(reg.spec_riscv(), 0, 0, value as i32);
    lemma_run_one(addi_word(reg.spec_riscv(), 0, value as i32), regs);
}

/// `mov r/m64, r64` between registers copies: the emitted word leaves the
/// source's value in the destination's RV64 home and every other register
/// as it was.
pub proof fn lemma_mov_reg_copies(dst: X86Reg, src: X86Reg, regs: Seq<u64>)
    requires
        regs.len() == 32,
    ensures
        rv_run(seq![addi_word(dst.spec_riscv(), src.spec_riscv(), 0)], regs) == Some(
            reg_write(regs, dst.spec_riscv() as u32, regs[src.spec_riscv() as int]),
        ),
{
    lemma_register_homes(dst, src);
    lemma_register_homes(src, dst);
    lemma_decode_imm(dst.spec_riscv(), src.spec_riscv(), 0, 0);
    lemma_run_one(addi_word(dst.spec_riscv(), src.spec_riscv(), 0), regs);
}

} // verus!
