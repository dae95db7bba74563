use vstd::prelude::*;

use crate::encode::{encode_jal, jal_word};
use crate::operation::handeler::{
    branch_target, compute_branch_target, le32_at, read_le32, ChildTranslation,
    HandelerInputValue, HandelerReturnValue, TranslateError,
};

verus! {

/// The length and displacement of the `jmp` at `offset`: `(5, rel32)` for
/// 0xE9, `(2, rel8)` for 0xEB; `Truncated` when the displacement lies beyond
/// the code, `Unsupported` for any other opcode.
pub open spec fn jmp_form(code: Seq<u8>, offset: int) -> Result<(int, int), TranslateError> {
    let opcode = code[offset];
    if opcode == 0xE9 {
        match le32_at(code, offset + 1) {
            Some(d) => Ok((5, (d as i32) as int)),
            None => Err(TranslateError::Truncated),
        }
    } else if opcode == 0xEB {
        if offset + 1 >= code.len() {
            Err(TranslateError::Truncated)
        } else {
            Ok((2, (code[offset + 1] as i8) as int))
        }
    } else {
        Err(TranslateError::Unsupported)
    }
}

/// `jmp rel`: emits a `jal x0` placeholder whose index is recorded as a
/// branch fixup towards the target, ends the run, and asks for the run at
/// the target to be translated with the current register values.
pub fn jmp(values: HandelerInputValue) -> (r: Result<HandelerReturnValue, TranslateError>)
    requires
        values.code_offset < values.code@.len(),
    ensures
        match jmp_form(values.code@, values.code_offset as int) {
            Ok((len, disp)) => match branch_target(values.code_offset, len, disp) {
                Some(t) => r matches Ok(v) && {
                    &&& v.operation_len == len
                    &&& v.finish_thread
                    &&& v.future matches Some(child) && child.code_offset == t as usize
                        && child.registers@ == old(values.registers)@
                    &&& final(values.riscv_code)@ == old(values.riscv_code)@.push(jal_word(0, 0))
                    &&& final(values.branch_fixups)@ == old(values.branch_fixups)@.push(
                        (old(values.riscv_code)@.len() as usize, t as usize),
                    )
                },
                None => r == Err::<HandelerReturnValue, TranslateError>(
                    TranslateError::AddressOverflow,
                ) && final(values.riscv_code)@ == old(values.riscv_code)@
                    && final(values.branch_fixups)@ == old(values.branch_fixups)@,
            },
            Err(e) => r == Err::<HandelerReturnValue, TranslateError>(e)
                && final(values.riscv_code)@ == old(values.riscv_code)@
                && final(values.branch_fixups)@ == old(values.branch_fixups)@,
        },
        final(values.registers)@ == old(values.registers)@,
        final(values.riscv_data)@ == old(values.riscv_data)@,
        final(values.lea_fixups)@ == old(values.lea_fixups)@,
        final(values.call_fixups)@ == old(values.call_fixups)@,
{
    let code = values.code;
    let code_offset = values.code_offset;

    let opcode = code[code_offset];

    let (instruction_len, displacement): (usize, i64) = match opcode {
        0xE9 => {
            match read_le32(code, code_offset + 1) {
                Some(d) => (5, d as i32 as i64),
                None => {
                    return Err(TranslateError::Truncated);
                },
            }
        },
        0xEB => {
            if code.len() - code_offset <= 1 {
                return Err(TranslateError::Truncated);
            }
            (2, code[code_offset + 1] as i8 as i64)
        },
        _ => {
            return Err(TranslateError::Unsupported);
        },
    };

    let target = match compute_branch_target(code_offset, instruction_len as i64, displacement) {
        Some(t) => t as usize,
        None => {
            return Err(TranslateError::AddressOverflow);
        },
    };

    let fixup_index = values.riscv_code.len();

    values.branch_fixups.push((fixup_index, target));

    values.riscv_code.push(encode_jal(0, 0));

    let child = ChildTranslation { code_offset: target, registers: *values.registers };

    Ok(HandelerReturnValue::finish_with_future(instruction_len, child))
}

} // verus!
