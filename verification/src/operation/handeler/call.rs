use vstd::prelude::*;

use crate::encode::{encode_jal, jal_word};
use crate::operation::handeler::{
    branch_target, compute_branch_target, le32_at, read_le32, ChildTranslation,
    HandelerInputValue, HandelerReturnValue, TranslateError,
};

verus! {

/// `call rel32`: emits a `jal ra` placeholder whose index is recorded as a
/// call fixup towards the target `offset + len + rel32`, goes on with the
/// run, and asks for the run at the target to be translated with the
/// current register values.
pub fn call(values: HandelerInputValue) -> (r: Result<HandelerReturnValue, TranslateError>)
    requires
        values.code_offset < values.code@.len(),
    ensures
        match le32_at(values.code@, values.code_offset + 1) {
            Some(d) => match branch_target(
                values.code_offset,
                (values.operation.len as i64) as int,
                (d as i32) as int,
            ) {
                Some(t) => r matches Ok(v) && {
                    &&& v.operation_len == values.operation.len
                    &&& !v.finish_thread
                    &&& v.future matches Some(child) && child.code_offset == t as usize
                        && child.registers@ == old(values.registers)@
                    &&& final(values.riscv_code)@ == old(values.riscv_code)@.push(jal_word(1, 0))
                    &&& final(values.call_fixups)@ == old(values.call_fixups)@.push(
                        (old(values.riscv_code)@.len() as usize, t as usize),
                    )
                },
                None => r == Err::<HandelerReturnValue, TranslateError>(
                    TranslateError::AddressOverflow,
                ) && final(values.riscv_code)@ == old(values.riscv_code)@
                    && final(values.call_fixups)@ == old(values.call_fixups)@,
            },
            None => r == Err::<HandelerReturnValue, TranslateError>(TranslateError::Truncated)
                && final(values.riscv_code)@ == old(values.riscv_code)@
                && final(values.call_fixups)@ == old(values.call_fixups)@,
        },
        final(values.registers)@ == old(values.registers)@,
        final(values.riscv_data)@ == old(values.riscv_data)@,
        final(values.lea_fixups)@ == old(values.lea_fixups)@,
        final(values.branch_fixups)@ == old(values.branch_fixups)@,
{
    let code_len = values.code.len();
    assert(values.code_offset + 1 <= code_len);
    let displacement = match read_le32(values.code, values.code_offset + 1) {
        Some(d) => d as i32,
        None => {
            return Err(TranslateError::Truncated);
        },
    };

    let target = match compute_branch_target(
        values.code_offset,
        values.operation.len as i64,
        displacement as i64,
    ) {
        Some(t) => t,
        None => {
            return Err(TranslateError::AddressOverflow);
        },
    };

    let call_index = values.riscv_code.len();

    values.riscv_code.push(encode_jal(1, 0));

    values.call_fixups.push((call_index, target as usize));

    let child = ChildTranslation { code_offset: target as usize, registers: *values.registers };

    Ok(HandelerReturnValue::future(values.operation.len, child))
}

} // verus!
