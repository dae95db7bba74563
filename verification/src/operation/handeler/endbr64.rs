use vstd::prelude::*;

use crate::operation::handeler::{HandelerInputValue, HandelerReturnValue};

verus! {

/// `endbr64`: emits nothing; the instruction is skipped.
pub fn endbr64(values: HandelerInputValue) -> (r: HandelerReturnValue)
    ensures
        r.operation_len == values.operation.len,
        !r.finish_thread,
        r.future is None,
        final(values.riscv_code)@ == old(values.riscv_code)@,
        final(values.registers)@ == old(values.registers)@,
        final(values.riscv_data)@ == old(values.riscv_data)@,
        final(values.lea_fixups)@ == old(values.lea_fixups)@,
        final(values.branch_fixups)@ == old(values.branch_fixups)@,
        final(values.call_fixups)@ == old(values.call_fixups)@,
{
    HandelerReturnValue::new(values.operation.len)
}

} // verus!
