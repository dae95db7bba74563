use vstd::prelude::*;

use crate::encode::{encode_addi, i_type, OP_IMM};
use crate::operation::handeler::{HandelerInputValue, HandelerReturnValue};

verus! {

/// `nop`: emits the RV64 `nop` (`addi x0, x0, 0`).
pub fn nop(values: HandelerInputValue) -> (r: HandelerReturnValue)
    ensures
        r.operation_len == values.operation.len,
        !r.finish_thread,
        r.future is None,
        final(values.riscv_code)@ == old(values.riscv_code)@.push(i_type(0, 0, 0, 0, OP_IMM)),
        final(values.registers)@ == old(values.registers)@,
        final(values.riscv_data)@ == old(values.riscv_data)@,
        final(values.lea_fixups)@ == old(values.lea_fixups)@,
        final(values.branch_fixups)@ == old(values.branch_fixups)@,
        final(values.call_fixups)@ == old(values.call_fixups)@,
{
    values.riscv_code.push(encode_addi(0x0, 0x0, 0x0));
    HandelerReturnValue::new(values.operation.len)
}

} // verus!
