use vstd::prelude::*;

use crate::encode::{encode_jalr, i_type, OP_JALR};
use crate::operation::handeler::{HandelerInputValue, HandelerReturnValue};

verus! {

/// `ret`: returns through the link register (`jalr x0, 0(x1)`) and ends the run.
pub fn ret(values: HandelerInputValue) -> (r: HandelerReturnValue)
    ensures
        r.operation_len == values.operation.len,
        r.finish_thread,
        r.future is None,
        final(values.riscv_code)@ == old(values.riscv_code)@.push(i_type(0, 1, 0, 0, OP_JALR)),
        final(values.registers)@ == old(values.registers)@,
        final(values.riscv_data)@ == old(values.riscv_data)@,
        final(values.lea_fixups)@ == old(values.lea_fixups)@,
        final(values.branch_fixups)@ == old(values.branch_fixups)@,
        final(values.call_fixups)@ == old(values.call_fixups)@,
{
    values.riscv_code.push(encode_jalr(0, 1, 0));

    HandelerReturnValue::finish(values.operation.len)
}

} // verus!
