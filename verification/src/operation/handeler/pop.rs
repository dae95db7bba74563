use vstd::prelude::*;

use crate::encode::{encode_addi, encode_ld, i_type, OP_IMM, OP_LOAD};
use crate::operation::handeler::{HandelerInputValue, HandelerReturnValue};
use crate::registers::{reg_from_number, rm_number, X86Reg};

verus! {

/// The words `pop` emits for the register held in RV64 register `rd`:
/// `ld rd, 0(sp)` then `addi sp, sp, 8`.
pub open spec fn pop_words(rd: u8) -> Seq<u32> {
    seq![i_type(0, 2, 0b011, rd, OP_LOAD), i_type(8, 2, 0, 2, OP_IMM)]
}

/// `pop r64` (0x58 + r): loads the register named by the low three bits of
/// the byte at `code_offset` from the stack and moves the stack pointer up.
pub fn pop(values: HandelerInputValue) -> (r: HandelerReturnValue)
    requires
        values.code_offset < values.code@.len(),
    ensures
        r.operation_len == values.operation.len,
        !r.finish_thread,
        r.future is None,
        final(values.riscv_code)@ == old(values.riscv_code)@ + pop_words(
            reg_from_number(rm_number(values.code@[values.code_offset as int], false)).spec_riscv(),
        ),
        final(values.registers)@ == old(values.registers)@,
        final(values.riscv_data)@ == old(values.riscv_data)@,
        final(values.lea_fixups)@ == old(values.lea_fixups)@,
        final(values.branch_fixups)@ == old(values.branch_fixups)@,
        final(values.call_fixups)@ == old(values.call_fixups)@,
{
    let x86_register = X86Reg::from_modrm(values.code[values.code_offset], false);

    let riscv_register = x86_register.to_riscv();

    values.riscv_code.push(encode_ld(riscv_register, 2, 0));

    values.riscv_code.push(encode_addi(2, 2, 8));

    assert(final(values.riscv_code)@ =~= old(values.riscv_code)@ + pop_words(riscv_register));
    HandelerReturnValue::new(values.operation.len)
}

} // verus!
