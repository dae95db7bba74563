use vstd::prelude::*;

use crate::encode::{encode_xor, r_type, OP_REG};
use crate::registers::{lemma_register_homes, X86Reg};
use crate::riscv::{lemma_decode_reg, lemma_run_one, reg_write, rv_run};
use crate::operation::handeler::{
    read_register_operands, register_operands, HandelerInputValue, HandelerReturnValue,
    TranslateError,
};

verus! {

/// `xor r/m, r` between registers: emits `xor rd, rd, rs` for the `rm`
/// register `rd` and the `reg` register `rs`, and records the `rm` register
/// as zero. Operands in memory are `Unsupported`.
pub fn xor(values: HandelerInputValue) -> (r: Result<HandelerReturnValue, TranslateError>)
    requires
        values.code_offset < values.code@.len(),
    ensures
        match register_operands(values.code@, values.code_offset) {
            Ok((dst, src, _rex)) => r matches Ok(v) && {
                &&& v.operation_len == values.operation.len
                &&& !v.finish_thread
                &&& v.future is None
                &&& final(values.riscv_code)@ == old(values.riscv_code)@.push(
                    r_type(0, src.spec_riscv(), dst.spec_riscv(), 0b100, dst.spec_riscv(), OP_REG),
                )
                &&& final(values.registers)@ == old(values.registers)@.update(dst.spec_index(), 0)
            },
            Err(e) => r == Err::<HandelerReturnValue, TranslateError>(e)
                && final(values.riscv_code)@ == old(values.riscv_code)@
                && final(values.registers)@ == old(values.registers)@,
        },
        final(values.riscv_data)@ == old(values.riscv_data)@,
        final(values.lea_fixups)@ == old(values.lea_fixups)@,
        final(values.branch_fixups)@ == old(values.branch_fixups)@,
        final(values.call_fixups)@ == old(values.call_fixups)@,
{
    let (destination, source, _rex, _modrm_offset) = match read_register_operands(
        values.code,
        values.code_offset,
    ) {
        Ok(operands) => operands,
        Err(e) => {
            return Err(e);
        },
    };

    values.riscv_code.push(
        encode_xor(destination.to_riscv(), destination.to_riscv(), source.to_riscv()),
    );

    values.registers[destination.to_index()] = 0;

    Ok(HandelerReturnValue::new(values.operation.len))
}

} // verus!

verus! {

/// `xor r/m, r` between registers computes the exclusive or: the emitted
/// word leaves `dst ^ src` in the destination's RV64 home and every other
/// register as it was; with the same register on both sides, zero, the
/// value the translation records.
pub proof fn lemma_xor_computes(dst: X86Reg, src: X86Reg, regs: Seq<u64>)
    requires
        regs.len() == 32,
    ensures
        rv_run(
            seq![r_type(0, src.spec_riscv(), dst.spec_riscv(), 0b100, dst.spec_riscv(), OP_REG)],
            regs,
        ) == Some(
            reg_write(
                regs,
                dst.spec_riscv() as u32,
                regs[dst.spec_riscv() as int] ^ regs[src.spec_riscv() as int],
            ),
        ),
        dst == src ==> regs[dst.spec_riscv() as int] ^ regs[src.spec_riscv() as int] == 0,
{
    lemma_register_homes(dst, src);
    lemma_register_homes(src, dst);
    lemma_decode_reg(dst.spec_riscv(), dst.spec_riscv(), src.spec_riscv(), 0b100);
    lemma_run_one(r_type(0, src.spec_riscv(), dst.spec_riscv(), 0b100, dst.spec_riscv(), OP_REG), regs);
    let x = regs[dst.spec_riscv() as int];
    assert(x ^ x == 0) by (bit_vector);
}

} // verus!
