use vstd::prelude::*;

use crate::encode::{encode_sub, encode_subw, sub_word, subw_word};
use crate::registers::{lemma_register_homes, X86Reg};
use crate::riscv::{
    lemma_decode_reg, lemma_decode_reg32, lemma_run_one, reg_write, rv_run, sext32, wrap64,
};
use crate::operation::handeler::{
    read_register_operands, register_operands, rex_bit_w, rex_w, HandelerInputValue,
    HandelerReturnValue, TranslateError,
};

verus! {

/// `a - b` modulo 2^64.
pub open spec fn sub64(a: u64, b: u64) -> u64 {
    if a >= b {
        (a - b) as u64
    } else {
        (a - b + 0x1_0000_0000_0000_0000int) as u64
    }
}

/// `a - b` modulo 2^32.
pub open spec fn sub32(a: u32, b: u32) -> u32 {
    if a >= b {
        (a - b) as u32
    } else {
        (a - b + 0x1_0000_0000int) as u32
    }
}

/// The byte after an optional REX prefix at `offset`: the opcode.
pub open spec fn opcode_offset_at(code: Seq<u8>, offset: int) -> int {
    if code[offset] / 16 == 4 {
        offset + 1
    } else {
        offset
    }
}

/// What `sub` does with the instruction at `offset`: `Truncated` when the
/// opcode lies beyond the code, `Unsupported` unless the opcode is 0x29
/// (`sub r/m, r`), else as `register_operands`.
pub open spec fn sub_operands(code: Seq<u8>, offset: usize) -> Result<
    (crate::registers::X86Reg, crate::registers::X86Reg, u8),
    TranslateError,
> {
    let pos = opcode_offset_at(code, offset as int);
    if pos >= code.len() {
        Err(TranslateError::Truncated)
    } else if code[pos] != 0x29 {
        Err(TranslateError::Unsupported)
    } else {
        register_operands(code, offset)
    }
}

/// `sub r/m, r` between registers (0x29): emits the 64-bit subtraction word
/// under REX.W, the 32-bit one otherwise, for the `rm` register `rd` and the
/// `reg` register `rs`, and records `rd - rs` (64-bit) or the 32-bit
/// difference zero-extended.
pub fn sub(values: HandelerInputValue) -> (r: Result<HandelerReturnValue, TranslateError>)
    requires
        values.code_offset < values.code@.len(),
    ensures
        match sub_operands(values.code@, values.code_offset) {
            Ok((dst, src, rex)) => r matches Ok(v) && {
                let d = dst.spec_riscv();
                let s = src.spec_riscv();
                let regs = old(values.registers)@;
                &&& v.operation_len == values.operation.len
                &&& !v.finish_thread
                &&& v.future is None
                &&& final(values.riscv_code)@ == old(values.riscv_code)@.push(
                    if rex_w(rex) {
                        sub_word(d, d, s)
                    } else {
                        subw_word(d, d, s)
                    },
                )
                &&& final(values.registers)@ == regs.update(
                    dst.spec_index(),
                    if rex_w(rex) {
                        sub64(regs[dst.spec_index()], regs[src.spec_index()])
                    } else {
                        sub32(regs[dst.spec_index()] as u32, regs[src.spec_index()] as u32) as u64
                    },
                )
            },
            Err(e) => r == Err::<HandelerReturnValue, TranslateError>(e)
                && final(values.riscv_code)@ == old(values.riscv_code)@
                && final(values.registers)@ == old(values.registers)@,
        },
        final(values.riscv_data)@ == old(values.riscv_data)@,
        final(values.lea_fixups)@ == old(values.lea_fixups)@,
        final(values.branch_fixups)@ == old(values.branch_fixups)@,
        final(values.call_fixups)@ == old(values.call_fixups)@,
{
    let mut pos = values.code_offset;
    if values.code[pos] / 16 == 4 {
        pos += 1;
    }
    if pos >= values.code.len() {
        return Err(TranslateError::Truncated);
    }
    if values.code[pos] != 0x29 {
        return Err(TranslateError::Unsupported);
    }

    let (destination, source, rex, _modrm_offset) = match read_register_operands(
        values.code,
        values.code_offset,
    ) {
        Ok(operands) => operands,
        Err(e) => {
            return Err(e);
        },
    };

    let rd = destination.to_riscv();
    let rs1 = destination.to_riscv();
    let rs2 = source.to_riscv();
    let d = destination.to_index();
    let s = source.to_index();

    if rex_bit_w(rex) {
        // 64-bit
        values.riscv_code.push(encode_sub(rd, rs1, rs2));

        values.registers[d] = values.registers[d].wrapping_sub(values.registers[s]);
    } else {
        // 32-bit
        values.riscv_code.push(encode_subw(rd, rs1, rs2));

        let result = (values.registers[d] as u32).wrapping_sub(values.registers[s] as u32);

        // x86-64 zeroes the upper 32 bits
        values.registers[d] = result as u64;
    }

    Ok(HandelerReturnValue::new(values.operation.len))
}

} // verus!

verus! {

/// What the word `sub` emits computes: with `funct7 = 0` it is `add`
/// (64-bit) or `addw` (32-bit), so running it leaves in the destination's
/// RV64 home the sum of the two operands, wrapped to 64 bits, or for 32 bits
/// the 32-bit sum sign-extended; every other register stays as it was.
pub proof fn lemma_sub_word_computes_sum(dst: X86Reg, src: X86Reg, wide: bool, regs: Seq<u64>)
    requires
        regs.len() == 32,
    ensures
        rv_run(
            seq![
                if wide {
                    sub_word(dst.spec_riscv(), dst.spec_riscv(), src.spec_riscv())
                } else {
                    subw_word(dst.spec_riscv(), dst.spec_riscv(), src.spec_riscv())
                },
            ],
            regs,
        ) == Some(
            reg_write(
                regs,
                dst.spec_riscv() as u32,
                if wide {
                    wrap64(regs[dst.spec_riscv() as int] + regs[src.spec_riscv() as int])
                } else {
                    sext32(wrap64(regs[dst.spec_riscv() as int] + regs[src.spec_riscv() as int]))
                },
            ),
        ),
{
    lemma_register_homes(dst, src);
    lemma_register_homes(src, dst);
    let d = dst.spec_riscv();
    let s = src.spec_riscv();
    if wide {
        lemma_decode_reg(d, d, s, 0);
        lemma_run_one(sub_word(d, d, s), regs);
    } else {
        lemma_decode_reg32(d, d, s, 0);
        lemma_run_one(subw_word(d, d, s), regs);
    }
}

} // verus!
