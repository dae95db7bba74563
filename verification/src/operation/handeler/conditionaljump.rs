use vstd::prelude::*;

use crate::encode::{andi_word, bne_word, encode_andi, encode_bne};
use crate::operation::handeler::{
    branch_target, compute_branch_target, le32_at, read_le32, ChildTranslation,
    HandelerInputValue, HandelerReturnValue, TranslateError,
};
use crate::operation::handeler::test::{lemma_test_sets_flags, low_byte_ones, test_result, test_words};
use crate::registers::{CPUSTATEREG, JUNKREG0, X86Reg};
use crate::riscv::{lemma_decode_imm, lemma_run_append, lemma_run_one, rv_run};

verus! {

/// The displacement of the conditional jump at `offset` that the translator
/// handles: `je rel8` (0x74) and the near forms `0x0F 0x80..=0x8F rel32`.
/// The other short forms (0x70..=0x7F), other second bytes after 0x0F and
/// other opcodes are `Unsupported`; a displacement beyond the code is
/// `Truncated`.
pub open spec fn jcc_displacement(code: Seq<u8>, offset: int) -> Result<int, TranslateError> {
    let opcode = code[offset];
    if opcode == 0x74 {
        if offset + 1 >= code.len() {
            Err(TranslateError::Truncated)
        } else {
            Ok((code[offset + 1] as i8) as int)
        }
    } else if opcode == 0x0F {
        if offset + 1 >= code.len() {
            Err(TranslateError::Truncated)
        } else if !(0x80 <= code[offset + 1] <= 0x8F) {
            Err(TranslateError::Unsupported)
        } else {
            match le32_at(code, offset + 2) {
                Some(d) => Ok((d as i32) as int),
                None => Err(TranslateError::Truncated),
            }
        }
    } else {
        Err(TranslateError::Unsupported)
    }
}

/// The words a conditional jump emits: the zero flag isolated into
/// JUNKREG0, then a `bne` placeholder on it.
pub open spec fn jcc_words() -> Seq<u32> {
    seq![andi_word(JUNKREG0, CPUSTATEREG, 0x40), bne_word(JUNKREG0, 0, 0)]
}

/// `jcc`: emits `jcc_words`; when the target `offset + len + displacement`
/// lies inside the code, records the `bne` as a branch fixup towards it and
/// asks for the run at the target to be translated with the current
/// register values. The run goes on after the jump either way.
pub fn conditionaljump(values: HandelerInputValue<'_>) -> (r: Result<
    HandelerReturnValue,
    TranslateError,
>)
    requires
        values.code_offset < values.code@.len(),
    ensures
        match jcc_displacement(values.code@, values.code_offset as int) {
            Ok(disp) => match branch_target(
                values.code_offset,
                (values.operation.len as i64) as int,
                disp,
            ) {
                Some(t) => r matches Ok(v) && {
                    &&& v.operation_len == values.operation.len
                    &&& !v.finish_thread
                    &&& final(values.riscv_code)@ == old(values.riscv_code)@ + jcc_words()
                    &&& if 0 <= t && (t as usize) < values.code@.len() {
                        &&& v.future matches Some(child) && child.code_offset == t as usize
                            && child.registers@ == old(values.registers)@
                        &&& final(values.branch_fixups)@ == old(values.branch_fixups)@.push(
                            ((old(values.riscv_code)@.len() + 1) as usize, t as usize),
                        )
                    } else {
                        &&& v.future is None
                        &&& final(values.branch_fixups)@ == old(values.branch_fixups)@
                    }
                },
                None => r == Err::<HandelerReturnValue, TranslateError>(
                    TranslateError::AddressOverflow,
                ) && final(values.riscv_code)@ == old(values.riscv_code)@
                    && final(values.branch_fixups)@ == old(values.branch_fixups)@,
            },
            Err(e) => r == Err::<HandelerReturnValue, TranslateError>(e)
                && final(values.riscv_code)@ == old(values.riscv_code)@
                && final(values.branch_fixups)@ == old(values.branch_fixups)@,
        },
        final(values.registers)@ == old(values.registers)@,
        final(values.riscv_data)@ == old(values.riscv_data)@,
        final(values.lea_fixups)@ == old(values.lea_fixups)@,
        final(values.call_fixups)@ == old(values.call_fixups)@,
{
    let code = values.code;
    let code_offset = values.code_offset;

    let displacement: i64 = match code[code_offset] {
        // JE / JZ
        0x74 => {
            if code.len() - code_offset <= 1 {
                return Err(TranslateError::Truncated);
            }
            code[code_offset + 1] as i8 as i64
        },
        // near JCC
        0x0F => {
            if code.len() - code_offset <= 1 {
                return Err(TranslateError::Truncated);
            }
            let opcode = code[code_offset + 1];
            if opcode < 0x80 || opcode > 0x8F {
                return Err(TranslateError::Unsupported);
            }
            match read_le32(code, code_offset + 2) {
                Some(d) => d as i32 as i64,
                None => {
                    return Err(TranslateError::Truncated);
                },
            }
        },
        // JO, JNO, JB, JAE, JNE, JBE, JA, JS, JNS, JP, JNP, JL, JGE, JLE, JG
        // and any other opcode
        _ => {
            return Err(TranslateError::Unsupported);
        },
    };

    let target = match compute_branch_target(
        code_offset,
        values.operation.len as i64,
        displacement,
    ) {
        Some(t) => t,
        None => {
            return Err(TranslateError::AddressOverflow);
        },
    };

    let ghost start = values.riscv_code@;
    values.riscv_code.push(encode_andi(JUNKREG0, CPUSTATEREG, 0x40));

    values.riscv_code.push(encode_bne(JUNKREG0, 0, 0));
    assert(values.riscv_code@ =~= start + jcc_words());

    let branch_index = values.riscv_code.len() - 1;

    if target >= 0 && (target as usize) < code.len() {
        values.branch_fixups.push((branch_index, target as usize));

        let child = ChildTranslation { code_offset: target as usize, registers: *values.registers };

        return Ok(HandelerReturnValue::future(values.operation.len, child));
    }
    Ok(HandelerReturnValue::new(values.operation.len))
}

} // verus!

verus! {

/// `test` followed by `je` branches exactly when the operands have no set
/// bit in common: after the words `test` emits for operands of 8 or 64
/// bits, the first word of `jcc_words` leaves in JUNKREG0, the register
/// the `bne` examines, a value that is nonzero exactly when `lhs & rhs`,
/// cut to the operand size, is zero.
pub proof fn lemma_test_then_je(lhs: X86Reg, rhs: X86Reg, size: u8, regs: Seq<u64>)
    requires
        regs.len() == 32,
        size == 8 || size == 64,
    ensures
        rv_run(test_words(lhs.spec_riscv(), rhs.spec_riscv(), size) + seq![jcc_words()[0]], regs)
            matches Some(out) && (out[25] != 0 <==> test_result(
            regs[lhs.spec_riscv() as int],
            regs[rhs.spec_riscv() as int],
            size,
        ) == 0),
{
    let l = lhs.spec_riscv();
    let r = rhs.spec_riscv();
    lemma_test_sets_flags(lhs, rhs, size, regs);
    lemma_run_append(test_words(l, r, size), seq![jcc_words()[0]], regs);
    let mid = rv_run(test_words(l, r, size), regs)->0;
    assert(jcc_words()[0] == andi_word(JUNKREG0, CPUSTATEREG, 0x40));
    lemma_decode_imm(25, 24, 7, 0x40);
    lemma_run_one(andi_word(JUNKREG0, CPUSTATEREG, 0x40), mid);
    let v = test_result(regs[l as int], regs[r as int], size);
    let s: u8 = (size - 1) as u8;
    let ones = low_byte_ones(v);
    let zf: u64 = if v == 0 { 0x40u64 } else { 0u64 };
    let pf: u64 = if ones % 2 == 0 { 4u64 } else { 0u64 };
    let sf: u64 = ((v >> s) & 1) << 7u64;
    assert(mid[24] == zf | sf | pf);
    assert(((zf | sf | pf) & (0x40i64 as u64) != 0) == (v == 0)) by (bit_vector)
        requires
            zf == (if v == 0 { 0x40u64 } else { 0u64 }),
            pf == 4u64 || pf == 0u64,
            sf == ((v >> s) & 1) << 7u64,
    ;
}

} // verus!
