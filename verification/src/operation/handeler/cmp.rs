use vstd::prelude::*;

use crate::encode::{
    and_word, andi_word, encode_and, encode_andi, encode_or, encode_slli, encode_sltu,
    encode_srli, encode_sub, encode_subw, encode_xor, encode_xori, or_word, slli_word, sltu_word,
    srli_word, sub_word, subw_word, xor_word, xori_word,
};
use crate::operation::handeler::{
    read_register_operands, register_operands, rex_bit_w, rex_w, HandelerInputValue,
    HandelerReturnValue, TranslateError,
};
use crate::operation::handeler::test::{lemma_pf_words, lemma_zf_words, low_byte_ones};
use crate::registers::{lemma_register_homes, X86Reg, CPUSTATEREG, JUNKREG0, JUNKREG1, JUNKREG2};
use crate::riscv::{
    lemma_decode_imm, lemma_decode_reg, lemma_decode_reg32, lemma_decode_slli, lemma_decode_srli,
    lemma_run_append, rv_run, sext32, wrap64,
};

verus! {

/// Words that set the zero flag (bit 6 of the flags register) from the
/// result held in JUNKREG1: `sltu j0, x0, j1; xori j0, j0, 1; slli j0, j0, 6;
/// or flags, flags, j0`.
pub open spec fn zf_words() -> Seq<u32> {
    seq![
        sltu_word(JUNKREG0, 0, JUNKREG1),
        xori_word(JUNKREG0, JUNKREG0, 1),
        slli_word(JUNKREG0, JUNKREG0, 6),
        or_word(CPUSTATEREG, CPUSTATEREG, JUNKREG0),
    ]
}

/// Words that set the parity flag (bit 2) from the low byte of the result in
/// JUNKREG1: the byte folded onto its lowest bit by xor-ing it with itself
/// shifted right by 4, 2 and 1, inverted, and merged.
pub open spec fn pf_words() -> Seq<u32> {
    seq![
        andi_word(JUNKREG0, JUNKREG1, 0xFF),
        srli_word(JUNKREG2, JUNKREG0, 4),
        xor_word(JUNKREG0, JUNKREG0, JUNKREG2),
        srli_word(JUNKREG2, JUNKREG0, 2),
        xor_word(JUNKREG0, JUNKREG0, JUNKREG2),
        srli_word(JUNKREG2, JUNKREG0, 1),
        xor_word(JUNKREG0, JUNKREG0, JUNKREG2),
        andi_word(JUNKREG0, JUNKREG0, 1),
        xori_word(JUNKREG0, JUNKREG0, 1),
        slli_word(JUNKREG0, JUNKREG0, 2),
        or_word(CPUSTATEREG, CPUSTATEREG, JUNKREG0),
    ]
}

/// The words `cmp lhs, rhs` emits for the RV64 homes `l` and `r` of its
/// operands (`wide` under REX.W): the flags register is cleared; CF (bit 0)
/// from `sltu l, r`; into JUNKREG1 the word meant for the difference, which
/// with `funct7 = 0` computes the sum `l + r` (`add`, or the `addw` layout
/// for 32 bits); then, from that sum `s`, ZF; SF (bit 7) from the sign bit
/// (63 or 31); AF (bit 4) from bit 4 of `l ^ r ^ s`; OF (bit 11) from the
/// sign bit of `(l ^ r) & (l ^ s)`; PF.
pub open spec fn compare_words(l: u8, r: u8, wide: bool) -> Seq<u32> {
    let sign: u8 = if wide {
        63
    } else {
        31
    };
    seq![
        xor_word(CPUSTATEREG, CPUSTATEREG, CPUSTATEREG),
        sltu_word(JUNKREG0, l, r),
        or_word(CPUSTATEREG, CPUSTATEREG, JUNKREG0),
        if wide {
            sub_word(JUNKREG1, l, r)
        } else {
            subw_word(JUNKREG1, l, r)
        },
    ] + zf_words() + seq![
        srli_word(JUNKREG0, JUNKREG1, sign),
        slli_word(JUNKREG0, JUNKREG0, 7),
        or_word(CPUSTATEREG, CPUSTATEREG, JUNKREG0),
        xor_word(JUNKREG0, l, r),
        xor_word(JUNKREG0, JUNKREG0, JUNKREG1),
        srli_word(JUNKREG0, JUNKREG0, 4),
        andi_word(JUNKREG0, JUNKREG0, 1),
        slli_word(JUNKREG0, JUNKREG0, 4),
        or_word(CPUSTATEREG, CPUSTATEREG, JUNKREG0),
        xor_word(JUNKREG0, l, r),
        xor_word(JUNKREG2, l, JUNKREG1),
        and_word(JUNKREG0, JUNKREG0, JUNKREG2),
        srli_word(JUNKREG0, JUNKREG0, sign),
        slli_word(JUNKREG0, JUNKREG0, 11),
        or_word(CPUSTATEREG, CPUSTATEREG, JUNKREG0),
    ] + pf_words()
}

pub(crate) fn push_zf(riscv_code: &mut Vec<u32>)
    ensures
        final(riscv_code)@ == old(riscv_code)@ + zf_words(),
{
    riscv_code.push(encode_sltu(JUNKREG0, 0, JUNKREG1));
    riscv_code.push(encode_xori(JUNKREG0, JUNKREG0, 1));
    riscv_code.push(encode_slli(JUNKREG0, JUNKREG0, 6));
    riscv_code.push(encode_or(CPUSTATEREG, CPUSTATEREG, JUNKREG0));
    assert(final(riscv_code)@ =~= old(riscv_code)@ + zf_words());
}

pub(crate) fn push_pf(riscv_code: &mut Vec<u32>)
    ensures
        final(riscv_code)@ == old(riscv_code)@ + pf_words(),
{
    riscv_code.push(encode_andi(JUNKREG0, JUNKREG1, 0xFF));
    riscv_code.push(encode_srli(JUNKREG2, JUNKREG0, 4));
    riscv_code.push(encode_xor(JUNKREG0, JUNKREG0, JUNKREG2));
    riscv_code.push(encode_srli(JUNKREG2, JUNKREG0, 2));
    riscv_code.push(encode_xor(JUNKREG0, JUNKREG0, JUNKREG2));
    riscv_code.push(encode_srli(JUNKREG2, JUNKREG0, 1));
    riscv_code.push(encode_xor(JUNKREG0, JUNKREG0, JUNKREG2));
    riscv_code.push(encode_andi(JUNKREG0, JUNKREG0, 1));
    // x86 PF is set for an even number of set bits
    riscv_code.push(encode_xori(JUNKREG0, JUNKREG0, 1));
    riscv_code.push(encode_slli(JUNKREG0, JUNKREG0, 2));
    riscv_code.push(encode_or(CPUSTATEREG, CPUSTATEREG, JUNKREG0));
    assert(final(riscv_code)@ =~= old(riscv_code)@ + pf_words());
}

/// `cmp r/m, r` between registers: emits `compare_words` for the `rm` register
/// (left operand) and the `reg` register (right operand), 64-bit under
/// REX.W. The length it reports is the prefix, opcode and ModRM bytes.
/// Operands in memory are `Unsupported`.
pub fn cmp(values: HandelerInputValue) -> (r: Result<HandelerReturnValue, TranslateError>)
    requires
        values.code_offset < values.code@.len(),
    ensures
        match register_operands(values.code@, values.code_offset) {
            Ok((lhs, rhs, rex)) => r matches Ok(v) && {
                &&& v.operation_len == crate::operation::handeler::modrm_offset_at(values.code@, values.code_offset) - values.code_offset + 1
                &&& !v.finish_thread
                &&& v.future is None
                &&& final(values.riscv_code)@ == old(values.riscv_code)@ + compare_words(
                    lhs.spec_riscv(),
                    rhs.spec_riscv(),
                    rex_w(rex),
                )
            },
            Err(e) => r == Err::<HandelerReturnValue, TranslateError>(e)
                && final(values.riscv_code)@ == old(values.riscv_code)@,
        },
        final(values.registers)@ == old(values.registers)@,
        final(values.riscv_data)@ == old(values.riscv_data)@,
        final(values.lea_fixups)@ == old(values.lea_fixups)@,
        final(values.branch_fixups)@ == old(values.branch_fixups)@,
        final(values.call_fixups)@ == old(values.call_fixups)@,
{
    let code_offset = values.code_offset;
    let (lhs, rhs, rex, modrm_offset) = match read_register_operands(values.code, code_offset) {
        Ok(operands) => operands,
        Err(e) => {
            return Err(e);
        },
    };
    let wide = rex_bit_w(rex);
    let sign_bit: u8 = if wide {
        63
    } else {
        31
    };
    let l = lhs.to_riscv();
    let r = rhs.to_riscv();
    let ghost start = values.riscv_code@;

    // Clear the flags.
    values.riscv_code.push(encode_xor(CPUSTATEREG, CPUSTATEREG, CPUSTATEREG));

    // CF = lhs < rhs (unsigned), bit 0.
    values.riscv_code.push(encode_sltu(JUNKREG0, l, r));
    values.riscv_code.push(encode_or(CPUSTATEREG, CPUSTATEREG, JUNKREG0));

    // The difference, needed for the remaining flags.
    if wide {
        values.riscv_code.push(encode_sub(JUNKREG1, l, r));
    } else {
        values.riscv_code.push(encode_subw(JUNKREG1, l, r));
    }

    // ZF, bit 6.
    push_zf(values.riscv_code);

    // SF, bit 7: the sign bit of the difference.
    values.riscv_code.push(encode_srli(JUNKREG0, JUNKREG1, sign_bit));
    values.riscv_code.push(encode_slli(JUNKREG0, JUNKREG0, 7));
    values.riscv_code.push(encode_or(CPUSTATEREG, CPUSTATEREG, JUNKREG0));

    // AF, bit 4: bit 4 of lhs ^ rhs ^ difference.
    values.riscv_code.push(encode_xor(JUNKREG0, l, r));
    values.riscv_code.push(encode_xor(JUNKREG0, JUNKREG0, JUNKREG1));
    values.riscv_code.push(encode_srli(JUNKREG0, JUNKREG0, 4));
    values.riscv_code.push(encode_andi(JUNKREG0, JUNKREG0, 1));
    values.riscv_code.push(encode_slli(JUNKREG0, JUNKREG0, 4));
    values.riscv_code.push(encode_or(CPUSTATEREG, CPUSTATEREG, JUNKREG0));

    // OF, bit 11: the sign bit of (lhs ^ rhs) & (lhs ^ difference).
    values.riscv_code.push(encode_xor(JUNKREG0, l, r));
    values.riscv_code.push(encode_xor(JUNKREG2, l, JUNKREG1));
    values.riscv_code.push(encode_and(JUNKREG0, JUNKREG0, JUNKREG2));
    values.riscv_code.push(encode_srli(JUNKREG0, JUNKREG0, sign_bit));
    values.riscv_code.push(encode_slli(JUNKREG0, JUNKREG0, 11));
    values.riscv_code.push(encode_or(CPUSTATEREG, CPUSTATEREG, JUNKREG0));

    // PF, bit 2.
    push_pf(values.riscv_code);

    assert(values.riscv_code@ =~= start + compare_words(l, r, wide));

    Ok(HandelerReturnValue::new(modrm_offset - code_offset + 1))
}

} // verus!

verus! {

/// The fifteen words of `compare_words` between ZF and PF, for the sign
/// bit `sign`: they merge into the flags register SF, AF and OF computed
/// from the value `s` in JUNKREG1 and the operands `a`, `b` in `l`, `r`.
proof fn lemma_compare_middle(l: u8, r: u8, sign: u8, regs: Seq<u64>)
    requires
        8 <= l < 24,
        8 <= r < 24,
        sign < 64,
        regs.len() == 32,
    ensures
        rv_run(
            seq![
                srli_word(JUNKREG0, JUNKREG1, sign),
                slli_word(JUNKREG0, JUNKREG0, 7),
                or_word(CPUSTATEREG, CPUSTATEREG, JUNKREG0),
                xor_word(JUNKREG0, l, r),
                xor_word(JUNKREG0, JUNKREG0, JUNKREG1),
                srli_word(JUNKREG0, JUNKREG0, 4),
                andi_word(JUNKREG0, JUNKREG0, 1),
                slli_word(JUNKREG0, JUNKREG0, 4),
                or_word(CPUSTATEREG, CPUSTATEREG, JUNKREG0),
                xor_word(JUNKREG0, l, r),
                xor_word(JUNKREG2, l, JUNKREG1),
                and_word(JUNKREG0, JUNKREG0, JUNKREG2),
                srli_word(JUNKREG0, JUNKREG0, sign),
                slli_word(JUNKREG0, JUNKREG0, 11),
                or_word(CPUSTATEREG, CPUSTATEREG, JUNKREG0),
            ],
            regs,
        ) matches Some(out) && {
            let a = regs[l as int];
            let b = regs[r as int];
            let s = regs[26];
            &&& out.len() == 32
            &&& out[24] == regs[24] | sign_flag(s, sign as u32) | adjust_flag(a, b, s)
                | overflow_flag(a, b, s, sign as u32)
            &&& out[26] == s
            &&& forall|i: int| 0 <= i < 24 ==> out[i] == regs[i]
        },
{
    reveal_with_fuel(rv_run, 16);
    lemma_decode_srli(25, 26, sign);
    lemma_decode_slli(25, 25, 7);
    lemma_decode_reg(24, 24, 25, 6);
    lemma_decode_reg(25, l, r, 4);
    lemma_decode_reg(25, 25, 26, 4);
    lemma_decode_srli(25, 25, 4);
    lemma_decode_imm(25, 25, 7, 1);
    lemma_decode_slli(25, 25, 4);
    lemma_decode_reg(27, l, 26, 4);
    lemma_decode_reg(25, 25, 27, 7);
    lemma_decode_srli(25, 25, sign);
    lemma_decode_slli(25, 25, 11);
    let a = regs[l as int];
    let b = regs[r as int];
    let d = regs[26];
    let t = ((a ^ b) ^ d) >> 4u32;
    assert((t & (1i64 as u64)) << 4u32 == (t & 1u64) << 4u32) by (bit_vector);
}

/// SF as the emitted words compute it: the result shifted right by the
/// sign bit's position, moved to bit 7 (for 32 bits, where the result is
/// sign-extended, a negative result sets bits 7 and up).
pub open spec fn sign_flag(s: u64, sign: u32) -> u64 {
    (s >> sign) << 7u32
}

/// AF: bit 4 of `a ^ b ^ s`, in bit 4.
pub open spec fn adjust_flag(a: u64, b: u64, s: u64) -> u64 {
    ((((a ^ b) ^ s) >> 4u32) & 1u64) << 4u32
}

/// OF as the emitted words compute it: `(a ^ b) & (a ^ s)` shifted right by
/// the sign bit's position, moved to bit 11.
pub open spec fn overflow_flag(a: u64, b: u64, s: u64, sign: u32) -> u64 {
    (((a ^ b) & (a ^ s)) >> sign) << 11u32
}

/// The value the emitted `cmp` words put in JUNKREG1 for the operands `a`
/// and `b`: the word meant for the difference is `add` (or `addw` for 32
/// bits), so it is the sum, wrapped to 64 bits or, for 32 bits, cut to 32
/// bits and sign-extended.
pub open spec fn compare_value(a: u64, b: u64, wide: bool) -> u64 {
    if wide {
        wrap64(a + b)
    } else {
        sext32(wrap64(a + b))
    }
}

/// The flags register the emitted `cmp` words leave for the operands `a`
/// and `b`: CF (bit 0) when `a < b` unsigned; then, from
/// `s = compare_value(a, b, wide)`, ZF (bit 6) when `s` is zero, SF, AF
/// and OF as `sign_flag`, `adjust_flag` and `overflow_flag` compute them
/// (sign bit 63, or 31 for 32 bits), and PF (bit 2) when the low byte of
/// `s` has an even number of set bits.
pub open spec fn compare_flags(a: u64, b: u64, wide: bool) -> u64 {
    let s = compare_value(a, b, wide);
    let sign: u32 = if wide {
        63
    } else {
        31
    };
    (if a < b {
        1u64
    } else {
        0u64
    }) | (if s == 0 {
        0x40u64
    } else {
        0u64
    }) | sign_flag(s, sign) | adjust_flag(a, b, s) | overflow_flag(a, b, s, sign) | (if low_byte_ones(
        s,
    ) % 2 == 0 {
        4u64
    } else {
        0u64
    })
}

/// The flags `cmp` between registers leaves: running the words it emits
/// leaves `compare_flags` of the two operands in the flags register (x24),
/// for 64- and 32-bit operands, and every register below x24, the x86
/// registers' homes among them, as it was.
pub proof fn lemma_compare_sets_flags(lhs: X86Reg, rhs: X86Reg, wide: bool, regs: Seq<u64>)
    requires
        regs.len() == 32,
    ensures
        rv_run(compare_words(lhs.spec_riscv(), rhs.spec_riscv(), wide), regs) matches Some(out)
            && {
            &&& out.len() == 32
            &&& out[24] == compare_flags(
                regs[lhs.spec_riscv() as int],
                regs[rhs.spec_riscv() as int],
                wide,
            )
            &&& forall|i: int| 0 <= i < 24 ==> out[i] == regs[i]
        },
{
    lemma_register_homes(lhs, rhs);
    lemma_register_homes(rhs, lhs);
    let l = lhs.spec_riscv();
    let r = rhs.spec_riscv();
    let sign: u8 = if wide {
        63
    } else {
        31
    };
    let first = seq![
        xor_word(CPUSTATEREG, CPUSTATEREG, CPUSTATEREG),
        sltu_word(JUNKREG0, l, r),
        or_word(CPUSTATEREG, CPUSTATEREG, JUNKREG0),
        if wide {
            sub_word(JUNKREG1, l, r)
        } else {
            subw_word(JUNKREG1, l, r)
        },
    ];
    let middle = seq![
        srli_word(JUNKREG0, JUNKREG1, sign),
        slli_word(JUNKREG0, JUNKREG0, 7),
        or_word(CPUSTATEREG, CPUSTATEREG, JUNKREG0),
        xor_word(JUNKREG0, l, r),
        xor_word(JUNKREG0, JUNKREG0, JUNKREG1),
        srli_word(JUNKREG0, JUNKREG0, 4),
        andi_word(JUNKREG0, JUNKREG0, 1),
        slli_word(JUNKREG0, JUNKREG0, 4),
        or_word(CPUSTATEREG, CPUSTATEREG, JUNKREG0),
        xor_word(JUNKREG0, l, r),
        xor_word(JUNKREG2, l, JUNKREG1),
        and_word(JUNKREG0, JUNKREG0, JUNKREG2),
        srli_word(JUNKREG0, JUNKREG0, sign),
        slli_word(JUNKREG0, JUNKREG0, 11),
        or_word(CPUSTATEREG, CPUSTATEREG, JUNKREG0),
    ];
    assert(compare_words(l, r, wide) =~= first + zf_words() + middle + pf_words());
    lemma_run_append(first + zf_words() + middle, pf_words(), regs);
    lemma_run_append(first + zf_words(), middle, regs);
    lemma_run_append(first, zf_words(), regs);

    reveal_with_fuel(rv_run, 5);
    lemma_decode_reg(24, 24, 24, 4);
    lemma_decode_reg(25, l, r, 3);
    lemma_decode_reg(24, 24, 25, 6);
    lemma_decode_reg(26, l, r, 0);
    lemma_decode_reg32(26, l, r, 0);
    let a = regs[l as int];
    let b = regs[r as int];
    let x = regs[24];
    assert(x ^ x == 0) by (bit_vector);
    let c: u64 = if a < b {
        1
    } else {
        0
    };
    let s = compare_value(a, b, wide);
    let r1 = rv_run(first, regs)->0;
    assert(r1.len() == 32 && r1[24] == 0 | c && r1[26] == s);
    assert(forall|i: int| 0 <= i < 24 ==> r1[i] == regs[i]);
    lemma_zf_words(r1);
    let r2 = rv_run(zf_words(), r1)->0;
    lemma_compare_middle(l, r, sign, r2);
    let r3 = rv_run(middle, r2)->0;
    lemma_pf_words(r3);
    assert(0u64 | c == c) by (bit_vector);
    let r4 = rv_run(pf_words(), r3)->0;
    assert(r4[24] == compare_flags(a, b, wide));
}

/// `cmp` between 64-bit registers sets CF as x86 does: running the words it
/// emits leaves bit 0 of the flags register (x24) set exactly when the left
/// operand is below the right one, read unsigned.
pub proof fn lemma_compare_sets_carry(lhs: X86Reg, rhs: X86Reg, regs: Seq<u64>)
    requires
        regs.len() == 32,
    ensures
        rv_run(compare_words(lhs.spec_riscv(), rhs.spec_riscv(), true), regs) matches Some(out)
            && (out[24] & 1 == 1 <==> regs[lhs.spec_riscv() as int] < regs[rhs.spec_riscv() as int]),
{
    lemma_compare_sets_flags(lhs, rhs, true, regs);
    let a = regs[lhs.spec_riscv() as int];
    let b = regs[rhs.spec_riscv() as int];
    let s = compare_value(a, b, true);
    let c: u64 = if a < b { 1u64 } else { 0u64 };
    let z: u64 = if s == 0 { 0x40u64 } else { 0u64 };
    let p: u64 = if low_byte_ones(s) % 2 == 0 { 4u64 } else { 0u64 };
    let sf = sign_flag(s, 63);
    let af = adjust_flag(a, b, s);
    let of = overflow_flag(a, b, s, 63);
    assert((c | z | sf | af | of | p) & 1 == c) by (bit_vector)
        requires
            c == 0u64 || c == 1u64,
            z == 0x40u64 || z == 0u64,
            p == 4u64 || p == 0u64,
            sf == (s >> 63u32) << 7u32,
            af == ((((a ^ b) ^ s) >> 4u32) & 1u64) << 4u32,
            of == (((a ^ b) & (a ^ s)) >> 63u32) << 11u32,
    ;
}

} // verus!
