use vstd::prelude::*;

use crate::encode::{
    and_word, andi_word, andw_word, encode_and, encode_andi, encode_andw, encode_or,
    encode_slli, encode_srli, encode_xor, or_word, slli_word, srli_word, xor_word,
};
use crate::operation::handeler::cmp::{pf_words, push_pf, push_zf, zf_words};
use crate::operation::handeler::{
    modrm_offset_at, read_register_operands, register_operands, rex_bit_w, rex_w,
    HandelerInputValue, HandelerReturnValue, TranslateError,
};
use crate::registers::{CPUSTATEREG, JUNKREG0, JUNKREG1};
use crate::registers::{lemma_register_homes, X86Reg};
use crate::riscv::{
    lemma_decode_imm, lemma_decode_reg, lemma_decode_slli, lemma_decode_srli, lemma_run_append,
    rv_run,
};

verus! {

/// Operand size of `test` by opcode: 8 bits for 0x84, 64 bits for 0x85 under
/// REX.W, 32 bits for 0x85 without it; `None` for any other opcode.
pub open spec fn test_operand_size(opcode: u8, rex: u8) -> Option<u8> {
    if opcode == 0x84 {
        Some(8)
    } else if opcode == 0x85 {
        Some(
            if rex_w(rex) {
                64u8
            } else {
                32u8
            },
        )
    } else {
        None
    }
}

/// The words `test lhs, rhs` emits for the RV64 homes `l` and `r` and an
/// operand size of 8, 32 or 64 bits: the flags cleared, `l & r` into
/// JUNKREG1 (cut to its low byte for 8 bits; the `and` layout of the 32-bit
/// group for 32 bits), ZF, SF (bit 7) from the sign bit (7, 31 or 63), PF.
pub open spec fn test_words(l: u8, r: u8, size: u8) -> Seq<u32> {
    let sign: u8 = if size == 8 {
        7
    } else if size == 32 {
        31
    } else {
        63
    };
    let and_part = if size == 8 {
        seq![and_word(JUNKREG1, l, r), andi_word(JUNKREG1, JUNKREG1, 0xff)]
    } else if size == 32 {
        seq![andw_word(JUNKREG1, l, r)]
    } else {
        seq![and_word(JUNKREG1, l, r)]
    };
    seq![xor_word(CPUSTATEREG, CPUSTATEREG, CPUSTATEREG)] + and_part + zf_words() + seq![
        srli_word(JUNKREG0, JUNKREG1, sign),
        andi_word(JUNKREG0, JUNKREG0, 1),
        slli_word(JUNKREG0, JUNKREG0, 7),
        or_word(CPUSTATEREG, CPUSTATEREG, JUNKREG0),
    ] + pf_words()
}

/// `test r/m, r` between registers (0x84, 0x85): emits `test_words` for the
/// `rm` register (left) and the `reg` register (right) at the size the
/// opcode and REX.W give. Operands in memory, and any other opcode, are
/// `Unsupported`.
pub fn test(values: HandelerInputValue) -> (r: Result<HandelerReturnValue, TranslateError>)
    requires
        values.code_offset < values.code@.len(),
    ensures
        match register_operands(values.code@, values.code_offset) {
            Ok((lhs, rhs, rex)) => match test_operand_size(
                values.code@[modrm_offset_at(values.code@, values.code_offset) - 1],
                rex,
            ) {
                Some(size) => r matches Ok(v) && {
                    &&& v.operation_len == values.operation.len
                    &&& !v.finish_thread
                    &&& v.future is None
                    &&& final(values.riscv_code)@ == old(values.riscv_code)@ + test_words(
                        lhs.spec_riscv(),
                        rhs.spec_riscv(),
                        size,
                    )
                },
                None => r == Err::<HandelerReturnValue, TranslateError>(
                    TranslateError::Unsupported,
                ) && final(values.riscv_code)@ == old(values.riscv_code)@,
            },
            Err(e) => r == Err::<HandelerReturnValue, TranslateError>(e)
                && final(values.riscv_code)@ == old(values.riscv_code)@,
        },
        final(values.registers)@ == old(values.registers)@,
        final(values.riscv_data)@ == old(values.riscv_data)@,
        final(values.lea_fixups)@ == old(values.lea_fixups)@,
        final(values.branch_fixups)@ == old(values.branch_fixups)@,
        final(values.call_fixups)@ == old(values.call_fixups)@,
{
    let (lhs, rhs, rex, modrm_offset) = match read_register_operands(
        values.code,
        values.code_offset,
    ) {
        Ok(operands) => operands,
        Err(e) => {
            return Err(e);
        },
    };
    let opcode = values.code[modrm_offset - 1];

    let operand_size: u8 = match opcode {
        0x84 => 8,
        0x85 => {
            if rex_bit_w(rex) {
                64
            } else {
                32
            }
        },
        _ => {
            return Err(TranslateError::Unsupported);
        },
    };
    let l = lhs.to_riscv();
    let r = rhs.to_riscv();
    let ghost start = values.riscv_code@;

    values.riscv_code.push(encode_xor(CPUSTATEREG, CPUSTATEREG, CPUSTATEREG));

    if operand_size == 8 {
        values.riscv_code.push(encode_and(JUNKREG1, l, r));
        values.riscv_code.push(encode_andi(JUNKREG1, JUNKREG1, 0xff));
    } else if operand_size == 32 {
        values.riscv_code.push(encode_andw(JUNKREG1, l, r));
    } else {
        values.riscv_code.push(encode_and(JUNKREG1, l, r));
    }

    // ZF
    push_zf(values.riscv_code);

    // SF
    let sign_bit: u8 = if operand_size == 8 {
        7
    } else if operand_size == 32 {
        31
    } else {
        63
    };

    values.riscv_code.push(encode_srli(JUNKREG0, JUNKREG1, sign_bit));
    values.riscv_code.push(encode_andi(JUNKREG0, JUNKREG0, 1));
    values.riscv_code.push(encode_slli(JUNKREG0, JUNKREG0, 7));
    values.riscv_code.push(encode_or(CPUSTATEREG, CPUSTATEREG, JUNKREG0));

    // PF
    push_pf(values.riscv_code);

    assert(values.riscv_code@ =~= start + test_words(l, r, operand_size));

    Ok(HandelerReturnValue::new(values.operation.len))
}

} // verus!

verus! {

/// Running `zf_words` merges ZF (bit 6: JUNKREG1 is zero) into the flags
/// register, through JUNKREG0 alone.
pub(crate) proof fn lemma_zf_words(regs: Seq<u64>)
    requires
        regs.len() == 32,
    ensures
        rv_run(zf_words(), regs) matches Some(out) && {
            &&& out.len() == 32
            &&& out[24] == regs[24] | (if regs[26] == 0 { 0x40u64 } else { 0u64 })
            &&& forall|i: int| 0 <= i < 32 && i != 24 && i != 25 ==> out[i] == regs[i]
        },
{
    reveal_with_fuel(rv_run, 5);
    lemma_decode_reg(25, 0, 26, 3);
    lemma_decode_imm(25, 25, 4, 1);
    lemma_decode_slli(25, 25, 6);
    lemma_decode_reg(24, 24, 25, 6);
    let v = regs[26];
    let c: u64 = if 0 < v { 1 } else { 0 };
    assert((c ^ 1u64) << 6u32 == (if v == 0 { 0x40u64 } else { 0u64 })) by (bit_vector)
        requires
            c == (if 0 < v { 1u64 } else { 0u64 }),
    ;
}

/// The number of set bits in the low byte of `v`.
pub open spec fn low_byte_ones(v: u64) -> int {
    (v & 1) + ((v >> 1u64) & 1) + ((v >> 2u64) & 1) + ((v >> 3u64) & 1) + ((v >> 4u64) & 1) + ((v
        >> 5u64) & 1) + ((v >> 6u64) & 1) + ((v >> 7u64) & 1)
}

/// Running `pf_words` merges PF (bit 2: the low byte of JUNKREG1 has an
/// even number of set bits) into the flags register, through JUNKREG0 and
/// JUNKREG2 alone.
pub(crate) proof fn lemma_pf_words(regs: Seq<u64>)
    requires
        regs.len() == 32,
    ensures
        rv_run(pf_words(), regs) matches Some(out) && {
            &&& out.len() == 32
            &&& out[24] == regs[24] | (if low_byte_ones(regs[26]) % 2 == 0 { 4u64 } else { 0u64 })
            &&& forall|i: int| 0 <= i < 32 && i != 24 && i != 25 && i != 27 ==> out[i] == regs[i]
        },
{
    reveal_with_fuel(rv_run, 12);
    lemma_decode_imm(25, 26, 7, 0xFF);
    lemma_decode_srli(27, 25, 4);
    lemma_decode_reg(25, 25, 27, 4);
    lemma_decode_srli(27, 25, 2);
    lemma_decode_srli(27, 25, 1);
    lemma_decode_imm(25, 25, 7, 1);
    lemma_decode_imm(25, 25, 4, 1);
    lemma_decode_slli(25, 25, 2);
    lemma_decode_reg(24, 24, 25, 6);
    let v = regs[26];
    let b = v & (0xFFi64 as u64);
    let b1 = b ^ (b >> 4u32);
    let b2 = b1 ^ (b1 >> 2u32);
    let b3 = b2 ^ (b2 >> 1u32);
    let p = (b3 & (1i64 as u64)) ^ (1i64 as u64);
    assert(p << 2u32 == (if low_byte_ones(v) % 2 == 0 { 4u64 } else { 0u64 })) by (bit_vector)
        requires
            b == v & (0xFFi64 as u64),
            b1 == b ^ (b >> 4u32),
            b2 == b1 ^ (b1 >> 2u32),
            b3 == b2 ^ (b2 >> 1u32),
            p == (b3 & (1i64 as u64)) ^ (1i64 as u64),
    ;
}

/// Running the four words that merge SF (bit 7: bit `sign` of JUNKREG1)
/// into the flags register, through JUNKREG0 alone.
proof fn lemma_sf_words(regs: Seq<u64>, sign: u8)
    requires
        regs.len() == 32,
        sign < 64,
    ensures
        rv_run(
            seq![
                srli_word(JUNKREG0, JUNKREG1, sign),
                andi_word(JUNKREG0, JUNKREG0, 1),
                slli_word(JUNKREG0, JUNKREG0, 7),
                or_word(CPUSTATEREG, CPUSTATEREG, JUNKREG0),
            ],
            regs,
        ) matches Some(out) && {
            &&& out.len() == 32
            &&& out[24] == regs[24] | (((regs[26] >> sign) & 1) << 7u64)
            &&& forall|i: int| 0 <= i < 32 && i != 24 && i != 25 ==> out[i] == regs[i]
        },
{
    reveal_with_fuel(rv_run, 5);
    lemma_decode_srli(25, 26, sign);
    lemma_decode_imm(25, 25, 7, 1);
    lemma_decode_slli(25, 25, 7);
    lemma_decode_reg(24, 24, 25, 6);
    let v = regs[26];
    assert(((v >> (sign as u32)) & (1i64 as u64)) << 7u32 == ((v >> sign) & 1) << 7u64) by (bit_vector);
}

/// The value `test` examines: the bitwise and of its operands, cut to the
/// operand size.
pub open spec fn test_result(a: u64, b: u64, size: u8) -> u64 {
    if size == 8 {
        a & b & 0xff
    } else if size == 32 {
        a & b & 0xffff_ffff
    } else {
        a & b
    }
}

/// The flags `test` sets for the value `v` of an operand of `size` bits,
/// in their RFLAGS bits: ZF (bit 6) when `v` is zero, SF (bit 7) from its
/// top bit, PF (bit 2) when its low byte has an even number of set bits;
/// the other flags clear.
pub open spec fn test_flags(v: u64, size: u8) -> u64 {
    (if v == 0 { 0x40u64 } else { 0u64 }) | (((v >> ((size - 1) as u8)) & 1) << 7u64) | (if low_byte_ones(v) % 2 == 0 {
        4u64
    } else {
        0u64
    })
}

/// `test` between registers sets the flags as x86 does, for operands of 8
/// and 64 bits: running the words it emits leaves in the flags register
/// (x24) the flags of `lhs & rhs` cut to the operand size, and every
/// register below x24, the x86 registers' homes among them, as it was.
pub proof fn lemma_test_sets_flags(lhs: X86Reg, rhs: X86Reg, size: u8, regs: Seq<u64>)
    requires
        regs.len() == 32,
        size == 8 || size == 64,
    ensures
        rv_run(test_words(lhs.spec_riscv(), rhs.spec_riscv(), size), regs) matches Some(out) && {
            &&& out.len() == 32
            &&& out[24] == test_flags(
                test_result(regs[lhs.spec_riscv() as int], regs[rhs.spec_riscv() as int], size),
                size,
            )
            &&& forall|i: int| 0 <= i < 24 ==> out[i] == regs[i]
        },
{
    lemma_register_homes(lhs, rhs);
    lemma_register_homes(rhs, lhs);
    let l = lhs.spec_riscv();
    let r = rhs.spec_riscv();
    let a = regs[l as int];
    let b = regs[r as int];
    let sign: u8 = if size == 8 {
        7
    } else {
        63
    };
    let and_part = if size == 8 {
        seq![and_word(JUNKREG1, l, r), andi_word(JUNKREG1, JUNKREG1, 0xff)]
    } else {
        seq![and_word(JUNKREG1, l, r)]
    };
    let first = seq![xor_word(CPUSTATEREG, CPUSTATEREG, CPUSTATEREG)] + and_part;
    let sf = seq![
        srli_word(JUNKREG0, JUNKREG1, sign),
        andi_word(JUNKREG0, JUNKREG0, 1),
        slli_word(JUNKREG0, JUNKREG0, 7),
        or_word(CPUSTATEREG, CPUSTATEREG, JUNKREG0),
    ];
    assert(test_words(l, r, size) =~= first + zf_words() + sf + pf_words());
    lemma_run_append(first + zf_words() + sf, pf_words(), regs);
    lemma_run_append(first + zf_words(), sf, regs);
    lemma_run_append(first, zf_words(), regs);

    reveal_with_fuel(rv_run, 4);
    lemma_decode_reg(24, 24, 24, 4);
    lemma_decode_reg(26, l, r, 7);
    lemma_decode_imm(26, 26, 7, 0xff);
    let x = regs[24];
    assert(x ^ x == 0) by (bit_vector);
    assert(a & b & (0xffi64 as u64) == a & b & 0xff) by (bit_vector);
    let v = test_result(a, b, size);
    let r1 = rv_run(first, regs)->0;
    assert(r1.len() == 32 && r1[24] == 0 && r1[26] == v);
    assert(forall|i: int| 0 <= i < 24 ==> r1[i] == regs[i]);
    lemma_zf_words(r1);
    let r2 = rv_run(zf_words(), r1)->0;
    lemma_sf_words(r2, sign);
    let r3 = rv_run(sf, r2)->0;
    lemma_pf_words(r3);
    let zf: u64 = if v == 0 { 0x40u64 } else { 0u64 };
    let pf: u64 = if low_byte_ones(v) % 2 == 0 { 4u64 } else { 0u64 };
    let sfv: u64 = ((v >> sign) & 1) << 7u64;
    assert(((0u64 | zf) | sfv) | pf == zf | sfv | pf) by (bit_vector);
    assert((size - 1) as u8 == sign);
}

} // verus!
