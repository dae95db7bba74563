use vstd::prelude::*;

use crate::encode::{add_word, encode_add};
use crate::registers::{reg_field_number, reg_from_number, rm_number, X86Reg};

verus! {

/// `add r/m64, r64` between two registers (ModRM `mod == 3`, no REX
/// extension bits): emits `add dst, dst, src`, where dst is the RV64 home of
/// the register in the rm field and src that of the register in the reg
/// field, and returns 3, the length of `REX.W 0x01 modrm`. The memory forms
/// (`mod` 0 to 2) are not handled.
pub fn add_reg_to_reg(modrm: u8, riscv_code: &mut Vec<u32>) -> (len: usize)
    requires
        modrm >> 6u8 == 0b11,
    ensures
        len == 3,
        final(riscv_code)@ == old(riscv_code)@.push(
            add_word(
                reg_from_number(rm_number(modrm, false)).spec_riscv(),
                reg_from_number(rm_number(modrm, false)).spec_riscv(),
                reg_from_number(reg_field_number(modrm, false)).spec_riscv(),
            ),
        ),
{
    let destination = X86Reg::from_modrm(modrm, false).to_riscv();
    let source = X86Reg::from_modrm_reg(modrm, false).to_riscv();

    riscv_code.push(encode_add(destination, destination, source));

    3
}

} // verus!
