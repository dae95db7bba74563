use vstd::prelude::*;
use vstd::slice::slice_subrange;

use crate::elf::{push_bytes, Elf64Header, Elf64ProgramHeader};
use crate::operation::handeler::le32_at;
use crate::operation::handeler::lea::{resolve_rip_data, rip_data};
use crate::operation::handeler::read_le32;
use crate::registers::{reg_field_number, reg_from_number, X86Reg};

verus! {

/// The displacement of the 7-byte `lea r64, [rip + disp32]` at `offset`.
pub open spec fn lea_disp(code: Seq<u8>, offset: int) -> int {
    match le32_at(code, offset + 3) {
        Some(d) => (d as i32) as int,
        None => 0,
    }
}

/// Translates the 7-byte `lea r64, [rip + disp32]` at `code_offset`, the
/// destination taken from the reg field of `modrm`: copies the file bytes
/// from the address it computes to the end of its segment's file image into
/// the output data, records in `lea_fixup` the index of the next code word
/// and the destination's RV64 home, emits two placeholder words, and
/// returns 7.
pub fn lea(
    modrm: u8,
    code: &[u8],
    code_offset: usize,
    header: &Elf64Header,
    segments: &[Elf64ProgramHeader],
    riscv_code: &mut Vec<u32>,
    riscv_data: &mut Vec<u8>,
    bytes: &[u8],
    lea_fixup: &mut Option<(usize, u8)>,
) -> (len: usize)
    requires
        code_offset + 7 <= code@.len(),
        rip_data(header.e_entry, code_offset, 7, lea_disp(code@, code_offset as int), segments@, bytes@) is Ok,
    ensures
        len == 7,
        rip_data(header.e_entry, code_offset, 7, lea_disp(code@, code_offset as int), segments@, bytes@)
            matches Ok((_address, start, end)) && final(riscv_data)@ == old(riscv_data)@
            + bytes@.subrange(start, end),
        final(riscv_code)@ == old(riscv_code)@ + seq![0u32, 0u32],
        *final(lea_fixup) == Some(
            (
                old(riscv_code)@.len() as usize,
                reg_from_number(reg_field_number(modrm, false)).spec_riscv(),
            ),
        ),
{
    let x86_register = X86Reg::from_modrm_reg(modrm, false);

    let disp = match read_le32(code, code_offset + 3) {
        Some(d) => d as i32,
        None => {
            proof {
                assert(false);
            }
            0
        },
    };

    let (_address, data_start, data_end) = match resolve_rip_data(
        header.e_entry,
        code_offset,
        7,
        disp,
        segments,
        bytes,
    ) {
        Ok(found) => found,
        Err(_) => {
            proof {
                assert(false);
            }
            (0, 0, 0)
        },
    };

    let data = slice_subrange(bytes, data_start, data_end);

    push_bytes(riscv_data, data);

    *lea_fixup = Some((riscv_code.len(), x86_register.to_riscv()));

    let ghost code_before = riscv_code@;
    riscv_code.push(0);
    riscv_code.push(0);
    assert(riscv_code@ =~= code_before + seq![0u32, 0u32]);

    7
}

} // verus!
