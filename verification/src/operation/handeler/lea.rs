use vstd::prelude::*;
use vstd::slice::slice_subrange;

use crate::elf::{push_bytes, Elf64ProgramHeader};
use crate::operation::handeler::{
    le32_at, read_le32, HandelerInputValue, HandelerReturnValue, TranslateError,
};
use crate::registers::{reg_field_number, reg_from_number, X86Reg};

verus! {

/// The destination register and displacement of the `lea` at `offset`. Only
/// `lea r64, [rip + disp32]` without REX.R is handled: `0x48 0x8D modrm
/// disp32` with `mod == 0` and `rm == 5`. Every other form is `Unsupported`;
/// a byte beyond the code is `Truncated`.
pub open spec fn lea_operands(code: Seq<u8>, offset: int) -> Result<(X86Reg, int), TranslateError> {
    if code[offset] != 0x48 {
        Err(TranslateError::Unsupported)
    } else if offset + 1 >= code.len() {
        Err(TranslateError::Truncated)
    } else if code[offset + 1] != 0x8D {
        Err(TranslateError::Unsupported)
    } else if offset + 2 >= code.len() {
        Err(TranslateError::Truncated)
    } else {
        let modrm = code[offset + 2];
        if modrm / 64 != 0 || modrm % 8 != 5 {
            Err(TranslateError::Unsupported)
        } else {
            match le32_at(code, offset + 3) {
                Some(d) => Ok((reg_from_number(reg_field_number(modrm, false)), (d as i32) as int)),
                None => Err(TranslateError::Truncated),
            }
        }
    }
}

/// The address `lea` computes: the virtual address after the instruction
/// (`entry + offset + len`), read as an `i64`, plus the displacement, the
/// sum read back as a `u64`. `None` when a step leaves its integer range.
pub open spec fn lea_address(entry: u64, offset: usize, len: usize, disp: int) -> Option<u64> {
    let rel = offset + len;
    let next = entry + rel;
    if rel > usize::MAX || next > u64::MAX {
        None
    } else {
        let sum = ((next as u64) as i64) as int + disp;
        if i64::MIN <= sum <= i64::MAX {
            Some((sum as i64) as u64)
        } else {
            None
        }
    }
}

/// The first segment, in order, whose file image holds `address`
/// (`p_vaddr <= address < p_vaddr + p_filesz`), `None` when there is none,
/// `AddressOverflow` when a segment it examines ends beyond 2^64.
pub open spec fn segment_holding(segs: Seq<Elf64ProgramHeader>, address: u64) -> Result<
    Option<Elf64ProgramHeader>,
    TranslateError,
>
    decreases segs.len(),
{
    if segs.len() == 0 {
        Ok(None)
    } else {
        let s = segs[0];
        if s.p_vaddr <= address {
            if s.p_vaddr + s.p_filesz > u64::MAX {
                Err(TranslateError::AddressOverflow)
            } else if address < s.p_vaddr + s.p_filesz {
                Ok(Some(s))
            } else {
                segment_holding(segs.drop_first(), address)
            }
        } else {
            segment_holding(segs.drop_first(), address)
        }
    }
}

/// Where a rip-relative operand lands: the address `lea_address` gives, and
/// the file range `start..end` from it to the end of the file image of the
/// segment that holds it; or why there is none.
pub open spec fn rip_data(
    entry: u64,
    offset: usize,
    len: usize,
    disp: int,
    segs: Seq<Elf64ProgramHeader>,
    file: Seq<u8>,
) -> Result<(u64, int, int), TranslateError> {
    match lea_address(entry, offset, len, disp) {
        None => Err(TranslateError::AddressOverflow),
        Some(address) => match segment_holding(segs, address) {
            Err(e) => Err(e),
            Ok(None) => Err(TranslateError::UnmappedAddress),
            Ok(Some(seg)) => {
                let start = seg.p_offset + (address - seg.p_vaddr);
                let end = seg.p_offset + seg.p_filesz;
                if start > u64::MAX || end > u64::MAX {
                    Err(TranslateError::AddressOverflow)
                } else if end > file.len() {
                    Err(TranslateError::UnmappedAddress)
                } else {
                    Ok((address, start, end))
                }
            },
        },
    }
}

/// What `lea` does with the instruction at `offset`: the destination
/// register, the address, and the file range `start..end` from the address
/// to the end of its segment's file image; or why it cannot.
pub open spec fn lea_outcome(
    code: Seq<u8>,
    offset: usize,
    len: usize,
    entry: u64,
    segs: Seq<Elf64ProgramHeader>,
    file: Seq<u8>,
) -> Result<(X86Reg, u64, int, int), TranslateError> {
    match lea_operands(code, offset as int) {
        Err(e) => Err(e),
        Ok((reg, disp)) => match rip_data(entry, offset, len, disp, segs, file) {
            Err(e) => Err(e),
            Ok((address, start, end)) => Ok((reg, address, start, end)),
        },
    }
}

/// The segment `segment_holding` finds holds the address.
pub proof fn lemma_segment_holding_holds(segs: Seq<Elf64ProgramHeader>, address: u64)
    ensures
        segment_holding(segs, address) matches Ok(Some(s)) ==> s.p_vaddr <= address && address
            < s.p_vaddr + s.p_filesz,
    decreases segs.len(),
{
    if segs.len() > 0 {
        lemma_segment_holding_holds(segs.drop_first(), address);
    }
}

fn find_segment(segments: &[Elf64ProgramHeader], address: u64) -> (r: Result<
    Option<Elf64ProgramHeader>,
    TranslateError,
>)
    ensures
        r == segment_holding(segments@, address),
{
    let mut i: usize = 0;
    assert(segments@.subrange(0, segments@.len() as int) =~= segments@);
    while i < segments.len()
        invariant
            i <= segments@.len(),
            segment_holding(segments@, address) == segment_holding(
                segments@.subrange(i as int, segments@.len() as int),
                address,
            ),
        decreases segments@.len() - i,
    {
        let segment = segments[i];
        let ghost rest = segments@.subrange(i as int, segments@.len() as int);
        assert(rest[0] == segment);
        assert(rest.drop_first() =~= segments@.subrange(i + 1, segments@.len() as int));
        if segment.p_vaddr <= address {
            if segment.p_vaddr > u64::MAX - segment.p_filesz {
                return Err(TranslateError::AddressOverflow);
            }
            if address < segment.p_vaddr + segment.p_filesz {
                return Ok(Some(segment));
            }
        }
        i = i + 1;
    }
    Ok(None)
}

/// Computes `rip_data` for the operand `disp` of the instruction of `len`
/// bytes at `offset`, the range as indices into `bytes`.
pub(crate) fn resolve_rip_data(
    entry: u64,
    offset: usize,
    len: usize,
    disp: i32,
    segments: &[Elf64ProgramHeader],
    bytes: &[u8],
) -> (r: Result<(u64, usize, usize), TranslateError>)
    ensures
        match r {
            Ok((address, start, end)) => start <= end <= bytes@.len() && rip_data(
                entry,
                offset,
                len,
                disp as int,
                segments@,
                bytes@,
            ) == Ok::<(u64, int, int), TranslateError>((address, start as int, end as int)),
            Err(e) => rip_data(entry, offset, len, disp as int, segments@, bytes@) == Err::<
                (u64, int, int),
                TranslateError,
            >(e),
        },
{
    if offset > usize::MAX - len {
        return Err(TranslateError::AddressOverflow);
    }
    let relative = (offset + len) as u64;
    if entry > u64::MAX - relative {
        return Err(TranslateError::AddressOverflow);
    }
    let next_rip = entry + relative;

    let sum: i128 = next_rip as i64 as i128 + disp as i128;
    if sum < i64::MIN as i128 || sum > i64::MAX as i128 {
        return Err(TranslateError::AddressOverflow);
    }
    let address = sum as i64 as u64;

    let found = find_segment(segments, address);
    let target_segment = match found {
        Ok(Some(segment)) => segment,
        Ok(None) => {
            return Err(TranslateError::UnmappedAddress);
        },
        Err(e) => {
            return Err(e);
        },
    };

    proof {
        lemma_segment_holding_holds(segments@, address);
    }
    let delta = address - target_segment.p_vaddr;
    if target_segment.p_offset > u64::MAX - delta || target_segment.p_offset > u64::MAX
        - target_segment.p_filesz {
        return Err(TranslateError::AddressOverflow);
    }
    let target_file_offset = target_segment.p_offset + delta;
    let data_end = target_segment.p_offset + target_segment.p_filesz;

    if data_end > bytes.len() as u64 {
        return Err(TranslateError::UnmappedAddress);
    }
    Ok((address, target_file_offset as usize, data_end as usize))
}

/// `lea r64, [rip + disp32]`: copies the file bytes from the computed
/// address to the end of its segment into the output data, records a lea
/// fixup (index of the next word, destination register, address), and
/// emits two placeholder words for the fixup to fill in.
pub fn lea(values: HandelerInputValue) -> (r: Result<HandelerReturnValue, TranslateError>)
    requires
        values.code_offset < values.code@.len(),
    ensures
        match lea_outcome(
            values.code@,
            values.code_offset,
            values.operation.len,
            values.header.e_entry,
            values.segments@,
            values.bytes@,
        ) {
            Ok((reg, address, start, end)) => r matches Ok(v) && {
                &&& v.operation_len == values.operation.len
                &&& !v.finish_thread
                &&& v.future is None
                &&& final(values.riscv_code)@ == old(values.riscv_code)@ + seq![0u32, 0u32]
                &&& final(values.riscv_data)@ == old(values.riscv_data)@ + values.bytes@.subrange(
                    start,
                    end,
                )
                &&& final(values.lea_fixups)@ == old(values.lea_fixups)@.push(
                    (old(values.riscv_code)@.len() as usize, reg.spec_riscv(), address),
                )
            },
            Err(e) => r == Err::<HandelerReturnValue, TranslateError>(e)
                && final(values.riscv_code)@ == old(values.riscv_code)@
                && final(values.riscv_data)@ == old(values.riscv_data)@
                && final(values.lea_fixups)@ == old(values.lea_fixups)@,
        },
        final(values.registers)@ == old(values.registers)@,
        final(values.branch_fixups)@ == old(values.branch_fixups)@,
        final(values.call_fixups)@ == old(values.call_fixups)@,
{
    let code = values.code;
    let code_offset = values.code_offset;

    if code[code_offset] != 0x48 {
        return Err(TranslateError::Unsupported);
    }
    if code.len() - code_offset <= 1 {
        return Err(TranslateError::Truncated);
    }
    if code[code_offset + 1] != 0x8D {
        return Err(TranslateError::Unsupported);
    }
    if code.len() - code_offset <= 2 {
        return Err(TranslateError::Truncated);
    }

    let modrm = code[code_offset + 2];
    let x86_register = X86Reg::from_modrm_reg(modrm, false);

    let mode = modrm / 64;
    let rm = modrm % 8;

    if mode != 0b00 || rm != 0b101 {
        return Err(TranslateError::Unsupported);
    }

    let disp = match read_le32(code, code_offset + 3) {
        Some(d) => d as i32,
        None => {
            return Err(TranslateError::Truncated);
        },
    };

    let (address, data_start, data_end) = match resolve_rip_data(
        values.header.e_entry,
        code_offset,
        values.operation.len,
        disp,
        values.segments.as_slice(),
        values.bytes.as_slice(),
    ) {
        Ok(found) => found,
        Err(e) => {
            return Err(e);
        },
    };
    let data = slice_subrange(values.bytes.as_slice(), data_start, data_end);

    push_bytes(values.riscv_data, data);

    let ghost code_before = values.riscv_code@;
    let fixup_index = values.riscv_code.len();

    values.lea_fixups.push((fixup_index, x86_register.to_riscv(), address));

    values.riscv_code.push(0);
    values.riscv_code.push(0);
    assert(values.riscv_code@ =~= code_before + seq![0u32, 0u32]);

    Ok(HandelerReturnValue::new(values.operation.len))
}

} // verus!
