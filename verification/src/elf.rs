//! ELF64 headers: reading them from the x86-64 input, and laying out the
//! RV64 executable that the translator writes.
use vstd::prelude::*;
use vstd::bytes::{
    spec_u16_from_le_bytes, spec_u16_to_le_bytes, spec_u32_from_le_bytes, spec_u32_to_le_bytes,
    spec_u64_from_le_bytes, spec_u64_to_le_bytes, u16_from_le_bytes, u16_to_le_bytes,
    u32_from_le_bytes, u32_to_le_bytes, u64_from_le_bytes, u64_to_le_bytes,
};
use vstd::slice::slice_subrange;

verus! {

/// The ELF64 file header.
#[derive(Debug, Clone, Copy)]
pub struct Elf64Header {
    pub e_ident: [u8; 16],
    pub e_type: u16,
    pub e_machine: u16,
    pub e_version: u32,
    pub e_entry: u64,
    pub e_phoff: u64,
    pub e_shoff: u64,
    pub e_flags: u32,
    pub e_ehsize: u16,
    pub e_phentsize: u16,
    pub e_phnum: u16,
    pub e_shentsize: u16,
    pub e_shnum: u16,
    pub e_shstrndx: u16,
}

/// An ELF64 program header (one segment).
#[derive(Debug, Clone, Copy, PartialEq, Eq, Structural)]
pub struct Elf64ProgramHeader {
    pub p_type: u32,
    pub p_flags: u32,
    pub p_offset: u64,
    pub p_vaddr: u64,
    pub p_paddr: u64,
    pub p_filesz: u64,
    pub p_memsz: u64,
    pub p_align: u64,
}

/// `h` holds the fields stored little-endian in the first 64 bytes of `b`.
pub open spec fn header_read_from(h: Elf64Header, b: Seq<u8>) -> bool {
    &&& h.e_ident@ == b.subrange(0, 16)
    &&& h.e_type == spec_u16_from_le_bytes(b.subrange(16, 18))
    &&& h.e_machine == spec_u16_from_le_bytes(b.subrange(18, 20))
    &&& h.e_version == spec_u32_from_le_bytes(b.subrange(20, 24))
    &&& h.e_entry == spec_u64_from_le_bytes(b.subrange(24, 32))
    &&& h.e_phoff == spec_u64_from_le_bytes(b.subrange(32, 40))
    &&& h.e_shoff == spec_u64_from_le_bytes(b.subrange(40, 48))
    &&& h.e_flags == spec_u32_from_le_bytes(b.subrange(48, 52))
    &&& h.e_ehsize == spec_u16_from_le_bytes(b.subrange(52, 54))
    &&& h.e_phentsize == spec_u16_from_le_bytes(b.subrange(54, 56))
    &&& h.e_phnum == spec_u16_from_le_bytes(b.subrange(56, 58))
    &&& h.e_shentsize == spec_u16_from_le_bytes(b.subrange(58, 60))
    &&& h.e_shnum == spec_u16_from_le_bytes(b.subrange(60, 62))
    &&& h.e_shstrndx == spec_u16_from_le_bytes(b.subrange(62, 64))
}

/// The program header stored little-endian in the first 56 bytes of `b`.
pub open spec fn program_header_of(b: Seq<u8>) -> Elf64ProgramHeader {
    Elf64ProgramHeader {
        p_type: spec_u32_from_le_bytes(b.subrange(0, 4)),
        p_flags: spec_u32_from_le_bytes(b.subrange(4, 8)),
        p_offset: spec_u64_from_le_bytes(b.subrange(8, 16)),
        p_vaddr: spec_u64_from_le_bytes(b.subrange(16, 24)),
        p_paddr: spec_u64_from_le_bytes(b.subrange(24, 32)),
        p_filesz: spec_u64_from_le_bytes(b.subrange(32, 40)),
        p_memsz: spec_u64_from_le_bytes(b.subrange(40, 48)),
        p_align: spec_u64_from_le_bytes(b.subrange(48, 56)),
    }
}

impl Elf64Header {
    /// Reads the header from the first 64 bytes of `bytes` (little-endian).
    pub fn from_bytes(bytes: &[u8]) -> (header: Self)
        requires
            bytes@.len() >= 64,
        ensures
            header_read_from(header, bytes@),
    {
        let header = Self {
            e_ident: [
                bytes[0],
                bytes[1],
                bytes[2],
                bytes[3],
                bytes[4],
                bytes[5],
                bytes[6],
                bytes[7],
                bytes[8],
                bytes[9],
                bytes[10],
                bytes[11],
                bytes[12],
                bytes[13],
                bytes[14],
                bytes[15],
            ],
            e_type: u16_from_le_bytes(slice_subrange(bytes, 16, 18)),
            e_machine: u16_from_le_bytes(slice_subrange(bytes, 18, 20)),
            e_version: u32_from_le_bytes(slice_subrange(bytes, 20, 24)),
            e_entry: u64_from_le_bytes(slice_subrange(bytes, 24, 32)),
            e_phoff: u64_from_le_bytes(slice_subrange(bytes, 32, 40)),
            e_shoff: u64_from_le_bytes(slice_subrange(bytes, 40, 48)),
            e_flags: u32_from_le_bytes(slice_subrange(bytes, 48, 52)),
            e_ehsize: u16_from_le_bytes(slice_subrange(bytes, 52, 54)),
            e_phentsize: u16_from_le_bytes(slice_subrange(bytes, 54, 56)),
            e_phnum: u16_from_le_bytes(slice_subrange(bytes, 56, 58)),
            e_shentsize: u16_from_le_bytes(slice_subrange(bytes, 58, 60)),
            e_shnum: u16_from_le_bytes(slice_subrange(bytes, 60, 62)),
            e_shstrndx: u16_from_le_bytes(slice_subrange(bytes, 62, 64)),
        };
        assert(header.e_ident@ =~= bytes@.subrange(0, 16));
        header
    }
}

impl Elf64ProgramHeader {
    /// Reads a program header from the first 56 bytes of `bytes` (little-endian).
    pub fn from_bytes(bytes: &[u8]) -> (header: Self)
        requires
            bytes@.len() >= 56,
        ensures
            header == program_header_of(bytes@),
    {
        Self {
            p_type: u32_from_le_bytes(slice_subrange(bytes, 0, 4)),
            p_flags: u32_from_le_bytes(slice_subrange(bytes, 4, 8)),
            p_offset: u64_from_le_bytes(slice_subrange(bytes, 8, 16)),
            p_vaddr: u64_from_le_bytes(slice_subrange(bytes, 16, 24)),
            p_paddr: u64_from_le_bytes(slice_subrange(bytes, 24, 32)),
            p_filesz: u64_from_le_bytes(slice_subrange(bytes, 32, 40)),
            p_memsz: u64_from_le_bytes(slice_subrange(bytes, 40, 48)),
            p_align: u64_from_le_bytes(slice_subrange(bytes, 48, 56)),
        }
    }
}

pub(crate) fn push_bytes(out: &mut Vec<u8>, bytes: &[u8])
    ensures
        final(out)@ == old(out)@ + bytes@,
{
    let mut i: usize = 0;
    while i < bytes.len()
        invariant
            i <= bytes@.len(),
            out@ == old(out)@ + bytes@.subrange(0, i as int),
        decreases bytes@.len() - i,
    {
        out.push(bytes[i]);
        assert(bytes@.subrange(0, i + 1) =~= bytes@.subrange(0, i as int).push(bytes@[i as int]));
        i = i + 1;
    }
    assert(bytes@.subrange(0, i as int) =~= bytes@);
}

/// File offset of the RV64 code in the written executable.
pub const CODE_OFFSET: u64 = 0x1000;
/// Virtual address of the RV64 code (also the entry point).
pub const CODE_VADDR: u64 = 0x10000;
/// File offset of the data segment in the written executable.
pub const DATA_OFFSET: u64 = 0x2000;
/// Virtual address of the data segment.
pub const DATA_VADDR: u64 = 0x11000;

/// The identification bytes of the written executable: magic, 64-bit,
/// little-endian, version 1, the rest zero.
pub open spec fn output_ident() -> Seq<u8> {
    seq![0x7fu8, 0x45u8, 0x4cu8, 0x46u8, 2u8, 1u8, 1u8, 0u8, 0u8, 0u8, 0u8, 0u8, 0u8, 0u8, 0u8, 0u8]
}

/// The 64 header bytes of the written executable: an executable (type 2)
/// for RISC-V (machine 243), entry at `CODE_VADDR`, two program headers
/// of 56 bytes right after the header, no section headers.
pub open spec fn output_header_bytes() -> Seq<u8> {
    output_ident() + spec_u16_to_le_bytes(2) + spec_u16_to_le_bytes(243) + spec_u32_to_le_bytes(1)
        + spec_u64_to_le_bytes(CODE_VADDR) + spec_u64_to_le_bytes(64) + spec_u64_to_le_bytes(0)
        + spec_u32_to_le_bytes(0) + spec_u16_to_le_bytes(64) + spec_u16_to_le_bytes(56)
        + spec_u16_to_le_bytes(2) + spec_u16_to_le_bytes(0) + spec_u16_to_le_bytes(0)
        + spec_u16_to_le_bytes(0)
}

/// The little-endian bytes of a program header.
pub open spec fn program_header_bytes(p: Elf64ProgramHeader) -> Seq<u8> {
    spec_u32_to_le_bytes(p.p_type) + spec_u32_to_le_bytes(p.p_flags) + spec_u64_to_le_bytes(
        p.p_offset,
    ) + spec_u64_to_le_bytes(p.p_vaddr) + spec_u64_to_le_bytes(p.p_paddr) + spec_u64_to_le_bytes(
        p.p_filesz,
    ) + spec_u64_to_le_bytes(p.p_memsz) + spec_u64_to_le_bytes(p.p_align)
}

/// The loadable, readable and executable code segment of `code_size` bytes.
pub open spec fn code_segment(code_size: u64) -> Elf64ProgramHeader {
    Elf64ProgramHeader {
        p_type: 1,
        p_flags: 5,
        p_offset: CODE_OFFSET,
        p_vaddr: CODE_VADDR,
        p_paddr: CODE_VADDR,
        p_filesz: code_size,
        p_memsz: code_size,
        p_align: 0x1000,
    }
}

/// The loadable, read-only data segment of `data_size` bytes.
pub open spec fn data_segment(data_size: u64) -> Elf64ProgramHeader {
    Elf64ProgramHeader {
        p_type: 1,
        p_flags: 4,
        p_offset: DATA_OFFSET,
        p_vaddr: DATA_VADDR,
        p_paddr: DATA_VADDR,
        p_filesz: data_size,
        p_memsz: data_size,
        p_align: 0x1000,
    }
}

/// `s` cut or padded with zeros to length `n`.
pub open spec fn resized(s: Seq<u8>, n: nat) -> Seq<u8> {
    if n <= s.len() {
        s.subrange(0, n as int)
    } else {
        s + Seq::new((n - s.len()) as nat, |i: int| 0u8)
    }
}

/// The written executable: header and both program headers, padded with
/// zeros to `CODE_OFFSET`, the code, the whole cut or padded to
/// `DATA_OFFSET`, then the data.
pub open spec fn elf_image_bytes(code: Seq<u8>, data: Seq<u8>) -> Seq<u8> {
    let headers = output_header_bytes() + program_header_bytes(code_segment(code.len() as u64))
        + program_header_bytes(data_segment(data.len() as u64));
    resized(resized(headers, CODE_OFFSET as nat) + code, DATA_OFFSET as nat) + data
}

fn push_program_header(bytes: &mut Vec<u8>, p: &Elf64ProgramHeader)
    ensures
        final(bytes)@ == old(bytes)@ + program_header_bytes(*p),
{
    push_bytes(bytes, u32_to_le_bytes(p.p_type).as_slice());
    push_bytes(bytes, u32_to_le_bytes(p.p_flags).as_slice());
    push_bytes(bytes, u64_to_le_bytes(p.p_offset).as_slice());
    push_bytes(bytes, u64_to_le_bytes(p.p_vaddr).as_slice());
    push_bytes(bytes, u64_to_le_bytes(p.p_paddr).as_slice());
    push_bytes(bytes, u64_to_le_bytes(p.p_filesz).as_slice());
    push_bytes(bytes, u64_to_le_bytes(p.p_memsz).as_slice());
    push_bytes(bytes, u64_to_le_bytes(p.p_align).as_slice());
    assert(final(bytes)@ =~= old(bytes)@ + program_header_bytes(*p));
}

fn resize_zero(bytes: &mut Vec<u8>, len: usize)
    ensures
        final(bytes)@ == resized(old(bytes)@, len as nat),
{
    let ghost before = bytes@;
    bytes.resize(len, 0);
    proof {
        if len > before.len() {
            assert(bytes@ =~= resized(before, len as nat));
        }
    }
}

/// The bytes of the RV64 executable that holds `source_risc_bytes` as its
/// code segment and `source_risc_data` as its data segment.
pub fn elf_image(source_risc_bytes: &[u8], source_risc_data: &[u8]) -> (image: Vec<u8>)
    ensures
        image@ == elf_image_bytes(source_risc_bytes@, source_risc_data@),
{
    let code_size = source_risc_bytes.len() as u64;
    let data_size = source_risc_data.len() as u64;

    let code_segment = Elf64ProgramHeader {
        p_type: 1,
        p_flags: 5,
        p_offset: CODE_OFFSET,
        p_vaddr: CODE_VADDR,
        p_paddr: CODE_VADDR,
        p_filesz: code_size,
        p_memsz: code_size,
        p_align: 0x1000,
    };

    let data_segment = Elf64ProgramHeader {
        p_type: 1,
        p_flags: 4,
        p_offset: DATA_OFFSET,
        p_vaddr: DATA_VADDR,
        p_paddr: DATA_VADDR,
        p_filesz: data_size,
        p_memsz: data_size,
        p_align: 0x1000,
    };

    let mut bytes: Vec<u8> = Vec::new();
    let ident: [u8; 16] = [0x7f, 0x45, 0x4c, 0x46, 2, 1, 1, 0, 0, 0, 0, 0, 0, 0, 0, 0];
    assert(ident@ =~= output_ident());
    push_bytes(&mut bytes, &ident);
    push_bytes(&mut bytes, u16_to_le_bytes(2).as_slice());
    push_bytes(&mut bytes, u16_to_le_bytes(243).as_slice());
    push_bytes(&mut bytes, u32_to_le_bytes(1).as_slice());
    push_bytes(&mut bytes, u64_to_le_bytes(CODE_VADDR).as_slice());
    push_bytes(&mut bytes, u64_to_le_bytes(64).as_slice());
    push_bytes(&mut bytes, u64_to_le_bytes(0).as_slice());
    push_bytes(&mut bytes, u32_to_le_bytes(0).as_slice());
    push_bytes(&mut bytes, u16_to_le_bytes(64).as_slice());
    push_bytes(&mut bytes, u16_to_le_bytes(56).as_slice());
    push_bytes(&mut bytes, u16_to_le_bytes(2).as_slice());
    push_bytes(&mut bytes, u16_to_le_bytes(0).as_slice());
    push_bytes(&mut bytes, u16_to_le_bytes(0).as_slice());
    push_bytes(&mut bytes, u16_to_le_bytes(0).as_slice());
    assert(bytes@ =~= output_header_bytes());

    push_program_header(&mut bytes, &code_segment);
    push_program_header(&mut bytes, &data_segment);

    resize_zero(&mut bytes, CODE_OFFSET as usize);
    push_bytes(&mut bytes, source_risc_bytes);

    resize_zero(&mut bytes, DATA_OFFSET as usize);
    push_bytes(&mut bytes, source_risc_data);

    bytes
}

} // verus!

verus! {

proof fn lemma_le_bytes_lengths()
    ensures
        forall|x: u16|
            #![trigger spec_u16_to_le_bytes(x)]
            spec_u16_to_le_bytes(x).len() == 2 && spec_u16_from_le_bytes(spec_u16_to_le_bytes(x))
                == x,
        forall|x: u32|
            #![trigger spec_u32_to_le_bytes(x)]
            spec_u32_to_le_bytes(x).len() == 4 && spec_u32_from_le_bytes(spec_u32_to_le_bytes(x))
                == x,
        forall|x: u64|
            #![trigger spec_u64_to_le_bytes(x)]
            spec_u64_to_le_bytes(x).len() == 8 && spec_u64_from_le_bytes(spec_u64_to_le_bytes(x))
                == x,
{
    vstd::bytes::lemma_auto_spec_u16_to_from_le_bytes();
    vstd::bytes::lemma_auto_spec_u32_to_from_le_bytes();
    vstd::bytes::lemma_auto_spec_u64_to_from_le_bytes();
    assert forall|x: u16| #![trigger spec_u16_to_le_bytes(x)]
        spec_u16_to_le_bytes(x).len() == 2 && spec_u16_from_le_bytes(spec_u16_to_le_bytes(x))
            == x by {
        assert(spec_u16_to_le_bytes(x).len() == 2);
    }
    assert forall|x: u32| #![trigger spec_u32_to_le_bytes(x)]
        spec_u32_to_le_bytes(x).len() == 4 && spec_u32_from_le_bytes(spec_u32_to_le_bytes(x))
            == x by {
        assert(spec_u32_to_le_bytes(x).len() == 4);
    }
}

/// The first 176 bytes of the written executable are its file header and
/// its two program headers.
proof fn lemma_image_prefix(code: Seq<u8>, data: Seq<u8>)
    ensures
        elf_image_bytes(code, data).subrange(0, 176) == output_header_bytes()
            + program_header_bytes(code_segment(code.len() as u64)) + program_header_bytes(
            data_segment(data.len() as u64),
        ),
{
    lemma_le_bytes_lengths();
    let headers = output_header_bytes() + program_header_bytes(code_segment(code.len() as u64))
        + program_header_bytes(data_segment(data.len() as u64));
    assert(headers.len() == 176);
    let a = resized(headers, CODE_OFFSET as nat);
    assert(a.subrange(0, 176) =~= headers);
    let b = resized(a + code, DATA_OFFSET as nat);
    assert(b.subrange(0, 176) =~= headers);
    assert(elf_image_bytes(code, data).subrange(0, 176) =~= headers);
}

/// What the written executable says of itself reads back through the
/// header readers: its file header is the RISC-V executable header with
/// entry `CODE_VADDR` and two program headers at offset 64, and those two
/// program headers are the code and the data segment with the sizes of the
/// code and data that were written.
pub proof fn lemma_image_reads_back(code: Seq<u8>, data: Seq<u8>, h: Elf64Header)
    requires
        header_read_from(h, elf_image_bytes(code, data)),
    ensures
        h.e_ident@ == output_ident(),
        h.e_type == 2,
        h.e_machine == 243,
        h.e_version == 1,
        h.e_entry == CODE_VADDR,
        h.e_phoff == 64,
        h.e_shoff == 0,
        h.e_flags == 0,
        h.e_ehsize == 64,
        h.e_phentsize == 56,
        h.e_phnum == 2,
        h.e_shentsize == 0,
        h.e_shnum == 0,
        h.e_shstrndx == 0,
        program_header_of(elf_image_bytes(code, data).subrange(64, 120)) == code_segment(
            code.len() as u64,
        ),
        program_header_of(elf_image_bytes(code, data).subrange(120, 176)) == data_segment(
            data.len() as u64,
        ),
{
    lemma_le_bytes_lengths();
    lemma_image_prefix(code, data);
    let image = elf_image_bytes(code, data);
    let hb = output_header_bytes();
    let cb = program_header_bytes(code_segment(code.len() as u64));
    let db = program_header_bytes(data_segment(data.len() as u64));
    let pre = image.subrange(0, 176);
    assert(pre == hb + cb + db);
    assert forall|i: int, j: int| 0 <= i <= j <= 176 implies image.subrange(i, j) == #[trigger] pre.subrange(i, j) by {
        assert(image.subrange(i, j) =~= pre.subrange(i, j));
    }
    assert(pre.subrange(0, 16) =~= output_ident());
    assert(pre.subrange(16, 18) =~= spec_u16_to_le_bytes(2));
    assert(pre.subrange(18, 20) =~= spec_u16_to_le_bytes(243));
    assert(pre.subrange(20, 24) =~= spec_u32_to_le_bytes(1));
    assert(pre.subrange(24, 32) =~= spec_u64_to_le_bytes(CODE_VADDR));
    assert(pre.subrange(32, 40) =~= spec_u64_to_le_bytes(64));
    assert(pre.subrange(40, 48) =~= spec_u64_to_le_bytes(0));
    assert(pre.subrange(48, 52) =~= spec_u32_to_le_bytes(0));
    assert(pre.subrange(52, 54) =~= spec_u16_to_le_bytes(64));
    assert(pre.subrange(54, 56) =~= spec_u16_to_le_bytes(56));
    assert(pre.subrange(56, 58) =~= spec_u16_to_le_bytes(2));
    assert(pre.subrange(58, 60) =~= spec_u16_to_le_bytes(0));
    assert(pre.subrange(60, 62) =~= spec_u16_to_le_bytes(0));
    assert(pre.subrange(62, 64) =~= spec_u16_to_le_bytes(0));
    assert(pre.subrange(64, 120) =~= cb);
    assert(pre.subrange(120, 176) =~= db);
    lemma_program_header_reads_back(code_segment(code.len() as u64));
    lemma_program_header_reads_back(data_segment(data.len() as u64));
}

/// The written executable holds the code and the data where its program
/// headers say: for code of at most `DATA_OFFSET - CODE_OFFSET` bytes, the
/// code stands at `CODE_OFFSET` and the data at `DATA_OFFSET`, where the
/// file ends.
pub proof fn lemma_image_holds_code_and_data(code: Seq<u8>, data: Seq<u8>)
    requires
        code.len() <= DATA_OFFSET - CODE_OFFSET,
    ensures
        elf_image_bytes(code, data).len() == DATA_OFFSET + data.len(),
        elf_image_bytes(code, data).subrange(CODE_OFFSET as int, CODE_OFFSET + code.len())
            == code,
        elf_image_bytes(code, data).subrange(DATA_OFFSET as int, DATA_OFFSET + data.len())
            == data,
{
    lemma_le_bytes_lengths();
    let headers = output_header_bytes() + program_header_bytes(code_segment(code.len() as u64))
        + program_header_bytes(data_segment(data.len() as u64));
    assert(headers.len() == 176);
    let a = resized(headers, CODE_OFFSET as nat);
    assert(a.len() == CODE_OFFSET);
    let b = resized(a + code, DATA_OFFSET as nat);
    assert(b.len() == DATA_OFFSET);
    assert(b.subrange(CODE_OFFSET as int, CODE_OFFSET + code.len()) =~= code);
    let image = b + data;
    assert(image.subrange(CODE_OFFSET as int, CODE_OFFSET + code.len()) =~= code);
    assert(image.subrange(DATA_OFFSET as int, DATA_OFFSET + data.len()) =~= data);
}

/// A program header written as bytes reads back as itself.
pub proof fn lemma_program_header_reads_back(p: Elf64ProgramHeader)
    ensures
        program_header_of(program_header_bytes(p)) == p,
{
    lemma_le_bytes_lengths();
    let b = program_header_bytes(p);
    assert(b.subrange(0, 4) =~= spec_u32_to_le_bytes(p.p_type));
    assert(b.subrange(4, 8) =~= spec_u32_to_le_bytes(p.p_flags));
    assert(b.subrange(8, 16) =~= spec_u64_to_le_bytes(p.p_offset));
    assert(b.subrange(16, 24) =~= spec_u64_to_le_bytes(p.p_vaddr));
    assert(b.subrange(24, 32) =~= spec_u64_to_le_bytes(p.p_paddr));
    assert(b.subrange(32, 40) =~= spec_u64_to_le_bytes(p.p_filesz));
    assert(b.subrange(40, 48) =~= spec_u64_to_le_bytes(p.p_memsz));
    assert(b.subrange(48, 56) =~= spec_u64_to_le_bytes(p.p_align));
}

} // verus!

verus! {

/// Why an input file cannot be translated.
#[derive(Debug, Clone, Copy, PartialEq, Eq, Structural)]
pub enum ElfError {
    /// The file does not start with the ELF magic.
    NotElf,
    /// The file is not a 64-bit ELF file.
    NotElf64,
    /// The file is not little-endian.
    NotLittleEndian,
    /// A header or the code lies beyond the end of the file.
    Truncated,
    /// An offset or address computation exceeds 64 bits, or a code range ends before it starts.
    BadLayout,
}

/// The verdict on the identification bytes and the length of `b`: `None`
/// when the file header can be read.
pub open spec fn header_check(b: Seq<u8>) -> Option<ElfError> {
    if b.len() < 4 {
        Some(ElfError::Truncated)
    } else if b.subrange(0, 4) != seq![0x7fu8, 0x45u8, 0x4cu8, 0x46u8] {
        Some(ElfError::NotElf)
    } else if b.len() < 5 {
        Some(ElfError::Truncated)
    } else if b[4] != 2 {
        Some(ElfError::NotElf64)
    } else if b.len() < 6 {
        Some(ElfError::Truncated)
    } else if b[5] != 1 {
        Some(ElfError::NotLittleEndian)
    } else if b.len() < 64 {
        Some(ElfError::Truncated)
    } else {
        None
    }
}

/// Checks that `bytes` is a little-endian ELF64 file and reads its header.
pub fn parse_header(bytes: &[u8]) -> (res: Result<Elf64Header, ElfError>)
    ensures
        match res {
            Ok(h) => header_check(bytes@) is None && header_read_from(h, bytes@),
            Err(e) => header_check(bytes@) == Some(e),
        },
{
    if bytes.len() < 4 {
        return Err(ElfError::Truncated);
    }
    if bytes[0] != 0x7f || bytes[1] != 0x45 || bytes[2] != 0x4c || bytes[3] != 0x46 {
        assert(bytes@.subrange(0, 4) != seq![0x7fu8, 0x45u8, 0x4cu8, 0x46u8]) by {
            assert(bytes@.subrange(0, 4)[0] == bytes@[0]);
            assert(bytes@.subrange(0, 4)[1] == bytes@[1]);
            assert(bytes@.subrange(0, 4)[2] == bytes@[2]);
            assert(bytes@.subrange(0, 4)[3] == bytes@[3]);
        }
        return Err(ElfError::NotElf);
    }
    assert(bytes@.subrange(0, 4) =~= seq![0x7fu8, 0x45u8, 0x4cu8, 0x46u8]);
    if bytes.len() < 5 {
        return Err(ElfError::Truncated);
    }
    if bytes[4] != 2 {
        return Err(ElfError::NotElf64);
    }
    if bytes.len() < 6 {
        return Err(ElfError::Truncated);
    }
    if bytes[5] != 1 {
        return Err(ElfError::NotLittleEndian);
    }
    if bytes.len() < 64 {
        return Err(ElfError::Truncated);
    }
    Ok(Elf64Header::from_bytes(bytes))
}

/// Program header number `i` of the file `b` with header `h`, or why it
/// cannot be read: it starts at `e_phoff + i * e_phentsize` and spans
/// `e_phentsize` bytes, of which the first 56 are read.
pub open spec fn program_header_entry(b: Seq<u8>, h: Elf64Header, i: int) -> Result<
    Elf64ProgramHeader,
    ElfError,
> {
    let off = h.e_phoff + i * h.e_phentsize;
    let end = off + h.e_phentsize;
    if end > u64::MAX {
        Err(ElfError::BadLayout)
    } else if end > b.len() {
        Err(ElfError::Truncated)
    } else if h.e_phentsize < 56 {
        Err(ElfError::Truncated)
    } else {
        Ok(program_header_of(b.subrange(off, end)))
    }
}

/// The loadable segments (`p_type == 1`) among the first `n` program
/// headers, in file order, or the first reason a header cannot be read.
pub open spec fn loadable_segments(b: Seq<u8>, h: Elf64Header, n: nat) -> Result<
    Seq<Elf64ProgramHeader>,
    ElfError,
>
    decreases n,
{
    if n == 0 {
        Ok(Seq::empty())
    } else {
        match loadable_segments(b, h, (n - 1) as nat) {
            Err(e) => Err(e),
            Ok(s) => match program_header_entry(b, h, n - 1) {
                Err(e) => Err(e),
                Ok(p) => Ok(
                    if p.p_type == 1 {
                        s.push(p)
                    } else {
                        s
                    },
                ),
            },
        }
    }
}

proof fn lemma_segments_error_sticks(b: Seq<u8>, h: Elf64Header, i: nat, n: nat, e: ElfError)
    requires
        i <= n,
        loadable_segments(b, h, i) == Err::<Seq<Elf64ProgramHeader>, ElfError>(e),
    ensures
        loadable_segments(b, h, n) == Err::<Seq<Elf64ProgramHeader>, ElfError>(e),
    decreases n - i,
{
    if i < n {
        lemma_segments_error_sticks(b, h, i, (n - 1) as nat, e);
    }
}

/// Reads the program headers of the file and keeps the loadable segments.
pub fn load_segments(bytes: &[u8], header: &Elf64Header) -> (res: Result<
    Vec<Elf64ProgramHeader>,
    ElfError,
>)
    ensures
        match res {
            Ok(v) => loadable_segments(bytes@, *header, header.e_phnum as nat) == Ok::<
                Seq<Elf64ProgramHeader>,
                ElfError,
            >(v@),
            Err(e) => loadable_segments(bytes@, *header, header.e_phnum as nat) == Err::<
                Seq<Elf64ProgramHeader>,
                ElfError,
            >(e),
        },
{
    let mut segments: Vec<Elf64ProgramHeader> = Vec::new();
    let mut i: u16 = 0;
    while i < header.e_phnum
        invariant
            i <= header.e_phnum,
            loadable_segments(bytes@, *header, i as nat) == Ok::<
                Seq<Elf64ProgramHeader>,
                ElfError,
            >(segments@),
        decreases header.e_phnum - i,
    {
        let entsize = header.e_phentsize as u64;
        assert((i as u64) * entsize < 0x1_0000_0000) by (nonlinear_arith)
            requires
                i < 0x10000,
                entsize < 0x10000,
        ;
        let step = (i as u64) * entsize;
        if header.e_phoff > u64::MAX - step || header.e_phoff + step > u64::MAX - entsize {
            proof {
                lemma_segments_error_sticks(
                    bytes@,
                    *header,
                    (i + 1) as nat,
                    header.e_phnum as nat,
                    ElfError::BadLayout,
                );
            }
            return Err(ElfError::BadLayout);
        }
        let offset = header.e_phoff + step;
        let end = offset + entsize;
        if end > bytes.len() as u64 || header.e_phentsize < 56 {
            proof {
                lemma_segments_error_sticks(
                    bytes@,
                    *header,
                    (i + 1) as nat,
                    header.e_phnum as nat,
                    ElfError::Truncated,
                );
            }
            return Err(ElfError::Truncated);
        }
        let program_header = Elf64ProgramHeader::from_bytes(
            slice_subrange(bytes, offset as usize, end as usize),
        );
        if program_header.p_type == 1 {
            segments.push(program_header);
        }
        i = i + 1;
    }
    Ok(segments)
}

/// The file range of the code that starts at the entry point, when segment
/// `seg` holds the entry point; `None` when it does not; the error when the
/// range cannot be computed or lies beyond the end of the file.
pub open spec fn entry_range(entry: u64, seg: Elf64ProgramHeader, file_len: int) -> Result<
    Option<(int, int)>,
    ElfError,
> {
    if !(seg.p_vaddr <= entry) {
        Ok(None)
    } else if seg.p_vaddr + seg.p_memsz > u64::MAX {
        Err(ElfError::BadLayout)
    } else if entry >= seg.p_vaddr + seg.p_memsz {
        Ok(None)
    } else {
        let start = seg.p_offset + (entry - seg.p_vaddr);
        let end = seg.p_offset + seg.p_filesz;
        if start > u64::MAX || end > u64::MAX || start > end {
            Err(ElfError::BadLayout)
        } else if end > file_len {
            Err(ElfError::Truncated)
        } else {
            Ok(Some((start, end)))
        }
    }
}

/// Where, in a file of `file_len` bytes, the code reached from the entry
/// point starts and ends, if segment `seg` holds the entry point: from the
/// entry's file offset to the end of the segment's file image.
pub fn entry_code_range(entry: u64, seg: &Elf64ProgramHeader, file_len: usize) -> (res: Result<
    Option<(usize, usize)>,
    ElfError,
>)
    ensures
        match res {
            Ok(Some((s, e))) => entry_range(entry, *seg, file_len as int) == Ok::<
                Option<(int, int)>,
                ElfError,
            >(Some((s as int, e as int))),
            Ok(None) => entry_range(entry, *seg, file_len as int) == Ok::<
                Option<(int, int)>,
                ElfError,
            >(None),
            Err(err) => entry_range(entry, *seg, file_len as int) == Err::<
                Option<(int, int)>,
                ElfError,
            >(err),
        },
{
    if !(seg.p_vaddr <= entry) {
        return Ok(None);
    }
    if seg.p_vaddr > u64::MAX - seg.p_memsz {
        return Err(ElfError::BadLayout);
    }
    if entry >= seg.p_vaddr + seg.p_memsz {
        return Ok(None);
    }
    let delta = entry - seg.p_vaddr;
    if seg.p_offset > u64::MAX - delta || seg.p_offset > u64::MAX - seg.p_filesz {
        return Err(ElfError::BadLayout);
    }
    let start = seg.p_offset + delta;
    let end = seg.p_offset + seg.p_filesz;
    if start > end {
        return Err(ElfError::BadLayout);
    }
    if end > file_len as u64 {
        return Err(ElfError::Truncated);
    }
    Ok(Some((start as usize, end as usize)))
}

/// The entry point of the written executable lands on its code: for code
/// of 1 to `DATA_OFFSET - CODE_OFFSET` bytes, the code segment holds the
/// entry point, and the code reached from it is the whole code as written.
pub proof fn lemma_image_entry_reaches_code(code: Seq<u8>, data: Seq<u8>)
    requires
        0 < code.len() <= DATA_OFFSET - CODE_OFFSET,
    ensures
        entry_range(
            CODE_VADDR,
            code_segment(code.len() as u64),
            elf_image_bytes(code, data).len() as int,
        ) == Ok::<Option<(int, int)>, ElfError>(
            Some((CODE_OFFSET as int, CODE_OFFSET + code.len())),
        ),
{
    lemma_image_holds_code_and_data(code, data);
}

} // verus!

verus! {

/// The program headers of the file, entry by entry, for the first `n`
/// entries (an entry that cannot be read stands as an arbitrary header).
pub open spec fn program_headers(b: Seq<u8>, h: Elf64Header, n: nat) -> Seq<Elf64ProgramHeader> {
    Seq::new(n, |k: int| program_header_entry(b, h, k)->Ok_0)
}

/// The loadable segments are exactly the `PT_LOAD` program headers, in
/// file order: when the first `n` headers can be read, `loadable_segments`
/// is the sequence of those headers filtered to `p_type == 1`, so every
/// header it returns is `PT_LOAD` and every `PT_LOAD` header is returned.
pub proof fn lemma_loadable_segments_are_pt_load(b: Seq<u8>, h: Elf64Header, n: nat)
    ensures
        loadable_segments(b, h, n) matches Ok(v) ==> {
            &&& v == program_headers(b, h, n).filter(|p: Elf64ProgramHeader| p.p_type == 1)
            &&& forall|i: int| 0 <= i < v.len() ==> (#[trigger] v[i]).p_type == 1
            &&& forall|k: int|
                0 <= k < n && (#[trigger] program_headers(b, h, n)[k]).p_type == 1 ==> v.contains(
                    program_headers(b, h, n)[k],
                )
        },
    decreases n,
{
    let pred = |p: Elf64ProgramHeader| p.p_type == 1;
    if let Ok(v) = loadable_segments(b, h, n) {
        let hs = program_headers(b, h, n);
        if n == 0 {
            reveal(Seq::filter);
            assert(hs =~= Seq::<Elf64ProgramHeader>::empty());
        } else {
            lemma_loadable_segments_are_pt_load(b, h, (n - 1) as nat);
            let prev = program_headers(b, h, (n - 1) as nat);
            assert(hs.drop_last() =~= prev);
            assert(loadable_segments(b, h, (n - 1) as nat) is Ok);
            assert(program_header_entry(b, h, n - 1) is Ok);
            assert(hs.last() == program_header_entry(b, h, n - 1)->Ok_0);
            reveal(Seq::filter);
            assert(hs.filter(pred) == if pred(hs.last()) {
                hs.drop_last().filter(pred).push(hs.last())
            } else {
                hs.drop_last().filter(pred)
            });
        }
        hs.filter_lemma(pred);
        assert forall|k: int| 0 <= k < n && (#[trigger] hs[k]).p_type == 1 implies v.contains(
            hs[k],
        ) by {
            hs.lemma_filter_contains_rev(pred, hs[k]);
        }
    }
}

} // verus!
