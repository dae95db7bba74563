use x86_to_riscv::elf::{
    elf_image, entry_code_range, load_segments, parse_header, Elf64Header, Elf64ProgramHeader,
    ElfError, CODE_OFFSET, CODE_VADDR, DATA_OFFSET, DATA_VADDR,
};

fn minimal_header_bytes() -> Vec<u8> {
    let mut b = vec![0u8; 64];
    b[0..4].copy_from_slice(b"\x7fELF");
    b[4] = 2;
    b[5] = 1;
    b[6] = 1;
    b
}

#[test]
fn header_fields_are_little_endian() {
    let mut b = minimal_header_bytes();
    b[16..18].copy_from_slice(&2u16.to_le_bytes());
    b[18..20].copy_from_slice(&62u16.to_le_bytes());
    b[24..32].copy_from_slice(&0x40_1000u64.to_le_bytes());
    b[32..40].copy_from_slice(&64u64.to_le_bytes());
    b[54..56].copy_from_slice(&56u16.to_le_bytes());
    b[56..58].copy_from_slice(&3u16.to_le_bytes());
    let h = Elf64Header::from_bytes(&b);
    assert_eq!(h.e_ident[0..4], *b"\x7fELF");
    assert_eq!(h.e_type, 2);
    assert_eq!(h.e_machine, 62);
    assert_eq!(h.e_entry, 0x40_1000);
    assert_eq!(h.e_phoff, 64);
    assert_eq!(h.e_phentsize, 56);
    assert_eq!(h.e_phnum, 3);
    assert_eq!(h.e_shnum, 0);
}

#[test]
fn program_header_fields_are_little_endian() {
    let mut b = Vec::new();
    b.extend_from_slice(&1u32.to_le_bytes());
    b.extend_from_slice(&5u32.to_le_bytes());
    b.extend_from_slice(&0x1000u64.to_le_bytes());
    b.extend_from_slice(&0x40_1000u64.to_le_bytes());
    b.extend_from_slice(&0x40_1000u64.to_le_bytes());
    b.extend_from_slice(&0x20u64.to_le_bytes());
    b.extend_from_slice(&0x30u64.to_le_bytes());
    b.extend_from_slice(&0x1000u64.to_le_bytes());
    let p = Elf64ProgramHeader::from_bytes(&b);
    assert_eq!(
        p,
        Elf64ProgramHeader {
            p_type: 1,
            p_flags: 5,
            p_offset: 0x1000,
            p_vaddr: 0x40_1000,
            p_paddr: 0x40_1000,
            p_filesz: 0x20,
            p_memsz: 0x30,
            p_align: 0x1000,
        }
    );
}

#[test]
fn header_checks() {
    assert_eq!(parse_header(b"\x7fEL").unwrap_err(), ElfError::Truncated);
    assert_eq!(parse_header(b"MZ\x90\x00\x03").unwrap_err(), ElfError::NotElf);
    let mut b = minimal_header_bytes();
    b[4] = 1;
    assert_eq!(parse_header(&b).unwrap_err(), ElfError::NotElf64);
    let mut b = minimal_header_bytes();
    b[5] = 2;
    assert_eq!(parse_header(&b).unwrap_err(), ElfError::NotLittleEndian);
    let b = minimal_header_bytes();
    assert_eq!(parse_header(&b[0..63]).unwrap_err(), ElfError::Truncated);
    assert_eq!(parse_header(&b[0..5]).unwrap_err(), ElfError::Truncated);
    assert!(parse_header(&b).is_ok());
}

fn image_with(code: &[u8], data: &[u8]) -> Vec<u8> {
    elf_image(code, data)
}

#[test]
fn image_layout() {
    let code = [0x13, 0, 0, 0, 0x73, 0, 0, 0];
    let data = b"hi\n";
    let image = image_with(&code, data);
    assert_eq!(image.len(), DATA_OFFSET as usize + 3);
    assert_eq!(&image[0..4], b"\x7fELF");
    assert_eq!(image[4], 2);
    assert_eq!(image[5], 1);
    assert_eq!(u16::from_le_bytes([image[18], image[19]]), 243);
    assert_eq!(&image[CODE_OFFSET as usize..CODE_OFFSET as usize + 8], &code);
    assert!(image[CODE_OFFSET as usize + 8..DATA_OFFSET as usize].iter().all(|&b| b == 0));
    assert!(image[176..CODE_OFFSET as usize].iter().all(|&b| b == 0));
    assert_eq!(&image[DATA_OFFSET as usize..], data);
}

#[test]
fn image_reads_back() {
    let code = [0x13, 0, 0, 0, 0x73, 0, 0, 0];
    let data = b"hi\n";
    let image = image_with(&code, data);
    let header = parse_header(&image).unwrap();
    assert_eq!(header.e_type, 2);
    assert_eq!(header.e_machine, 243);
    assert_eq!(header.e_entry, CODE_VADDR);
    assert_eq!(header.e_phoff, 64);
    assert_eq!(header.e_phnum, 2);
    let segments = load_segments(&image, &header).unwrap();
    assert_eq!(segments.len(), 2);
    assert_eq!(segments[0].p_vaddr, CODE_VADDR);
    assert_eq!(segments[0].p_offset, CODE_OFFSET);
    assert_eq!(segments[0].p_filesz, 8);
    assert_eq!(segments[0].p_flags, 5);
    assert_eq!(segments[1].p_vaddr, DATA_VADDR);
    assert_eq!(segments[1].p_offset, DATA_OFFSET);
    assert_eq!(segments[1].p_filesz, 3);
    assert_eq!(segments[1].p_flags, 4);
    assert_eq!(
        entry_code_range(header.e_entry, &segments[0], image.len()),
        Ok(Some((CODE_OFFSET as usize, CODE_OFFSET as usize + 8)))
    );
    assert_eq!(entry_code_range(header.e_entry, &segments[1], image.len()), Ok(None));
}

#[test]
fn oversized_code_is_cut_at_the_data_offset() {
    let code = vec![0xAAu8; 0x1800];
    let image = image_with(&code, b"");
    assert_eq!(image.len(), DATA_OFFSET as usize);
    assert!(image[CODE_OFFSET as usize..].iter().all(|&b| b == 0xAA));
}

#[test]
fn segment_table_errors() {
    let mut b = minimal_header_bytes();
    b[32..40].copy_from_slice(&64u64.to_le_bytes());
    b[54..56].copy_from_slice(&56u16.to_le_bytes());
    b[56..58].copy_from_slice(&1u16.to_le_bytes());
    let header = parse_header(&b).unwrap();
    // the program header table lies beyond the end of the file
    assert_eq!(load_segments(&b, &header).unwrap_err(), ElfError::Truncated);
    // a table entry shorter than a program header
    let mut short = b.clone();
    short[54..56].copy_from_slice(&8u16.to_le_bytes());
    short.extend_from_slice(&[0u8; 8]);
    let header = parse_header(&short).unwrap();
    assert_eq!(load_segments(&short, &header).unwrap_err(), ElfError::Truncated);
    // a table offset beyond 2^64
    let mut far = b.clone();
    far[32..40].copy_from_slice(&u64::MAX.to_le_bytes());
    let header = parse_header(&far).unwrap();
    assert_eq!(load_segments(&far, &header).unwrap_err(), ElfError::BadLayout);
    // a table entry that is not loadable is skipped
    let mut one = b.clone();
    one.extend_from_slice(&[0u8; 56]);
    one[64..68].copy_from_slice(&2u32.to_le_bytes());
    let header = parse_header(&one).unwrap();
    assert_eq!(load_segments(&one, &header).unwrap().len(), 0);
}

#[test]
fn entry_range_errors() {
    let seg = Elf64ProgramHeader {
        p_type: 1,
        p_flags: 5,
        p_offset: 0x1000,
        p_vaddr: 0x40_1000,
        p_paddr: 0x40_1000,
        p_filesz: 0x100,
        p_memsz: 0x100,
        p_align: 0x1000,
    };
    assert_eq!(entry_code_range(0x40_1010, &seg, 0x1100), Ok(Some((0x1010, 0x1100))));
    assert_eq!(entry_code_range(0x40_0fff, &seg, 0x1100), Ok(None));
    assert_eq!(entry_code_range(0x40_1100, &seg, 0x1100), Ok(None));
    assert_eq!(entry_code_range(0x40_1010, &seg, 0x10ff), Err(ElfError::Truncated));
    let wrapping = Elf64ProgramHeader { p_vaddr: u64::MAX - 1, p_memsz: 0x10, ..seg };
    assert_eq!(entry_code_range(u64::MAX, &wrapping, 0x1100), Err(ElfError::BadLayout));
    let inverted = Elf64ProgramHeader { p_filesz: 0x8, ..seg };
    assert_eq!(entry_code_range(0x40_1010, &inverted, 0x1100), Err(ElfError::BadLayout));
}
