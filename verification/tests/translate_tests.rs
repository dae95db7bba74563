use std::sync::Arc;

use x86_to_riscv::elf::{Elf64Header, Elf64ProgramHeader};
use x86_to_riscv::operation::handeler::{TranslateError, TranslationContext};
use x86_to_riscv::translate::translate;

fn header_with_entry(entry: u64) -> Elf64Header {
    Elf64Header {
        e_ident: [0x7f, b'E', b'L', b'F', 2, 1, 1, 0, 0, 0, 0, 0, 0, 0, 0, 0],
        e_type: 2,
        e_machine: 62,
        e_version: 1,
        e_entry: entry,
        e_phoff: 64,
        e_shoff: 0,
        e_flags: 0,
        e_ehsize: 64,
        e_phentsize: 56,
        e_phnum: 1,
        e_shentsize: 0,
        e_shnum: 0,
        e_shstrndx: 0,
    }
}

fn context(code: &[u8]) -> TranslationContext {
    TranslationContext {
        code: Arc::from(code),
        header: Arc::new(header_with_entry(0x40_1000)),
        bytes: Arc::new(Vec::new()),
        segments: Arc::new(Vec::new()),
    }
}

const EXIT_WORDS: [u32; 3] = [0x0006_8513, 0x05d0_0893, 0x0000_0073];
const WRITE_WORDS: [u32; 7] =
    [0x0006_8293, 0x0006_0313, 0x0005_8613, 0x0003_0593, 0x0002_8513, 0x0400_0893, 0x0000_0073];

#[test]
fn exit_program() {
    // mov eax, 60; mov edi, 0; syscall
    let ctx = context(&[0xB8, 0x3C, 0, 0, 0, 0xBF, 0, 0, 0, 0, 0x0F, 0x05]);
    let (result, children) = translate(&ctx, 0, [0; 16]).unwrap();
    let mut expected = vec![0x03c0_0413, 0x0000_0693];
    expected.extend_from_slice(&EXIT_WORDS);
    assert_eq!(result.code, expected);
    assert!(result.data.is_empty());
    assert!(result.lea_fixups.is_empty());
    assert!(result.branch_fixups.is_empty());
    assert!(result.call_fixups.is_empty());
    assert_eq!(result.code_address, 0);
    assert!(result.children.is_empty());
    assert!(children.is_empty());
}

#[test]
fn write_then_stop_at_the_syscall() {
    // mov eax, 1; xor rbx, rbx; syscall; ret (never reached: the syscall ends the run)
    let ctx = context(&[0xB8, 1, 0, 0, 0, 0x48, 0x31, 0xDB, 0x0F, 0x05, 0xC3]);
    let (result, _) = translate(&ctx, 0, [0; 16]).unwrap();
    let mut expected = vec![0x0010_0413, 0x0094_c4b3];
    expected.extend_from_slice(&WRITE_WORDS);
    assert_eq!(result.code, expected);
}

#[test]
fn register_values_are_tracked() {
    // mov rax, rbx; syscall with rbx known to be 60: an exit
    let ctx = context(&[0x48, 0x89, 0xD8, 0x0F, 0x05]);
    let mut registers = [0u64; 16];
    registers[1] = 60;
    let (result, _) = translate(&ctx, 0, registers).unwrap();
    let mut expected = vec![0x0004_8413];
    expected.extend_from_slice(&EXIT_WORDS);
    assert_eq!(result.code, expected);

    // sub rax, rbx with rax = 61 and rbx = 1 leaves 60: an exit
    let ctx = context(&[0x48, 0x29, 0xD8, 0x0F, 0x05]);
    let mut registers = [0u64; 16];
    registers[0] = 61;
    registers[1] = 1;
    let (result, _) = translate(&ctx, 0, registers).unwrap();
    let mut expected = vec![0x0094_0433];
    expected.extend_from_slice(&EXIT_WORDS);
    assert_eq!(result.code, expected);
}

#[test]
fn xor_clears_the_tracked_value() {
    // xor rax, rax then syscall: rax is 0, which is no known system call
    let ctx = context(&[0x48, 0x31, 0xC0, 0x0F, 0x05]);
    let mut registers = [0u64; 16];
    registers[0] = 60;
    assert_eq!(translate(&ctx, 0, registers).unwrap_err(), TranslateError::Unsupported);
}

#[test]
fn wide_immediate() {
    let ctx = context(&[0x48, 0xB8, 0x88, 0x77, 0x66, 0x55, 0x44, 0x33, 0x22, 0x11, 0xC3]);
    let (result, _) = translate(&ctx, 0, [0; 16]).unwrap();
    assert_eq!(
        result.code,
        vec![
            0x0010_0413, 0x00c4_1413, 0x1224_0413, 0x00c4_1413, 0x3344_0413, 0x00c4_1413,
            0x4554_0413, 0x00c4_1413, 0x6674_0413, 0x00c4_1413, 0x7884_0413, 0x0000_8067,
        ]
    );
}

#[test]
fn jump_ends_the_run_and_asks_for_its_target() {
    // nop; jmp +0 (to offset 3); ret
    let ctx = context(&[0x90, 0xEB, 0x00, 0xC3]);
    let mut registers = [0u64; 16];
    registers[5] = 7;
    let (result, children) = translate(&ctx, 0, registers).unwrap();
    assert_eq!(result.code, vec![0x0000_0013, 0x0000_006f]);
    assert_eq!(result.branch_fixups, vec![(1, 3)]);
    assert_eq!(children.len(), 1);
    assert_eq!(children[0].code_offset, 3);
    assert_eq!(children[0].registers, registers);

    let (target, more) = translate(&ctx, 3, children[0].registers).unwrap();
    assert_eq!(target.code, vec![0x0000_8067]);
    assert_eq!(target.code_address, 3);
    assert!(more.is_empty());
}

#[test]
fn conditional_jump_goes_on() {
    // je +0 (to offset 2); ret
    let ctx = context(&[0x74, 0x00, 0xC3]);
    let (result, children) = translate(&ctx, 0, [0; 16]).unwrap();
    assert_eq!(result.code, vec![0x040c_7c93, 0x000c_9063, 0x0000_8067]);
    assert_eq!(result.branch_fixups, vec![(1, 2)]);
    assert_eq!(children.len(), 1);
    assert_eq!(children[0].code_offset, 2);

    // a target outside the code asks for nothing
    let ctx = context(&[0x74, 0x10, 0xC3]);
    let (result, children) = translate(&ctx, 0, [0; 16]).unwrap();
    assert_eq!(result.code, vec![0x040c_7c93, 0x000c_9063, 0x0000_8067]);
    assert!(result.branch_fixups.is_empty());
    assert!(children.is_empty());
}

#[test]
fn call_records_a_fixup_and_goes_on() {
    // call +1 (to offset 6); ret; ret
    let ctx = context(&[0xE8, 0x01, 0, 0, 0, 0xC3, 0xC3]);
    let (result, children) = translate(&ctx, 0, [0; 16]).unwrap();
    assert_eq!(result.code, vec![0x0000_00ef, 0x0000_8067]);
    assert_eq!(result.call_fixups, vec![(0, 6)]);
    assert_eq!(children.len(), 1);
    assert_eq!(children[0].code_offset, 6);
}

#[test]
fn compare_sets_the_flags_register() {
    // cmp rax, rbx; ret
    let ctx = context(&[0x48, 0x39, 0xD8, 0xC3]);
    let (result, _) = translate(&ctx, 0, [0; 16]).unwrap();
    let expected: Vec<u32> = vec![
        0x018c4c33, 0x00943cb3, 0x019c6c33, 0x00940d33, 0x01a03cb3, 0x001ccc93, 0x006c9c93,
        0x019c6c33, 0x03fd5c93, 0x007c9c93, 0x019c6c33, 0x00944cb3, 0x01acccb3, 0x004cdc93,
        0x001cfc93, 0x004c9c93, 0x019c6c33, 0x00944cb3, 0x01a44db3, 0x01bcfcb3, 0x03fcdc93,
        0x00bc9c93, 0x019c6c33, 0x0ffd7c93, 0x004cdd93, 0x01bcccb3, 0x002cdd93, 0x01bcccb3,
        0x001cdd93, 0x01bcccb3, 0x001cfc93, 0x001ccc93, 0x002c9c93, 0x019c6c33, 0x0000_8067,
    ];
    assert_eq!(result.code, expected);
}

#[test]
fn endbr64_pop_and_nop() {
    // endbr64; pop rbx; nop; ret
    let ctx = context(&[0xF3, 0x0F, 0x1E, 0xFA, 0x5B, 0x90, 0xC3]);
    let (result, _) = translate(&ctx, 0, [0; 16]).unwrap();
    assert_eq!(result.code, vec![0x0001_3483, 0x0081_0113, 0x0000_0013, 0x0000_8067]);
}

#[test]
fn lea_copies_data_and_records_a_fixup() {
    let mut bytes = vec![0u8; 0x2004];
    bytes[0x2000..].copy_from_slice(b"abc\n");
    let ctx = TranslationContext {
        // lea rdi, [rip + 0xff9]; ret
        code: Arc::from(&[0x48u8, 0x8D, 0x3D, 0xF9, 0x0F, 0x00, 0x00, 0xC3][..]),
        header: Arc::new(header_with_entry(0x40_1000)),
        bytes: Arc::new(bytes),
        segments: Arc::new(vec![Elf64ProgramHeader {
            p_type: 1,
            p_flags: 4,
            p_offset: 0x2000,
            p_vaddr: 0x40_2000,
            p_paddr: 0x40_2000,
            p_filesz: 4,
            p_memsz: 4,
            p_align: 0x1000,
        }]),
    };
    let (result, _) = translate(&ctx, 0, [0; 16]).unwrap();
    assert_eq!(result.code, vec![0, 0, 0x0000_8067]);
    assert_eq!(result.data, b"abc\n".to_vec());
    assert_eq!(result.lea_fixups, vec![(0, 13, 0x40_2000)]);
}

#[test]
fn translation_errors() {
    // push has no handler
    assert_eq!(translate(&context(&[0x50]), 0, [0; 16]).unwrap_err(), TranslateError::Unsupported);
    // int3 is not decoded
    assert_eq!(translate(&context(&[0xCC]), 0, [0; 16]).unwrap_err(), TranslateError::Unsupported);
    // mov eax, imm32 cut off by the end of the code
    assert_eq!(translate(&context(&[0xB8, 1, 0]), 0, [0; 16]).unwrap_err(), TranslateError::Truncated);
    // lea whose address lies in no segment
    assert_eq!(
        translate(&context(&[0x48, 0x8D, 0x05, 0, 0, 0, 0]), 0, [0; 16]).unwrap_err(),
        TranslateError::UnmappedAddress
    );
    // lea whose next instruction address exceeds 2^64
    let ctx = TranslationContext {
        code: Arc::from(&[0x48u8, 0x8D, 0x05, 0, 0, 0, 0][..]),
        header: Arc::new(header_with_entry(u64::MAX - 3)),
        bytes: Arc::new(Vec::new()),
        segments: Arc::new(Vec::new()),
    };
    assert_eq!(translate(&ctx, 0, [0; 16]).unwrap_err(), TranslateError::AddressOverflow);
}

#[test]
fn translation_from_the_end_is_empty() {
    let ctx = context(&[0x90]);
    let (result, children) = translate(&ctx, 1, [0; 16]).unwrap();
    assert!(result.code.is_empty());
    assert_eq!(result.code_address, 1);
    assert!(children.is_empty());
}
