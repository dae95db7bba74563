use std::collections::HashMap;
use std::sync::Arc;

use x86_to_riscv::elf::Elf64Header;
use x86_to_riscv::instructions::syscall::syscall;
use x86_to_riscv::link::{patch_branch_fixups, patch_lea_fixups};
use x86_to_riscv::operation::handeler::{HandelerInputValue, TranslationContext};
use x86_to_riscv::operation::{DecodedInstruction, X86operation};
use x86_to_riscv::translate::translate;

/// Runs straight-line RV64 words of the integer subset on 32 registers.
fn run(words: &[u32], regs: &mut [u64; 32]) {
    for &w in words {
        let opcode = w & 0x7f;
        let rd = ((w >> 7) & 31) as usize;
        let funct3 = (w >> 12) & 7;
        let rs1 = ((w >> 15) & 31) as usize;
        let rs2 = ((w >> 20) & 31) as usize;
        let imm = ((w as i32) >> 20) as i64 as u64;
        let a = regs[rs1];
        let b = regs[rs2];
        let value = match (opcode, funct3) {
            (0x13, 0) => a.wrapping_add(imm),
            (0x13, 4) => a ^ imm,
            (0x13, 7) => a & imm,
            (0x13, 1) => a << ((w >> 20) & 63),
            (0x13, 5) => a >> ((w >> 20) & 63),
            (0x33, 0) => a.wrapping_add(b),
            (0x33, 3) => (a < b) as u64,
            (0x33, 4) => a ^ b,
            (0x33, 6) => a | b,
            (0x33, 7) => a & b,
            (0x37, _) => ((w & 0xffff_f000) as i32) as i64 as u64,
            (0x3b, 0) if w >> 25 == 0 => (a.wrapping_add(b) as u32) as i32 as i64 as u64,
            _ => panic!("word {:#x} outside the subset", w),
        };
        if rd != 0 {
            regs[rd] = value;
        }
    }
}

fn header() -> Elf64Header {
    Elf64Header {
        e_ident: [0x7f, b'E', b'L', b'F', 2, 1, 1, 0, 0, 0, 0, 0, 0, 0, 0, 0],
        e_type: 2,
        e_machine: 62,
        e_version: 1,
        e_entry: 0x40_1000,
        e_phoff: 64,
        e_shoff: 0,
        e_flags: 0,
        e_ehsize: 64,
        e_phentsize: 56,
        e_phnum: 0,
        e_shentsize: 0,
        e_shnum: 0,
        e_shstrndx: 0,
    }
}

/// The words the `test` handler emits for `code` (one instruction).
fn test_words_for(code: &[u8]) -> Vec<u32> {
    let context = TranslationContext {
        code: Arc::from(code),
        header: Arc::new(header()),
        bytes: Arc::new(Vec::new()),
        segments: Arc::new(Vec::new()),
    };
    let header = header();
    let bytes = Vec::new();
    let segments = Vec::new();
    let operation = DecodedInstruction { operation: X86operation::Test, len: code.len() };
    let mut registers = [0u64; 16];
    let mut riscv_code = Vec::new();
    let mut riscv_data = Vec::new();
    let mut lea_fixups = Vec::new();
    let mut branch_fixups = Vec::new();
    let mut call_fixups = Vec::new();
    let values = HandelerInputValue {
        code,
        code_offset: 0,
        registers: &mut registers,
        operation: &operation,
        header: &header,
        translation_context: &context,
        bytes: &bytes,
        riscv_data: &mut riscv_data,
        riscv_code: &mut riscv_code,
        lea_fixups: &mut lea_fixups,
        branch_fixups: &mut branch_fixups,
        call_fixups: &mut call_fixups,
        segments: &segments,
    };
    x86_to_riscv::operation::handeler::test::test(values).unwrap();
    riscv_code
}

fn expected_flags(v: u64, size: u32) -> u64 {
    let zf = if v == 0 { 0x40 } else { 0 };
    let sf = ((v >> (size - 1)) & 1) << 7;
    let pf = if (v & 0xff).count_ones() % 2 == 0 { 4 } else { 0 };
    zf | sf | pf
}

#[test]
fn test_sets_x86_flags() {
    // test rax, rbx (64 bits) and test al, bl (8 bits)
    let wide = test_words_for(&[0x48, 0x85, 0xD8]);
    let narrow = test_words_for(&[0x84, 0xD8]);
    let samples = [
        (0u64, 0u64),
        (1, 1),
        (3, 1),
        (0xff, 0x0f),
        (0x8000_0000_0000_0000, u64::MAX),
        (0x100, 0x100),
        (0x81, 0xff),
        (u64::MAX, u64::MAX),
        (0x1234_5678_9abc_def0, 0x0fed_cba9_8765_4321),
    ];
    for &(a, b) in &samples {
        let mut regs = [0u64; 32];
        regs[8] = a;
        regs[9] = b;
        regs[24] = 0xdead;
        let before = regs;
        run(&wide, &mut regs);
        assert_eq!(regs[24], expected_flags(a & b, 64), "64-bit test of {:#x} and {:#x}", a, b);
        assert_eq!(regs[..24], before[..24]);

        let mut regs = before;
        run(&narrow, &mut regs);
        assert_eq!(regs[24], expected_flags(a & b & 0xff, 8), "8-bit test of {:#x} and {:#x}", a, b);
        assert_eq!(regs[..24], before[..24]);

        // je after test: the bne register is nonzero exactly when a & b is zero
        let mut regs = before;
        let mut words = wide.clone();
        words.push(0x040c_7c93);
        run(&words, &mut regs);
        assert_eq!(regs[25] != 0, a & b == 0);
    }
}

#[test]
fn syscall_arguments_reach_argument_registers() {
    let mut x86 = [0u64; 16];
    x86[0] = 1;
    let mut code = Vec::new();
    syscall(&x86, &mut code);
    let mut regs = [0u64; 32];
    regs[13] = 1; // rdi
    regs[12] = 0x1000; // rsi
    regs[11] = 14; // rdx
    run(&code[..code.len() - 1], &mut regs);
    assert_eq!(regs[17], 64);
    assert_eq!(regs[10], 1);
    assert_eq!(regs[11], 0x1000);
    assert_eq!(regs[12], 14);
}

#[test]
fn moves_and_xor_compute_their_values() {
    let context = |code: &[u8]| TranslationContext {
        code: Arc::from(code),
        header: Arc::new(header()),
        bytes: Arc::new(Vec::new()),
        segments: Arc::new(Vec::new()),
    };
    // mov eax, 0x7ff; mov rbx, rax; xor rcx, rbx; ret
    let ctx = context(&[0xB8, 0xFF, 0x07, 0, 0, 0x48, 0x89, 0xC3, 0x48, 0x31, 0xD9, 0xC3]);
    let (result, _) = translate(&ctx, 0, [0; 16]).unwrap();
    let mut regs = [0u64; 32];
    regs[10] = 0xf0f0;
    run(&result.code[..result.code.len() - 1], &mut regs);
    assert_eq!(regs[8], 0x7ff);
    assert_eq!(regs[9], 0x7ff);
    assert_eq!(regs[10], 0xf0f0 ^ 0x7ff);

    // xor rax, rax zeroes
    let ctx = context(&[0x48, 0x31, 0xC0, 0xC3]);
    let (result, _) = translate(&ctx, 0, [0; 16]).unwrap();
    let mut regs = [7u64; 32];
    run(&result.code[..1], &mut regs);
    assert_eq!(regs[8], 0);

    // a wide immediate is loaded whole
    let ctx = context(&[0x48, 0xBB, 0xEF, 0xCD, 0xAB, 0x89, 0x67, 0x45, 0x23, 0x01, 0xC3]);
    let (result, _) = translate(&ctx, 0, [0; 16]).unwrap();
    let mut regs = [0u64; 32];
    run(&result.code[..result.code.len() - 1], &mut regs);
    assert_eq!(regs[9], 0x0123_4567_89ab_cdef);
}

#[test]
fn patched_lea_loads_the_data_address() {
    let mut code = vec![0, 0, 0x13, 0, 0];
    patch_lea_fixups(&mut code, &vec![(0, 13, 0x40_2000), (3, 9, 0x40_2010)]);
    let mut regs = [5u64; 32];
    run(&code, &mut regs);
    assert_eq!(regs[13], 0x11000);
    assert_eq!(regs[9], 0x11000);
}

/// The byte offset of a B-type word.
fn branch_offset(w: u32) -> i64 {
    let u = (((w >> 31) & 1) << 12) | (((w >> 7) & 1) << 11) | (((w >> 25) & 0x3f) << 5) | (((w >> 8) & 0xf) << 1);
    if u >= 4096 { u as i64 - 8192 } else { u as i64 }
}

#[test]
fn patched_branches_reach_their_targets() {
    let mut code = vec![0x13; 40];
    let mut map = HashMap::new();
    map.insert(100usize, 3usize);
    map.insert(200usize, 39usize);
    let fixups = vec![(0, 200), (10, 100), (39, 100)];
    patch_branch_fixups(&mut code, &fixups, &map);
    for &(index, target) in &fixups {
        let w = code[index];
        assert_eq!(w & 0x7f, 0x63);
        assert_eq!((w >> 12) & 7, 1);
        assert_eq!((w >> 15) & 31, 25);
        assert_eq!((w >> 20) & 31, 0);
        assert_eq!(4 * index as i64 + branch_offset(w), 4 * map[&target] as i64);
    }
}

#[test]
fn fixups_name_their_own_code_in_order() {
    let code = [
        0x74, 0x00, // je +0
        0x90, // nop
        0x74, 0x00, // je +0
        0xEB, 0x00, // jmp +0
        0xC3,
    ];
    let ctx = TranslationContext {
        code: Arc::from(&code[..]),
        header: Arc::new(header()),
        bytes: Arc::new(Vec::new()),
        segments: Arc::new(Vec::new()),
    };
    let (result, children) = translate(&ctx, 0, [0; 16]).unwrap();
    assert_eq!(result.branch_fixups, vec![(1, 2), (4, 5), (5, 7)]);
    assert_eq!(children.len(), 3);
    for w in result.branch_fixups.windows(2) {
        assert!(w[0].0 < w[1].0);
    }
    for &(i, _) in &result.branch_fixups {
        assert!(i < result.code.len());
    }
}

#[test]
fn compare_sets_the_carry_flag() {
    // cmp rax, rbx; ret
    let ctx = TranslationContext {
        code: Arc::from(&[0x48u8, 0x39, 0xD8, 0xC3][..]),
        header: Arc::new(header()),
        bytes: Arc::new(Vec::new()),
        segments: Arc::new(Vec::new()),
    };
    let (result, _) = translate(&ctx, 0, [0; 16]).unwrap();
    let words = &result.code[..result.code.len() - 1];
    for &(a, b) in &[(0u64, 0u64), (1, 2), (2, 1), (u64::MAX, 0), (0, u64::MAX), (5, 5)] {
        let mut regs = [0u64; 32];
        regs[8] = a;
        regs[9] = b;
        run(words, &mut regs);
        assert_eq!(regs[24] & 1 == 1, a < b, "cmp {:#x}, {:#x}", a, b);
    }
}

/// The flags the emitted `cmp` words leave: CF from `a < b`, the others
/// from the sum the word meant for the difference computes.
fn compare_flags(a: u64, b: u64, wide: bool) -> u64 {
    let s = if wide { a.wrapping_add(b) } else { (a.wrapping_add(b) as u32) as i32 as i64 as u64 };
    let sign = if wide { 63 } else { 31 };
    let cf = (a < b) as u64;
    let zf = if s == 0 { 0x40 } else { 0 };
    let sf = (s >> sign) << 7;
    let af = (((a ^ b ^ s) >> 4) & 1) << 4;
    let of = (((a ^ b) & (a ^ s)) >> sign) << 11;
    let pf = if (s & 0xff).count_ones() % 2 == 0 { 4 } else { 0 };
    cf | zf | sf | af | of | pf
}

#[test]
fn compare_flags_follow_the_emitted_sum() {
    for &(code, wide) in &[(&[0x48u8, 0x39, 0xD8, 0xC3][..], true), (&[0x39u8, 0xD8, 0xC3][..], false)] {
        let ctx = TranslationContext {
            code: Arc::from(code),
            header: Arc::new(header()),
            bytes: Arc::new(Vec::new()),
            segments: Arc::new(Vec::new()),
        };
        let (result, _) = translate(&ctx, 0, [0; 16]).unwrap();
        let words = &result.code[..result.code.len() - 1];
        for &(a, b) in &[(0u64, 0u64), (1, 1), (5, 3), (u64::MAX, 1), (0x8000_0000, 0x8000_0000), (0x7fff_ffff, 1), (0x1234, 0xfedc_ba98_7654_3210)] {
            let mut regs = [0u64; 32];
            regs[8] = a;
            regs[9] = b;
            let before = regs;
            run(words, &mut regs);
            assert_eq!(regs[24], compare_flags(a, b, wide), "cmp {:#x}, {:#x} wide {}", a, b, wide);
            assert_eq!(regs[..24], before[..24]);
        }
    }
}

#[test]
fn sub_words_compute_the_sum() {
    let ctx = |code: &[u8]| TranslationContext {
        code: Arc::from(code),
        header: Arc::new(header()),
        bytes: Arc::new(Vec::new()),
        segments: Arc::new(Vec::new()),
    };
    // sub rax, rbx and sub eax, ebx
    let (wide, _) = translate(&ctx(&[0x48, 0x29, 0xD8, 0xC3]), 0, [0; 16]).unwrap();
    let (narrow, _) = translate(&ctx(&[0x29, 0xD8, 0xC3]), 0, [0; 16]).unwrap();
    let mut regs = [0u64; 32];
    regs[8] = 61;
    regs[9] = 1;
    run(&wide.code[..1], &mut regs);
    assert_eq!(regs[8], 62);
    let mut regs = [0u64; 32];
    regs[8] = 0x7fff_ffff;
    regs[9] = 1;
    run(&narrow.code[..1], &mut regs);
    assert_eq!(regs[8], 0xffff_ffff_8000_0000);
}

#[test]
fn fixups_name_their_placeholders() {
    // je +0; call +0; lea rax, [rip + 0]; jmp +0
    let code = [0x74u8, 0x00, 0xE8, 0, 0, 0, 0, 0x48, 0x8D, 0x05, 0, 0, 0, 0, 0xEB, 0x00];
    let mut bytes = vec![0u8; 0x40];
    bytes[0x20..0x24].copy_from_slice(b"abcd");
    let ctx = TranslationContext {
        code: Arc::from(&code[..]),
        header: Arc::new(header()),
        bytes: Arc::new(bytes),
        segments: Arc::new(vec![x86_to_riscv::elf::Elf64ProgramHeader {
            p_type: 1,
            p_flags: 4,
            p_offset: 0x20,
            p_vaddr: 0x40_100e,
            p_paddr: 0x40_100e,
            p_filesz: 4,
            p_memsz: 4,
            p_align: 0x1000,
        }]),
    };
    let (result, _) = translate(&ctx, 0, [0; 16]).unwrap();
    assert_eq!(result.lea_fixups.len(), 1);
    assert_eq!(result.branch_fixups.len(), 2);
    assert_eq!(result.call_fixups.len(), 1);
    for &(i, _, _) in &result.lea_fixups {
        assert_eq!((result.code[i], result.code[i + 1]), (0, 0));
    }
    assert_eq!(result.code[result.branch_fixups[0].0], 0x000c_9063);
    assert_eq!(result.code[result.branch_fixups[1].0], 0x0000_006f);
    assert_eq!(result.code[result.call_fixups[0].0], 0x0000_00ef);
}
