use std::collections::HashMap;
use std::sync::Arc;

use x86_to_riscv::elf::Elf64Header;
use x86_to_riscv::link::{
    branch_fixups_fit, code_bytes, fitted_end, flatten_translation, lea_fixups_fit,
    patch_branch_fixups, patch_lea_fixups,
};
use x86_to_riscv::operation::handeler::TranslationContext;
use x86_to_riscv::translate::{translate, TranslationResult};

fn leaf(code: Vec<u32>, code_address: usize) -> TranslationResult {
    TranslationResult {
        code,
        data: Vec::new(),
        lea_fixups: Vec::new(),
        branch_fixups: Vec::new(),
        call_fixups: Vec::new(),
        code_address,
        children: Vec::new(),
    }
}

struct Linked {
    code: Vec<u32>,
    data: Vec<u8>,
    lea: Vec<(usize, u8, u64)>,
    jcc: Vec<(usize, usize)>,
    map: HashMap<usize, usize>,
}

fn flatten(result: TranslationResult) -> Linked {
    let mut out = Linked { code: Vec::new(), data: Vec::new(), lea: Vec::new(), jcc: Vec::new(), map: HashMap::new() };
    flatten_translation(result, &mut out.code, &mut out.data, &mut out.lea, &mut out.jcc, &mut out.map);
    out
}

#[test]
fn runs_are_laid_out_before_their_children() {
    let mut root = leaf(vec![1, 2], 0);
    root.data = vec![0xAA];
    root.lea_fixups = vec![(0, 8, 0x40_2000)];
    root.branch_fixups = vec![(1, 10)];
    let mut first = leaf(vec![3], 10);
    first.branch_fixups = vec![(0, 20)];
    first.children = vec![leaf(vec![4, 5, 6], 20)];
    let mut second = leaf(vec![7], 30);
    second.data = vec![0xBB];
    second.lea_fixups = vec![(0, 9, 0x40_2004)];
    root.children = vec![first, second];

    let out = flatten(root);
    assert_eq!(out.code, vec![1, 2, 3, 4, 5, 6, 7]);
    assert_eq!(out.data, vec![0xAA, 0xBB]);
    assert_eq!(out.lea, vec![(0, 8, 0x40_2000), (6, 9, 0x40_2004)]);
    assert_eq!(out.jcc, vec![(1, 10), (2, 20)]);
    assert_eq!(out.map.len(), 4);
    assert_eq!(out.map[&0], 0);
    assert_eq!(out.map[&10], 2);
    assert_eq!(out.map[&20], 3);
    assert_eq!(out.map[&30], 6);
}

#[test]
fn flattening_appends_to_what_is_there() {
    let mut code = vec![9, 9];
    let mut data = vec![1];
    let mut lea = vec![(0, 8, 5)];
    let mut jcc = vec![(1, 0)];
    let mut map = HashMap::new();
    map.insert(0usize, 0usize);
    let mut run = leaf(vec![1, 2], 0);
    run.branch_fixups = vec![(1, 0)];
    flatten_translation(run, &mut code, &mut data, &mut lea, &mut jcc, &mut map);
    assert_eq!(code, vec![9, 9, 1, 2]);
    assert_eq!(data, vec![1]);
    assert_eq!(lea, vec![(0, 8, 5)]);
    assert_eq!(jcc, vec![(1, 0), (3, 0)]);
    // a later run at the same x86 offset takes its place in the map
    assert_eq!(map[&0], 2);
}

#[test]
fn lea_fixups_load_the_data_address() {
    let mut code = vec![0, 0, 0x8067, 0, 0];
    patch_lea_fixups(&mut code, &vec![(0, 13, 0x40_2000), (3, 8, 0x40_2010)]);
    // lui rd, 0x11; addi rd, rd, 0: rd = 0x11000
    assert_eq!(code, vec![0x0001_16b7, 0x0006_8693, 0x8067, 0x0001_1437, 0x0004_0413]);
}

#[test]
fn branch_fixups_reach_their_targets() {
    let mut code = vec![0x13, 0x6f, 0x8067, 0x6f];
    let mut map = HashMap::new();
    map.insert(3usize, 2usize);
    map.insert(0usize, 0usize);
    patch_branch_fixups(&mut code, &vec![(1, 3), (3, 0)], &map);
    // bne x25, x0, +4 and bne x25, x0, -12
    assert_eq!(code, vec![0x13, 0x000c_9263, 0x8067, 0xfe0c_9ae3]);
}

#[test]
fn code_is_written_little_endian() {
    assert_eq!(code_bytes(&vec![]), Vec::<u8>::new());
    assert_eq!(
        code_bytes(&vec![0x0000_0013, 0x000c_9263, 0x0000_8067]),
        vec![0x13, 0, 0, 0, 0x63, 0x92, 0x0c, 0x00, 0x67, 0x80, 0, 0]
    );
}

fn header_with_entry(entry: u64) -> Elf64Header {
    Elf64Header {
        e_ident: [0x7f, b'E', b'L', b'F', 2, 1, 1, 0, 0, 0, 0, 0, 0, 0, 0, 0],
        e_type: 2,
        e_machine: 62,
        e_version: 1,
        e_entry: entry,
        e_phoff: 64,
        e_shoff: 0,
        e_flags: 0,
        e_ehsize: 64,
        e_phentsize: 56,
        e_phnum: 1,
        e_shentsize: 0,
        e_shnum: 0,
        e_shstrndx: 0,
    }
}

#[test]
fn translate_link_and_write_a_jump() {
    // nop; jmp +0; ret
    let ctx = TranslationContext {
        code: Arc::from(&[0x90u8, 0xEB, 0x00, 0xC3][..]),
        header: Arc::new(header_with_entry(0x40_1000)),
        bytes: Arc::new(Vec::new()),
        segments: Arc::new(Vec::new()),
    };
    let (mut root, children) = translate(&ctx, 0, [0; 16]).unwrap();
    for child in children {
        let (result, more) = translate(&ctx, child.code_offset, child.registers).unwrap();
        assert!(more.is_empty());
        root.children.push(result);
    }
    // every fixup of every run names its own code
    for &(i, _) in &root.branch_fixups {
        assert!(i < root.code.len());
    }
    let mut out = flatten(root);
    assert_eq!(out.code, vec![0x13, 0x6f, 0x8067]);
    assert_eq!(out.jcc, vec![(1, 3)]);
    patch_lea_fixups(&mut out.code, &out.lea);
    patch_branch_fixups(&mut out.code, &out.jcc, &out.map);
    assert_eq!(out.code, vec![0x13, 0x000c_9263, 0x8067]);
    let bytes = code_bytes(&out.code);
    assert_eq!(bytes, vec![0x13, 0, 0, 0, 0x63, 0x92, 0x0c, 0x00, 0x67, 0x80, 0, 0]);
}

#[test]
fn layout_checks() {
    let mut root = leaf(vec![1, 2], 0);
    root.lea_fixups = vec![(0, 8, 0)];
    root.children = vec![leaf(vec![3, 4, 5], 10), leaf(vec![], 20)];
    assert_eq!(fitted_end(&root, 0), Some(5));
    assert_eq!(fitted_end(&root, 7), Some(12));
    assert_eq!(fitted_end(&root, usize::MAX - 5), Some(usize::MAX));
    assert_eq!(fitted_end(&root, usize::MAX - 4), None);
    let mut wide = leaf(vec![], 0);
    wide.branch_fixups = vec![(usize::MAX, 0)];
    assert_eq!(fitted_end(&wide, 0), Some(0));
    assert_eq!(fitted_end(&wide, 1), None);

    assert!(lea_fixups_fit(4, &vec![(0, 8, 0), (2, 9, 0)]));
    assert!(!lea_fixups_fit(4, &vec![(3, 8, 0)]));
    assert!(!lea_fixups_fit(4, &vec![(4, 8, 0)]));
    assert!(lea_fixups_fit(0, &vec![]));

    let mut map = HashMap::new();
    map.insert(7usize, 1usize);
    assert!(branch_fixups_fit(3, &vec![(2, 7)], &map));
    assert!(!branch_fixups_fit(3, &vec![(3, 7)], &map));
    assert!(!branch_fixups_fit(3, &vec![(0, 8)], &map));
    map.insert(8usize, usize::MAX);
    assert!(!branch_fixups_fit(3, &vec![(0, 8)], &map));
    // a target address past isize::MAX reads as a negative isize
    let far = (isize::MAX as usize) / 4 + 1;
    map.insert(9usize, far);
    assert!(branch_fixups_fit(3, &vec![(0, 9)], &map));
    assert!(!branch_fixups_fit(3, &vec![(1, 9)], &map));
    let mut code = vec![0x13, 0x13, 0x13];
    patch_branch_fixups(&mut code, &vec![(0, 9)], &map);
    assert_eq!(code[0], 0x000c_9063);
}

#[test]
fn moved_fixups_keep_naming_their_placeholders() {
    // nop; je +0 (to 3); lea rax, [rip + 0xff9]; jmp +0 (to 12); ret
    let code = [0x90u8, 0x74, 0x00, 0x48, 0x8D, 0x05, 0xF9, 0x0F, 0x00, 0x00, 0xEB, 0x00, 0xC3];
    let mut bytes = vec![0u8; 0x2004];
    bytes[0x2000..].copy_from_slice(b"data");
    let ctx = TranslationContext {
        code: Arc::from(&code[..]),
        header: Arc::new(header_with_entry(0x40_1000)),
        bytes: Arc::new(bytes),
        segments: Arc::new(vec![x86_to_riscv::elf::Elf64ProgramHeader {
            p_type: 1,
            p_flags: 4,
            p_offset: 0x2000,
            p_vaddr: 0x40_2000,
            p_paddr: 0x40_2000,
            p_filesz: 4,
            p_memsz: 4,
            p_align: 0x1000,
        }]),
    };
    let (mut root, children) = translate(&ctx, 0, [0; 16]).unwrap();
    for child in children {
        let (result, _) = translate(&ctx, child.code_offset, child.registers).unwrap();
        root.children.push(result);
    }
    let mut expected_lea = Vec::new();
    let mut expected_branch = Vec::new();
    collect(&root, &mut expected_lea, &mut expected_branch);
    let out = flatten(root);
    let lea: Vec<(u32, u32)> = out.lea.iter().map(|&(o, _, _)| (out.code[o], out.code[o + 1])).collect();
    let branch: Vec<u32> = out.jcc.iter().map(|&(o, _)| out.code[o]).collect();
    assert_eq!(lea, expected_lea);
    assert_eq!(branch, expected_branch);
    assert_eq!(lea, vec![(0, 0), (0, 0)]);
    assert_eq!(branch.len(), 3);
}

/// The words each run's fixups name in its own code, each run before its children.
fn collect(r: &TranslationResult, lea: &mut Vec<(u32, u32)>, branch: &mut Vec<u32>) {
    for &(o, _, _) in &r.lea_fixups {
        lea.push((r.code[o], r.code[o + 1]));
    }
    for &(o, _) in &r.branch_fixups {
        branch.push(r.code[o]);
    }
    for c in &r.children {
        collect(c, lea, branch);
    }
}
