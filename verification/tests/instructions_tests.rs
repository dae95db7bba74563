use x86_to_riscv::elf::{Elf64Header, Elf64ProgramHeader};
use x86_to_riscv::instructions::add::add_reg_to_reg;
use x86_to_riscv::instructions::lea::lea;
use x86_to_riscv::instructions::syscall::syscall;

fn header_with_entry(entry: u64) -> Elf64Header {
    Elf64Header {
        e_ident: [0x7f, b'E', b'L', b'F', 2, 1, 1, 0, 0, 0, 0, 0, 0, 0, 0, 0],
        e_type: 2,
        e_machine: 62,
        e_version: 1,
        e_entry: entry,
        e_phoff: 64,
        e_shoff: 0,
        e_flags: 0,
        e_ehsize: 64,
        e_phentsize: 56,
        e_phnum: 1,
        e_shentsize: 0,
        e_shnum: 0,
        e_shstrndx: 0,
    }
}

fn segment(offset: u64, vaddr: u64, size: u64) -> Elf64ProgramHeader {
    Elf64ProgramHeader {
        p_type: 1,
        p_flags: 4,
        p_offset: offset,
        p_vaddr: vaddr,
        p_paddr: vaddr,
        p_filesz: size,
        p_memsz: size,
        p_align: 0x1000,
    }
}

#[test]
fn add_between_registers() {
    let mut code = vec![1];
    // add rax, rbx: rm = rax (x8), reg = rbx (x9)
    assert_eq!(add_reg_to_reg(0xD8, &mut code), 3);
    assert_eq!(code, vec![1, 0x0094_0433]);
    // add rbx, rax
    assert_eq!(add_reg_to_reg(0xC3, &mut code), 3);
    assert_eq!(code, vec![1, 0x0094_0433, 0x0084_84b3]);
}

#[test]
fn syscall_exit() {
    let mut registers = [0u64; 16];
    registers[0] = 60;
    let mut code = Vec::new();
    assert_eq!(syscall(&registers, &mut code), 2);
    assert_eq!(code, vec![0x0006_8513, 0x05d0_0893, 0x0000_0073]);
}

#[test]
fn syscall_write() {
    let mut registers = [7u64; 16];
    registers[0] = 1;
    let mut code = vec![0x13];
    assert_eq!(syscall(&registers, &mut code), 2);
    assert_eq!(
        code,
        vec![0x13, 0x0006_8293, 0x0006_0313, 0x0005_8613, 0x0003_0593, 0x0002_8513, 0x0400_0893, 0x0000_0073]
    );
}

#[test]
fn lea_copies_the_segment_tail() {
    // lea rdi, [rip + 0xff9] at entry 0x401000: the address is 0x402000
    let code = [0x48, 0x8D, 0x3D, 0xF9, 0x0F, 0x00, 0x00];
    let header = header_with_entry(0x40_1000);
    let segments = [segment(0x1000, 0x40_1000, 0x10), segment(0x2000, 0x40_2000, 4)];
    let mut bytes = vec![0u8; 0x2004];
    bytes[0x2000..].copy_from_slice(b"abc\n");
    let mut riscv_code = vec![5, 6];
    let mut riscv_data = vec![9];
    let mut fixup = None;
    let len = lea(
        0x3D,
        &code,
        0,
        &header,
        &segments,
        &mut riscv_code,
        &mut riscv_data,
        &bytes,
        &mut fixup,
    );
    assert_eq!(len, 7);
    assert_eq!(riscv_code, vec![5, 6, 0, 0]);
    assert_eq!(riscv_data, vec![9, b'a', b'b', b'c', b'\n']);
    assert_eq!(fixup, Some((2, 13)));
}

#[test]
fn lea_inside_a_segment() {
    // the address 0x402002 lies two bytes into the segment: only its tail is copied
    let code = [0x90, 0x48, 0x8D, 0x05, 0xFA, 0x0F, 0x00, 0x00];
    let header = header_with_entry(0x40_1000);
    let segments = [segment(0x2000, 0x40_2000, 4)];
    let mut bytes = vec![0u8; 0x2004];
    bytes[0x2000..].copy_from_slice(b"wxyz");
    let mut riscv_code = Vec::new();
    let mut riscv_data = Vec::new();
    let mut fixup = None;
    let len = lea(
        0x05,
        &code,
        1,
        &header,
        &segments,
        &mut riscv_code,
        &mut riscv_data,
        &bytes,
        &mut fixup,
    );
    assert_eq!(len, 7);
    assert_eq!(riscv_data, b"yz".to_vec());
    assert_eq!(fixup, Some((0, 8)));
}
