use x86_to_riscv::registers::{load_u64, SysCall, X86Reg, CPUSTATEREG, JUNKREG0, JUNKREG1, JUNKREG2};

#[test]
fn modrm_fields_name_registers() {
    // rm field, with and without REX.B
    assert_eq!(X86Reg::from_modrm(0xC0, false), X86Reg::Rax);
    assert_eq!(X86Reg::from_modrm(0xC1, false), X86Reg::Rcx);
    assert_eq!(X86Reg::from_modrm(0xC3, false), X86Reg::Rbx);
    assert_eq!(X86Reg::from_modrm(0xC4, false), X86Reg::Rsp);
    assert_eq!(X86Reg::from_modrm(0xC7, false), X86Reg::Rdi);
    assert_eq!(X86Reg::from_modrm(0xC0, true), X86Reg::R8);
    assert_eq!(X86Reg::from_modrm(0xC7, true), X86Reg::R15);
    // reg field, with and without REX.R
    assert_eq!(X86Reg::from_modrm_reg(0xD8, false), X86Reg::Rbx);
    assert_eq!(X86Reg::from_modrm_reg(0xE8, false), X86Reg::Rbp);
    assert_eq!(X86Reg::from_modrm_reg(0xF0, false), X86Reg::Rsi);
    assert_eq!(X86Reg::from_modrm_reg(0xD0, false), X86Reg::Rdx);
    assert_eq!(X86Reg::from_modrm_reg(0xD8, true), X86Reg::R11);
    assert_eq!(X86Reg::from_modrm_reg(0xC0, true), X86Reg::R8);
}

#[test]
fn register_homes() {
    assert_eq!(X86Reg::Rax.to_index(), 0);
    assert_eq!(X86Reg::Rbx.to_index(), 1);
    assert_eq!(X86Reg::Rcx.to_index(), 2);
    assert_eq!(X86Reg::Rsp.to_index(), 7);
    assert_eq!(X86Reg::R15.to_index(), 15);
    assert_eq!(X86Reg::Rax.to_riscv(), 8);
    assert_eq!(X86Reg::Rdi.to_riscv(), 13);
    assert_eq!(X86Reg::Rsp.to_riscv(), 15);
    assert_eq!(X86Reg::R8.to_riscv(), 16);
    assert_eq!(X86Reg::R15.to_riscv(), 23);
    // every home is distinct from the scratch registers
    let all = [
        X86Reg::Rax, X86Reg::Rbx, X86Reg::Rcx, X86Reg::Rdx, X86Reg::Rsi, X86Reg::Rdi,
        X86Reg::Rbp, X86Reg::Rsp, X86Reg::R8, X86Reg::R9, X86Reg::R10, X86Reg::R11,
        X86Reg::R12, X86Reg::R13, X86Reg::R14, X86Reg::R15,
    ];
    for (i, r) in all.iter().enumerate() {
        assert_eq!(r.to_index(), i);
        assert_eq!(r.to_riscv() as usize, 8 + i);
        assert!(r.to_riscv() != CPUSTATEREG);
        assert!(r.to_riscv() != JUNKREG0 && r.to_riscv() != JUNKREG1 && r.to_riscv() != JUNKREG2);
    }
}

#[test]
fn system_call_numbers() {
    assert_eq!(SysCall::from_x86(1), SysCall::Write);
    assert_eq!(SysCall::from_x86(60), SysCall::Exit);
    assert_eq!(SysCall::Write.to_riscv(), 64);
    assert_eq!(SysCall::Exit.to_riscv(), 93);
}

#[test]
fn load_u64_zero() {
    let mut code = Vec::new();
    load_u64(8, 0, &mut code);
    assert_eq!(code, vec![0x0000_0413, 0x00c4_1413, 0x00c4_1413, 0x00c4_1413, 0x00c4_1413, 0x00c4_1413]);
}

#[test]
fn load_u64_thirty_two_bit_value() {
    let mut code = vec![0xdead_beef];
    load_u64(8, 0x1234_5678, &mut code);
    assert_eq!(
        code,
        vec![
            0xdead_beef, 0x0000_0413, 0x00c4_1413, 0x00c4_1413, 0x00c4_1413, 0x0124_0413,
            0x00c4_1413, 0x3454_0413, 0x00c4_1413, 0x6784_0413,
        ]
    );
}

#[test]
fn load_u64_negative_chunks() {
    let mut code = Vec::new();
    load_u64(9, u64::MAX, &mut code);
    assert_eq!(
        code,
        vec![0x0100_0493, 0x00c4_9493, 0x00c4_9493, 0x00c4_9493, 0x00c4_9493, 0x00c4_9493, 0xfff4_8493]
    );
    let mut code = Vec::new();
    load_u64(8, 0x800, &mut code);
    assert_eq!(
        code,
        vec![0x0000_0413, 0x00c4_1413, 0x00c4_1413, 0x00c4_1413, 0x00c4_1413, 0x0014_0413, 0x00c4_1413, 0x8004_0413]
    );
}

/// Runs the `addi`/`slli` words `load_u64` emits on a 64-bit register.
fn run_load(words: &[u32]) -> u64 {
    let mut reg: u64 = 0;
    for &w in words {
        let funct3 = (w >> 12) & 7;
        let rs1 = (w >> 15) & 31;
        let base = if rs1 == 0 { 0 } else { reg };
        if funct3 == 0 {
            let imm = ((w as i32) >> 20) as i64 as u64;
            reg = base.wrapping_add(imm);
        } else {
            reg = base << ((w >> 20) & 63);
        }
    }
    reg
}

#[test]
fn load_u64_words_load_the_value() {
    for &value in &[0u64, 1, 0x7ff, 0x800, 0xfff, 0x1000, 0x1234_5678, 0x8000_0000_0000_0000, u64::MAX, 0xdead_beef_cafe_f00d] {
        let mut code = Vec::new();
        load_u64(8, value, &mut code);
        assert_eq!(run_load(&code), value);
    }
}
