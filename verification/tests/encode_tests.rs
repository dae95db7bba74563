use x86_to_riscv::encode::{
    encode_add, encode_addi, encode_and, encode_andi, encode_andw, encode_bne, encode_ecall,
    encode_jal, encode_jalr, encode_ld, encode_lui, encode_or, encode_orw, encode_sd,
    encode_slli, encode_srli, encode_sltu, encode_sub, encode_subw, encode_xor, encode_xori,
};

#[test]
fn addi_words() {
    assert_eq!(encode_addi(5, 13, 0), 0x0006_8293);
    assert_eq!(encode_addi(10, 0, -1), 0xfff0_0513);
    assert_eq!(encode_addi(8, 0, 60), 0x03c0_0413);
    assert_eq!(encode_addi(8, 0, 0x7ff), 0x7ff0_0413);
    // only the low twelve bits of the immediate are kept
    assert_eq!(encode_addi(8, 0, 0x800), 0x8000_0413);
    assert_eq!(encode_addi(8, 0, 0x1800), 0x8000_0413);
}

#[test]
fn ecall_word() {
    assert_eq!(encode_ecall(), 0x0000_0073);
}

#[test]
fn lui_word() {
    assert_eq!(encode_lui(8, 0x11), 0x0001_1437);
    assert_eq!(encode_lui(8, -1), 0xffff_f437);
}

#[test]
fn register_register_words() {
    assert_eq!(encode_xor(8, 8, 9), 0x0094_4433);
    assert_eq!(encode_add(8, 8, 9), 0x0094_0433);
    assert_eq!(encode_sltu(25, 0, 26), 0x01a0_3cb3);
    assert_eq!(encode_and(26, 8, 9), 0x0094_7d33);
    assert_eq!(encode_andw(26, 8, 9), 0x0094_7d3b);
    assert_eq!(encode_or(24, 24, 25), 0x019c_6c33);
    assert_eq!(encode_orw(24, 24, 25), 0x019c_6c3b);
}

#[test]
fn sub_words_share_the_add_layout() {
    // `sub` and `subw` are laid out with a zero funct7, as `add` and `addw` are
    assert_eq!(encode_sub(8, 8, 9), 0x0094_0433);
    assert_eq!(encode_sub(8, 8, 9), encode_add(8, 8, 9));
    assert_eq!(encode_subw(8, 8, 9), 0x0094_043b);
}

#[test]
fn immediate_words() {
    assert_eq!(encode_andi(25, 24, 0x40), 0x040c_7c93);
    assert_eq!(encode_xori(25, 25, 1), 0x001c_cc93);
    assert_eq!(encode_slli(8, 8, 12), 0x00c4_1413);
    assert_eq!(encode_srli(27, 25, 4), 0x004c_dd93);
}

#[test]
fn memory_words() {
    assert_eq!(encode_ld(8, 2, 16), 0x0101_3403);
    assert_eq!(encode_sd(9, 2, -8), 0xfe91_3c23);
}

#[test]
fn control_transfer_words() {
    assert_eq!(encode_jalr(0, 1, 0), 0x0000_8067);
    assert_eq!(encode_jal(0, 0), 0x0000_006f);
    assert_eq!(encode_jal(1, 8), 0x0080_00ef);
    assert_eq!(encode_bne(25, 0, 0), 0x000c_9063);
    assert_eq!(encode_bne(25, 0, 4), 0x000c_9263);
    assert_eq!(encode_bne(25, 0, 12), 0x000c_9663);
    assert_eq!(encode_bne(25, 0, -8), 0xfe0c_9ce3);
    assert_eq!(encode_bne(25, 0, 4096), 0x800c_9063);
}
