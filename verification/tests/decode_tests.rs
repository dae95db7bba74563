use x86_to_riscv::operation::{DecodedInstruction, X86operation};

fn decoded(code: &[u8]) -> DecodedInstruction {
    X86operation::decode(code, 0)
}

#[test]
fn fixed_length_instructions() {
    assert_eq!(decoded(&[0x0F, 0x05]), DecodedInstruction { operation: X86operation::Syscall, len: 2 });
    assert_eq!(decoded(&[0x48, 0x0F, 0x05]), DecodedInstruction { operation: X86operation::Syscall, len: 3 });
    assert_eq!(
        decoded(&[0xF3, 0x0F, 0x1E, 0xFA]),
        DecodedInstruction { operation: X86operation::Endbr64, len: 4 }
    );
    assert_eq!(decoded(&[0x50]), DecodedInstruction { operation: X86operation::Push, len: 1 });
    assert_eq!(decoded(&[0x5D]), DecodedInstruction { operation: X86operation::Pop, len: 1 });
    assert_eq!(decoded(&[0x41, 0x5C]), DecodedInstruction { operation: X86operation::Pop, len: 2 });
    assert_eq!(decoded(&[0xC3]), DecodedInstruction { operation: X86operation::Ret, len: 1 });
    assert_eq!(decoded(&[0xC2, 0x08, 0x00]), DecodedInstruction { operation: X86operation::Ret, len: 3 });
    assert_eq!(decoded(&[0x90]), DecodedInstruction { operation: X86operation::Nop, len: 1 });
    assert_eq!(
        decoded(&[0xE8, 0, 0, 0, 0]),
        DecodedInstruction { operation: X86operation::Call, len: 5 }
    );
    assert_eq!(decoded(&[0xE9, 0, 0, 0, 0]), DecodedInstruction { operation: X86operation::Jmp, len: 5 });
    assert_eq!(decoded(&[0xEB, 0xFE]), DecodedInstruction { operation: X86operation::Jmp, len: 2 });
    assert_eq!(
        decoded(&[0x74, 0x02]),
        DecodedInstruction { operation: X86operation::ConditionalJump, len: 2 }
    );
    assert_eq!(decoded(&[0x04, 0x01]), DecodedInstruction { operation: X86operation::Add, len: 2 });
    assert_eq!(decoded(&[0x2D, 1, 0, 0, 0]), DecodedInstruction { operation: X86operation::Sub, len: 5 });
    assert_eq!(decoded(&[0x3C, 0x01]), DecodedInstruction { operation: X86operation::Cmp, len: 2 });
}

#[test]
fn mov_immediates() {
    assert_eq!(decoded(&[0xB8, 1, 0, 0, 0]), DecodedInstruction { operation: X86operation::Mov, len: 5 });
    assert_eq!(
        decoded(&[0x48, 0xB8, 1, 2, 3, 4, 5, 6, 7, 8]),
        DecodedInstruction { operation: X86operation::Mov, len: 10 }
    );
}

#[test]
fn modrm_operand_lengths() {
    // register operands
    assert_eq!(decoded(&[0x48, 0x89, 0xC3]), DecodedInstruction { operation: X86operation::Mov, len: 3 });
    assert_eq!(decoded(&[0x31, 0xC0]), DecodedInstruction { operation: X86operation::Xor, len: 2 });
    assert_eq!(decoded(&[0x48, 0x29, 0xD8]), DecodedInstruction { operation: X86operation::Sub, len: 3 });
    assert_eq!(decoded(&[0x48, 0x39, 0xD8]), DecodedInstruction { operation: X86operation::Cmp, len: 3 });
    assert_eq!(decoded(&[0x48, 0x01, 0xD8]), DecodedInstruction { operation: X86operation::Add, len: 3 });
    assert_eq!(decoded(&[0x21, 0xD8]), DecodedInstruction { operation: X86operation::And, len: 2 });
    assert_eq!(decoded(&[0x09, 0xD8]), DecodedInstruction { operation: X86operation::Or, len: 2 });
    // rip-relative: mod 0, rm 5, 32-bit displacement
    assert_eq!(
        decoded(&[0x48, 0x8D, 0x05, 0x10, 0, 0, 0]),
        DecodedInstruction { operation: X86operation::Lea, len: 7 }
    );
    // SIB with an 8-bit displacement
    assert_eq!(
        decoded(&[0x48, 0x8B, 0x44, 0x24, 0x08]),
        DecodedInstruction { operation: X86operation::Mov, len: 5 }
    );
    // SIB with base 5 under mod 0: a 32-bit displacement follows
    assert_eq!(
        decoded(&[0x8B, 0x04, 0x25, 0, 0, 0, 0]),
        DecodedInstruction { operation: X86operation::Mov, len: 7 }
    );
    // mod 2: 32-bit displacement
    assert_eq!(
        decoded(&[0x8B, 0x80, 0, 0, 0, 0]),
        DecodedInstruction { operation: X86operation::Mov, len: 6 }
    );
    // an immediate byte after the ModRM operand
    assert_eq!(
        decoded(&[0x48, 0x83, 0xC0, 0x01]),
        DecodedInstruction { operation: X86operation::And, len: 4 }
    );
}

#[test]
fn decode_at_an_offset() {
    let code = [0x90, 0x48, 0x31, 0xC0, 0xC3];
    assert_eq!(X86operation::decode(&code, 1), DecodedInstruction { operation: X86operation::Xor, len: 3 });
    assert_eq!(X86operation::decode(&code, 4), DecodedInstruction { operation: X86operation::Ret, len: 1 });
}

#[test]
fn undecodable_instructions() {
    assert_eq!(X86operation::try_decode(&[0xC7, 0xC0, 1, 0, 0, 0], 0), None);
    assert_eq!(X86operation::try_decode(&[0x85, 0xC0], 0), None);
    assert_eq!(X86operation::try_decode(&[0x0F, 0x06], 0), None);
    assert_eq!(X86operation::try_decode(&[0xF3, 0x90], 0), None);
    assert_eq!(X86operation::try_decode(&[0xCC], 0), None);
    // a prefix or an operand cut off by the end of the code
    assert_eq!(X86operation::try_decode(&[0x48], 0), None);
    assert_eq!(X86operation::try_decode(&[0x8B], 0), None);
    assert_eq!(X86operation::try_decode(&[0x8B, 0x04], 0), None);
    assert_eq!(X86operation::try_decode(&[0x0F], 0), None);
    // an offset past the end
    assert_eq!(X86operation::try_decode(&[0x90], 1), None);
    assert_eq!(
        X86operation::try_decode(&[0x90], 0),
        Some(DecodedInstruction { operation: X86operation::Nop, len: 1 })
    );
}
