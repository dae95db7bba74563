use vstd::prelude::*;

use crate::encode::{encode_addi, encode_ecall, i_type, ECALL_WORD, OP_IMM};
use crate::operation::handeler::{HandelerInputValue, HandelerReturnValue, TranslateError};
use crate::registers::{is_known_x86_syscall, SysCall};
use crate::riscv::{lemma_decode_imm, rv_run};

verus! {

/// `mv rd, rs` (`addi rd, rs, 0`).
pub open spec fn mv_word(rd: u8, rs: u8) -> u32 {
    i_type(0, rs, 0, rd, OP_IMM)
}

/// The words emitted for a system call: the arguments moved from the x86
/// registers' homes into the RV64 argument registers (for `write`: a0 from
/// rdi, a1 from rsi, a2 from rdx, through t0 and t1; for `exit`: a0 from
/// rdi), a7 set to the RV64 call number, then `ecall`.
pub open spec fn syscall_words(call: SysCall) -> Seq<u32> {
    let args = match call {
        SysCall::Write => seq![
            mv_word(5, 13),
            mv_word(6, 12),
            mv_word(12, 11),
            mv_word(11, 6),
            mv_word(10, 5),
        ],
        SysCall::Exit => seq![mv_word(10, 13)],
    };
    args + seq![i_type(call.spec_riscv() as i32, 0, 0, 17, OP_IMM), ECALL_WORD]
}

/// Appends `syscall_words(syscall)` to the code.
pub(crate) fn push_syscall_words(syscall: SysCall, riscv_code: &mut Vec<u32>)
    ensures
        final(riscv_code)@ == old(riscv_code)@ + syscall_words(syscall),
{
    let riscv_syscall = syscall.to_riscv();

    match syscall {
        SysCall::Write => {
            riscv_code.push(encode_addi(5, 13, 0));
            riscv_code.push(encode_addi(6, 12, 0));
            riscv_code.push(encode_addi(12, 11, 0));

            riscv_code.push(encode_addi(11, 6, 0));
            riscv_code.push(encode_addi(10, 5, 0));
        },
        SysCall::Exit => {
            riscv_code.push(encode_addi(10, 13, 0));
        },
    }

    riscv_code.push(encode_addi(17, 0, riscv_syscall as i32));

    riscv_code.push(encode_ecall());

    assert(final(riscv_code)@ =~= old(riscv_code)@ + syscall_words(syscall));
}

/// `syscall`: translates the system call whose x86 number is the tracked
/// value of rax, and ends the run. Only `write` (1) and `exit` (60) are
/// translated; any other tracked number is `Unsupported`.
pub fn syscall(values: HandelerInputValue) -> (r: Result<HandelerReturnValue, TranslateError>)
    ensures
        is_known_x86_syscall(old(values.registers)@[0]) <==> r is Ok,
        r matches Ok(v) ==> {
            &&& v.operation_len == values.operation.len
            &&& v.finish_thread
            &&& v.future is None
            &&& final(values.riscv_code)@ == old(values.riscv_code)@ + syscall_words(
                if old(values.registers)@[0] == 1 {
                    SysCall::Write
                } else {
                    SysCall::Exit
                },
            )
        },
        r is Err ==> r == Err::<HandelerReturnValue, TranslateError>(TranslateError::Unsupported)
            && final(values.riscv_code)@ == old(values.riscv_code)@,
        final(values.registers)@ == old(values.registers)@,
        final(values.riscv_data)@ == old(values.riscv_data)@,
        final(values.lea_fixups)@ == old(values.lea_fixups)@,
        final(values.branch_fixups)@ == old(values.branch_fixups)@,
        final(values.call_fixups)@ == old(values.call_fixups)@,
{
    let syscall_number = values.registers[0];

    if syscall_number != 1 && syscall_number != 60 {
        return Err(TranslateError::Unsupported);
    }
    let syscall = SysCall::from_x86(syscall_number);
    push_syscall_words(syscall, values.riscv_code);

    Ok(HandelerReturnValue::finish(values.operation.len))
}

} // verus!

verus! {

/// A system call's arguments reach the RV64 argument registers: running
/// the words emitted for it up to the `ecall` leaves the RV64 call number
/// in a7 and, in a0, a1 and a2, the values that the homes of rdi, rsi and
/// rdx held (for `exit`, rdi's value in a0).
pub proof fn lemma_syscall_arguments(call: SysCall, regs: Seq<u64>)
    requires
        regs.len() == 32,
    ensures
        rv_run(syscall_words(call).drop_last(), regs) matches Some(out) && {
            &&& out[17] == call.spec_riscv()
            &&& out[10] == regs[13]
            &&& call == SysCall::Write ==> out[11] == regs[12] && out[12] == regs[11]
        },
{
    reveal_with_fuel(rv_run, 8);
    lemma_decode_imm(5, 13, 0, 0);
    lemma_decode_imm(6, 12, 0, 0);
    lemma_decode_imm(12, 11, 0, 0);
    lemma_decode_imm(11, 6, 0, 0);
    lemma_decode_imm(10, 5, 0, 0);
    lemma_decode_imm(10, 13, 0, 0);
    lemma_decode_imm(17, 0, 0, call.spec_riscv() as i32);
    let w = syscall_words(call).drop_last();
    match call {
        SysCall::Write => {
            assert(w =~= seq![
                mv_word(5, 13),
                mv_word(6, 12),
                mv_word(12, 11),
                mv_word(11, 6),
                mv_word(10, 5),
                i_type(64, 0, 0, 17, OP_IMM),
            ]);
        },
        SysCall::Exit => {
            assert(w =~= seq![mv_word(10, 13), i_type(93, 0, 0, 17, OP_IMM)]);
        },
    }
}

} // verus!
