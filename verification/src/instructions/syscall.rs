use vstd::prelude::*;

use crate::operation::handeler::syscall::{push_syscall_words, syscall_words};
use crate::registers::{is_known_x86_syscall, SysCall};

verus! {

/// Translates the system call whose x86 number is `registers[0]` (rax):
/// emits `syscall_words` for `write` (1) or `exit` (60) and returns 2, the
/// length of the x86 `syscall` instruction. Other numbers are not handled.
pub fn syscall(registers: &[u64; 16], riscv_code: &mut Vec<u32>) -> (len: usize)
    requires
        is_known_x86_syscall(registers@[0]),
    ensures
        len == 2,
        final(riscv_code)@ == old(riscv_code)@ + syscall_words(
            if registers@[0] == 1 {
                SysCall::Write
            } else {
                SysCall::Exit
            },
        ),
{
    let syscall_number = registers[0];

    let syscall = SysCall::from_x86(syscall_number);

    push_syscall_words(syscall, riscv_code);

    2
}

} // verus!
