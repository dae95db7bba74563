//! Translation of one straight-line run of x86-64 code into RV64 code.
//!
//! `translate` decodes instructions from an offset and hands each to its
//! handler until a handler ends the run or the code ends. Branch targets
//! that must be translated as well are returned to the caller, which starts
//! those translations and collects their results as the children of this one.
use vstd::prelude::*;

use crate::elf::{Elf64Header, Elf64ProgramHeader};
use crate::encode::{
    addi_word, bne_word, jal_word, jalr_word, ld_word, sub_word, subw_word, xor_word,
};
use crate::operation::{decoded_at, with_modrm, modrm_length, DecodedInstruction, X86operation};
use crate::operation::handeler::call::call;
use crate::operation::handeler::cmp::{cmp, compare_words};
use crate::operation::handeler::conditionaljump::{conditionaljump, jcc_displacement, jcc_words};
use crate::registers::lemma_register_homes;
use vstd::bytes::{
    lemma_auto_spec_u32_to_from_le_bytes, lemma_auto_spec_u64_to_from_le_bytes,
    spec_u32_from_le_bytes, spec_u32_to_le_bytes, spec_u64_to_le_bytes,
};
use crate::operation::handeler::endbr64::endbr64;
use crate::operation::handeler::jmp::{jmp, jmp_form};
use crate::operation::handeler::lea::{lea, lea_outcome, segment_holding};
use crate::operation::handeler::mov::{mov, mov_form, MovForm};
use crate::operation::handeler::nop::nop;
use crate::operation::handeler::pop::{pop, pop_words};
use crate::operation::handeler::ret::ret;
use crate::operation::handeler::sub::{sub32, sub64, sub_operands};
use crate::operation::handeler::syscall::{syscall, syscall_words};
use crate::operation::handeler::test::{test_operand_size, test_words};
use crate::operation::handeler::xor::xor;
use crate::operation::handeler::{
    branch_target, le32_at, modrm_offset_at, register_operands, rex_w, ChildTranslation,
    HandelerInputValue, HandelerReturnValue, TranslateError, TranslationContext,
};
use crate::registers::{
    is_known_x86_syscall, load_u64_words, reg_from_number, rm_number, SysCall, JUNKREG0,
};

verus! {

/// The RV64 code and data of one translated run, the fixups it leaves for
/// linking (code indices are relative to the start of `code`), the code
/// offset it starts at, and the translations of its branch targets.
#[derive(Debug)]
pub struct TranslationResult {
    pub code: Vec<u32>,
    pub data: Vec<u8>,
    pub lea_fixups: Vec<(usize, u8, u64)>,
    pub branch_fixups: Vec<(usize, usize)>,
    pub call_fixups: Vec<(usize, usize)>,
    pub code_address: usize,
    pub children: Vec<TranslationResult>,
}

/// The state of a translation in progress: the tracked x86 register values
/// and everything emitted so far.
pub struct TranslationState {
    pub registers: Seq<u64>,
    pub code: Seq<u32>,
    pub data: Seq<u8>,
    pub lea_fixups: Seq<(usize, u8, u64)>,
    pub branch_fixups: Seq<(usize, usize)>,
    pub call_fixups: Seq<(usize, usize)>,
}

/// The further translation a handler asks for, as plain values.
pub open spec fn child_of(future: Option<ChildTranslation>) -> Option<(usize, Seq<u64>)> {
    match future {
        Some(c) => Some((c.code_offset, c.registers@)),
        None => None,
    }
}

/// One instruction, decoded as `d` at offset `o`, applied to `st` by its
/// handler: the next state, how far to advance, whether the run ends, and
/// the further translation asked for. The operations without a handler
/// (`add`, `and`, `or`, `push`) are `Unsupported`.
#[verifier::opaque]
pub open spec fn handler_step(
    code: Seq<u8>,
    entry: u64,
    segs: Seq<Elf64ProgramHeader>,
    file: Seq<u8>,
    o: usize,
    d: DecodedInstruction,
    st: TranslationState,
) -> Result<(TranslationState, usize, bool, Option<(usize, Seq<u64>)>), TranslateError> {
    let regs = st.registers;
    let len = d.len;
    match d.operation {
        X86operation::Syscall => if is_known_x86_syscall(regs[0]) {
            let call = if regs[0] == 1 {
                SysCall::Write
            } else {
                SysCall::Exit
            };
            Ok((TranslationState { code: st.code + syscall_words(call), ..st }, len, true, None))
        } else {
            Err(TranslateError::Unsupported)
        },
        X86operation::Mov => match mov_form(code, o as int) {
            Err(e) => Err(e),
            Ok(MovForm::Imm32 { reg, value }) => Ok(
                (
                    TranslationState {
                        registers: regs.update(reg.spec_index(), value as u64),
                        code: st.code.push(addi_word(reg.spec_riscv(), 0, value as i32)),
                        ..st
                    },
                    len,
                    false,
                    None,
                ),
            ),
            Ok(MovForm::Imm64 { reg, wide_value }) => Ok(
                (
                    TranslationState {
                        registers: regs.update(reg.spec_index(), wide_value),
                        code: st.code + load_u64_words(reg.spec_riscv(), wide_value),
                        ..st
                    },
                    len,
                    false,
                    None,
                ),
            ),
            Ok(MovForm::RegReg { dst, src }) => Ok(
                (
                    TranslationState {
                        registers: regs.update(dst.spec_index(), regs[src.spec_index()]),
                        code: st.code.push(addi_word(dst.spec_riscv(), src.spec_riscv(), 0)),
                        ..st
                    },
                    len,
                    false,
                    None,
                ),
            ),
        },
        X86operation::Lea => match lea_outcome(code, o, len, entry, segs, file) {
            Err(e) => Err(e),
            Ok((reg, address, start, end)) => Ok(
                (
                    TranslationState {
                        code: st.code + seq![0u32, 0u32],
                        data: st.data + file.subrange(start, end),
                        lea_fixups: st.lea_fixups.push(
                            (st.code.len() as usize, reg.spec_riscv(), address),
                        ),
                        ..st
                    },
                    len,
                    false,
                    None,
                ),
            ),
        },
        X86operation::Xor => match register_operands(code, o) {
            Err(e) => Err(e),
            Ok((dst, src, _rex)) => Ok(
                (
                    TranslationState {
                        registers: regs.update(dst.spec_index(), 0),
                        code: st.code.push(
                            xor_word(dst.spec_riscv(), dst.spec_riscv(), src.spec_riscv()),
                        ),
                        ..st
                    },
                    len,
                    false,
                    None,
                ),
            ),
        },
        X86operation::Endbr64 => Ok((st, len, false, None)),
        X86operation::Sub => match sub_operands(code, o) {
            Err(e) => Err(e),
            Ok((dst, src, rex)) => {
                let dr = dst.spec_riscv();
                let sr = src.spec_riscv();
                Ok(
                    (
                        TranslationState {
                            registers: regs.update(
                                dst.spec_index(),
                                if rex_w(rex) {
                                    sub64(regs[dst.spec_index()], regs[src.spec_index()])
                                } else {
                                    sub32(
                                        regs[dst.spec_index()] as u32,
                                        regs[src.spec_index()] as u32,
                                    ) as u64
                                },
                            ),
                            code: st.code.push(
                                if rex_w(rex) {
                                    sub_word(dr, dr, sr)
                                } else {
                                    subw_word(dr, dr, sr)
                                },
                            ),
                            ..st
                        },
                        len,
                        false,
                        None,
                    ),
                )
            },
        },
        X86operation::Cmp => match register_operands(code, o) {
            Err(e) => Err(e),
            Ok((lhs, rhs, rex)) => Ok(
                (
                    TranslationState {
                        code: st.code + compare_words(lhs.spec_riscv(), rhs.spec_riscv(), rex_w(rex)),
                        ..st
                    },
                    (modrm_offset_at(code, o) - o + 1) as usize,
                    false,
                    None,
                ),
            ),
        },
        X86operation::Test => match register_operands(code, o) {
            Err(e) => Err(e),
            Ok((lhs, rhs, rex)) => match test_operand_size(code[modrm_offset_at(code, o) - 1], rex) {
                None => Err(TranslateError::Unsupported),
                Some(size) => Ok(
                    (
                        TranslationState {
                            code: st.code + test_words(lhs.spec_riscv(), rhs.spec_riscv(), size),
                            ..st
                        },
                        len,
                        false,
                        None,
                    ),
                ),
            },
        },
        X86operation::Pop => Ok(
            (
                TranslationState {
                    code: st.code + pop_words(
                        reg_from_number(rm_number(code[o as int], false)).spec_riscv(),
                    ),
                    ..st
                },
                len,
                false,
                None,
            ),
        ),
        X86operation::Nop => Ok(
            (TranslationState { code: st.code.push(addi_word(0, 0, 0)), ..st }, len, false, None),
        ),
        X86operation::Jmp => match jmp_form(code, o as int) {
            Err(e) => Err(e),
            Ok((jlen, disp)) => match branch_target(o, jlen, disp) {
                None => Err(TranslateError::AddressOverflow),
                Some(t) => Ok(
                    (
                        TranslationState {
                            code: st.code.push(jal_word(0, 0)),
                            branch_fixups: st.branch_fixups.push(
                                (st.code.len() as usize, t as usize),
                            ),
                            ..st
                        },
                        jlen as usize,
                        true,
                        Some((t as usize, regs)),
                    ),
                ),
            },
        },
        X86operation::Call => match le32_at(code, o + 1) {
            None => Err(TranslateError::Truncated),
            Some(d32) => match branch_target(o, (len as i64) as int, (d32 as i32) as int) {
                None => Err(TranslateError::AddressOverflow),
                Some(t) => Ok(
                    (
                        TranslationState {
                            code: st.code.push(jal_word(1, 0)),
                            call_fixups: st.call_fixups.push((st.code.len() as usize, t as usize)),
                            ..st
                        },
                        len,
                        false,
                        Some((t as usize, regs)),
                    ),
                ),
            },
        },
        X86operation::ConditionalJump => match jcc_displacement(code, o as int) {
            Err(e) => Err(e),
            Ok(disp) => match branch_target(o, (len as i64) as int, disp) {
                None => Err(TranslateError::AddressOverflow),
                Some(t) => if 0 <= t && (t as usize) < code.len() {
                    Ok(
                        (
                            TranslationState {
                                code: st.code + jcc_words(),
                                branch_fixups: st.branch_fixups.push(
                                    ((st.code.len() + 1) as usize, t as usize),
                                ),
                                ..st
                            },
                            len,
                            false,
                            Some((t as usize, regs)),
                        ),
                    )
                } else {
                    Ok((TranslationState { code: st.code + jcc_words(), ..st }, len, false, None))
                },
            },
        },
        X86operation::Ret => Ok(
            (TranslationState { code: st.code.push(jalr_word(0, 1, 0)), ..st }, len, true, None),
        ),
        X86operation::Add | X86operation::And | X86operation::Or | X86operation::Push => Err(
            TranslateError::Unsupported,
        ),
    }
}

/// Hands the instruction in `values` to the handler of its operation.
pub fn dispatch(values: HandelerInputValue) -> (r: Result<HandelerReturnValue, TranslateError>)
    requires
        values.code_offset < values.code@.len(),
    ensures
        match r {
            Ok(v) => handler_step(
                values.code@,
                values.header.e_entry,
                values.segments@,
                values.bytes@,
                values.code_offset,
                *values.operation,
                TranslationState {
                    registers: old(values.registers)@,
                    code: old(values.riscv_code)@,
                    data: old(values.riscv_data)@,
                    lea_fixups: old(values.lea_fixups)@,
                    branch_fixups: old(values.branch_fixups)@,
                    call_fixups: old(values.call_fixups)@,
                },
            ) == Ok::<(TranslationState, usize, bool, Option<(usize, Seq<u64>)>), TranslateError>(
                (
                    TranslationState {
                        registers: final(values.registers)@,
                        code: final(values.riscv_code)@,
                        data: final(values.riscv_data)@,
                        lea_fixups: final(values.lea_fixups)@,
                        branch_fixups: final(values.branch_fixups)@,
                        call_fixups: final(values.call_fixups)@,
                    },
                    v.operation_len,
                    v.finish_thread,
                    child_of(v.future),
                ),
            ),
            Err(e) => handler_step(
                values.code@,
                values.header.e_entry,
                values.segments@,
                values.bytes@,
                values.code_offset,
                *values.operation,
                TranslationState {
                    registers: old(values.registers)@,
                    code: old(values.riscv_code)@,
                    data: old(values.riscv_data)@,
                    lea_fixups: old(values.lea_fixups)@,
                    branch_fixups: old(values.branch_fixups)@,
                    call_fixups: old(values.call_fixups)@,
                },
            ) == Err::<(TranslationState, usize, bool, Option<(usize, Seq<u64>)>), TranslateError>(
                e,
            ),
        },
{
    reveal(handler_step);
    match values.operation.operation {
        X86operation::Syscall => syscall(values),
        X86operation::Mov => mov(values),
        X86operation::Lea => lea(values),
        X86operation::Xor => xor(values),
        X86operation::Endbr64 => Ok(endbr64(values)),
        X86operation::Sub => crate::operation::handeler::sub::sub(values),
        X86operation::Cmp => cmp(values),
        X86operation::Test => crate::operation::handeler::test::test(values),
        X86operation::Pop => Ok(pop(values)),
        X86operation::Nop => Ok(nop(values)),
        X86operation::Jmp => jmp(values),
        X86operation::Call => call(values),
        X86operation::ConditionalJump => conditionaljump(values),
        X86operation::Ret => Ok(ret(values)),
        X86operation::Add | X86operation::And | X86operation::Or | X86operation::Push => Err(
            TranslateError::Unsupported,
        ),
    }
}

/// An instruction the decoder accepts spans 1 to 10 bytes.
pub proof fn lemma_decoded_len(code: Seq<u8>, o: int)
    ensures
        decoded_at(code, o) matches Some(d) ==> 1 <= d.len <= 10,
{
    if 0 <= o < code.len() {
        let pos = if code[o] / 16 == 4 {
            o + 1
        } else {
            o
        };
        if pos < code.len() {
            let m = modrm_length(code, pos + 1);
        }
    }
}

/// A handler that succeeds on an instruction of 1 to 10 bytes advances by 1
/// to 10 bytes.
pub proof fn lemma_step_advances(
    code: Seq<u8>,
    entry: u64,
    segs: Seq<Elf64ProgramHeader>,
    file: Seq<u8>,
    o: usize,
    d: DecodedInstruction,
    st: TranslationState,
)
    requires
        1 <= d.len <= 10,
    ensures
        handler_step(code, entry, segs, file, o, d, st) matches Ok((_, adv, _, _)) ==> 1 <= adv
            <= 10,
{
    reveal(handler_step);
}

/// The further translations asked for, as plain values.
pub open spec fn pending_of(children: Seq<ChildTranslation>) -> Seq<(usize, Seq<u64>)> {
    children.map_values(|c: ChildTranslation| (c.code_offset, c.registers@))
}

/// The run from offset `o` in state `st`, with `pending` further
/// translations asked for so far: instruction after instruction, each
/// decoded and applied by its handler, until the code ends or a handler
/// ends the run. An instruction the decoder has no rule for is
/// `Unsupported`; a handler's error ends the run with that error.
#[verifier::opaque]
pub open spec fn run_from(
    code: Seq<u8>,
    entry: u64,
    segs: Seq<Elf64ProgramHeader>,
    file: Seq<u8>,
    o: nat,
    st: TranslationState,
    pending: Seq<(usize, Seq<u64>)>,
) -> Result<(TranslationState, Seq<(usize, Seq<u64>)>), TranslateError>
    decreases code.len() + 10 - o,
{
    if o >= code.len() {
        Ok((st, pending))
    } else {
        match decoded_at(code, o as int) {
            None => Err(TranslateError::Unsupported),
            Some(d) => match handler_step(code, entry, segs, file, o as usize, d, st) {
                Err(e) => Err(e),
                Ok((next, adv, fin, child)) => {
                    let pending2 = match child {
                        Some(c) => pending.push(c),
                        None => pending,
                    };
                    if fin {
                        Ok((next, pending2))
                    } else {
                        proof {
                            lemma_decoded_len(code, o as int);
                            lemma_step_advances(code, entry, segs, file, o as usize, d, st);
                        }
                        run_from(code, entry, segs, file, (o + adv) as nat, next, pending2)
                    }
                },
            },
        }
    }
}

/// One step of `run_from`: at an offset inside the code where the decoder
/// and the handler succeed, the run is the step followed by the rest of the
/// run (or the step alone when the handler ends the run).
proof fn lemma_run_step(
    code: Seq<u8>,
    entry: u64,
    segs: Seq<Elf64ProgramHeader>,
    file: Seq<u8>,
    o: usize,
    d: DecodedInstruction,
    st: TranslationState,
    pending: Seq<(usize, Seq<u64>)>,
    next: TranslationState,
    adv: usize,
    fin: bool,
    child: Option<(usize, Seq<u64>)>,
)
    requires
        o < code.len(),
        decoded_at(code, o as int) == Some(d),
        handler_step(code, entry, segs, file, o, d, st) == Ok::<
            (TranslationState, usize, bool, Option<(usize, Seq<u64>)>),
            TranslateError,
        >((next, adv, fin, child)),
    ensures
        run_from(code, entry, segs, file, o as nat, st, pending) == {
            let pending2 = match child {
                Some(c) => pending.push(c),
                None => pending,
            };
            if fin {
                Ok((next, pending2))
            } else {
                run_from(code, entry, segs, file, (o + adv) as nat, next, pending2)
            }
        },
{
    reveal(run_from);
}

/// `run_from` at the end of the code is the state reached.
proof fn lemma_run_end(
    code: Seq<u8>,
    entry: u64,
    segs: Seq<Elf64ProgramHeader>,
    file: Seq<u8>,
    o: nat,
    st: TranslationState,
    pending: Seq<(usize, Seq<u64>)>,
)
    requires
        o >= code.len(),
    ensures
        run_from(code, entry, segs, file, o, st, pending) == Ok::<
            (TranslationState, Seq<(usize, Seq<u64>)>),
            TranslateError,
        >((st, pending)),
{
    reveal(run_from);
}

/// `run_from` at an instruction the decoder has no rule for is `Unsupported`.
proof fn lemma_run_undecodable(
    code: Seq<u8>,
    entry: u64,
    segs: Seq<Elf64ProgramHeader>,
    file: Seq<u8>,
    o: nat,
    st: TranslationState,
    pending: Seq<(usize, Seq<u64>)>,
)
    requires
        o < code.len(),
        decoded_at(code, o as int) is None,
    ensures
        run_from(code, entry, segs, file, o, st, pending) == Err::<
            (TranslationState, Seq<(usize, Seq<u64>)>),
            TranslateError,
        >(TranslateError::Unsupported),
{
    reveal(run_from);
}

/// `run_from` where the handler fails is the handler's error.
proof fn lemma_run_handler_error(
    code: Seq<u8>,
    entry: u64,
    segs: Seq<Elf64ProgramHeader>,
    file: Seq<u8>,
    o: usize,
    d: DecodedInstruction,
    st: TranslationState,
    pending: Seq<(usize, Seq<u64>)>,
    e: TranslateError,
)
    requires
        o < code.len(),
        decoded_at(code, o as int) == Some(d),
        handler_step(code, entry, segs, file, o, d, st) == Err::<
            (TranslationState, usize, bool, Option<(usize, Seq<u64>)>),
            TranslateError,
        >(e),
    ensures
        run_from(code, entry, segs, file, o as nat, st, pending) == Err::<
            (TranslationState, Seq<(usize, Seq<u64>)>),
            TranslateError,
        >(e),
{
    reveal(run_from);
}

/// Nothing emitted yet, with the given register values.
pub open spec fn initial_state(registers: Seq<u64>) -> TranslationState {
    TranslationState {
        registers,
        code: Seq::empty(),
        data: Seq::empty(),
        lea_fixups: Seq::empty(),
        branch_fixups: Seq::empty(),
        call_fixups: Seq::empty(),
    }
}

/// Translates the run of the context's code that starts at `code_offset`,
/// with `registers` as the known x86 register values. Returns the run's
/// translation (without children; `code_address` is `code_offset`) and the
/// further translations its branches ask for, in order, exactly as
/// `run_from` describes; or the error that stops the run.
#[verifier::rlimit(40)]
pub fn translate(
    translation_context: &TranslationContext,
    code_offset: usize,
    registers: [u64; 16],
) -> (r: Result<(TranslationResult, Vec<ChildTranslation>), TranslateError>)
    requires
        translation_context.code@.len() <= isize::MAX,
    ensures
        match run_from(
            translation_context.code@,
            translation_context.header.e_entry,
            translation_context.segments@,
            translation_context.bytes@,
            code_offset as nat,
            initial_state(registers@),
            Seq::empty(),
        ) {
            Ok((st, pending)) => r matches Ok((result, children)) && {
                &&& result.code@ == st.code
                &&& result.data@ == st.data
                &&& result.lea_fixups@ == st.lea_fixups
                &&& result.branch_fixups@ == st.branch_fixups
                &&& result.call_fixups@ == st.call_fixups
                &&& result.code_address == code_offset
                &&& result.children@.len() == 0
                &&& pending_of(children@) == pending
            },
            Err(e) => r matches Err(e2) && e2 == e,
        },
{
    let code: &[u8] = &translation_context.code;
    let header: &Elf64Header = &translation_context.header;
    let bytes: &Vec<u8> = &translation_context.bytes;
    let segments: &Vec<Elf64ProgramHeader> = &translation_context.segments;
    let ghost entry = header.e_entry;
    let code_address = code_offset;
    let ghost init_regs = registers@;

    let mut regs = registers;
    let mut riscv_code: Vec<u32> = Vec::new();
    let mut riscv_data: Vec<u8> = Vec::new();
    let mut lea_fixups: Vec<(usize, u8, u64)> = Vec::new();
    let mut branch_fixups: Vec<(usize, usize)> = Vec::new();
    let mut call_fixups: Vec<(usize, usize)> = Vec::new();
    let mut children: Vec<ChildTranslation> = Vec::new();
    let mut offset = code_offset;
    if offset >= code.len() {
        assert(pending_of(children@) =~= Seq::<(usize, Seq<u64>)>::empty());
        proof {
            lemma_run_end(
                code@,
                entry,
                segments@,
                bytes@,
                offset as nat,
                initial_state(regs@),
                Seq::empty(),
            );
        }
        return Ok(
            (
                TranslationResult {
                    code: riscv_code,
                    data: riscv_data,
                    lea_fixups,
                    branch_fixups,
                    call_fixups,
                    code_address,
                    children: Vec::new(),
                },
                children,
            ),
        );
    }
    let ghost whole = run_from(
        code@,
        entry,
        segments@,
        bytes@,
        offset as nat,
        initial_state(regs@),
        Seq::empty(),
    );
    assert(pending_of(children@) =~= Seq::<(usize, Seq<u64>)>::empty());

    loop
        invariant
            code@ == translation_context.code@,
            entry == translation_context.header.e_entry,
            entry == header.e_entry,
            segments@ == translation_context.segments@,
            bytes@ == translation_context.bytes@,
            code@.len() <= isize::MAX,
            offset <= code@.len() + 10,
            code_address == code_offset,
            init_regs == registers@,
            whole == run_from(
                translation_context.code@,
                translation_context.header.e_entry,
                translation_context.segments@,
                translation_context.bytes@,
                code_address as nat,
                initial_state(init_regs),
                Seq::empty(),
            ),
            whole == run_from(
                code@,
                entry,
                segments@,
                bytes@,
                offset as nat,
                TranslationState {
                    registers: regs@,
                    code: riscv_code@,
                    data: riscv_data@,
                    lea_fixups: lea_fixups@,
                    branch_fixups: branch_fixups@,
                    call_fixups: call_fixups@,
                },
                pending_of(children@),
            ),
        decreases code@.len() + 10 - offset,
    {
        if offset >= code.len() {
            proof {
                lemma_run_end(
                    code@,
                    entry,
                    segments@,
                    bytes@,
                    offset as nat,
                    TranslationState {
                        registers: regs@,
                        code: riscv_code@,
                        data: riscv_data@,
                        lea_fixups: lea_fixups@,
                        branch_fixups: branch_fixups@,
                        call_fixups: call_fixups@,
                    },
                    pending_of(children@),
                );
            }
            return Ok(
                (
                    TranslationResult {
                        code: riscv_code,
                        data: riscv_data,
                        lea_fixups,
                        branch_fixups,
                        call_fixups,
                        code_address,
                        children: Vec::new(),
                    },
                    children,
                ),
            );
        }
        let operation = match X86operation::try_decode(code, offset) {
            Some(d) => d,
            None => {
                proof {
                    lemma_run_undecodable(
                        code@,
                        entry,
                        segments@,
                        bytes@,
                        offset as nat,
                        TranslationState {
                            registers: regs@,
                            code: riscv_code@,
                            data: riscv_data@,
                            lea_fixups: lea_fixups@,
                            branch_fixups: branch_fixups@,
                            call_fixups: call_fixups@,
                        },
                        pending_of(children@),
                    );
                }
                return Err(TranslateError::Unsupported);
            },
        };
        let ghost before = TranslationState {
            registers: regs@,
            code: riscv_code@,
            data: riscv_data@,
            lea_fixups: lea_fixups@,
            branch_fixups: branch_fixups@,
            call_fixups: call_fixups@,
        };

        let ghost pending_at = pending_of(children@);
        let handler_return_value = match dispatch(
            HandelerInputValue {
                code,
                code_offset: offset,
                registers: &mut regs,
                operation: &operation,
                header,
                translation_context,
                bytes,
                riscv_data: &mut riscv_data,
                riscv_code: &mut riscv_code,
                lea_fixups: &mut lea_fixups,
                branch_fixups: &mut branch_fixups,
                call_fixups: &mut call_fixups,
                segments,
            },
        ) {
            Ok(v) => v,
            Err(e) => {
                proof {
                    lemma_run_handler_error(
                        code@,
                        entry,
                        segments@,
                        bytes@,
                        offset,
                        operation,
                        before,
                        pending_at,
                        e,
                    );
                }
                return Err(e);
            },
        };
        let ghost after = TranslationState {
            registers: regs@,
            code: riscv_code@,
            data: riscv_data@,
            lea_fixups: lea_fixups@,
            branch_fixups: branch_fixups@,
            call_fixups: call_fixups@,
        };
        let ghost pending_before = pending_of(children@);
        proof {
            lemma_step_advances(code@, entry, segments@, bytes@, offset, operation, before);
            lemma_run_step(
                code@,
                entry,
                segments@,
                bytes@,
                offset,
                operation,
                before,
                pending_before,
                after,
                handler_return_value.operation_len,
                handler_return_value.finish_thread,
                child_of(handler_return_value.future),
            );
        }

        offset += handler_return_value.operation_len;

        if let Some(child) = handler_return_value.future {
            children.push(child);
            assert(pending_of(children@) =~= pending_before.push((child.code_offset, child.registers@)));
        }

        if handler_return_value.finish_thread {
            return Ok(
                (
                    TranslationResult {
                        code: riscv_code,
                        data: riscv_data,
                        lea_fixups,
                        branch_fixups,
                        call_fixups,
                        code_address,
                        children: Vec::new(),
                    },
                    children,
                ),
            );
        }
    }
}

} // verus!

verus! {

/// Every fixup of `st` names emitted code: a lea fixup the two words it
/// fills, a branch or call fixup the word it fills.
pub open spec fn fixups_in(st: TranslationState) -> bool {
    &&& forall|i: int|
        0 <= i < st.lea_fixups.len() ==> #[trigger] st.lea_fixups[i].0 + 1 < st.code.len()
    &&& forall|i: int|
        0 <= i < st.branch_fixups.len() ==> #[trigger] st.branch_fixups[i].0 < st.code.len()
    &&& forall|i: int|
        0 <= i < st.call_fixups.len() ==> #[trigger] st.call_fixups[i].0 < st.code.len()
}

/// A handler keeps every fixup naming emitted code: the code only grows,
/// and a fixup it adds names words it emits in the same step.
pub proof fn lemma_step_keeps_fixups_in(
    code: Seq<u8>,
    entry: u64,
    segs: Seq<Elf64ProgramHeader>,
    file: Seq<u8>,
    o: usize,
    d: DecodedInstruction,
    st: TranslationState,
)
    requires
        fixups_in(st),
    ensures
        handler_step(code, entry, segs, file, o, d, st) matches Ok((next, _, _, _)) ==> fixups_in(
            next,
        ),
{
    reveal(handler_step);
    let n = st.code.len();
    assert((n as usize) <= n);
    assert(((n + 1) as usize) <= n + 1);
}

/// Every fixup of a run names code of that run: in the state that
/// `run_from` reaches from a state whose fixups name its code, each lea
/// fixup names two words of the run's code and each branch or call fixup
/// one word.
pub proof fn lemma_run_keeps_fixups_in(
    code: Seq<u8>,
    entry: u64,
    segs: Seq<Elf64ProgramHeader>,
    file: Seq<u8>,
    o: nat,
    st: TranslationState,
    pending: Seq<(usize, Seq<u64>)>,
)
    requires
        fixups_in(st),
    ensures
        run_from(code, entry, segs, file, o, st, pending) matches Ok((last, _)) ==> fixups_in(last),
    decreases code.len() + 10 - o,
{
    reveal(run_from);
    if o < code.len() {
        if let Some(d) = decoded_at(code, o as int) {
            lemma_step_keeps_fixups_in(code, entry, segs, file, o as usize, d, st);
            if let Ok((next, adv, fin, child)) = handler_step(code, entry, segs, file, o as usize, d, st) {
                if !fin {
                    lemma_decoded_len(code, o as int);
                    lemma_step_advances(code, entry, segs, file, o as usize, d, st);
                    let pending2 = match child {
                        Some(c) => pending.push(c),
                        None => pending,
                    };
                    lemma_run_keeps_fixups_in(code, entry, segs, file, (o + adv) as nat, next, pending2);
                }
            }
        }
    }
}

/// What `translate` returns names its own code: each lea fixup of the run
/// that starts at `code_offset` names two words of its code, each branch or
/// call fixup one word.
pub proof fn lemma_translation_fixups_in(
    code: Seq<u8>,
    entry: u64,
    segs: Seq<Elf64ProgramHeader>,
    file: Seq<u8>,
    code_offset: usize,
    registers: Seq<u64>,
)
    ensures
        run_from(code, entry, segs, file, code_offset as nat, initial_state(registers), Seq::empty())
            matches Ok((last, _)) ==> fixups_in(last),
{
    lemma_run_keeps_fixups_in(
        code,
        entry,
        segs,
        file,
        code_offset as nat,
        initial_state(registers),
        Seq::empty(),
    );
}

} // verus!

verus! {

/// The fixups of `st` lie in code order and apart: each lea fixup's pair
/// of words before the next one's, each branch fixup's word before the
/// next one's, each call fixup's word before the next one's.
pub open spec fn fixups_ordered(st: TranslationState) -> bool {
    &&& forall|i: int, j: int|
        #![trigger st.lea_fixups[i], st.lea_fixups[j]]
        0 <= i < j < st.lea_fixups.len() ==> st.lea_fixups[i].0 + 1 < st.lea_fixups[j].0
    &&& forall|i: int, j: int|
        #![trigger st.branch_fixups[i], st.branch_fixups[j]]
        0 <= i < j < st.branch_fixups.len() ==> st.branch_fixups[i].0 < st.branch_fixups[j].0
    &&& forall|i: int, j: int|
        #![trigger st.call_fixups[i], st.call_fixups[j]]
        0 <= i < j < st.call_fixups.len() ==> st.call_fixups[i].0 < st.call_fixups[j].0
}

/// Every fixup of `st` names its placeholder: a lea fixup two zero words,
/// a branch fixup a `jal x0, 0` (from `jmp`) or a `bne x25, x0, 0` (from a
/// conditional jump), a call fixup a `jal x1, 0`.
pub open spec fn placeholders_in(st: TranslationState) -> bool {
    &&& forall|i: int|
        0 <= i < st.lea_fixups.len() ==> st.code[(#[trigger] st.lea_fixups[i]).0 as int] == 0
            && st.code[st.lea_fixups[i].0 + 1] == 0
    &&& forall|i: int|
        0 <= i < st.branch_fixups.len() ==> st.code[(#[trigger] st.branch_fixups[i]).0 as int]
            == jal_word(0, 0) || st.code[st.branch_fixups[i].0 as int] == bne_word(JUNKREG0, 0, 0)
    &&& forall|i: int|
        0 <= i < st.call_fixups.len() ==> st.code[(#[trigger] st.call_fixups[i]).0 as int]
            == jal_word(1, 0)
}

/// A handler only adds code, and a fixup it adds names code past every
/// earlier fixup, on the placeholder it emits: the code does not shrink,
/// and while its length fits in a `usize` the fixups stay ordered and on
/// their placeholders.
pub proof fn lemma_step_keeps_fixups_ordered(
    code: Seq<u8>,
    entry: u64,
    segs: Seq<Elf64ProgramHeader>,
    file: Seq<u8>,
    o: usize,
    d: DecodedInstruction,
    st: TranslationState,
)
    requires
        fixups_in(st),
    ensures
        handler_step(code, entry, segs, file, o, d, st) matches Ok((next, _, _, _)) ==> {
            &&& next.code.len() >= st.code.len()
            &&& fixups_ordered(st) && next.code.len() <= usize::MAX ==> fixups_ordered(next)
            &&& placeholders_in(st) && next.code.len() <= usize::MAX ==> placeholders_in(next)
        },
{
    reveal(handler_step);
    let n = st.code.len();
    if let Ok((next, _, _, _)) = handler_step(code, entry, segs, file, o, d, st) {
        assert(next.code.subrange(0, n as int) =~= st.code);
        if placeholders_in(st) && next.code.len() <= usize::MAX {
            assert forall|i: int| 0 <= i < next.lea_fixups.len() implies next.code[(
            #[trigger] next.lea_fixups[i]).0 as int] == 0 && next.code[next.lea_fixups[i].0 + 1]
                == 0 by {
                if i < st.lea_fixups.len() {
                    assert(st.lea_fixups[i].0 + 1 < n);
                    assert(next.code.subrange(0, n as int)[st.lea_fixups[i].0 as int] == next.code[st.lea_fixups[i].0 as int]);
                    assert(next.code.subrange(0, n as int)[st.lea_fixups[i].0 + 1] == next.code[st.lea_fixups[i].0 + 1]);
                }
            }
            assert forall|i: int| 0 <= i < next.branch_fixups.len() implies next.code[(
            #[trigger] next.branch_fixups[i]).0 as int] == jal_word(0, 0)
                || next.code[next.branch_fixups[i].0 as int] == bne_word(JUNKREG0, 0, 0) by {
                if i < st.branch_fixups.len() {
                    assert(st.branch_fixups[i].0 < n);
                    assert(next.code.subrange(0, n as int)[st.branch_fixups[i].0 as int] == next.code[st.branch_fixups[i].0 as int]);
                }
            }
            assert forall|i: int| 0 <= i < next.call_fixups.len() implies next.code[(
            #[trigger] next.call_fixups[i]).0 as int] == jal_word(1, 0) by {
                if i < st.call_fixups.len() {
                    assert(st.call_fixups[i].0 < n);
                    assert(next.code.subrange(0, n as int)[st.call_fixups[i].0 as int] == next.code[st.call_fixups[i].0 as int]);
                }
            }
        }
        if fixups_ordered(st) && next.code.len() <= usize::MAX {
            assert forall|i: int, j: int|
                #![trigger next.lea_fixups[i], next.lea_fixups[j]]
                0 <= i < j < next.lea_fixups.len() implies next.lea_fixups[i].0 + 1
                < next.lea_fixups[j].0 by {
                if j >= st.lea_fixups.len() {
                    assert(st.lea_fixups[i].0 + 1 < n);
                }
            }
            assert forall|i: int, j: int|
                #![trigger next.branch_fixups[i], next.branch_fixups[j]]
                0 <= i < j < next.branch_fixups.len() implies next.branch_fixups[i].0
                < next.branch_fixups[j].0 by {
                if j >= st.branch_fixups.len() {
                    assert(st.branch_fixups[i].0 < n);
                }
            }
            assert forall|i: int, j: int|
                #![trigger next.call_fixups[i], next.call_fixups[j]]
                0 <= i < j < next.call_fixups.len() implies next.call_fixups[i].0
                < next.call_fixups[j].0 by {
                if j >= st.call_fixups.len() {
                    assert(st.call_fixups[i].0 < n);
                }
            }
        }
    }
}

/// Over a whole run the code does not shrink, and, while its length fits
/// in a `usize`, fixups that were ordered stay ordered and fixups that
/// named their placeholders keep naming them.
pub proof fn lemma_run_keeps_fixups_ordered(
    code: Seq<u8>,
    entry: u64,
    segs: Seq<Elf64ProgramHeader>,
    file: Seq<u8>,
    o: nat,
    st: TranslationState,
    pending: Seq<(usize, Seq<u64>)>,
)
    requires
        fixups_in(st),
    ensures
        run_from(code, entry, segs, file, o, st, pending) matches Ok((last, _)) ==> {
            &&& last.code.len() >= st.code.len()
            &&& fixups_ordered(st) && last.code.len() <= usize::MAX ==> fixups_ordered(last)
            &&& placeholders_in(st) && last.code.len() <= usize::MAX ==> placeholders_in(last)
        },
    decreases code.len() + 10 - o,
{
    reveal(run_from);
    if o < code.len() {
        if let Some(d) = decoded_at(code, o as int) {
            lemma_step_keeps_fixups_in(code, entry, segs, file, o as usize, d, st);
            lemma_step_keeps_fixups_ordered(code, entry, segs, file, o as usize, d, st);
            if let Ok((next, adv, fin, child)) = handler_step(code, entry, segs, file, o as usize, d, st) {
                if !fin {
                    lemma_decoded_len(code, o as int);
                    lemma_step_advances(code, entry, segs, file, o as usize, d, st);
                    let pending2 = match child {
                        Some(c) => pending.push(c),
                        None => pending,
                    };
                    lemma_run_keeps_fixups_ordered(code, entry, segs, file, (o + adv) as nat, next, pending2);
                }
            }
        }
    }
}

/// The fixups of a run lie in code order and apart: in what `translate`
/// returns (whose code length fits in a `usize`), each lea fixup's pair of
/// words comes before the next lea fixup's, each branch fixup's word
/// before the next branch fixup's, and each call fixup's word before the
/// next call fixup's.
pub proof fn lemma_translation_fixups_ordered(
    code: Seq<u8>,
    entry: u64,
    segs: Seq<Elf64ProgramHeader>,
    file: Seq<u8>,
    code_offset: usize,
    registers: Seq<u64>,
)
    ensures
        run_from(code, entry, segs, file, code_offset as nat, initial_state(registers), Seq::empty())
            matches Ok((last, _)) ==> (last.code.len() <= usize::MAX ==> fixups_ordered(last)),
{
    lemma_run_keeps_fixups_ordered(
        code,
        entry,
        segs,
        file,
        code_offset as nat,
        initial_state(registers),
        Seq::empty(),
    );
}

} // verus!

verus! {

/// `pending` asks to translate the x86 offset `target`.
pub open spec fn asks_for(pending: Seq<(usize, Seq<u64>)>, target: usize) -> bool {
    exists|j: int| 0 <= j < pending.len() && #[trigger] pending[j].0 == target
}

/// Every branch and call fixup of `st` targets an x86 offset that
/// `pending` asks to translate.
pub open spec fn targets_pending(st: TranslationState, pending: Seq<(usize, Seq<u64>)>) -> bool {
    &&& forall|i: int|
        0 <= i < st.branch_fixups.len() ==> asks_for(pending, #[trigger] st.branch_fixups[i].1)
    &&& forall|i: int|
        0 <= i < st.call_fixups.len() ==> asks_for(pending, #[trigger] st.call_fixups[i].1)
}

/// A handler that adds a branch or call fixup asks for its target to be
/// translated.
pub proof fn lemma_step_keeps_targets_pending(
    code: Seq<u8>,
    entry: u64,
    segs: Seq<Elf64ProgramHeader>,
    file: Seq<u8>,
    o: usize,
    d: DecodedInstruction,
    st: TranslationState,
    pending: Seq<(usize, Seq<u64>)>,
)
    requires
        targets_pending(st, pending),
    ensures
        handler_step(code, entry, segs, file, o, d, st) matches Ok((next, _, _, child))
            ==> targets_pending(
            next,
            match child {
                Some(c) => pending.push(c),
                None => pending,
            },
        ),
{
    reveal(handler_step);
    if let Ok((next, _, _, child)) = handler_step(code, entry, segs, file, o, d, st) {
        let pending2 = match child {
            Some(c) => pending.push(c),
            None => pending,
        };
        assert forall|i: int| 0 <= i < next.branch_fixups.len() implies asks_for(
            pending2,
            #[trigger] next.branch_fixups[i].1,
        ) by {
            if i < st.branch_fixups.len() {
                assert(asks_for(pending, st.branch_fixups[i].1));
                let j = choose|j: int| 0 <= j < pending.len() && #[trigger] pending[j].0 == st.branch_fixups[i].1;
                assert(pending2[j] == pending[j]);
            } else {
                assert(pending2[pending.len() as int].0 == next.branch_fixups[i].1);
            }
        }
        assert forall|i: int| 0 <= i < next.call_fixups.len() implies asks_for(
            pending2,
            #[trigger] next.call_fixups[i].1,
        ) by {
            if i < st.call_fixups.len() {
                assert(asks_for(pending, st.call_fixups[i].1));
                let j = choose|j: int| 0 <= j < pending.len() && #[trigger] pending[j].0 == st.call_fixups[i].1;
                assert(pending2[j] == pending[j]);
            } else {
                assert(pending2[pending.len() as int].0 == next.call_fixups[i].1);
            }
        }
        assert(targets_pending(next, pending2));
    }
}

/// Over a whole run, every branch or call fixup keeps a target that the
/// run asks to translate.
pub proof fn lemma_run_keeps_targets_pending(
    code: Seq<u8>,
    entry: u64,
    segs: Seq<Elf64ProgramHeader>,
    file: Seq<u8>,
    o: nat,
    st: TranslationState,
    pending: Seq<(usize, Seq<u64>)>,
)
    requires
        targets_pending(st, pending),
    ensures
        run_from(code, entry, segs, file, o, st, pending) matches Ok((last, asked))
            ==> targets_pending(last, asked),
    decreases code.len() + 10 - o,
{
    reveal(run_from);
    if o < code.len() {
        if let Some(d) = decoded_at(code, o as int) {
            lemma_step_keeps_targets_pending(code, entry, segs, file, o as usize, d, st, pending);
            if let Ok((next, adv, fin, child)) = handler_step(code, entry, segs, file, o as usize, d, st) {
                if !fin {
                    lemma_decoded_len(code, o as int);
                    lemma_step_advances(code, entry, segs, file, o as usize, d, st);
                    let pending2 = match child {
                        Some(c) => pending.push(c),
                        None => pending,
                    };
                    lemma_run_keeps_targets_pending(code, entry, segs, file, (o + adv) as nat, next, pending2);
                }
            }
        }
    }
}

/// A run asks to translate the target of each of its branches and calls:
/// in what `translate` returns, the x86 target of every branch or call
/// fixup is the offset of one of the further translations it asks for.
pub proof fn lemma_translation_targets_pending(
    code: Seq<u8>,
    entry: u64,
    segs: Seq<Elf64ProgramHeader>,
    file: Seq<u8>,
    code_offset: usize,
    registers: Seq<u64>,
)
    ensures
        run_from(code, entry, segs, file, code_offset as nat, initial_state(registers), Seq::empty())
            matches Ok((last, asked)) ==> targets_pending(last, asked),
{
    lemma_run_keeps_targets_pending(
        code,
        entry,
        segs,
        file,
        code_offset as nat,
        initial_state(registers),
        Seq::empty(),
    );
}

} // verus!

verus! {

/// Every fixup of a run names its placeholder word: in what `translate`
/// returns (whose code length fits in a `usize`), each lea fixup names two
/// zero words, each branch fixup a `jal x0, 0` or a `bne x25, x0, 0`, and
/// each call fixup a `jal x1, 0`.
pub proof fn lemma_translation_placeholders(
    code: Seq<u8>,
    entry: u64,
    segs: Seq<Elf64ProgramHeader>,
    file: Seq<u8>,
    code_offset: usize,
    registers: Seq<u64>,
)
    ensures
        run_from(code, entry, segs, file, code_offset as nat, initial_state(registers), Seq::empty())
            matches Ok((last, _)) ==> (last.code.len() <= usize::MAX ==> placeholders_in(last)),
{
    lemma_run_keeps_fixups_ordered(
        code,
        entry,
        segs,
        file,
        code_offset as nat,
        initial_state(registers),
        Seq::empty(),
    );
}

} // verus!

verus! {

/// A byte read as a signed 8-bit displacement (two's complement).
pub open spec fn signed_byte(b: u8) -> int {
    if b < 128 {
        b as int
    } else {
        b as int - 256
    }
}

/// `mov r/m64, r64` between registers moves the source into the
/// destination: for `0x48`, `0x49` or `0x4C` then `0x89 modrm`, the
/// destination is register number `modrm % 8` (plus 8 under REX.B, 0x49)
/// and the source register number `(modrm / 8) % 8` (plus 8 under REX.R,
/// 0x4C); the step emits `addi home(dst), home(src), 0` and records the
/// source's tracked value as the destination's. Under REX.R the source is
/// one of r8..r15, whose slot is its number and whose home is x16..x23.
pub proof fn lemma_mov_register_moves_source(
    code: Seq<u8>,
    entry: u64,
    segs: Seq<Elf64ProgramHeader>,
    file: Seq<u8>,
    o: usize,
    d: DecodedInstruction,
    st: TranslationState,
)
    requires
        o + 2 < code.len(),
        code[o as int] == 0x48 || code[o as int] == 0x49 || code[o as int] == 0x4C,
        code[o + 1] == 0x89,
        d.operation == X86operation::Mov,
    ensures
        ({
            let m = code[o + 2];
            let dn: int = m as int % 8 + if code[o as int] == 0x49 {
                8int
            } else {
                0int
            };
            let sn: int = (m as int / 8) % 8 + if code[o as int] == 0x4C {
                8int
            } else {
                0int
            };
            let dst = reg_from_number(dn);
            let src = reg_from_number(sn);
            &&& handler_step(code, entry, segs, file, o, d, st) == Ok::<
                (TranslationState, usize, bool, Option<(usize, Seq<u64>)>),
                TranslateError,
            >(
                (
                    TranslationState {
                        registers: st.registers.update(
                            dst.spec_index(),
                            st.registers[src.spec_index()],
                        ),
                        code: st.code.push(addi_word(dst.spec_riscv(), src.spec_riscv(), 0)),
                        ..st
                    },
                    d.len,
                    false,
                    None,
                ),
            )
            &&& code[o as int] == 0x4C ==> src.spec_index() == sn && src.spec_riscv() == 8 + sn
        }),
{
    reveal(handler_step);
}

/// `jmp rel8` (0xEB) jumps by the signed displacement byte: the target is
/// `offset + 2 + signed_byte(disp)`, before the jump for a byte of 0x80 or
/// more. The step emits the `jal x0` placeholder, records a branch fixup
/// from it to the target, ends the run, and asks for the target to be
/// translated with the current register values.
pub proof fn lemma_jmp_short_target(
    code: Seq<u8>,
    entry: u64,
    segs: Seq<Elf64ProgramHeader>,
    file: Seq<u8>,
    o: usize,
    d: DecodedInstruction,
    st: TranslationState,
)
    requires
        o + 1 < code.len(),
        o <= i64::MAX - 256,
        code[o as int] == 0xEB,
        d.operation == X86operation::Jmp,
    ensures
        ({
            let t = (o + 2 + signed_byte(code[o + 1])) as i64;
            handler_step(code, entry, segs, file, o, d, st) == Ok::<
                (TranslationState, usize, bool, Option<(usize, Seq<u64>)>),
                TranslateError,
            >(
                (
                    TranslationState {
                        code: st.code.push(jal_word(0, 0)),
                        branch_fixups: st.branch_fixups.push((st.code.len() as usize, t as usize)),
                        ..st
                    },
                    2,
                    true,
                    Some((t as usize, st.registers)),
                ),
            )
        }),
{
    reveal(handler_step);
    let b = code[o + 1];
    assert((b as i8) as int == signed_byte(b)) by (bit_vector);
    assert((o as i64) as int == o as int);
    assert(jmp_form(code, o as int) == Ok::<(int, int), TranslateError>((2, signed_byte(b))));
    assert(branch_target(o, 2, signed_byte(b)) == Some((o + 2 + signed_byte(b)) as i64));
    assert(code.len() - o > 1);
}

/// `je rel8` (0x74) branches by the signed displacement byte: the target
/// is `offset + len + signed_byte(disp)`. The step emits `jcc_words`; when
/// the target lies inside the code it records a branch fixup from the
/// `bne` to the target and asks for the target to be translated with the
/// current register values; the run goes on.
pub proof fn lemma_je_short_target(
    code: Seq<u8>,
    entry: u64,
    segs: Seq<Elf64ProgramHeader>,
    file: Seq<u8>,
    o: usize,
    d: DecodedInstruction,
    st: TranslationState,
)
    requires
        o + 1 < code.len(),
        o <= i64::MAX - 256,
        d.len <= 10,
        code[o as int] == 0x74,
        d.operation == X86operation::ConditionalJump,
    ensures
        ({
            let t = (o + d.len + signed_byte(code[o + 1])) as i64;
            handler_step(code, entry, segs, file, o, d, st) == Ok::<
                (TranslationState, usize, bool, Option<(usize, Seq<u64>)>),
                TranslateError,
            >(
                if 0 <= t && (t as usize) < code.len() {
                    (
                        TranslationState {
                            code: st.code + jcc_words(),
                            branch_fixups: st.branch_fixups.push(
                                ((st.code.len() + 1) as usize, t as usize),
                            ),
                            ..st
                        },
                        d.len,
                        false,
                        Some((t as usize, st.registers)),
                    )
                } else {
                    (TranslationState { code: st.code + jcc_words(), ..st }, d.len, false, None)
                },
            )
        }),
{
    reveal(handler_step);
    let b = code[o + 1];
    assert((b as i8) as int == signed_byte(b)) by (bit_vector);
    assert((o as i64) as int == o as int);
    assert((d.len as i64) as int == d.len as int);
    assert(code.len() - o > 1);
}

/// `sub r/m, r` between registers subtracts the source from the
/// destination: for `0x29 modrm` (32 bits) or `0x48 0x29 modrm` (64 bits)
/// with `mod == 3`, the destination is register number `modrm % 8` and the
/// source `(modrm / 8) % 8`; the destination's tracked value becomes
/// `dst - src` modulo 2^32 (of the low 32 bits, zero-extended) or modulo
/// 2^64, the destination the minuend.
pub proof fn lemma_sub_tracks_difference(
    code: Seq<u8>,
    entry: u64,
    segs: Seq<Elf64ProgramHeader>,
    file: Seq<u8>,
    o: usize,
    d: DecodedInstruction,
    st: TranslationState,
)
    requires
        d.operation == X86operation::Sub,
        code[o as int] == 0x29 && o + 1 < code.len() && code[o + 1] >= 0xC0 || code[o as int]
            == 0x48 && o + 2 < code.len() && code[o + 1] == 0x29 && code[o + 2] >= 0xC0,
        st.registers.len() == 16,
    ensures
        ({
            let wide = code[o as int] == 0x48;
            let m = if wide {
                code[o + 2]
            } else {
                code[o + 1]
            };
            let dst = reg_from_number(m as int % 8);
            let src = reg_from_number((m as int / 8) % 8);
            let a = st.registers[dst.spec_index()];
            let b = st.registers[src.spec_index()];
            let diff: u64 = if wide {
                ((a as int - b as int) % 0x1_0000_0000_0000_0000int) as u64
            } else {
                (((a as u32) as int - (b as u32) as int) % 0x1_0000_0000int) as u64
            };
            handler_step(code, entry, segs, file, o, d, st) matches Ok((next, _, false, None))
                && next.registers == st.registers.update(dst.spec_index(), diff)
        }),
{
    reveal(handler_step);
    let wide = code[o as int] == 0x48;
    let m = if wide {
        code[o + 2]
    } else {
        code[o + 1]
    };
    let dst = reg_from_number(m as int % 8);
    let src = reg_from_number((m as int / 8) % 8);
    lemma_register_homes(dst, src);
    let a = st.registers[dst.spec_index()];
    let b = st.registers[src.spec_index()];
    let x = a as u32;
    let y = b as u32;
    if x >= y {
        assert((x as int - y as int) % 0x1_0000_0000int == x as int - y as int);
    } else {
        assert((x as int - y as int) % 0x1_0000_0000int == x as int - y as int + 0x1_0000_0000int);
    }
    if a >= b {
        assert((a as int - b as int) % 0x1_0000_0000_0000_0000int == a as int - b as int);
    } else {
        assert((a as int - b as int) % 0x1_0000_0000_0000_0000int == a as int - b as int
            + 0x1_0000_0000_0000_0000int);
    }
}

} // verus!

verus! {

/// `mov r32, imm32` (0xB8 + r) loads the four bytes after the opcode, read
/// little-endian: the step records in register `r`'s slot a value below
/// 2^32 whose little-endian bytes are those four, emits the `addi` of it
/// into `r`'s home from x0, and changes no other slot.
pub proof fn lemma_mov_imm32_reads_immediate(
    code: Seq<u8>,
    entry: u64,
    segs: Seq<Elf64ProgramHeader>,
    file: Seq<u8>,
    o: usize,
    d: DecodedInstruction,
    st: TranslationState,
)
    requires
        o + 5 <= code.len(),
        0xB8 <= code[o as int] <= 0xBF,
        d.operation == X86operation::Mov,
        st.registers.len() == 16,
    ensures
        ({
            let reg = reg_from_number(code[o as int] - 0xB8);
            handler_step(code, entry, segs, file, o, d, st) matches Ok((next, len, false, None))
                && {
                let v = next.registers[reg.spec_index()];
                &&& len == d.len
                &&& v < 0x1_0000_0000
                &&& spec_u32_to_le_bytes(v as u32) == code.subrange(o + 1, o + 5)
                &&& next.registers == st.registers.update(reg.spec_index(), v)
                &&& next.code == st.code.push(addi_word(reg.spec_riscv(), 0, (v as u32) as i32))
            }
        }),
{
    reveal(handler_step);
    lemma_auto_spec_u32_to_from_le_bytes();
    let reg = reg_from_number(code[o as int] - 0xB8);
    lemma_register_homes(reg, reg);
    assert(code.subrange(o + 1, o + 5).len() == 4);
}

/// `mov r64, imm64` (REX.W 0xB8 + r, REX.B adding 8 to r) loads the eight
/// bytes after the opcode, read little-endian: the step records in the
/// register's slot the value whose little-endian bytes are those eight,
/// emits `load_u64_words` of it into the register's home, and changes no
/// other slot.
pub proof fn lemma_mov_imm64_reads_immediate(
    code: Seq<u8>,
    entry: u64,
    segs: Seq<Elf64ProgramHeader>,
    file: Seq<u8>,
    o: usize,
    d: DecodedInstruction,
    st: TranslationState,
)
    requires
        o + 10 <= code.len(),
        code[o as int] == 0x48 || code[o as int] == 0x49,
        0xB8 <= code[o + 1] <= 0xBF,
        d.operation == X86operation::Mov,
        st.registers.len() == 16,
    ensures
        ({
            let reg = reg_from_number(
                code[o + 1] - 0xB8 + if code[o as int] == 0x49 {
                    8int
                } else {
                    0int
                },
            );
            handler_step(code, entry, segs, file, o, d, st) matches Ok((next, len, false, None))
                && {
                let v = next.registers[reg.spec_index()];
                &&& len == d.len
                &&& spec_u64_to_le_bytes(v) == code.subrange(o + 2, o + 10)
                &&& next.registers == st.registers.update(reg.spec_index(), v)
                &&& next.code == st.code + load_u64_words(reg.spec_riscv(), v)
            }
        }),
{
    reveal(handler_step);
    lemma_auto_spec_u64_to_from_le_bytes();
    let reg = reg_from_number(
        code[o + 1] - 0xB8 + if code[o as int] == 0x49 {
            8int
        } else {
            0int
        },
    );
    lemma_register_homes(reg, reg);
    assert(code.subrange(o + 2, o + 10).len() == 8);
}

/// `xor r/m, r` between registers: for `0x31 modrm` or a REX prefix then
/// `0x31 modrm` with `mod == 3`, the destination is register number
/// `modrm % 8` (plus 8 under REX.B) and the source `(modrm / 8) % 8` (plus
/// 8 under REX.R); the step emits `xor home(dst), home(dst), home(src)`
/// and records zero as the destination's value.
pub proof fn lemma_xor_records_zero(
    code: Seq<u8>,
    entry: u64,
    segs: Seq<Elf64ProgramHeader>,
    file: Seq<u8>,
    o: usize,
    d: DecodedInstruction,
    st: TranslationState,
)
    requires
        d.operation == X86operation::Xor,
        o < code.len(),
        ({
            let rex = 0x40 <= code[o as int] <= 0x4F;
            let m = if rex {
                o + 2
            } else {
                o + 1
            };
            m < code.len() && code[m] >= 0xC0
        }),
    ensures
        ({
            let rex: int = if 0x40 <= code[o as int] <= 0x4F {
                code[o as int] as int
            } else {
                0
            };
            let m = if rex != 0 {
                code[o + 2]
            } else {
                code[o + 1]
            };
            let dst = reg_from_number(m as int % 8 + 8 * (rex % 2));
            let src = reg_from_number((m as int / 8) % 8 + 8 * ((rex / 4) % 2));
            handler_step(code, entry, segs, file, o, d, st) == Ok::<
                (TranslationState, usize, bool, Option<(usize, Seq<u64>)>),
                TranslateError,
            >(
                (
                    TranslationState {
                        registers: st.registers.update(dst.spec_index(), 0),
                        code: st.code.push(
                            xor_word(dst.spec_riscv(), dst.spec_riscv(), src.spec_riscv()),
                        ),
                        ..st
                    },
                    d.len,
                    false,
                    None,
                ),
            )
        }),
{
    reveal(handler_step);
}

/// `syscall` translates the call whose number rax holds: with rax 1
/// (`write`) or 60 (`exit`) it emits the moves, a7 and `ecall` for the
/// RV64 call 64 or 93 and ends the run; any other number is
/// `Unsupported`.
pub proof fn lemma_syscall_by_rax(
    code: Seq<u8>,
    entry: u64,
    segs: Seq<Elf64ProgramHeader>,
    file: Seq<u8>,
    o: usize,
    d: DecodedInstruction,
    st: TranslationState,
)
    requires
        d.operation == X86operation::Syscall,
        st.registers.len() == 16,
    ensures
        st.registers[0] == 1 ==> (handler_step(code, entry, segs, file, o, d, st) matches Ok(
            (next, _, true, None),
        ) && next.code == st.code + syscall_words(SysCall::Write) && next.registers
            == st.registers && syscall_words(SysCall::Write)[5] == addi_word(17, 0, 64)),
        st.registers[0] == 60 ==> (handler_step(code, entry, segs, file, o, d, st) matches Ok(
            (next, _, true, None),
        ) && next.code == st.code + syscall_words(SysCall::Exit) && next.registers
            == st.registers && syscall_words(SysCall::Exit)[1] == addi_word(17, 0, 93)),
        st.registers[0] != 1 && st.registers[0] != 60 ==> handler_step(
            code,
            entry,
            segs,
            file,
            o,
            d,
            st,
        ) == Err::<(TranslationState, usize, bool, Option<(usize, Seq<u64>)>), TranslateError>(
            TranslateError::Unsupported,
        ),
{
    reveal(handler_step);
}

} // verus!

verus! {

/// A 32-bit value read as a signed displacement (two's complement).
pub open spec fn signed_word(w: u32) -> int {
    if w < 0x8000_0000 {
        w as int
    } else {
        w as int - 0x1_0000_0000
    }
}

/// Comparing registers (`0x39`, r/m with r) compares the `rm` register (left) with
/// the `reg` register (right): for `0x39 modrm` or a REX prefix then
/// `0x39 modrm` with `mod == 3`, the left operand is register number
/// `modrm % 8` (plus 8 under REX.B) and the right one `(modrm / 8) % 8`
/// (plus 8 under REX.R); the step emits `compare_words` for their homes,
/// 64-bit exactly under REX.W, advances past the ModRM byte, and records
/// no register.
pub proof fn lemma_compare_operands(
    code: Seq<u8>,
    entry: u64,
    segs: Seq<Elf64ProgramHeader>,
    file: Seq<u8>,
    o: usize,
    d: DecodedInstruction,
    st: TranslationState,
)
    requires
        d.operation == X86operation::Cmp,
        o < code.len(),
        ({
            let rex = 0x40 <= code[o as int] <= 0x4F;
            let m = if rex {
                o + 2
            } else {
                o + 1
            };
            m < code.len() && code[m] >= 0xC0
        }),
    ensures
        ({
            let rex: int = if 0x40 <= code[o as int] <= 0x4F {
                code[o as int] as int
            } else {
                0
            };
            let mpos: int = if rex != 0 {
                o + 2
            } else {
                o + 1
            };
            let m = code[mpos];
            let lhs = reg_from_number(m as int % 8 + 8 * (rex % 2));
            let rhs = reg_from_number((m as int / 8) % 8 + 8 * ((rex / 4) % 2));
            handler_step(code, entry, segs, file, o, d, st) == Ok::<
                (TranslationState, usize, bool, Option<(usize, Seq<u64>)>),
                TranslateError,
            >(
                (
                    TranslationState {
                        code: st.code + compare_words(
                            lhs.spec_riscv(),
                            rhs.spec_riscv(),
                            (rex / 8) % 2 == 1,
                        ),
                        ..st
                    },
                    (mpos - o + 1) as usize,
                    false,
                    None,
                ),
            )
        }),
{
    reveal(handler_step);
}

/// `call rel32` (0xE8) calls the displacement's target: with the four
/// bytes after the opcode the little-endian encoding of `w`, the target is
/// `offset + len + signed_word(w)`; the step emits the `jal x1`
/// placeholder, records a call fixup from it to the target, asks for the
/// target to be translated with the current register values, and goes on.
pub proof fn lemma_call_target(
    code: Seq<u8>,
    entry: u64,
    segs: Seq<Elf64ProgramHeader>,
    file: Seq<u8>,
    o: usize,
    d: DecodedInstruction,
    st: TranslationState,
    w: u32,
)
    requires
        o + 5 <= code.len(),
        o <= i64::MAX - 0x1_0000_0000,
        d.len <= 10,
        code[o as int] == 0xE8,
        spec_u32_to_le_bytes(w) == code.subrange(o + 1, o + 5),
        d.operation == X86operation::Call,
    ensures
        ({
            let t = (o + d.len + signed_word(w)) as i64;
            handler_step(code, entry, segs, file, o, d, st) == Ok::<
                (TranslationState, usize, bool, Option<(usize, Seq<u64>)>),
                TranslateError,
            >(
                (
                    TranslationState {
                        code: st.code.push(jal_word(1, 0)),
                        call_fixups: st.call_fixups.push((st.code.len() as usize, t as usize)),
                        ..st
                    },
                    d.len,
                    false,
                    Some((t as usize, st.registers)),
                ),
            )
        }),
{
    reveal(handler_step);
    lemma_auto_spec_u32_to_from_le_bytes();
    assert(spec_u32_to_le_bytes(w).len() == 4);
    assert(spec_u32_from_le_bytes(code.subrange(o + 1, o + 5)) == w);
    assert((w as i32) as int == signed_word(w)) by (bit_vector);
    assert((o as i64) as int == o as int);
    assert((d.len as i64) as int == d.len as int);
}

} // verus!

verus! {

/// `jmp rel32` (0xE9) jumps by the signed 32-bit displacement: with the
/// four bytes after the opcode the little-endian encoding of `w`, the
/// target is `offset + 5 + signed_word(w)`; the step emits the `jal x0`
/// placeholder, records a branch fixup to the target, ends the run, and
/// asks for the target to be translated with the current register values.
pub proof fn lemma_jmp_near_target(
    code: Seq<u8>,
    entry: u64,
    segs: Seq<Elf64ProgramHeader>,
    file: Seq<u8>,
    o: usize,
    d: DecodedInstruction,
    st: TranslationState,
    w: u32,
)
    requires
        o + 5 <= code.len(),
        o <= i64::MAX - 0x1_0000_0000,
        code[o as int] == 0xE9,
        spec_u32_to_le_bytes(w) == code.subrange(o + 1, o + 5),
        d.operation == X86operation::Jmp,
    ensures
        ({
            let t = (o + 5 + signed_word(w)) as i64;
            handler_step(code, entry, segs, file, o, d, st) == Ok::<
                (TranslationState, usize, bool, Option<(usize, Seq<u64>)>),
                TranslateError,
            >(
                (
                    TranslationState {
                        code: st.code.push(jal_word(0, 0)),
                        branch_fixups: st.branch_fixups.push((st.code.len() as usize, t as usize)),
                        ..st
                    },
                    5,
                    true,
                    Some((t as usize, st.registers)),
                ),
            )
        }),
{
    reveal(handler_step);
    lemma_auto_spec_u32_to_from_le_bytes();
    assert(spec_u32_to_le_bytes(w).len() == 4);
    assert(spec_u32_from_le_bytes(code.subrange(o + 1, o + 5)) == w);
    assert((w as i32) as int == signed_word(w)) by (bit_vector);
    assert((o as i64) as int == o as int);
}

/// The near conditional jumps (0x0F 0x80..=0x8F) branch by the signed
/// 32-bit displacement: with the four bytes after the two opcode bytes the
/// little-endian encoding of `w`, the target is
/// `offset + len + signed_word(w)`; the step emits `jcc_words` and, when
/// the target lies inside the code, records a branch fixup from the `bne`
/// to it and asks for it to be translated; the run goes on.
pub proof fn lemma_jcc_near_target(
    code: Seq<u8>,
    entry: u64,
    segs: Seq<Elf64ProgramHeader>,
    file: Seq<u8>,
    o: usize,
    d: DecodedInstruction,
    st: TranslationState,
    w: u32,
)
    requires
        o + 6 <= code.len(),
        o <= i64::MAX - 0x1_0000_0000,
        d.len <= 10,
        code[o as int] == 0x0F,
        0x80 <= code[o + 1] <= 0x8F,
        spec_u32_to_le_bytes(w) == code.subrange(o + 2, o + 6),
        d.operation == X86operation::ConditionalJump,
    ensures
        ({
            let t = (o + d.len + signed_word(w)) as i64;
            handler_step(code, entry, segs, file, o, d, st) == Ok::<
                (TranslationState, usize, bool, Option<(usize, Seq<u64>)>),
                TranslateError,
            >(
                if 0 <= t && (t as usize) < code.len() {
                    (
                        TranslationState {
                            code: st.code + jcc_words(),
                            branch_fixups: st.branch_fixups.push(
                                ((st.code.len() + 1) as usize, t as usize),
                            ),
                            ..st
                        },
                        d.len,
                        false,
                        Some((t as usize, st.registers)),
                    )
                } else {
                    (TranslationState { code: st.code + jcc_words(), ..st }, d.len, false, None)
                },
            )
        }),
{
    reveal(handler_step);
    lemma_auto_spec_u32_to_from_le_bytes();
    assert(spec_u32_to_le_bytes(w).len() == 4);
    assert(spec_u32_from_le_bytes(code.subrange(o + 2, o + 6)) == w);
    assert((w as i32) as int == signed_word(w)) by (bit_vector);
    assert((o as i64) as int == o as int);
    assert((d.len as i64) as int == d.len as int);
}

/// `pop r64` (0x58 + r) pops into register `r`: the step emits the load of
/// `r`'s home from the stack pointer's home (x2) and the move of x2 up by
/// eight, and records no register.
pub proof fn lemma_pop_register(
    code: Seq<u8>,
    entry: u64,
    segs: Seq<Elf64ProgramHeader>,
    file: Seq<u8>,
    o: usize,
    d: DecodedInstruction,
    st: TranslationState,
)
    requires
        o < code.len(),
        0x58 <= code[o as int] <= 0x5F,
        d.operation == X86operation::Pop,
    ensures
        ({
            let reg = reg_from_number(code[o as int] - 0x58);
            handler_step(code, entry, segs, file, o, d, st) == Ok::<
                (TranslationState, usize, bool, Option<(usize, Seq<u64>)>),
                TranslateError,
            >(
                (
                    TranslationState {
                        code: st.code + seq![
                            ld_word(reg.spec_riscv(), 2, 0),
                            addi_word(2, 2, 8),
                        ],
                        ..st
                    },
                    d.len,
                    false,
                    None,
                ),
            )
        }),
{
    reveal(handler_step);
    let reg = reg_from_number(code[o as int] - 0x58);
    assert(pop_words(reg.spec_riscv()) =~= seq![ld_word(reg.spec_riscv(), 2, 0), addi_word(2, 2, 8)]);
}

/// `test r/m, r` between registers tests the `rm` register against the
/// `reg` register: for `0x84 modrm` (8 bits), `0x85 modrm` (32 bits), or a
/// REX prefix then either (64 bits for 0x85 under REX.W), with
/// `mod == 3`, the left operand is register number `modrm % 8` (plus 8
/// under REX.B) and the right one `(modrm / 8) % 8` (plus 8 under REX.R);
/// the step emits `test_words` for their homes at that size.
pub proof fn lemma_test_operands(
    code: Seq<u8>,
    entry: u64,
    segs: Seq<Elf64ProgramHeader>,
    file: Seq<u8>,
    o: usize,
    d: DecodedInstruction,
    st: TranslationState,
)
    requires
        d.operation == X86operation::Test,
        o < code.len(),
        ({
            let rex = 0x40 <= code[o as int] <= 0x4F;
            let p = if rex {
                o + 1
            } else {
                o as int
            };
            p + 1 < code.len() && (code[p] == 0x84 || code[p] == 0x85) && code[p + 1] >= 0xC0
        }),
    ensures
        ({
            let rex: int = if 0x40 <= code[o as int] <= 0x4F {
                code[o as int] as int
            } else {
                0
            };
            let p: int = if rex != 0 {
                o + 1
            } else {
                o as int
            };
            let m = code[p + 1];
            let lhs = reg_from_number(m as int % 8 + 8 * (rex % 2));
            let rhs = reg_from_number((m as int / 8) % 8 + 8 * ((rex / 4) % 2));
            let size: u8 = if code[p] == 0x84 {
                8
            } else if (rex / 8) % 2 == 1 {
                64
            } else {
                32
            };
            handler_step(code, entry, segs, file, o, d, st) == Ok::<
                (TranslationState, usize, bool, Option<(usize, Seq<u64>)>),
                TranslateError,
            >(
                (
                    TranslationState {
                        code: st.code + test_words(lhs.spec_riscv(), rhs.spec_riscv(), size),
                        ..st
                    },
                    d.len,
                    false,
                    None,
                ),
            )
        }),
{
    reveal(handler_step);
}

} // verus!

verus! {

/// The file image of segment `s` holds the virtual address `a`.
pub open spec fn holds_address(s: Elf64ProgramHeader, a: int) -> bool {
    s.p_vaddr <= a < s.p_vaddr + s.p_filesz
}

/// The segment `segment_holding` finds is one of the segments, holds the
/// address, and no earlier segment does.
pub proof fn lemma_segment_holding_found(segs: Seq<Elf64ProgramHeader>, address: u64)
    ensures
        segment_holding(segs, address) matches Ok(Some(s)) ==> exists|k: int|
            0 <= k < segs.len() && #[trigger] segs[k] == s && holds_address(s, address as int)
                && forall|j: int| 0 <= j < k ==> !holds_address(#[trigger] segs[j], address as int),
    decreases segs.len(),
{
    if segs.len() > 0 {
        lemma_segment_holding_found(segs.drop_first(), address);
        if let Ok(Some(s)) = segment_holding(segs, address) {
            if segs[0] == s && holds_address(s, address as int) {
                assert(segs[0] == s);
            } else {
                let k = choose|k: int|
                    0 <= k < segs.drop_first().len() && #[trigger] segs.drop_first()[k] == s
                        && holds_address(s, address as int) && forall|j: int|
                        0 <= j < k ==> !holds_address(
                            #[trigger] segs.drop_first()[j],
                            address as int,
                        );
                assert(segs[k + 1] == s);
                assert forall|j: int| 0 <= j < k + 1 implies !holds_address(
                    #[trigger] segs[j],
                    address as int,
                ) by {
                    if j > 0 {
                        assert(segs[j] == segs.drop_first()[j - 1]);
                    }
                }
            }
        }
    }
}

/// `lea r64, [rip + disp32]` (`0x48 0x8D modrm disp32` with `mod == 0`,
/// `rm == 5`) computes the address after the instruction plus the signed
/// displacement: with the four displacement bytes the little-endian
/// encoding of `w`, and `entry + offset + len` and the sum in the `i64`
/// range, a successful step records a lea fixup at the current code end
/// for the home of register `(modrm / 8) % 8` with the address
/// `entry + offset + len + signed_word(w)`, emits two placeholder words,
/// and appends the file bytes from that address to the end of the file
/// image of the first segment that holds it.
pub proof fn lemma_lea_rip_relative(
    code: Seq<u8>,
    entry: u64,
    segs: Seq<Elf64ProgramHeader>,
    file: Seq<u8>,
    o: usize,
    d: DecodedInstruction,
    st: TranslationState,
    w: u32,
)
    requires
        o + 7 <= code.len(),
        code[o as int] == 0x48,
        code[o + 1] == 0x8D,
        code[o + 2] / 64 == 0,
        code[o + 2] % 8 == 5,
        spec_u32_to_le_bytes(w) == code.subrange(o + 3, o + 7),
        d.operation == X86operation::Lea,
        entry + o + d.len <= i64::MAX,
        0 <= entry + o + d.len + signed_word(w) <= i64::MAX,
    ensures
        ({
            let address = entry + o + d.len + signed_word(w);
            let reg = reg_from_number((code[o + 2] as int / 8) % 8);
            handler_step(code, entry, segs, file, o, d, st) matches Ok((next, len, false, None))
                ==> {
                &&& len == d.len
                &&& next.code == st.code + seq![0u32, 0u32]
                &&& next.lea_fixups == st.lea_fixups.push(
                    (st.code.len() as usize, reg.spec_riscv(), address as u64),
                )
                &&& exists|k: int|
                    0 <= k < segs.len() && holds_address(#[trigger] segs[k], address) && (forall|
                        j: int,
                    | 0 <= j < k ==> !holds_address(#[trigger] segs[j], address)) && next.data
                        == st.data + file.subrange(
                        segs[k].p_offset + (address - segs[k].p_vaddr),
                        segs[k].p_offset + segs[k].p_filesz,
                    )
            }
        }),
{
    reveal(handler_step);
    lemma_auto_spec_u32_to_from_le_bytes();
    assert(spec_u32_to_le_bytes(w).len() == 4);
    assert(spec_u32_from_le_bytes(code.subrange(o + 3, o + 7)) == w);
    assert((w as i32) as int == signed_word(w)) by (bit_vector);
    let address = entry + o + d.len + signed_word(w);
    let next_rip: u64 = (entry + o + d.len) as u64;
    assert((next_rip as i64) as int == next_rip as int);
    assert(((address as i64) as u64) as int == address);
    if let Ok(Some(s)) = segment_holding(segs, address as u64) {
        lemma_segment_holding_found(segs, address as u64);
    }
}

} // verus!
