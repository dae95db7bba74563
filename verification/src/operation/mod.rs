//! Decoding of the x86-64 instructions the translator handles: which
//! operation an instruction performs and how many bytes it spans.
use vstd::prelude::*;

pub mod handeler;

verus! {

/// An instruction found in the code: its operation and its length in bytes.
#[derive(Debug, Clone, Copy, PartialEq, Eq, Structural)]
pub struct DecodedInstruction {
    pub operation: X86operation,
    pub len: usize,
}

/// The x86 operations the translator tells apart.
#[derive(Debug, Clone, Copy, PartialEq, Eq, Structural)]
pub enum X86operation {
    Mov,
    Lea,
    Add,
    Sub,
    Xor,
    And,
    Or,
    Cmp,
    Test,
    Push,
    Pop,
    Call,
    Ret,
    Jmp,
    ConditionalJump,
    Syscall,
    Nop,
    Endbr64,
}

/// Length of a ModRM operand that starts with the ModRM byte at `offset`:
/// the ModRM byte, a SIB byte when `mod != 3` and `rm == 4` (plus a 32-bit
/// displacement when that SIB has base 5 under `mod == 0`), then the
/// displacement `mod` asks for (32 bits for `mod == 0, rm == 5`, 8 bits for
/// `mod == 1`, 32 bits for `mod == 2`). `None` when a byte that is read lies
/// beyond the code.
pub open spec fn modrm_length(code: Seq<u8>, offset: int) -> Option<int> {
    if offset < 0 || offset >= code.len() {
        None
    } else {
        let modrm = code[offset];
        let mode = modrm / 64;
        let rm = modrm % 8;
        let disp = if mode == 0 {
            if rm == 5 {
                4int
            } else {
                0int
            }
        } else if mode == 1 {
            1int
        } else if mode == 2 {
            4int
        } else {
            0int
        };
        if mode != 3 && rm == 4 {
            if offset + 1 >= code.len() {
                None
            } else {
                let base = code[offset + 1] % 8;
                let sib = if mode == 0 && base == 5 {
                    5int
                } else {
                    1int
                };
                Some(1 + sib + disp)
            }
        } else {
            Some(1 + disp)
        }
    }
}

/// The instruction whose operand is a ModRM operand at `pos + 1`, with `pre`
/// prefix bytes before the opcode and `extra` immediate bytes after it.
pub open spec fn with_modrm(op: X86operation, code: Seq<u8>, pos: int, pre: int, extra: int) -> Option<
    DecodedInstruction,
> {
    match modrm_length(code, pos + 1) {
        Some(m) => Some(DecodedInstruction { operation: op, len: (pre + 1 + m + extra) as usize }),
        None => None,
    }
}

/// An instruction of `len` bytes.
pub open spec fn fixed(op: X86operation, len: int) -> Option<DecodedInstruction> {
    Some(DecodedInstruction { operation: op, len: len as usize })
}

/// The instruction at `offset`, after an optional REX prefix (0x40..=0x4F):
/// its operation and length, by opcode. `None` where the decoder has no
/// rule for the opcode (or no length for it: 0xC6/0xC7 and 0x84/0x85), or
/// where a byte it reads lies beyond the code.
pub open spec fn decoded_at(code: Seq<u8>, offset: int) -> Option<DecodedInstruction> {
    if offset < 0 || offset >= code.len() {
        None
    } else {
        let rex = code[offset] / 16 == 4;
        let pos = if rex {
            offset + 1
        } else {
            offset
        };
        let pre = pos - offset;
        if pos >= code.len() {
            None
        } else {
            let op = code[pos];
            if op == 0x0F {
                if code.len() - pos > 1 && code[pos + 1] == 0x05 {
                    fixed(X86operation::Syscall, pre + 2)
                } else {
                    None
                }
            } else if op == 0xF3 {
                if code.len() - pos > 3 && code[pos + 1] == 0x0F && code[pos + 2] == 0x1E && code[pos
                    + 3] == 0xFA {
                    fixed(X86operation::Endbr64, pre + 4)
                } else {
                    None
                }
            } else if 0x88 <= op <= 0x8B {
                with_modrm(X86operation::Mov, code, pos, pre, 0)
            } else if 0xC6 <= op <= 0xC7 {
                None
            } else if 0xB8 <= op <= 0xBF {
                fixed(
                    X86operation::Mov,
                    if rex {
                        10
                    } else {
                        5
                    },
                )
            } else if op == 0x8D {
                with_modrm(X86operation::Lea, code, pos, pre, 0)
            } else if op <= 0x03 {
                with_modrm(X86operation::Add, code, pos, pre, 0)
            } else if op == 0x04 {
                fixed(X86operation::Add, pre + 2)
            } else if op == 0x05 {
                fixed(X86operation::Add, pre + 5)
            } else if 0x28 <= op <= 0x2B {
                with_modrm(X86operation::Sub, code, pos, pre, 0)
            } else if op == 0x2C {
                fixed(X86operation::Sub, pre + 2)
            } else if op == 0x2D {
                fixed(X86operation::Sub, pre + 5)
            } else if 0x30 <= op <= 0x33 {
                with_modrm(X86operation::Xor, code, pos, pre, 0)
            } else if op == 0x34 {
                fixed(X86operation::Xor, pre + 2)
            } else if op == 0x35 {
                fixed(X86operation::Xor, pre + 5)
            } else if 0x20 <= op <= 0x23 {
                with_modrm(X86operation::And, code, pos, pre, 0)
            } else if op == 0x24 {
                fixed(X86operation::And, pre + 2)
            } else if op == 0x25 {
                fixed(X86operation::And, pre + 5)
            } else if 0x08 <= op <= 0x0B {
                with_modrm(X86operation::Or, code, pos, pre, 0)
            } else if op == 0x0C {
                fixed(X86operation::Or, pre + 2)
            } else if op == 0x0D {
                fixed(X86operation::Or, pre + 5)
            } else if 0x38 <= op <= 0x3B {
                with_modrm(X86operation::Cmp, code, pos, pre, 0)
            } else if op == 0x3C {
                fixed(X86operation::Cmp, pre + 2)
            } else if op == 0x3D {
                fixed(X86operation::Cmp, pre + 5)
            } else if op == 0x83 {
                with_modrm(X86operation::And, code, pos, pre, 1)
            } else if 0x84 <= op <= 0x85 {
                None
            } else if 0x50 <= op <= 0x57 {
                fixed(X86operation::Push, pre + 1)
            } else if 0x58 <= op <= 0x5F {
                fixed(X86operation::Pop, pre + 1)
            } else if op == 0xE8 {
                fixed(X86operation::Call, pre + 5)
            } else if op == 0xC3 {
                fixed(X86operation::Ret, pre + 1)
            } else if op == 0xC2 {
                fixed(X86operation::Ret, pre + 3)
            } else if op == 0xE9 {
                fixed(X86operation::Jmp, pre + 5)
            } else if op == 0xEB {
                fixed(X86operation::Jmp, pre + 2)
            } else if 0x70 <= op <= 0x7F {
                fixed(X86operation::ConditionalJump, pre + 2)
            } else if op == 0x90 {
                fixed(X86operation::Nop, pre + 1)
            } else {
                None
            }
        }
    }
}

impl X86operation {
    fn modrm_len(code: &[u8], offset: usize) -> (len: usize)
        requires
            modrm_length(code@, offset as int) is Some,
        ensures
            modrm_length(code@, offset as int) == Some(len as int),
            1 <= len <= 6,
    {
        let modrm = code[offset];
        let mode = modrm / 64;
        let rm = modrm % 8;

        let mut len: usize = 1;

        if mode != 3 && rm == 4 {
            len += 1;

            let sib = code[offset + 1];
            let base = sib % 8;

            if mode == 0 && base == 5 {
                len += 4;
            }
        }

        match mode {
            0 => {
                if rm == 5 {
                    len += 4;
                }
            },
            1 => len += 1,
            2 => len += 4,
            _ => {},
        }

        len
    }

    fn modrm_instruction(
        operation: X86operation,
        code: &[u8],
        pos: usize,
        pre: usize,
        extra: usize,
    ) -> (res: Option<DecodedInstruction>)
        requires
            pos < code@.len(),
            pre <= 1,
            extra <= 1,
        ensures
            res == with_modrm(operation, code@, pos as int, pre as int, extra as int),
    {
        if code.len() - pos <= 1 {
            return None;
        }
        let modrm = code[pos + 1];
        if modrm / 64 != 3 && modrm % 8 == 4 && code.len() - pos <= 2 {
            return None;
        }
        let len = Self::modrm_len(code, pos + 1);
        Some(DecodedInstruction { operation, len: pre + 1 + len + extra })
    }

    /// Decodes the instruction at `offset`, or `None` where `decode` has no
    /// rule for it or would read beyond the code.
    pub fn try_decode(code: &[u8], offset: usize) -> (res: Option<DecodedInstruction>)
        ensures
            res == decoded_at(code@, offset as int),
            res matches Some(d) ==> 1 <= d.len <= 10,
    {
        if offset >= code.len() {
            return None;
        }
        let mut pos = offset;
        let mut rex = false;

        if code[pos] / 16 == 4 {
            rex = true;
            pos += 1;
        }
        if pos >= code.len() {
            return None;
        }
        let pre = pos - offset;

        match code[pos] {
            0x0F => {
                if code.len() - pos > 1 && code[pos + 1] == 0x05 {
                    Some(DecodedInstruction { operation: Self::Syscall, len: pre + 2 })
                } else {
                    None
                }
            },
            0xF3 => {
                if code.len() - pos > 3 && code[pos + 1] == 0x0F && code[pos + 2] == 0x1E && code[pos
                    + 3] == 0xFA {
                    Some(DecodedInstruction { operation: Self::Endbr64, len: pre + 4 })
                } else {
                    None
                }
            },
            0x88..=0x8B => Self::modrm_instruction(Self::Mov, code, pos, pre, 0),
            0xC6..=0xC7 => None,
            0xB8..=0xBF => Some(
                DecodedInstruction {
                    operation: Self::Mov,
                    len: if rex {
                        10
                    } else {
                        5
                    },
                },
            ),
            0x8D => Self::modrm_instruction(Self::Lea, code, pos, pre, 0),
            0x00..=0x03 => Self::modrm_instruction(Self::Add, code, pos, pre, 0),
            0x04 => Some(DecodedInstruction { operation: Self::Add, len: pre + 2 }),
            0x05 => Some(DecodedInstruction { operation: Self::Add, len: pre + 5 }),
            0x28..=0x2B => Self::modrm_instruction(Self::Sub, code, pos, pre, 0),
            0x2C => Some(DecodedInstruction { operation: Self::Sub, len: pre + 2 }),
            0x2D => Some(DecodedInstruction { operation: Self::Sub, len: pre + 5 }),
            0x30..=0x33 => Self::modrm_instruction(Self::Xor, code, pos, pre, 0),
            0x34 => Some(DecodedInstruction { operation: Self::Xor, len: pre + 2 }),
            0x35 => Some(DecodedInstruction { operation: Self::Xor, len: pre + 5 }),
            0x20..=0x23 => Self::modrm_instruction(Self::And, code, pos, pre, 0),
            0x24 => Some(DecodedInstruction { operation: Self::And, len: pre + 2 }),
            0x25 => Some(DecodedInstruction { operation: Self::And, len: pre + 5 }),
            0x08..=0x0B => Self::modrm_instruction(Self::Or, code, pos, pre, 0),
            0x0C => Some(DecodedInstruction { operation: Self::Or, len: pre + 2 }),
            0x0D => Some(DecodedInstruction { operation: Self::Or, len: pre + 5 }),
            0x38..=0x3B => Self::modrm_instruction(Self::Cmp, code, pos, pre, 0),
            0x3C => Some(DecodedInstruction { operation: Self::Cmp, len: pre + 2 }),
            0x3D => Some(DecodedInstruction { operation: Self::Cmp, len: pre + 5 }),
            0x83 => Self::modrm_instruction(Self::And, code, pos, pre, 1),
            0x84..=0x85 => None,
            0x50..=0x57 => Some(DecodedInstruction { operation: Self::Push, len: pre + 1 }),
            0x58..=0x5F => Some(DecodedInstruction { operation: Self::Pop, len: pre + 1 }),
            0xE8 => Some(DecodedInstruction { operation: Self::Call, len: pre + 5 }),
            0xC3 => Some(DecodedInstruction { operation: Self::Ret, len: pre + 1 }),
            0xC2 => Some(DecodedInstruction { operation: Self::Ret, len: pre + 3 }),
            0xE9 => Some(DecodedInstruction { operation: Self::Jmp, len: pre + 5 }),
            0xEB => Some(DecodedInstruction { operation: Self::Jmp, len: pre + 2 }),
            0x70..=0x7F => Some(DecodedInstruction { operation: Self::ConditionalJump, len: pre + 2 }),
            0x90 => Some(DecodedInstruction { operation: Self::Nop, len: pre + 1 }),
            _ => None,
        }
    }

    /// Decodes the instruction at `offset`: an optional REX prefix, then the
    /// opcode, which determines the operation and the length (see
    /// `decoded_at`).
    pub fn decode(code: &[u8], offset: usize) -> (instruction: DecodedInstruction)
        requires
            decoded_at(code@, offset as int) is Some,
        ensures
            decoded_at(code@, offset as int) == Some(instruction),
            1 <= instruction.len <= 10,
    {
        match Self::try_decode(code, offset) {
            Some(instruction) => instruction,
            None => {
                proof {
                    assert(false);
                }
                DecodedInstruction { operation: Self::Nop, len: 1 }
            },
        }
    }
}

} // verus!

verus! {

/// An operation with an immediate operand in the accumulator forms
/// `op eAX, imm32` (0x05, 0x0D, 0x25, 0x2D, 0x35, 0x3D) or `op AL, imm8`
/// (0x04, 0x0C, 0x24, 0x2C, 0x34, 0x3C): add, or, and, sub, xor, cmp by
/// the opcode's upper bits.
pub open spec fn accumulator_operation(op: u8) -> X86operation {
    if op / 8 == 0 {
        X86operation::Add
    } else if op / 8 == 1 {
        X86operation::Or
    } else if op / 8 == 4 {
        X86operation::And
    } else if op / 8 == 5 {
        X86operation::Sub
    } else if op / 8 == 6 {
        X86operation::Xor
    } else {
        X86operation::Cmp
    }
}

/// The accumulator-immediate forms span the opcode and the whole
/// immediate: after an optional REX prefix (0x40..=0x4F), an opcode
/// 0x05, 0x0D, 0x25, 0x2D, 0x35 or 0x3D is followed by a 32-bit immediate,
/// so the instruction is the prefix plus 5 bytes; 0x04, 0x0C, 0x24, 0x2C,
/// 0x34 or 0x3C by an 8-bit one, so the prefix plus 2 bytes.
pub proof fn lemma_accumulator_immediate_lengths(code: Seq<u8>, offset: int)
    requires
        0 <= offset < code.len(),
        ({
            let pos = if 0x40 <= code[offset] <= 0x4F {
                offset + 1
            } else {
                offset
            };
            pos < code.len()
        }),
    ensures
        ({
            let pos = if 0x40 <= code[offset] <= 0x4F {
                offset + 1
            } else {
                offset
            };
            let op = code[pos];
            &&& (op == 0x05 || op == 0x0D || op == 0x25 || op == 0x2D || op == 0x35 || op == 0x3D)
                ==> decoded_at(code, offset) == Some(
                DecodedInstruction {
                    operation: accumulator_operation(op),
                    len: (pos - offset + 5) as usize,
                },
            )
            &&& (op == 0x04 || op == 0x0C || op == 0x24 || op == 0x2C || op == 0x34 || op == 0x3C)
                ==> decoded_at(code, offset) == Some(
                DecodedInstruction {
                    operation: accumulator_operation(op),
                    len: (pos - offset + 2) as usize,
                },
            )
        }),
{
}

/// The relative jumps and the call span the opcode and the whole
/// displacement: after an optional REX prefix, `call rel32` (0xE8) and
/// `jmp rel32` (0xE9) are the prefix plus 5 bytes, `jmp rel8` (0xEB) and
/// the short conditional jumps (0x70..=0x7F) the prefix plus 2 bytes.
pub proof fn lemma_relative_branch_lengths(code: Seq<u8>, offset: int)
    requires
        0 <= offset < code.len(),
        ({
            let pos = if 0x40 <= code[offset] <= 0x4F {
                offset + 1
            } else {
                offset
            };
            pos < code.len()
        }),
    ensures
        ({
            let pos = if 0x40 <= code[offset] <= 0x4F {
                offset + 1
            } else {
                offset
            };
            let op = code[pos];
            &&& op == 0xE8 ==> decoded_at(code, offset) == Some(
                DecodedInstruction { operation: X86operation::Call, len: (pos - offset + 5) as usize },
            )
            &&& op == 0xE9 ==> decoded_at(code, offset) == Some(
                DecodedInstruction { operation: X86operation::Jmp, len: (pos - offset + 5) as usize },
            )
            &&& op == 0xEB ==> decoded_at(code, offset) == Some(
                DecodedInstruction { operation: X86operation::Jmp, len: (pos - offset + 2) as usize },
            )
            &&& 0x70 <= op <= 0x7F ==> decoded_at(code, offset) == Some(
                DecodedInstruction {
                    operation: X86operation::ConditionalJump,
                    len: (pos - offset + 2) as usize,
                },
            )
        }),
{
}

} // verus!

verus! {

/// The bytes a ModRM operand spans, by the x86 encoding rules: the ModRM
/// byte `m`; a SIB byte when `mod != 3` and `rm == 4`; a 32-bit
/// displacement for `mod == 2`, for `mod == 0` with `rm == 5`, and for
/// `mod == 0` with a SIB whose base is 5; an 8-bit one for `mod == 1`.
pub open spec fn modrm_operand_bytes(m: u8, sib: u8) -> int {
    let mode = m / 64;
    let rm = m % 8;
    let sib_bytes: int = if mode != 3 && rm == 4 {
        1
    } else {
        0
    };
    let disp_bytes: int = if mode == 1 {
        1
    } else if mode == 2 {
        4
    } else if mode == 0 && (rm == 5 || (rm == 4 && sib % 8 == 5)) {
        4
    } else {
        0
    };
    1 + sib_bytes + disp_bytes
}

/// The ModRM forms span the prefix, the opcode and the whole operand:
/// after an optional REX prefix, the register/memory forms of mov
/// (0x88..=0x8B), lea (0x8D), add (0x00..=0x03), or (0x08..=0x0B), and
/// (0x20..=0x23), sub (0x28..=0x2B), xor (0x30..=0x33) and cmp
/// (0x38..=0x3B) are the prefix, one opcode byte and `modrm_operand_bytes`;
/// 0x83 adds an 8-bit immediate.
pub proof fn lemma_modrm_form_lengths(code: Seq<u8>, offset: int)
    requires
        0 <= offset < code.len(),
        ({
            let pos = if 0x40 <= code[offset] <= 0x4F {
                offset + 1
            } else {
                offset
            };
            pos + 2 < code.len()
        }),
    ensures
        ({
            let pos = if 0x40 <= code[offset] <= 0x4F {
                offset + 1
            } else {
                offset
            };
            let op = code[pos];
            let operand = modrm_operand_bytes(code[pos + 1], code[pos + 2]);
            &&& (0x88 <= op <= 0x8B || op == 0x8D || op <= 0x03 || 0x08 <= op <= 0x0B || 0x20 <= op
                <= 0x23 || 0x28 <= op <= 0x2B || 0x30 <= op <= 0x33 || 0x38 <= op <= 0x3B)
                ==> (decoded_at(code, offset) matches Some(d) && d.len == pos - offset + 1 + operand)
            &&& op == 0x83 ==> (decoded_at(code, offset) matches Some(d) && d.len == pos - offset + 2
                + operand)
        }),
{
}

} // verus!
